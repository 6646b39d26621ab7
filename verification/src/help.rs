//! The help screen: the key bindings of every bound action, in the order of
//! the action names, and where the settings and key bindings are stored.
use crate::completion::{lemma_str_le_total, sort_strings, sorted, str_le, views};
use crate::config::{Action, KeyBindings, action_name, lemma_action_names_distinct, lemma_parse_name, parse_action};
use crate::prompt::fit;
use crate::screen::{blanks, centred, center_str, min_nat, pad_to, push_blanks};
use crate::text::{chars_of, push_all, push_char};
use vstd::prelude::*;

verus! {

/// `keys` joined with `sep` between them.
pub open spec fn joined(keys: Seq<Seq<char>>, sep: Seq<char>) -> Seq<char>
    decreases keys.len(),
{
    if keys.len() == 0 {
        Seq::empty()
    } else if keys.len() == 1 {
        keys[0]
    } else {
        joined(keys.drop_last(), sep) + sep + keys.last()
    }
}

/// An action name as a label: underscores become spaces.
pub open spec fn name_label(n: Seq<char>) -> Seq<char> {
    n.map_values(|c: char| if c == '_' {
        ' '
    } else {
        c
    })
}

/// The help line of action `a`: its keys joined with " / " and padded to 22
/// columns, then its label.
pub open spec fn binding_line(kb: Map<Action, Seq<Seq<char>>>, a: Action) -> Seq<char> {
    "  "@ + pad_to(joined(kb[a], " / "@), 22) + " "@ + name_label(action_name(a))
}

/// `names` are the names of the bound actions, each once, in order.
pub open spec fn help_order(kb: Map<Action, Seq<Seq<char>>>, names: Seq<Seq<char>>) -> bool {
    &&& sorted(names)
    &&& names.no_duplicates()
    &&& forall|n: Seq<char>|
        names.contains(n) <==> exists|a: Action| kb.contains_key(a) && #[trigger] action_name(a) == n
}

/// All lines of the help screen, with the bound actions in the order `names`.
pub open spec fn help_lines(
    kb: Map<Action, Seq<Seq<char>>>,
    names: Seq<Seq<char>>,
    w: nat,
    config_path: Seq<char>,
    keys_path: Seq<char>,
) -> Seq<Seq<char>> {
    seq![
        Seq::<char>::empty(),
        "Keyboard Shortcuts:"@,
        Seq::new(min_nat(w, 50), |i: int| '\u{2500}'),
        Seq::<char>::empty(),
    ] + names.map_values(|n: Seq<char>| binding_line(kb, parse_action(n).unwrap())) + seq![
        Seq::<char>::empty(),
        "Config:      "@ + config_path,
        "Keybindings: "@ + keys_path,
        Seq::<char>::empty(),
    ]
}

/// What the help screen shows: the title line, the lines below it, and the
/// line at the bottom.
pub struct HelpScreen {
    pub title: String,
    pub lines: Vec<String>,
    pub footer: String,
}

/// `keys` joined with `sep`.
fn join_keys(keys: &Vec<String>, sep: &str) -> (r: String)
    ensures
        r@ == joined(views(keys@), sep@),
{
    let mut r = String::new();
    let mut i: usize = 0;
    while i < keys.len()
        invariant
            i <= keys@.len(),
            r@ == joined(views(keys@).take(i as int), sep@),
        decreases keys@.len() - i,
    {
        if i > 0 {
            push_all(&mut r, sep);
        }
        push_all(&mut r, keys[i].as_str());
        proof {
            let t = views(keys@).take(i + 1);
            assert(t.drop_last() =~= views(keys@).take(i as int));
            if i == 0 {
                assert(r@ =~= t[0]);
            }
        }
        i = i + 1;
    }
    assert(views(keys@).take(keys@.len() as int) =~= views(keys@));
    r
}

/// `n` with underscores turned into spaces.
fn label_of(n: &str) -> (r: String)
    ensures
        r@ == name_label(n@),
{
    let v = chars_of(n);
    let mut r = String::new();
    let mut i: usize = 0;
    while i < v.len()
        invariant
            i <= v@.len(),
            v@ == n@,
            r@ == name_label(v@.take(i as int)),
        decreases v@.len() - i,
    {
        push_char(&mut r, if v[i] == '_' {
            ' '
        } else {
            v[i]
        });
        i = i + 1;
        assert(r@ =~= name_label(v@.take(i as int)));
    }
    assert(v@.take(v@.len() as int) =~= v@);
    r
}

/// The help screen for the key bindings `kb` on a screen `w` wide and `h`
/// high, with the settings stored at `config_path` and the key bindings at
/// `keys_path`: the centred title, the first `h - 3` help lines each fitted to
/// `w` columns, and the closing hint padded to `w` columns.
pub fn show_help(kb: &KeyBindings, w: usize, h: usize, config_path: &str, keys_path: &str) -> (s: HelpScreen)
    ensures
        s.title@ == centred(" NanoLike Help "@, w as nat),
        s.footer@ == pad_to(" Press any key to close "@, w as nat),
        exists|names: Seq<Seq<char>>|
            #![trigger help_order(kb@, names)]
            {
                let all = help_lines(kb@, names, w as nat, config_path@, keys_path@);
                let m = if h >= 3 {
                    min_nat(all.len(), (h - 3) as nat)
                } else {
                    0
                };
                &&& help_order(kb@, names)
                &&& views(s.lines@) == all.take(m as int).map_values(|l: Seq<char>| fit(l, w as nat))
            },
{
    let title = center_str(" NanoLike Help ", w);
    let mut footer = String::from_str(" Press any key to close ");
    let flen = chars_of(footer.as_str()).len();
    if flen < w {
        push_blanks(&mut footer, w - flen);
    }
    assert(footer@ =~= pad_to(" Press any key to close "@, w as nat));
    // The names of the bound actions, in order.
    let es = kb.bindings.entries();
    let mut names: Vec<String> = Vec::new();
    let mut i: usize = 0;
    proof {
        crate::config::lemma_entries_map(es@);
    }
    while i < es.len()
        invariant
            i <= es@.len(),
            crate::config::entries_map(es@) == kb@,
            crate::config::unique_actions(es@),
            views(names@) == Seq::new(i as nat, |k: int| action_name(es@[k].0)),
        decreases es@.len() - i,
    {
        let ghost before = views(names@);
        let nm = es[i].0.to_string();
        names.push(nm);
        assert(views(names@) =~= before.push(nm@));
        i = i + 1;
        assert(views(names@) =~= Seq::new(i as nat, |k: int| action_name(es@[k].0)));
    }
    let ghost unsorted = views(names@);
    let sorted_names = sort_strings(names);
    let ghost ns = views(sorted_names@);
    proof {
        crate::config::lemma_entries_map(es@);
        // Names of distinct actions differ.
        assert(unsorted.no_duplicates()) by {
            assert forall|a: int, b: int| 0 <= a < b < unsorted.len() implies unsorted[a] != unsorted[b] by {
                lemma_action_names_distinct(es@[a].0, es@[b].0);
            }
        }
        unsorted.lemma_multiset_has_no_duplicates();
        assert forall|x: Seq<char>| ns.to_multiset().count(x) <= 1 by {
            assert(ns.to_multiset().count(x) == unsorted.to_multiset().count(x));
        }
        ns.lemma_multiset_has_no_duplicates_conv();
        assert forall|n: Seq<char>| ns.contains(n) <==> exists|a: Action| kb@.contains_key(a) && #[trigger] action_name(a) == n by {
            broadcast use vstd::seq_lib::group_to_multiset_ensures;
            if ns.contains(n) {
                assert(ns.to_multiset().count(n) > 0);
                assert(unsorted.to_multiset().count(n) > 0);
                assert(unsorted.contains(n));
                let k = choose|k: int| 0 <= k < unsorted.len() && unsorted[k] == n;
                assert(kb@.contains_key(es@[k].0));
            }
            if exists|a: Action| kb@.contains_key(a) && #[trigger] action_name(a) == n {
                let a = choose|a: Action| kb@.contains_key(a) && #[trigger] action_name(a) == n;
                let k = choose|k: int| 0 <= k < es@.len() && es@[k].0 == a;
                assert(unsorted[k] == n);
                assert(unsorted.to_multiset().count(n) > 0);
                assert(ns.to_multiset().count(n) > 0);
            }
        }
        assert(help_order(kb@, ns));
    }
    // The lines.
    let mut all: Vec<String> = Vec::new();
    all.push(String::new());
    all.push(String::from_str("Keyboard Shortcuts:"));
    let mut rule = String::new();
    let rw = if w < 50 {
        w
    } else {
        50
    };
    let mut k: usize = 0;
    while k < rw
        invariant
            k <= rw,
            rule@ == Seq::new(k as nat, |j: int| '\u{2500}'),
        decreases rw - k,
    {
        push_char(&mut rule, '\u{2500}');
        k = k + 1;
        assert(rule@ =~= Seq::new(k as nat, |j: int| '\u{2500}'));
    }
    let ghost rule_v = rule@;
    all.push(rule);
    all.push(String::new());
    let ghost head = views(all@);
    assert(head =~= seq![
        Seq::<char>::empty(),
        "Keyboard Shortcuts:"@,
        Seq::new(min_nat(w as nat, 50), |i: int| '\u{2500}'),
        Seq::<char>::empty(),
    ]);
    let mut j: usize = 0;
    while j < sorted_names.len()
        invariant
            j <= sorted_names@.len(),
            ns == views(sorted_names@),
            help_order(kb@, ns),
            crate::config::entries_map(es@) == kb@,
            views(all@) == head + ns.take(j as int).map_values(
                |n: Seq<char>| binding_line(kb@, parse_action(n).unwrap()),
            ),
        decreases sorted_names@.len() - j,
    {
        let name = &sorted_names[j];
        assert(ns.contains(ns[j as int]));
        let ghost a0 = choose|a: Action| kb@.contains_key(a) && #[trigger] action_name(a) == ns[j as int];
        proof {
            lemma_parse_name(a0);
        }
        let action = match Action::from_name(name.as_str()) {
            Ok(a) => a,
            Err(()) => Action::Quit,
        };
        assert(action == a0);
        let keys = match kb.bindings.get(action) {
            Some(ks) => {
                let r = join_keys(ks, " / ");
                assert(views(ks@) =~= crate::config::keys_view(ks@));
                r
            },
            None => String::new(),
        };
        let mut line = String::from_str("  ");
        push_all(&mut line, keys.as_str());
        let klen = chars_of(keys.as_str()).len();
        if klen < 22 {
            push_blanks(&mut line, 22 - klen);
        }
        push_char(&mut line, ' ');
        let label = label_of(name.as_str());
        push_all(&mut line, label.as_str());
        proof {
            reveal_strlit(" ");
            assert(keys@ == joined(kb@[action], " / "@));
            assert(line@ =~= binding_line(kb@, action));
        }
        let ghost before = views(all@);
        let ghost line_v = line@;
        all.push(line);
        proof {
            let f = |n: Seq<char>| binding_line(kb@, parse_action(n).unwrap());
            assert(views(all@) =~= before.push(line_v));
            assert(parse_action(ns[j as int]).unwrap() == action);
            assert(ns.take(j + 1) =~= ns.take(j as int).push(ns[j as int]));
            assert(ns.take(j + 1).map_values(f) =~= ns.take(j as int).map_values(f).push(f(ns[j as int])));
            assert(views(all@) =~= head + ns.take(j + 1).map_values(
                |n: Seq<char>| binding_line(kb@, parse_action(n).unwrap()),
            ));
        }
        j = j + 1;
    }
    assert(ns.take(ns.len() as int) =~= ns);
    let ghost body = views(all@);
    all.push(String::new());
    let mut c = String::from_str("Config:      ");
    push_all(&mut c, config_path);
    let ghost c_v = c@;
    all.push(c);
    let mut kp = String::from_str("Keybindings: ");
    push_all(&mut kp, keys_path);
    let ghost kp_v = kp@;
    all.push(kp);
    all.push(String::new());
    assert(views(all@) =~= body + seq![Seq::<char>::empty(), c_v, kp_v, Seq::<char>::empty()]);
    let ghost full = help_lines(kb@, ns, w as nat, config_path@, keys_path@);
    assert(views(all@) =~= full);
    // The lines that fit, each fitted to the width.
    let m = if h >= 3 {
        if all.len() < h - 3 {
            all.len()
        } else {
            h - 3
        }
    } else {
        0
    };
    let mut lines: Vec<String> = Vec::new();
    let mut q: usize = 0;
    while q < m
        invariant
            q <= m,
            m <= all@.len(),
            views(all@) == full,
            views(lines@) == full.take(q as int).map_values(|l: Seq<char>| fit(l, w as nat)),
        decreases m - q,
    {
        let ghost before = views(lines@);
        let fl = crate::prompt::fit_to(all[q].as_str(), w);
        assert(all@[q as int]@ == full[q as int]);
        lines.push(fl);
        assert(views(lines@) =~= before.push(fit(full[q as int], w as nat)));
        q = q + 1;
        assert(views(lines@) =~= full.take(q as int).map_values(|l: Seq<char>| fit(l, w as nat)));
    }
    assert(help_order(kb@, ns));
    HelpScreen { title, lines, footer }
}

} // verus!

//! The key-binding file: a JSON object from action names to lists of key
//! names.  Reading it gives the bindings in use; writing it records them.
use crate::config::{
    Action, KeyBindings, action_name, clone_keys, default_keybindings, default_keys, default_map,
    keys_view, lemma_action_names_distinct, lemma_entries_map, lemma_parse_name,
    merge_user, parse_action, user_view,
};
use vstd::prelude::*;

verus! {

/// The name-to-keys map that `serde_json` reads from `text` as a JSON object of
/// string lists, or `None` when the text is not such an object.
pub uninterp spec fn parsed_bindings_file(text: Seq<char>) -> Option<Map<Seq<char>, Seq<Seq<char>>>>;

/// The entries `u` list the map `m`: no name comes twice, each entry is one of
/// `m`'s, and each name of `m` has an entry.
pub open spec fn lists_map(u: Seq<(Seq<char>, Seq<Seq<char>>)>, m: Map<Seq<char>, Seq<Seq<char>>>) -> bool {
    &&& forall|i: int, j: int| 0 <= i < j < u.len() ==> u[i].0 != u[j].0
    &&& forall|i: int| 0 <= i < u.len() ==> m.contains_key(#[trigger] u[i].0) && m[u[i].0] == u[i].1
    &&& forall|n: Seq<char>| #[trigger] m.contains_key(n) ==> exists|i: int| 0 <= i < u.len() && u[i].0 == n
}

/// The bindings `m` as the file holds them: each bound action's name with its keys.
pub open spec fn names_map(m: Map<Action, Seq<Seq<char>>>) -> Map<Seq<char>, Seq<Seq<char>>> {
    Map::new(
        |n: Seq<char>| parse_action(n) is Some && m.contains_key(parse_action(n).unwrap()),
        |n: Seq<char>| m[parse_action(n).unwrap()],
    )
}

/// The default bindings with those of a key-binding file applied: an action
/// named in the file takes the file's keys, every other action keeps its
/// defaults; names that are no action's are ignored.
pub open spec fn with_file(file: Map<Seq<char>, Seq<Seq<char>>>) -> Map<Action, Seq<Seq<char>>> {
    Map::new(
        |a: Action| true,
        |a: Action|
            if file.contains_key(action_name(a)) {
                file[action_name(a)]
            } else {
                default_keys(a)
            },
    )
}

/// The bindings that the text of a key-binding file gives: the defaults when
/// there is no file or its text does not parse, else the defaults with the
/// file's entries applied.
pub open spec fn bindings_from_text(text: Option<Seq<char>>) -> Map<Action, Seq<Seq<char>>> {
    match text {
        None => default_map(),
        Some(t) => match parsed_bindings_file(t) {
            None => default_map(),
            Some(file) => with_file(file),
        },
    }
}

/// `serde_json::from_str` into a `HashMap<String, Vec<String>>`, handed out as
/// its entries.  The contract names the map read and says that the entries list
/// it; the keys of a `HashMap` are distinct.  In which order the entries come is
/// not stated: it is the map's iteration order.
#[verifier::external_body]
fn parse_bindings_file(text: &str) -> (r: Option<Vec<(String, Vec<String>)>>)
    ensures
        r is None <==> parsed_bindings_file(text@) is None,
        r matches Some(v) ==> lists_map(user_view(v@), parsed_bindings_file(text@).unwrap()),
{
    serde_json::from_str::<std::collections::HashMap<String, Vec<String>>>(text).ok().map(
        |m| m.into_iter().collect(),
    )
}

/// `serde_json::to_string_pretty` of the `HashMap<String, Vec<String>>` made of
/// `entries`.  Serializing a map with string keys and lists of strings cannot
/// fail; reading the text back gives the same map, which the contract states.
/// The exact text (the order of the entries) is the map's iteration order and
/// is not stated.
#[verifier::external_body]
fn bindings_json(entries: Vec<(String, Vec<String>)>) -> (s: String)
    requires
        forall|i: int, j: int|
            0 <= i < j < entries@.len() ==> entries@[i].0@ != entries@[j].0@,
    ensures
        parsed_bindings_file(s@) is Some,
        lists_map(user_view(entries@), parsed_bindings_file(s@).unwrap()),
{
    let map: std::collections::HashMap<String, Vec<String>> = entries.into_iter().collect();
    match serde_json::to_string_pretty(&map) {
        Ok(s) => s,
        Err(_) => String::new(),
    }
}

/// A parsed action name names that action.
proof fn lemma_parsed_name(n: Seq<char>)
    ensures
        parse_action(n) matches Some(a) ==> action_name(a) == n,
{
}

/// Two maps listed by the same entries are equal.
proof fn lemma_lists_map_unique(
    u: Seq<(Seq<char>, Seq<Seq<char>>)>,
    m1: Map<Seq<char>, Seq<Seq<char>>>,
    m2: Map<Seq<char>, Seq<Seq<char>>>,
)
    requires
        lists_map(u, m1),
        lists_map(u, m2),
    ensures
        m1 == m2,
{
    assert forall|n: Seq<char>| m1.contains_key(n) == m2.contains_key(n) by {
        if m1.contains_key(n) {
            let i = choose|i: int| 0 <= i < u.len() && u[i].0 == n;
            assert(m2.contains_key(u[i].0));
        }
        if m2.contains_key(n) {
            let i = choose|i: int| 0 <= i < u.len() && u[i].0 == n;
            assert(m1.contains_key(u[i].0));
        }
    }
    assert forall|n: Seq<char>| #[trigger] m1.contains_key(n) implies m1[n] == m2[n] by {
        let i = choose|i: int| 0 <= i < u.len() && u[i].0 == n;
        assert(m1[u[i].0] == u[i].1);
        assert(m2[u[i].0] == u[i].1);
    }
    assert(m1 =~= m2);
}

/// Applying entries with distinct names one by one (see [`merge_user`]): an
/// action whose name has an entry takes that entry's keys, any other action
/// keeps what it had.
proof fn lemma_merge_distinct(d: Map<Action, Seq<Seq<char>>>, u: Seq<(Seq<char>, Seq<Seq<char>>)>, a: Action)
    requires
        d.contains_key(a),
        forall|i: int, j: int| 0 <= i < j < u.len() ==> u[i].0 != u[j].0,
    ensures
        merge_user(d, u).contains_key(a),
        forall|i: int| 0 <= i < u.len() && u[i].0 == action_name(a) ==> merge_user(d, u)[a] == u[i].1,
        (forall|i: int| 0 <= i < u.len() ==> u[i].0 != action_name(a)) ==> merge_user(d, u)[a] == d[a],
    decreases u.len(),
{
    if u.len() > 0 {
        let t = u.drop_last();
        lemma_merge_distinct(d, t, a);
        let last = u.last();
        lemma_parsed_name(last.0);
        lemma_parse_name(a);
        match parse_action(last.0) {
            Some(b) => {
                if b == a {
                    assert forall|i: int| 0 <= i < t.len() implies t[i].0 != action_name(a) by {
                        assert(u[i].0 != u[u.len() - 1].0);
                    }
                } else {
                    lemma_action_names_distinct(a, b);
                    assert forall|i: int| 0 <= i < u.len() && u[i].0 == action_name(a) implies merge_user(d, u)[a] == u[i].1 by {
                        assert(i < u.len() - 1);
                        assert(t[i] == u[i]);
                    }
                }
            },
            None => {
                assert forall|i: int| 0 <= i < u.len() && u[i].0 == action_name(a) implies merge_user(d, u)[a] == u[i].1 by {
                    assert(i < u.len() - 1);
                    assert(t[i] == u[i]);
                }
            },
        }
        assert((forall|i: int| 0 <= i < u.len() ==> u[i].0 != action_name(a)) ==> (forall|i: int|
            0 <= i < t.len() ==> t[i].0 != action_name(a))) by {
            assert forall|i: int| 0 <= i < t.len() implies t[i] == u[i] by {}
        }
    }
}

/// Applying the entries of a file one by one gives the defaults with the file applied.
proof fn lemma_merge_file(u: Seq<(Seq<char>, Seq<Seq<char>>)>, file: Map<Seq<char>, Seq<Seq<char>>>)
    requires
        lists_map(u, file),
    ensures
        merge_user(default_map(), u) == with_file(file),
{
    let m = merge_user(default_map(), u);
    assert forall|a: Action| #[trigger] m.contains_key(a) && m[a] == with_file(file)[a] by {
        lemma_merge_distinct(default_map(), u, a);
        if file.contains_key(action_name(a)) {
            let i = choose|i: int| 0 <= i < u.len() && u[i].0 == action_name(a);
            assert(file[u[i].0] == u[i].1);
        } else {
            assert forall|i: int| 0 <= i < u.len() implies u[i].0 != action_name(a) by {
                assert(file.contains_key(u[i].0));
            }
        }
    }
    assert forall|a: Action| m.contains_key(a) implies with_file(file).contains_key(a) by {}
    assert(m =~= with_file(file));
}

impl KeyBindings {
    /// The key bindings that a key-binding file's text gives (see
    /// [`bindings_from_text`]); `None` stands for a missing or unreadable file.
    pub fn load_text(text: Option<&str>) -> (kb: KeyBindings)
        ensures
            kb@ == bindings_from_text(
                match text {
                    Some(t) => Some(t@),
                    None => None,
                },
            ),
    {
        match text {
            None => KeyBindings::new(default_keybindings()),
            Some(t) => match parse_bindings_file(t) {
                None => KeyBindings::new(default_keybindings()),
                Some(user) => {
                    proof {
                        lemma_merge_file(user_view(user@), parsed_bindings_file(t@).unwrap());
                    }
                    KeyBindings::load(user)
                },
            },
        }
    }

    /// The text of a key-binding file that holds these bindings: reading it
    /// back gives each bound action's name with its keys (see [`names_map`]).
    pub fn text(&self) -> (s: String)
        ensures
            parsed_bindings_file(s@) == Some(names_map(self@)),
    {
        let es = self.bindings.entries();
        let mut u: Vec<(String, Vec<String>)> = Vec::new();
        let mut i: usize = 0;
        while i < es.len()
            invariant
                i <= es@.len(),
                u@.len() == i,
                forall|j: int| 0 <= j < i ==> (#[trigger] u@[j]).0@ == action_name(es@[j].0) && keys_view(u@[j].1@) == keys_view(es@[j].1@),
            decreases es.len() - i,
        {
            let name = es[i].0.to_string();
            let keys = clone_keys(&es[i].1);
            u.push((name, keys));
            i = i + 1;
        }
        let ghost uv = user_view(u@);
        let ghost nm = names_map(self@);
        proof {
            lemma_entries_map(es@);
            assert forall|x: int, y: int| 0 <= x < y < u@.len() implies u@[x].0@ != u@[y].0@ by {
                lemma_action_names_distinct(es@[x].0, es@[y].0);
            }
            assert forall|x: int| 0 <= x < uv.len() implies nm.contains_key(#[trigger] uv[x].0) && nm[uv[x].0] == uv[x].1 by {
                lemma_parse_name(es@[x].0);
                assert(self@.contains_key(es@[x].0));
            }
            assert forall|n: Seq<char>| #[trigger] nm.contains_key(n) implies exists|x: int| 0 <= x < uv.len() && uv[x].0 == n by {
                lemma_parsed_name(n);
                let a = parse_action(n).unwrap();
                let x = choose|x: int| 0 <= x < es@.len() && es@[x].0 == a;
                assert(uv[x].0 == n);
            }
            assert(lists_map(uv, nm));
        }
        let s = bindings_json(u);
        proof {
            lemma_lists_map_unique(uv, parsed_bindings_file(s@).unwrap(), nm);
        }
        s
    }
}

/// The text of a key-binding file that holds the default bindings: reading it
/// back gives each action's name with its default keys.
pub fn default_keybindings_text() -> (s: String)
    ensures
        parsed_bindings_file(s@) == Some(names_map(default_map())),
{
    KeyBindings::new(default_keybindings()).text()
}

} // verus!

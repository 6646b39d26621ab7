//! File-path completion for the open-file prompt: which directory to list for
//! a partial path, which of its entries complete the path, and in what order.
use crate::screen::prefix_of;
use crate::text::{chars_of, push_all, push_char, string_from_chars};
use vstd::multiset::Multiset;
use vstd::prelude::*;

verus! {

/// `a` comes no later than `b` in the order of strings: char by char, and a
/// proper prefix first (for UTF-8 this is also the order of their bytes).
pub open spec fn str_le(a: Seq<char>, b: Seq<char>) -> bool
    decreases a.len(),
{
    if a.len() == 0 {
        true
    } else if b.len() == 0 {
        false
    } else if a[0] != b[0] {
        a[0] < b[0]
    } else {
        str_le(a.drop_first(), b.drop_first())
    }
}

/// Any two strings are ordered one way or the other.
pub proof fn lemma_str_le_total(a: Seq<char>, b: Seq<char>)
    ensures
        str_le(a, b) || str_le(b, a),
    decreases a.len(),
{
    if a.len() > 0 && b.len() > 0 && a[0] == b[0] {
        lemma_str_le_total(a.drop_first(), b.drop_first());
    }
}

/// Every string comes no later than itself.
pub proof fn lemma_str_le_refl(a: Seq<char>)
    ensures
        str_le(a, a),
    decreases a.len(),
{
    if a.len() > 0 {
        lemma_str_le_refl(a.drop_first());
    }
}

/// The order is transitive.
pub proof fn lemma_str_le_trans(a: Seq<char>, b: Seq<char>, c: Seq<char>)
    requires
        str_le(a, b),
        str_le(b, c),
    ensures
        str_le(a, c),
    decreases a.len(),
{
    if a.len() > 0 && b.len() > 0 && c.len() > 0 && a[0] == b[0] && b[0] == c[0] {
        lemma_str_le_trans(a.drop_first(), b.drop_first(), c.drop_first());
    }
}

/// Whether `a` comes no later than `b` (see [`str_le`]).
pub fn str_le_exec(a: &str, b: &str) -> (r: bool)
    ensures
        r == str_le(a@, b@),
{
    let va = chars_of(a);
    let vb = chars_of(b);
    let mut i: usize = 0;
    assert(va@.skip(0) =~= va@);
    assert(vb@.skip(0) =~= vb@);
    while i < va.len() && i < vb.len() && va[i] == vb[i]
        invariant
            i <= va@.len(),
            i <= vb@.len(),
            str_le(va@, vb@) == str_le(va@.skip(i as int), vb@.skip(i as int)),
        decreases va@.len() - i,
    {
        assert(va@.skip(i as int).drop_first() =~= va@.skip(i + 1));
        assert(vb@.skip(i as int).drop_first() =~= vb@.skip(i + 1));
        i = i + 1;
    }
    if i == va.len() {
        true
    } else if i == vb.len() {
        false
    } else {
        va[i] < vb[i]
    }
}

/// The chars of each string.
pub open spec fn views(v: Seq<String>) -> Seq<Seq<char>> {
    v.map_values(|s: String| s@)
}

/// The strings are in order.
pub open spec fn sorted(v: Seq<Seq<char>>) -> bool {
    forall|i: int, j: int| 0 <= i < j < v.len() ==> str_le(#[trigger] v[i], #[trigger] v[j])
}

/// The strings of `v` in order (as `slice::sort` on strings orders them).
pub fn sort_strings(v: Vec<String>) -> (r: Vec<String>)
    ensures
        views(r@).to_multiset() == views(v@).to_multiset(),
        sorted(views(r@)),
{
    broadcast use vstd::seq_lib::group_to_multiset_ensures;
    broadcast use vstd::multiset::group_multiset_axioms;

    let ghost orig = views(v@);
    let mut v = v;
    let mut r: Vec<String> = Vec::new();
    assert(views(r@).to_multiset() =~= Multiset::<Seq<char>>::empty()) by {
        assert(views(r@) =~= Seq::<Seq<char>>::empty());
    }
    while v.len() > 0
        invariant
            views(r@).to_multiset().add(views(v@).to_multiset()) == orig.to_multiset(),
            sorted(views(r@)),
        decreases v.len(),
    {
        let ghost v0 = views(v@);
        let ghost r0 = views(r@);
        let x = v.pop().unwrap();
        proof {
            assert(views(v@) =~= v0.drop_last());
            assert(v0.drop_last() =~= v0.remove(v0.len() - 1));
            vstd::seq_lib::to_multiset_remove(v0, v0.len() - 1);
            vstd::seq_lib::to_multiset_contains(v0, x@);
            assert(v0[v0.len() - 1] == x@);
        }
        let mut j: usize = 0;
        while j < r.len() && str_le_exec(r[j].as_str(), x.as_str())
            invariant
                j <= r@.len(),
                r0 == views(r@),
                forall|k: int| 0 <= k < j ==> str_le(#[trigger] r0[k], x@),
            decreases r@.len() - j,
        {
            j = j + 1;
        }
        proof {
            if j < r0.len() {
                lemma_str_le_total(r0[j as int], x@);
            }
        }
        r.insert(j, x);
        proof {
            let r1 = views(r@);
            assert(r1 =~= r0.insert(j as int, x@));
            vstd::seq_lib::to_multiset_insert(r0, j as int, x@);
            assert forall|a: int, b: int| 0 <= a < b < r1.len() implies str_le(
                #[trigger] r1[a],
                #[trigger] r1[b],
            ) by {
                if b == j {
                } else if a == j {
                    if b - 1 > j {
                        assert(str_le(r0[j as int], r0[b - 1]));
                    } else {
                        lemma_str_le_refl(r0[j as int]);
                    }
                    lemma_str_le_trans(x@, r0[j as int], r0[b - 1]);
                } else if a < j && b > j {
                } else if a > j {
                    assert(r1[a] == r0[a - 1]);
                    assert(r1[b] == r0[b - 1]);
                }
            }
            assert(r1.to_multiset().add(views(v@).to_multiset()) =~= orig.to_multiset());
        }
    }
    assert(views(v@) =~= Seq::<Seq<char>>::empty());
    assert(views(r@).to_multiset().add(Multiset::empty()) =~= views(r@).to_multiset());
    r
}

/// What `Path::parent` gives for the path `p`, as text.
pub uninterp spec fn path_parent(p: Seq<char>) -> Option<Seq<char>>;

/// What `Path::file_name` gives for the path `p`, as text.
pub uninterp spec fn path_file_name(p: Seq<char>) -> Option<Seq<char>>;

/// `Path::parent`: the path without its last component, if it has one.
/// Nothing is stated of the result but that it is what `path_parent` names.
#[verifier::external_body]
fn parent_of(p: &str) -> (r: Option<String>)
    ensures
        match r {
            Some(s) => path_parent(p@) == Some(s@),
            None => path_parent(p@) is None,
        },
{
    std::path::Path::new(p).parent().map(|q| q.to_string_lossy().to_string())
}

/// `Path::file_name`: the last component of the path, if it is a name.
/// Nothing is stated of the result but that it is what `path_file_name` names.
#[verifier::external_body]
pub(crate) fn file_name_of(p: &str) -> (r: Option<String>)
    ensures
        match r {
            Some(s) => path_file_name(p@) == Some(s@),
            None => path_file_name(p@) is None,
        },
{
    std::path::Path::new(p).file_name().map(|n| n.to_string_lossy().to_string())
}

/// `s` without the slashes at its end.
pub open spec fn without_end_slashes(s: Seq<char>) -> Seq<char>
    decreases s.len(),
{
    if s.len() > 0 && s.last() == '/' {
        without_end_slashes(s.drop_last())
    } else {
        s
    }
}

/// Where to look for completions of a partial path: the directory to list,
/// the prefix that an entry's name must have, and the text put before each
/// completion.
pub struct CompletionQuery {
    pub scan_dir: String,
    pub name_prefix: String,
    pub out_prefix: String,
}

/// The query for `partial`: the current directory for an empty one; the
/// directory itself (the root for slashes only) for one that ends in a slash;
/// else the parent directory (the current one when there is none) and the
/// last component as the name prefix.
pub open spec fn query_spec(partial: Seq<char>) -> (Seq<char>, Seq<char>, Seq<char>) {
    if partial.len() == 0 {
        ("."@, Seq::empty(), Seq::empty())
    } else if partial.last() == '/' {
        let d = without_end_slashes(partial);
        (if d.len() == 0 {
            "/"@
        } else {
            d
        }, Seq::empty(), partial)
    } else {
        let parent = match path_parent(partial) {
            Some(q) => q,
            None => Seq::empty(),
        };
        let name = match path_file_name(partial) {
            Some(n) => n,
            None => Seq::empty(),
        };
        if parent.len() == 0 {
            ("."@, name, Seq::empty())
        } else {
            (parent, name, parent + "/"@)
        }
    }
}

/// `s` without the slashes at its end.
fn trim_end_slashes(s: &str) -> (r: String)
    ensures
        r@ == without_end_slashes(s@),
{
    let v = chars_of(s);
    let mut n = v.len();
    assert(v@.take(v@.len() as int) =~= v@);
    while n > 0 && v[n - 1] == '/'
        invariant
            n <= v@.len(),
            without_end_slashes(v@) == without_end_slashes(v@.take(n as int)),
        decreases n,
    {
        assert(v@.take(n as int).drop_last() =~= v@.take(n - 1));
        n = n - 1;
    }
    string_from_chars(&v.as_slice()[0..n])
}

/// The query for completing `partial` (see [`query_spec`]).
pub fn completion_query(partial: &str) -> (q: CompletionQuery)
    ensures
        (q.scan_dir@, q.name_prefix@, q.out_prefix@) == query_spec(partial@),
{
    let v = chars_of(partial);
    if v.len() == 0 {
        return CompletionQuery {
            scan_dir: String::from_str("."),
            name_prefix: String::new(),
            out_prefix: String::new(),
        };
    }
    if v[v.len() - 1] == '/' {
        let d = trim_end_slashes(partial);
        let scan_dir = if d.as_str().is_empty() {
            String::from_str("/")
        } else {
            d
        };
        return CompletionQuery {
            scan_dir,
            name_prefix: String::new(),
            out_prefix: string_from_chars(v.as_slice()),
        };
    }
    let parent = match parent_of(partial) {
        Some(q) => q,
        None => String::new(),
    };
    let name = match file_name_of(partial) {
        Some(n) => n,
        None => String::new(),
    };
    if parent.as_str().is_empty() {
        CompletionQuery { scan_dir: String::from_str("."), name_prefix: name, out_prefix: String::new() }
    } else {
        let mut out = parent.clone();
        push_char(&mut out, '/');
        proof {
            reveal_strlit("/");
            assert(out@ =~= parent@ + "/"@);
        }
        CompletionQuery { scan_dir: parent, name_prefix: name, out_prefix: out }
    }
}

/// `s` with a leading `~` (alone, or before a slash) replaced by `home`, when it is known.
pub open spec fn tilde_expanded(s: Seq<char>, home: Option<Seq<char>>) -> Seq<char> {
    if (s == "~"@ || prefix_of("~/"@, s)) && home is Some {
        home.unwrap() + s.drop_first()
    } else {
        s
    }
}

/// Expands a leading `~` with the home directory `home` (see [`tilde_expanded`]).
pub fn expand_tilde(s: &str, home: Option<&str>) -> (r: String)
    ensures
        r@ == tilde_expanded(s@, match home {
            Some(h) => Some(h@),
            None => None,
        }),
{
    proof {
        reveal_strlit("~");
        reveal_strlit("~/");
    }
    let v = chars_of(s);
    let tilde = v.len() > 0 && v[0] == '~' && (v.len() == 1 || v[1] == '/');
    proof {
        if v@.len() >= 2 {
            assert(prefix_of("~/"@, s@) <==> (v@[0] == '~' && v@[1] == '/')) by {
                if v@[0] == '~' && v@[1] == '/' {
                    assert(s@.take(2) =~= "~/"@);
                }
                if prefix_of("~/"@, s@) {
                    assert(s@.take(2)[0] == '~');
                    assert(s@.take(2)[1] == '/');
                }
            }
        }
        if v@.len() == 1 {
            assert(s@ == "~"@ <==> v@[0] == '~') by {
                if v@[0] == '~' {
                    assert(s@ =~= "~"@);
                }
            }
        }
        if v@.len() >= 2 {
            assert(s@ != "~"@);
        }
    }
    match home {
        Some(h) => {
            if tilde {
                let mut r = String::from_str(h);
                let rest = string_from_chars(&v.as_slice()[1..v.len()]);
                push_all(&mut r, rest.as_str());
                assert(rest@ =~= s@.drop_first());
                return r;
            }
        },
        None => {},
    }
    String::from_str(s)
}

/// The completion that the directory entry named `name` gives: the output
/// prefix, the name, and a slash for a directory.
pub open spec fn completion_of(out_prefix: Seq<char>, name: Seq<char>, is_dir: bool) -> Seq<char> {
    out_prefix + name + if is_dir {
        seq!['/']
    } else {
        Seq::empty()
    }
}

/// The completions given by the first `n` entries: those whose name starts
/// with `name_prefix`, in the order of the entries.
pub open spec fn candidates(
    entries: Seq<(Seq<char>, bool)>,
    name_prefix: Seq<char>,
    out_prefix: Seq<char>,
    n: int,
) -> Seq<Seq<char>>
    decreases n,
{
    if n <= 0 {
        Seq::empty()
    } else {
        let r = candidates(entries, name_prefix, out_prefix, n - 1);
        let e = entries[n - 1];
        if prefix_of(name_prefix, e.0) {
            r.push(completion_of(out_prefix, e.0, e.1))
        } else {
            r
        }
    }
}

/// Each entry as its name's chars and whether it is a directory.
pub open spec fn entries_view(entries: Seq<(String, bool)>) -> Seq<(Seq<char>, bool)> {
    entries.map_values(|e: (String, bool)| (e.0@, e.1))
}

/// Whether `p` is a prefix of `s`.
pub fn starts_with(s: &str, p: &str) -> (b: bool)
    ensures
        b == prefix_of(p@, s@),
{
    let vs = chars_of(s);
    let vp = chars_of(p);
    if vp.len() > vs.len() {
        return false;
    }
    let mut i: usize = 0;
    while i < vp.len()
        invariant
            vs@ == s@,
            vp@ == p@,
            vp@.len() <= vs@.len(),
            i <= vp@.len(),
            vs@.take(i as int) == vp@.take(i as int),
        decreases vp@.len() - i,
    {
        if vs[i] != vp[i] {
            assert(!prefix_of(p@, s@)) by {
                assert(vs@.take(vp@.len() as int)[i as int] == vs@[i as int]);
                if prefix_of(p@, s@) {
                    assert(s@.take(p@.len() as int)[i as int] == p@[i as int]);
                }
            }
            return false;
        }
        assert(vs@.take(i + 1) =~= vs@.take(i as int).push(vs@[i as int]));
        assert(vp@.take(i + 1) =~= vp@.take(i as int).push(vp@[i as int]));
        i = i + 1;
    }
    assert(vp@.take(vp@.len() as int) =~= vp@);
    true
}

/// The sorted completions of `query` among the directory entries `entries`
/// (each a name and whether it is a directory).
pub fn completions_from(query: &CompletionQuery, entries: &Vec<(String, bool)>) -> (r: Vec<String>)
    ensures
        views(r@).to_multiset() == candidates(
            entries_view(entries@),
            query.name_prefix@,
            query.out_prefix@,
            entries@.len() as int,
        ).to_multiset(),
        sorted(views(r@)),
{
    let ghost ev = entries_view(entries@);
    let mut found: Vec<String> = Vec::new();
    let mut i: usize = 0;
    while i < entries.len()
        invariant
            i <= entries@.len(),
            ev == entries_view(entries@),
            views(found@) == candidates(ev, query.name_prefix@, query.out_prefix@, i as int),
        decreases entries@.len() - i,
    {
        let name = &entries[i].0;
        assert(ev[i as int] == (name@, entries@[i as int].1));
        if starts_with(name.as_str(), query.name_prefix.as_str()) {
            let mut c = query.out_prefix.clone();
            push_all(&mut c, name.as_str());
            if entries[i].1 {
                push_char(&mut c, '/');
            }
            let ghost f0 = views(found@);
            found.push(c);
            assert(c@ =~= completion_of(query.out_prefix@, name@, entries@[i as int].1));
            assert(views(found@) =~= f0.push(c@));
        }
        i = i + 1;
    }
    sort_strings(found)
}

} // verus!

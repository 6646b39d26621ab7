//! Finding and replacing a term within a line.
use crate::text::{
    byte_len, byte_offset, char_width_of, chars_of, first_lowercase, lemma_byte_offset_full,
    lemma_byte_offset_mono, lemma_byte_offset_step, lowercase_first, push_char, push_range,
    utf8_len,
};
use vstd::prelude::*;

verus! {

/// `term` occurs in `line` at char index `k`.
pub open spec fn occurs_at(line: Seq<char>, term: Seq<char>, k: int) -> bool {
    0 <= k && k + term.len() <= line.len() && line.subrange(k, k + term.len()) == term
}

/// Byte offsets of the non-overlapping occurrences of `term` in `line` found by
/// scanning from char index `k`: an occurrence is taken and skipped whole, and
/// the scan stops once the term no longer fits in the remaining bytes.
pub open spec fn matches_from(line: Seq<char>, term: Seq<char>, k: int) -> Seq<usize>
    decreases line.len() - k,
{
    if term.len() == 0 || k < 0 || k >= line.len() || byte_offset(line, k) + byte_len(term)
        > byte_len(line) {
        Seq::empty()
    } else if occurs_at(line, term, k) {
        seq![byte_offset(line, k) as usize] + matches_from(line, term, k + term.len())
    } else {
        matches_from(line, term, k + 1)
    }
}

/// A char with its case folded: the first char of its lowercase mapping.
pub open spec fn fold_char(c: char) -> char {
    match first_lowercase(c) {
        Some(l) => l,
        None => c,
    }
}

/// A string with each char's case folded (see [`fold_char`]).
pub open spec fn folded(s: Seq<char>) -> Seq<char> {
    s.map_values(|c: char| fold_char(c))
}

/// `term` occurs in `line` at char index `k`, ignoring case: the two agree char
/// by char once each char's case is folded.
pub open spec fn occurs_folded_at(line: Seq<char>, term: Seq<char>, k: int) -> bool {
    occurs_at(folded(line), folded(term), k)
}

/// `line` with each non-overlapping occurrence of `term` from char index `k` on,
/// ignoring case (see [`occurs_folded_at`]), replaced by `rep` (scanning left to
/// right), and the number of occurrences replaced.
pub open spec fn replace_from(line: Seq<char>, term: Seq<char>, rep: Seq<char>, k: int) -> (
    Seq<char>,
    nat,
)
    decreases line.len() - k,
{
    if term.len() == 0 || k < 0 || k >= line.len() {
        (line.skip(k), 0)
    } else if occurs_folded_at(line, term, k) {
        let r = replace_from(line, term, rep, k + term.len());
        (rep + r.0, r.1 + 1)
    } else {
        let r = replace_from(line, term, rep, k + 1);
        (seq![line[k]] + r.0, r.1)
    }
}

/// Whether `term` occurs in `v` at char index `k`.
fn occurs_at_exec(v: &Vec<char>, t: &Vec<char>, k: usize) -> (b: bool)
    requires
        k <= v.len(),
    ensures
        b == occurs_at(v@, t@, k as int),
{
    if t.len() > v.len() - k {
        return false;
    }
    let mut j: usize = 0;
    while j < t.len()
        invariant
            j <= t.len(),
            k + t.len() <= v.len(),
            forall|i: int| 0 <= i < j ==> v@[k + i] == t@[i],
        decreases t.len() - j,
    {
        if v[k + j] != t[j] {
            assert(v@.subrange(k as int, k + t.len())[j as int] != t@[j as int]);
            return false;
        }
        j = j + 1;
    }
    assert(v@.subrange(k as int, k + t.len()) =~= t@);
    true
}

/// Returns the byte offsets of all non-overlapping occurrences of `term_lower`
/// in `line_lower` (see [`matches_from`]).  Both arguments are expected to be
/// lowercase already.  The term must not be empty: the scan would not advance.
pub fn find_matches_in_line(line_lower: &str, term_lower: &str) -> (r: Vec<usize>)
    requires
        term_lower@.len() > 0,
    ensures
        r@ == matches_from(line_lower@, term_lower@, 0),
{
    let line = chars_of(line_lower);
    let term = chars_of(term_lower);
    let line_len = utf8_len(line_lower);
    let term_len = utf8_len(term_lower);
    let mut matches: Vec<usize> = Vec::new();
    let mut k: usize = 0;
    let mut start: usize = 0;
    proof {
        assert(line@.take(0) =~= Seq::<char>::empty());
        lemma_byte_offset_full(line@);
    }
    while k < line.len() && term_len <= line_len - start
        invariant
            line@ == line_lower@,
            term@ == term_lower@,
            term@.len() > 0,
            line_len == byte_len(line@),
            term_len == byte_len(term@),
            k <= line.len(),
            start == byte_offset(line@, k as int),
            start <= line_len,
            matches@ + matches_from(line@, term@, k as int) == matches_from(line@, term@, 0),
        decreases line.len() - k,
    {
        if occurs_at_exec(&line, &term, k) {
            matches.push(start);
            proof {
                lemma_byte_offset_mono(line@, k as int, k + term@.len());
                lemma_byte_offset_mono(line@, k + term@.len(), line@.len() as int);
                lemma_byte_offset_full(line@);
                assert(matches_from(line@, term@, k as int) == seq![start] + matches_from(
                    line@,
                    term@,
                    k + term@.len(),
                ));
            }
            let ghost m0 = matches@;
            k = k + term.len();
            start = crate::text::offset_of_index(&line, k);
            assert(m0 + matches_from(line@, term@, k as int) =~= matches@.drop_last() + seq![
                matches@.last(),
            ] + matches_from(line@, term@, k as int));
        } else {
            proof {
                lemma_byte_offset_step(line@, k as int);
                lemma_byte_offset_mono(line@, k + 1, line@.len() as int);
                lemma_byte_offset_full(line@);
            }
            start = start + char_width_of(line[k]);
            k = k + 1;
        }
    }
    proof {
        assert(matches_from(line@, term@, k as int) =~= Seq::<usize>::empty());
        assert(matches@ + Seq::<usize>::empty() =~= matches@);
    }
    matches
}

/// Each char of `v` with its case folded.
fn fold_chars(v: &Vec<char>) -> (r: Vec<char>)
    ensures
        r@ == folded(v@),
{
    let mut r: Vec<char> = Vec::new();
    let mut i: usize = 0;
    while i < v.len()
        invariant
            i <= v.len(),
            r@ == folded(v@.take(i as int)),
        decreases v.len() - i,
    {
        let c = v[i];
        let l = match lowercase_first(c) {
            Some(l) => l,
            None => c,
        };
        r.push(l);
        assert(folded(v@.take(i + 1)) =~= folded(v@.take(i as int)).push(fold_char(c)));
        i = i + 1;
    }
    assert(v@.take(i as int) =~= v@);
    r
}

/// Replaces each non-overlapping occurrence of `term` in `line`, ignoring case,
/// by `rep`, left to right; returns the new line and the number of occurrences
/// replaced.
pub fn replace_in_line(line: &str, term: &Vec<char>, rep: &Vec<char>) -> (r: (String, usize))
    requires
        term@.len() > 0,
    ensures
        r.0@ == replace_from(line@, term@, rep@, 0).0,
        r.1 == replace_from(line@, term@, rep@, 0).1,
{
    let v = chars_of(line);
    let fv = fold_chars(&v);
    let ft = fold_chars(term);
    let mut out = String::new();
    let mut count: usize = 0;
    let mut k: usize = 0;
    while k < v.len()
        invariant
            v@ == line@,
            fv@ == folded(v@),
            ft@ == folded(term@),
            term@.len() > 0,
            k <= v.len(),
            count <= k,
            out@ + replace_from(v@, term@, rep@, k as int).0 == replace_from(v@, term@, rep@, 0).0,
            count + replace_from(v@, term@, rep@, k as int).1 == replace_from(v@, term@, rep@, 0).1,
        decreases v.len() - k,
    {
        let ghost o0 = out@;
        if occurs_at_exec(&fv, &ft, k) {
            push_range(&mut out, rep, 0, rep.len());
            assert(rep@.subrange(0, rep@.len() as int) =~= rep@);
            assert(o0 + (rep@ + replace_from(v@, term@, rep@, k + term@.len()).0) =~= out@
                + replace_from(v@, term@, rep@, k + term@.len()).0);
            count = count + 1;
            k = k + ft.len();
        } else {
            push_char(&mut out, v[k]);
            assert(o0 + (seq![v@[k as int]] + replace_from(v@, term@, rep@, k + 1).0) =~= out@
                + replace_from(v@, term@, rep@, k + 1).0);
            k = k + 1;
        }
    }
    proof {
        assert(v@.skip(k as int) =~= Seq::<char>::empty());
        assert(out@ + Seq::<char>::empty() =~= out@);
    }
    (out, count)
}

} // verus!

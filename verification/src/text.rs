//! Character and byte model of a line of text.
//!
//! A line is held as a `String`; its view is the sequence of its chars.  The
//! editor addresses positions inside a line by byte offset into the UTF-8
//! encoding, so this module defines the UTF-8 width of each char, the byte
//! offset of each char index, and the char boundaries of a line, together with
//! the executable helpers that move between the two.
use vstd::prelude::*;

verus! {

/// Number of bytes in the UTF-8 encoding of `c`.
pub open spec fn char_width(c: char) -> nat {
    if (c as u32) < 0x80 {
        1
    } else if (c as u32) < 0x800 {
        2
    } else if (c as u32) < 0x10000 {
        3
    } else {
        4
    }
}

/// Number of bytes in the UTF-8 encoding of `s`.
pub open spec fn byte_len(s: Seq<char>) -> nat
    decreases s.len(),
{
    if s.len() == 0 {
        0
    } else {
        byte_len(s.drop_last()) + char_width(s.last())
    }
}

/// Byte offset of the char with index `k` (the byte length of the first `k` chars).
pub open spec fn byte_offset(s: Seq<char>, k: int) -> nat {
    byte_len(s.take(k))
}

/// `b` is the byte offset of some char index of `s` (or of its end).
pub open spec fn is_boundary(s: Seq<char>, b: int) -> bool {
    exists|k: int| 0 <= k <= s.len() && #[trigger] byte_offset(s, k) == b
}

/// The char index whose byte offset is `b` (meaningful when `is_boundary(s, b)`).
pub open spec fn char_index(s: Seq<char>, b: int) -> int {
    choose|k: int| 0 <= k <= s.len() && #[trigger] byte_offset(s, k) == b
}

/// Largest char index whose byte offset does not exceed `b`.
pub open spec fn floor_index(s: Seq<char>, b: int) -> nat
    decreases s.len(),
{
    if s.len() == 0 {
        0
    } else if byte_len(s) <= b {
        s.len()
    } else {
        floor_index(s.drop_last(), b)
    }
}

pub proof fn lemma_byte_offset_step(s: Seq<char>, k: int)
    requires
        0 <= k < s.len(),
    ensures
        byte_offset(s, k + 1) == byte_offset(s, k) + char_width(s[k]),
{
    assert(s.take(k + 1).drop_last() =~= s.take(k));
}

pub proof fn lemma_byte_offset_full(s: Seq<char>)
    ensures
        byte_offset(s, s.len() as int) == byte_len(s),
{
    assert(s.take(s.len() as int) =~= s);
}

/// Byte offsets grow by at least one byte per char.
pub proof fn lemma_byte_offset_mono(s: Seq<char>, i: int, j: int)
    requires
        0 <= i <= j <= s.len(),
    ensures
        byte_offset(s, i) + (j - i) <= byte_offset(s, j),
        byte_offset(s, j) <= byte_offset(s, i) + 4 * (j - i),
    decreases j - i,
{
    if i < j {
        lemma_byte_offset_mono(s, i, j - 1);
        lemma_byte_offset_step(s, j - 1);
    }
}

/// The byte offset of a char index is unique.
pub proof fn lemma_offset_injective(s: Seq<char>, i: int, j: int)
    requires
        0 <= i <= s.len(),
        0 <= j <= s.len(),
        byte_offset(s, i) == byte_offset(s, j),
    ensures
        i == j,
{
    if i < j {
        lemma_byte_offset_mono(s, i, j);
    } else if j < i {
        lemma_byte_offset_mono(s, j, i);
    }
}

pub proof fn lemma_char_index(s: Seq<char>, b: int)
    requires
        is_boundary(s, b),
    ensures
        0 <= char_index(s, b) <= s.len(),
        byte_offset(s, char_index(s, b)) == b,
        forall|k: int| 0 <= k <= s.len() && #[trigger] byte_offset(s, k) == b ==> k == char_index(s, b),
{
    let ci = char_index(s, b);
    assert forall|k: int| 0 <= k <= s.len() && #[trigger] byte_offset(s, k) == b implies k == ci by {
        lemma_offset_injective(s, k, ci);
    }
}

/// The char index of the byte offset of char index `k` is `k`.
pub proof fn lemma_index_of_offset(s: Seq<char>, k: int)
    requires
        0 <= k <= s.len(),
    ensures
        is_boundary(s, byte_offset(s, k) as int),
        char_index(s, byte_offset(s, k) as int) == k,
{
    let b = byte_offset(s, k) as int;
    assert(is_boundary(s, b));
    lemma_char_index(s, b);
}

pub proof fn lemma_byte_len_concat(a: Seq<char>, b: Seq<char>)
    ensures
        byte_len(a + b) == byte_len(a) + byte_len(b),
    decreases b.len(),
{
    if b.len() == 0 {
        assert(a + b =~= a);
    } else {
        lemma_byte_len_concat(a, b.drop_last());
        assert((a + b).drop_last() =~= a + b.drop_last());
    }
}

/// Byte offsets of a prefix of a concatenation are those of the first part.
pub proof fn lemma_offset_concat_prefix(a: Seq<char>, b: Seq<char>, k: int)
    requires
        0 <= k <= a.len(),
    ensures
        byte_offset(a + b, k) == byte_offset(a, k),
{
    assert((a + b).take(k) =~= a.take(k));
}

/// Byte offsets past the first part of a concatenation.
pub proof fn lemma_offset_concat_suffix(a: Seq<char>, b: Seq<char>, k: int)
    requires
        0 <= k <= b.len(),
    ensures
        byte_offset(a + b, a.len() + k) == byte_len(a) + byte_offset(b, k),
{
    assert((a + b).take(a.len() + k) =~= a + b.take(k));
    lemma_byte_len_concat(a, b.take(k));
}

/// The char boundaries of a line are its char offsets; 0 and the end are boundaries.
pub proof fn lemma_ends_are_boundaries(s: Seq<char>)
    ensures
        is_boundary(s, 0),
        char_index(s, 0) == 0,
        is_boundary(s, byte_len(s) as int),
        char_index(s, byte_len(s) as int) == s.len(),
{
    assert(s.take(0) =~= Seq::<char>::empty());
    lemma_index_of_offset(s, 0);
    lemma_byte_offset_full(s);
    lemma_index_of_offset(s, s.len() as int);
}

pub proof fn lemma_floor_index(s: Seq<char>, b: int)
    requires
        b >= 0,
    ensures
        floor_index(s, b) <= s.len(),
        byte_offset(s, floor_index(s, b) as int) <= b,
        forall|k: int|
            floor_index(s, b) < k <= s.len() ==> b < #[trigger] byte_offset(s, k),
    decreases s.len(),
{
    lemma_byte_offset_full(s);
    if s.len() == 0 {
        assert(s.take(0) =~= s);
    } else if byte_len(s) <= b {
    } else {
        let t = s.drop_last();
        lemma_floor_index(t, b);
        let f = floor_index(t, b) as int;
        assert(byte_offset(s, f) == byte_offset(t, f)) by {
            assert(s.take(f) =~= t.take(f));
        }
        assert forall|k: int| f < k <= s.len() implies b < #[trigger] byte_offset(s, k) by {
            if k < s.len() {
                assert(s.take(k) =~= t.take(k));
                assert(byte_offset(s, k) == byte_offset(t, k));
            }
        }
    }
}

/// Executable UTF-8 width of a char.
pub fn char_width_of(c: char) -> (n: usize)
    ensures
        n == char_width(c),
{
    let u = c as u32;
    if u < 0x80 {
        1
    } else if u < 0x800 {
        2
    } else if u < 0x10000 {
        3
    } else {
        4
    }
}

/// The chars of `s`, in order.
pub fn chars_of(s: &str) -> (v: Vec<char>)
    ensures
        v@ == s@,
{
    let mut v: Vec<char> = Vec::new();
    for c in it: s.chars()
        invariant
            v@ == it.seq().take(it.index() as int),
    {
        v.push(c);
    }
    v
}

/// Appends one char to a string (`String::push`).
#[verifier::external_body]
pub(crate) fn push_char(s: &mut String, c: char)
    ensures
        final(s)@ == old(s)@.push(c),
{
    s.push(c);
}

/// The UTF-8 encoding of a string is as long as its byte length.
pub proof fn lemma_encode_utf8_len(s: Seq<char>)
    ensures
        vstd::utf8::encode_utf8(s).len() == byte_len(s),
    decreases s.len(),
{
    if s.len() > 0 {
        lemma_encode_utf8_len(s.drop_first());
        assert(seq![s[0]] + s.drop_first() =~= s);
        lemma_byte_len_concat(seq![s[0]], s.drop_first());
        assert(byte_len(seq![s[0]]) == char_width(s[0])) by {
            reveal_with_fuel(byte_len, 2);
            assert(seq![s[0]].drop_last() =~= Seq::<char>::empty());
        }
        let v = s[0] as u32;
        vstd::utf8::char_is_scalar(s[0]);
        assert(vstd::utf8::encode_scalar(v).len() == char_width(s[0]));
        assert(vstd::utf8::encode_utf8(s) == vstd::utf8::encode_scalar(v) + vstd::utf8::encode_utf8(
            s.drop_first(),
        ));
    }
}

/// Length in bytes of the UTF-8 encoding of a string: the length of its bytes.
pub(crate) fn utf8_len(s: &str) -> (n: usize)
    ensures
        n as nat == byte_len(s@),
{
    let b = s.as_bytes();
    proof {
        lemma_encode_utf8_len(s@);
    }
    b.len()
}

/// Builds a string from a slice of chars.
pub fn string_from_chars(v: &[char]) -> (s: String)
    ensures
        s@ == v@,
{
    let mut s = String::new();
    let mut i: usize = 0;
    while i < v.len()
        invariant
            i <= v.len(),
            s@ == v@.take(i as int),
        decreases v.len() - i,
    {
        push_char(&mut s, v[i]);
        assert(v@.take(i + 1) =~= v@.take(i as int).push(v@[i as int]));
        i = i + 1;
    }
    assert(v@.take(v.len() as int) =~= v@);
    s
}

/// Builds a string from the chars of `v` with index in `[lo, hi)`.
pub fn string_from_range(v: &Vec<char>, lo: usize, hi: usize) -> (s: String)
    requires
        lo <= hi <= v.len(),
    ensures
        s@ == v@.subrange(lo as int, hi as int),
{
    let mut s = String::new();
    let mut i: usize = lo;
    while i < hi
        invariant
            lo <= i <= hi <= v.len(),
            s@ == v@.subrange(lo as int, i as int),
        decreases hi - i,
    {
        push_char(&mut s, v[i]);
        assert(v@.subrange(lo as int, i + 1) =~= v@.subrange(lo as int, i as int).push(v@[i as int]));
        i = i + 1;
    }
    s
}

/// Appends the chars of `v` with index in `[lo, hi)` to `s`.
pub fn push_range(s: &mut String, v: &Vec<char>, lo: usize, hi: usize)
    requires
        lo <= hi <= v.len(),
    ensures
        final(s)@ == old(s)@ + v@.subrange(lo as int, hi as int),
{
    let ghost s0 = s@;
    let mut i: usize = lo;
    while i < hi
        invariant
            lo <= i <= hi <= v.len(),
            s@ == s0 + v@.subrange(lo as int, i as int),
        decreases hi - i,
    {
        push_char(s, v[i]);
        assert(v@.subrange(lo as int, i + 1) =~= v@.subrange(lo as int, i as int).push(v@[i as int]));
        i = i + 1;
    }
}

/// Appends all chars of `t` to `s`.
pub fn push_all(s: &mut String, t: &str)
    ensures
        final(s)@ == old(s)@ + t@,
{
    let v = chars_of(t);
    push_range(s, &v, 0, v.len());
    assert(v@.subrange(0, v@.len() as int) =~= v@);
}

/// Byte offset of char index `k` of `v`.
pub fn offset_of_index(v: &Vec<char>, k: usize) -> (b: usize)
    requires
        k <= v.len(),
        byte_len(v@) <= usize::MAX,
    ensures
        b == byte_offset(v@, k as int),
{
    let mut b: usize = 0;
    let mut i: usize = 0;
    proof {
        assert(v@.take(0) =~= Seq::<char>::empty());
        lemma_byte_offset_full(v@);
    }
    while i < k
        invariant
            i <= k <= v.len(),
            byte_len(v@) <= usize::MAX,
            b == byte_offset(v@, i as int),
        decreases k - i,
    {
        proof {
            lemma_byte_offset_step(v@, i as int);
            lemma_byte_offset_mono(v@, i + 1, v@.len() as int);
            lemma_byte_offset_full(v@);
        }
        b = b + char_width_of(v[i]);
        i = i + 1;
    }
    b
}

/// The char index whose byte offset is `b`, if `b` is a char boundary of `v`.
pub fn index_of_offset(v: &Vec<char>, b: usize) -> (r: Option<usize>)
    ensures
        r is Some <==> is_boundary(v@, b as int),
        r matches Some(k) ==> k == char_index(v@, b as int) && k <= v.len()
            && byte_offset(v@, k as int) == b,
{
    let mut off: usize = 0;
    let mut i: usize = 0;
    proof {
        assert(v@.take(0) =~= Seq::<char>::empty());
    }
    while i < v.len() && off < b
        invariant
            i <= v.len(),
            off == byte_offset(v@, i as int),
            off <= b,
            forall|k: int| 0 <= k < i ==> #[trigger] byte_offset(v@, k) < b,
        decreases v.len() - i,
    {
        proof {
            lemma_byte_offset_step(v@, i as int);
        }
        let w = char_width_of(v[i]);
        if w > b - off {
            proof {
                assert forall|k: int| 0 <= k <= v@.len() implies #[trigger] byte_offset(v@, k) != b by {
                    if k > i {
                        lemma_byte_offset_mono(v@, i + 1, k);
                    }
                }
            }
            return None;
        }
        off = off + w;
        i = i + 1;
    }
    if off == b {
        proof {
            lemma_index_of_offset(v@, i as int);
        }
        Some(i)
    } else {
        proof {
            assert forall|k: int| 0 <= k <= v@.len() implies #[trigger] byte_offset(v@, k) != b by {
                if k == i {
                } else if k > i {
                    assert(i == v.len());
                }
            }
        }
        None
    }
}

/// Converts a char index to a byte offset in `s`, clamped to the length of `s`.
pub fn char_to_byte(s: &str, char_idx: usize) -> (b: usize)
    ensures
        b == byte_offset(s@, if char_idx <= s@.len() { char_idx as int } else { s@.len() as int }),
{
    let v = chars_of(s);
    let n = utf8_len(s);
    proof {
        lemma_byte_offset_full(v@);
    }
    if char_idx < v.len() {
        offset_of_index(&v, char_idx)
    } else {
        n
    }
}

/// Whether `char::is_whitespace` holds of `c` (the Unicode `White_Space` property).
pub uninterp spec fn unicode_whitespace(c: char) -> bool;

/// Whether `char::is_alphanumeric` holds of `c` (Unicode `Alphabetic` or numeric).
pub uninterp spec fn unicode_alphanumeric(c: char) -> bool;

/// What `str::to_lowercase` returns for a string (the Unicode lowercase mapping).
pub uninterp spec fn lowercase(s: Seq<char>) -> Seq<char>;

/// The first char of `char::to_lowercase` of `c`.
pub uninterp spec fn first_lowercase(c: char) -> Option<char>;

/// `char::is_whitespace`.
#[verifier::external_body]
pub(crate) fn is_whitespace(c: char) -> (b: bool)
    ensures
        b == unicode_whitespace(c),
{
    c.is_whitespace()
}

/// `char::is_alphanumeric`.
#[verifier::external_body]
pub(crate) fn is_alphanumeric(c: char) -> (b: bool)
    ensures
        b == unicode_alphanumeric(c),
{
    c.is_alphanumeric()
}

/// `str::to_lowercase`.  Besides naming the result, the contract states that
/// it is no shorter than `s`: the documentation of `char::to_lowercase`, which
/// `str::to_lowercase` applies char by char, says each char maps to one or more chars.
#[verifier::external_body]
pub(crate) fn to_lowercase(s: &str) -> (r: String)
    ensures
        r@ == lowercase(s@),
        s@.len() <= r@.len(),
{
    s.to_lowercase()
}

/// The first char that `char::to_lowercase` yields for `c`.  The contract also
/// states that there is one: the documentation says the mapping is one or more chars.
#[verifier::external_body]
pub(crate) fn lowercase_first(c: char) -> (r: Option<char>)
    ensures
        r == first_lowercase(c),
        r is Some,
{
    c.to_lowercase().next()
}

/// A char that belongs to a word: alphanumeric or underscore.
pub open spec fn is_word_char(c: char) -> bool {
    unicode_alphanumeric(c) || c == '_'
}

pub fn word_char(c: char) -> (b: bool)
    ensures
        b == is_word_char(c),
{
    is_alphanumeric(c) || c == '_'
}

/// Char classes for runs of chars: whitespace, word chars, and chars that are
/// not word chars.
pub const WHITESPACE: u8 = 0;
pub const WORD: u8 = 1;
pub const NOT_WORD: u8 = 2;

/// `c` belongs to the class `class`.
pub open spec fn in_class(c: char, class: u8) -> bool {
    if class == WHITESPACE {
        unicode_whitespace(c)
    } else if class == WORD {
        is_word_char(c)
    } else {
        !is_word_char(c)
    }
}

pub fn char_in_class(c: char, class: u8) -> (b: bool)
    ensures
        b == in_class(c, class),
{
    if class == WHITESPACE {
        is_whitespace(c)
    } else if class == WORD {
        word_char(c)
    } else {
        !word_char(c)
    }
}

/// Number of leading chars of `s` in `class`.
pub open spec fn leading_run(s: Seq<char>, class: u8) -> nat
    decreases s.len(),
{
    if s.len() == 0 || !in_class(s[0], class) {
        0
    } else {
        1 + leading_run(s.drop_first(), class)
    }
}

/// Number of trailing chars of `s` in `class`.
pub open spec fn trailing_run(s: Seq<char>, class: u8) -> nat
    decreases s.len(),
{
    if s.len() == 0 || !in_class(s.last(), class) {
        0
    } else {
        1 + trailing_run(s.drop_last(), class)
    }
}

/// Number of leading whitespace chars of `s`.
pub open spec fn leading_ws(s: Seq<char>) -> nat {
    leading_run(s, WHITESPACE)
}

pub proof fn lemma_leading_run(s: Seq<char>, class: u8, i: int)
    requires
        0 <= i <= s.len(),
        forall|j: int| 0 <= j < i ==> in_class(#[trigger] s[j], class),
    ensures
        leading_run(s, class) == i + leading_run(s.skip(i), class),
        leading_run(s, class) <= s.len(),
    decreases s.len(),
{
    if i > 0 {
        lemma_leading_run(s.drop_first(), class, i - 1);
        assert(s.drop_first().skip(i - 1) =~= s.skip(i));
    } else {
        assert(s.skip(0) =~= s);
        if s.len() > 0 && in_class(s[0], class) {
            lemma_leading_run(s.drop_first(), class, 0);
        }
    }
}

pub proof fn lemma_trailing_run(s: Seq<char>, class: u8, i: int)
    requires
        0 <= i <= s.len(),
        forall|j: int| s.len() - i <= j < s.len() ==> in_class(#[trigger] s[j], class),
    ensures
        trailing_run(s, class) == i + trailing_run(s.take(s.len() - i), class),
        trailing_run(s, class) <= s.len(),
    decreases s.len(),
{
    if i > 0 {
        lemma_trailing_run(s.drop_last(), class, i - 1);
        assert(s.drop_last().take(s.drop_last().len() - (i - 1)) =~= s.take(s.len() - i));
    } else {
        assert(s.take(s.len() as int) =~= s);
        if s.len() > 0 && in_class(s.last(), class) {
            lemma_trailing_run(s.drop_last(), class, 0);
        }
    }
}

/// Number of chars of `class` in `v` starting at index `start`.
pub fn count_leading(v: &Vec<char>, start: usize, class: u8) -> (n: usize)
    requires
        start <= v.len(),
    ensures
        n == leading_run(v@.skip(start as int), class),
        start + n <= v.len(),
{
    let mut i: usize = start;
    while i < v.len() && char_in_class(v[i], class)
        invariant
            start <= i <= v.len(),
            forall|j: int| start <= j < i ==> in_class(#[trigger] v@[j], class),
        decreases v.len() - i,
    {
        i = i + 1;
    }
    proof {
        let t = v@.skip(start as int);
        assert forall|j: int| 0 <= j < i - start implies in_class(#[trigger] t[j], class) by {
            assert(t[j] == v@[start + j]);
        }
        lemma_leading_run(t, class, i - start);
        let rest = t.skip(i - start);
        if i < v.len() {
            assert(rest[0] == v@[i as int]);
        } else {
            assert(rest.len() == 0);
        }
    }
    i - start
}

/// Number of chars of `class` in `v` ending just before index `end`.
pub fn count_trailing(v: &Vec<char>, end: usize, class: u8) -> (n: usize)
    requires
        end <= v.len(),
    ensures
        n == trailing_run(v@.take(end as int), class),
        n <= end,
{
    let mut i: usize = end;
    while i > 0 && char_in_class(v[i - 1], class)
        invariant
            i <= end <= v.len(),
            forall|j: int| i <= j < end ==> in_class(#[trigger] v@[j], class),
        decreases i,
    {
        i = i - 1;
    }
    proof {
        let t = v@.take(end as int);
        assert forall|j: int| t.len() - (end - i) <= j < t.len() implies in_class(#[trigger] t[j], class) by {
            assert(t[j] == v@[j]);
        }
        lemma_trailing_run(t, class, end - i);
        let rest = t.take(t.len() - (end - i));
        assert(rest =~= v@.take(i as int));
        if i > 0 {
            assert(rest.last() == v@[i - 1]);
        }
    }
    end - i
}

/// Decimal digits of `n`.
pub open spec fn decimal(n: nat) -> Seq<char>
    decreases n,
{
    if n < 10 {
        seq![digit_char(n)]
    } else {
        decimal(n / 10) + seq![digit_char(n % 10)]
    }
}

pub open spec fn digit_char(d: nat) -> char {
    if d == 0 {
        '0'
    } else if d == 1 {
        '1'
    } else if d == 2 {
        '2'
    } else if d == 3 {
        '3'
    } else if d == 4 {
        '4'
    } else if d == 5 {
        '5'
    } else if d == 6 {
        '6'
    } else if d == 7 {
        '7'
    } else if d == 8 {
        '8'
    } else {
        '9'
    }
}

fn digit_of(d: usize) -> (c: char)
    requires
        d < 10,
    ensures
        c == digit_char(d as nat),
{
    if d == 0 {
        '0'
    } else if d == 1 {
        '1'
    } else if d == 2 {
        '2'
    } else if d == 3 {
        '3'
    } else if d == 4 {
        '4'
    } else if d == 5 {
        '5'
    } else if d == 6 {
        '6'
    } else if d == 7 {
        '7'
    } else if d == 8 {
        '8'
    } else {
        '9'
    }
}

/// Appends the decimal digits of `n` to `s`.
pub fn push_decimal(s: &mut String, n: usize)
    ensures
        final(s)@ == old(s)@ + decimal(n as nat),
    decreases n,
{
    if n < 10 {
        push_char(s, digit_of(n));
    } else {
        push_decimal(s, n / 10);
        push_char(s, digit_of(n % 10));
    }
}

/// UTF-8 length of the chars of `v`, which is the content of a string.
pub fn utf8_len_of_chars(v: &Vec<char>) -> (n: usize)
    ensures
        n == byte_len(v@),
{
    let s = string_from_chars(v.as_slice());
    let n = utf8_len(s.as_str());
    n
}

/// `s` without leading and trailing whitespace (`str::trim`).
pub open spec fn trim(s: Seq<char>) -> Seq<char> {
    let rest = s.skip(leading_run(s, WHITESPACE) as int);
    rest.take(rest.len() - trailing_run(rest, WHITESPACE))
}

/// `s` without leading and trailing whitespace.
pub fn trim_str(s: &str) -> (r: String)
    ensures
        r@ == trim(s@),
{
    let v = chars_of(s);
    let a = count_leading(&v, 0, WHITESPACE);
    assert(v@.skip(0) =~= v@);
    let rest = string_from_range(&v, a, v.len());
    let rv = chars_of(rest.as_str());
    let b = count_trailing(&rv, rv.len(), WHITESPACE);
    assert(rv@.take(rv@.len() as int) =~= rv@);
    assert(v@.subrange(a as int, v@.len() as int) =~= v@.skip(a as int));
    string_from_range(&rv, 0, rv.len() - b)
}

/// Value of a sequence of decimal digits.
pub open spec fn digits_value(d: Seq<char>) -> nat
    decreases d.len(),
{
    if d.len() == 0 {
        0
    } else {
        digits_value(d.drop_last()) * 10 + ((d.last() as u32) - ('0' as u32)) as nat
    }
}

pub open spec fn is_digit(c: char) -> bool {
    '0' <= c && c <= '9'
}

/// Every char of `d` is a decimal digit.
pub open spec fn all_digits(d: Seq<char>) -> bool {
    forall|i: int| 0 <= i < d.len() ==> is_digit(#[trigger] d[i])
}

/// `s` without one leading `+`, if it has one.
pub open spec fn unsigned_part(s: Seq<char>) -> Seq<char> {
    if s.len() > 0 && s[0] == '+' {
        s.drop_first()
    } else {
        s
    }
}

/// What `usize::from_str` accepts: an optional `+` and one or more decimal
/// digits whose value fits in `usize`.
pub open spec fn parse_usize_spec(s: Seq<char>) -> Option<nat> {
    let d = unsigned_part(s);
    if d.len() > 0 && all_digits(d) && digits_value(d) <= usize::MAX {
        Some(digits_value(d))
    } else {
        None
    }
}

pub proof fn lemma_digits_value_prefix(d: Seq<char>, i: int, j: int)
    requires
        0 <= i <= j <= d.len(),
    ensures
        digits_value(d.take(i)) <= digits_value(d.take(j)),
    decreases j - i,
{
    if i < j {
        lemma_digits_value_prefix(d, i, j - 1);
        assert(d.take(j).drop_last() =~= d.take(j - 1));
    }
}

/// Parses a line number as `usize::from_str` does.
pub fn parse_usize(s: &str) -> (r: Option<usize>)
    ensures
        r matches Some(n) ==> parse_usize_spec(s@) == Some(n as nat),
        r is None ==> parse_usize_spec(s@) is None,
{
    let v = chars_of(s);
    let start: usize = if v.len() > 0 && v[0] == '+' {
        1
    } else {
        0
    };
    let ghost d = unsigned_part(s@);
    assert(d =~= v@.skip(start as int));
    if v.len() == start {
        return None;
    }
    let mut value: usize = 0;
    let mut i: usize = start;
    assert(d.take(0) =~= Seq::<char>::empty());
    while i < v.len()
        invariant
            start <= i <= v.len(),
            d == v@.skip(start as int),
            d == unsigned_part(s@),
            value == digits_value(d.take(i - start)),
            forall|j: int| 0 <= j < i - start ==> is_digit(#[trigger] d[j]),
        decreases v.len() - i,
    {
        let c = v[i];
        proof {
            assert(d[i - start] == c);
        }
        if !('0' <= c && c <= '9') {
            assert(!is_digit(d[i - start]));
            assert(!all_digits(d));
            return None;
        }
        let digit = (c as u32 - '0' as u32) as usize;
        proof {
            assert(d.take(i - start + 1).drop_last() =~= d.take(i - start));
            lemma_digits_value_prefix(d, i - start + 1, d.len() as int);
            assert(d.take(d.len() as int) =~= d);
        }
        if value > (usize::MAX - digit) / 10 {
            proof {
                let m = usize::MAX - digit;
                assert(value * 10 + digit > usize::MAX) by (nonlinear_arith)
                    requires
                        value > m / 10,
                        m == usize::MAX - digit,
                        0 <= digit <= 9,
                ;
                assert(digits_value(d.take(i - start + 1)) == value * 10 + digit);
                assert(digits_value(d) > usize::MAX);
            }
            return None;
        }
        value = value * 10 + digit;
        i = i + 1;
    }
    assert(d.take(v.len() - start) =~= d);
    assert(all_digits(d));
    Some(value)
}

} // verus!

//! Character encodings of files: detection, decoding on open and encoding on
//! save.  Detection, decoding and legacy encoding are done by `encoding_rs`
//! and `chardetng`; UTF-16 output is produced here.
use encoding_rs::Encoding;
use vstd::prelude::*;
use vstd::utf8::encode_utf8;

verus! {

#[verifier::external_type_specification]
#[verifier::external_body]
pub struct ExEncoding(Encoding);

/// The encoding that `chardetng` guesses for a whole file's bytes (its name).
pub uninterp spec fn detected_encoding(bytes: Seq<u8>) -> Seq<char>;

/// What `encoding_rs` decodes `bytes` to with the named encoding: the text,
/// and whether malformed sequences were replaced.
pub uninterp spec fn decoded(encoding: Seq<char>, bytes: Seq<u8>) -> (Seq<char>, bool);

/// The bytes `encoding_rs` encodes `text` to with the named encoding.
pub uninterp spec fn encoded(encoding: Seq<char>, text: Seq<char>) -> Seq<u8>;

/// An encoding known to `encoding_rs`; its view is the encoding's name
/// (such as `UTF-8`, `UTF-16LE` or `windows-1252`).
pub struct TextEncoding {
    name: String,
    handle: &'static Encoding,
}

impl View for TextEncoding {
    type V = Seq<char>;

    closed spec fn view(&self) -> Seq<char> {
        self.name@
    }
}

/// The UTF-8 encoding (`encoding_rs::UTF_8`, named by its `name()`).
#[verifier::external_body]
pub(crate) fn utf8_encoding() -> (e: TextEncoding)
    ensures
        e@ == "UTF-8"@,
{
    TextEncoding { name: encoding_rs::UTF_8.name().to_string(), handle: encoding_rs::UTF_8 }
}

/// `Encoding::for_bom`: the encoding announced by a byte-order mark at the start
/// of `bytes`, and the mark's length.  The contract restates the three marks the
/// function's documentation lists.
#[verifier::external_body]
pub(crate) fn sniff_bom(bytes: &[u8]) -> (r: Option<(TextEncoding, usize)>)
    ensures
        r.is_some() == (bom_kind(bytes@) != 0),
        r.is_some() ==> r.unwrap().0@ == bom_encoding(bom_kind(bytes@)),
        r.is_some() ==> r.unwrap().1 == bom_length(bom_kind(bytes@)),
{
    Encoding::for_bom(bytes).map(|(e, n)| (TextEncoding { name: e.name().to_string(), handle: e }, n))
}

/// `chardetng::EncodingDetector` fed the whole of `bytes` as the last chunk, then
/// asked for its guess with no top-level domain and UTF-8 allowed.  The guess is
/// a function of the bytes alone; the contract names it and says nothing more.
#[verifier::external_body]
pub(crate) fn guess_encoding(bytes: &[u8]) -> (e: TextEncoding)
    ensures
        e@ == detected_encoding(bytes@),
{
    let mut detector = chardetng::EncodingDetector::new();
    detector.feed(bytes, true);
    let e = detector.guess(None, true);
    TextEncoding { name: e.name().to_string(), handle: e }
}

/// `Encoding::decode`: decodes `bytes` (sniffing a byte-order mark again, as the
/// function does) and reports whether malformed sequences were replaced.  The
/// contract names the result and says nothing more of it.
#[verifier::external_body]
pub(crate) fn decode_with(enc: &TextEncoding, bytes: &[u8]) -> (r: (String, bool))
    ensures
        (r.0@, r.1) == decoded(enc@, bytes@),
{
    let (text, _, had_errors) = enc.handle.decode(bytes);
    (text.into_owned(), had_errors)
}

/// `Encoding::encode`: encodes `text`.  The contract names the result; it also
/// states what the source shows for UTF-8, whose output is the text's own UTF-8
/// bytes.
#[verifier::external_body]
pub(crate) fn encode_with(enc: &TextEncoding, text: &str) -> (r: Vec<u8>)
    ensures
        r@ == encoded(enc@, text@),
        enc@ == "UTF-8"@ ==> r@ == encode_utf8(text@),
{
    let (bytes, _, _) = enc.handle.encode(text);
    bytes.into_owned()
}

/// Which byte-order mark `bytes` starts with: 1 for UTF-8, 2 for UTF-16LE, 3 for
/// UTF-16BE, 0 for none.
pub open spec fn bom_kind(bytes: Seq<u8>) -> int {
    if bytes.len() >= 3 && bytes[0] == 0xEF && bytes[1] == 0xBB && bytes[2] == 0xBF {
        1
    } else if bytes.len() >= 2 && bytes[0] == 0xFF && bytes[1] == 0xFE {
        2
    } else if bytes.len() >= 2 && bytes[0] == 0xFE && bytes[1] == 0xFF {
        3
    } else {
        0
    }
}

/// Name of the encoding a byte-order mark of the given kind announces.
pub open spec fn bom_encoding(kind: int) -> Seq<char> {
    if kind == 1 {
        "UTF-8"@
    } else if kind == 2 {
        "UTF-16LE"@
    } else {
        "UTF-16BE"@
    }
}

/// Length in bytes of a byte-order mark of the given kind.
pub open spec fn bom_length(kind: int) -> nat {
    if kind == 1 {
        3
    } else {
        2
    }
}

/// UTF-16 code units of one char.
pub open spec fn utf16_units(c: char) -> Seq<u16> {
    let v = c as u32;
    if v < 0x10000 {
        seq![v as u16]
    } else {
        let w = v - 0x10000;
        seq![(0xD800 + w / 0x400) as u16, (0xDC00 + w % 0x400) as u16]
    }
}

/// The two bytes of a code unit, low byte first when `little`.
pub open spec fn unit_bytes(u: u16, little: bool) -> Seq<u8> {
    if little {
        seq![(u % 256) as u8, (u / 256) as u8]
    } else {
        seq![(u / 256) as u8, (u % 256) as u8]
    }
}

/// The bytes of the UTF-16 code units of one char.
pub open spec fn char_utf16_bytes(c: char, little: bool) -> Seq<u8> {
    let units = utf16_units(c);
    if units.len() == 1 {
        unit_bytes(units[0], little)
    } else {
        unit_bytes(units[0], little) + unit_bytes(units[1], little)
    }
}

/// UTF-16 encoding of `s`, little-endian when `little`, big-endian otherwise.
pub open spec fn utf16_bytes(s: Seq<char>, little: bool) -> Seq<u8>
    decreases s.len(),
{
    if s.len() == 0 {
        Seq::empty()
    } else {
        utf16_bytes(s.drop_last(), little) + char_utf16_bytes(s.last(), little)
    }
}

/// The bytes written for `content` in encoding `enc`: UTF-16 is produced by
/// hand (with its byte-order mark if the file had one), UTF-8 is the text's own
/// bytes (after its byte-order mark if the file had one), other encodings come
/// from `encoding_rs`.
pub open spec fn file_bytes_for(enc: Seq<char>, has_bom: bool, content: Seq<char>) -> Seq<u8> {
    if enc == "UTF-16LE"@ {
        (if has_bom { seq![0xFFu8, 0xFEu8] } else { Seq::empty() }) + utf16_bytes(content, true)
    } else if enc == "UTF-16BE"@ {
        (if has_bom { seq![0xFEu8, 0xFFu8] } else { Seq::empty() }) + utf16_bytes(content, false)
    } else if enc == "UTF-8"@ {
        (if has_bom { seq![0xEFu8, 0xBBu8, 0xBFu8] } else { Seq::empty() }) + encode_utf8(content)
    } else {
        encoded(enc, content)
    }
}

impl TextEncoding {
    /// The encoding's name.
    pub fn name(&self) -> (s: &str)
        ensures
            s@ == self@,
    {
        self.name.as_str()
    }
}

/// Equality of two strings, char by char.
pub fn str_eq(a: &str, b: &str) -> (r: bool)
    ensures
        r == (a@ == b@),
{
    let va = crate::text::chars_of(a);
    let vb = crate::text::chars_of(b);
    if va.len() != vb.len() {
        return false;
    }
    let mut i: usize = 0;
    while i < va.len()
        invariant
            va@ == a@,
            vb@ == b@,
            va.len() == vb.len(),
            i <= va.len(),
            forall|j: int| 0 <= j < i ==> va@[j] == vb@[j],
        decreases va.len() - i,
    {
        if va[i] != vb[i] {
            return false;
        }
        i = i + 1;
    }
    assert(va@ =~= vb@);
    true
}

fn push_unit(out: &mut Vec<u8>, u: u16, little: bool)
    ensures
        final(out)@ == old(out)@ + unit_bytes(u, little),
{
    let lo = (u % 256) as u8;
    let hi = (u / 256) as u8;
    if little {
        out.push(lo);
        out.push(hi);
    } else {
        out.push(hi);
        out.push(lo);
    }
    assert(final(out)@ =~= old(out)@ + unit_bytes(u, little));
}

/// Appends the UTF-16 encoding of `text` to `out`.
pub fn push_utf16(out: &mut Vec<u8>, text: &str, little: bool)
    ensures
        final(out)@ == old(out)@ + utf16_bytes(text@, little),
{
    let chars = crate::text::chars_of(text);
    let ghost start = out@;
    let mut i: usize = 0;
    assert(chars@.take(0) =~= Seq::<char>::empty());
    assert(start + utf16_bytes(Seq::<char>::empty(), little) =~= start);
    while i < chars.len()
        invariant
            chars@ == text@,
            i <= chars.len(),
            out@ == start + utf16_bytes(chars@.take(i as int), little),
        decreases chars.len() - i,
    {
        let c = chars[i];
        let v = c as u32;
        let ghost before = out@;
        if v < 0x10000 {
            push_unit(out, v as u16, little);
        } else {
            let w = v - 0x10000;
            push_unit(out, (0xD800 + w / 0x400) as u16, little);
            push_unit(out, (0xDC00 + w % 0x400) as u16, little);
        }
        proof {
            let t = chars@.take(i + 1);
            assert(t.drop_last() =~= chars@.take(i as int));
            assert(out@ =~= before + char_utf16_bytes(c, little));
            assert(out@ =~= start + utf16_bytes(t, little));
        }
        i = i + 1;
    }
    assert(chars@.take(chars.len() as int) =~= chars@);
}

/// Encodes `content` for writing to a file in encoding `enc` (see
/// [`file_bytes_for`]).
pub fn encode_file_bytes(enc: &TextEncoding, has_bom: bool, content: &str) -> (r: Vec<u8>)
    ensures
        r@ == file_bytes_for(enc@, has_bom, content@),
{
    let le = String::from_str("UTF-16LE");
    let be = String::from_str("UTF-16BE");
    let u8name = String::from_str("UTF-8");
    if str_eq(enc.name(), le.as_str()) {
        let mut bytes: Vec<u8> = Vec::new();
        if has_bom {
            bytes.push(0xFF);
            bytes.push(0xFE);
        }
        push_utf16(&mut bytes, content, true);
        return bytes;
    }
    if str_eq(enc.name(), be.as_str()) {
        let mut bytes: Vec<u8> = Vec::new();
        if has_bom {
            bytes.push(0xFE);
            bytes.push(0xFF);
        }
        push_utf16(&mut bytes, content, false);
        return bytes;
    }
    let encoded = encode_with(enc, content);
    if has_bom && str_eq(enc.name(), u8name.as_str()) {
        let mut result: Vec<u8> = Vec::new();
        result.push(0xEF);
        result.push(0xBB);
        result.push(0xBF);
        let mut i: usize = 0;
        while i < encoded.len()
            invariant
                i <= encoded.len(),
                result@ == seq![0xEFu8, 0xBBu8, 0xBFu8] + encoded@.take(i as int),
            decreases encoded.len() - i,
        {
            result.push(encoded[i]);
            assert(encoded@.take(i + 1) =~= encoded@.take(i as int).push(encoded@[i as int]));
            i = i + 1;
        }
        assert(encoded@.take(encoded.len() as int) =~= encoded@);
        return result;
    }
    encoded
}

} // verus!

use vstd::prelude::*;
use codepage_437::{BorrowFromCp437, ToCp437, CP437_CONTROL};
use crate::character_set::CharacterSet;
use crate::error::Error;
use crate::util::chars_to_string;

verus! {

/// What encoding_rs gives for the encoding named `label` (WHATWG Encoding
/// Standard) on the text `input`: the bytes and whether some character had
/// no representation; `None` when no encoding has that name.
pub uninterp spec fn encoded_with_label(label: Seq<char>, input: Seq<char>) -> Option<(Seq<u8>, bool)>;

/// What encoding_rs gives for the encoding named `label` on the bytes
/// `input`: the text and whether some bytes were malformed; `None` when no
/// encoding has that name.
pub uninterp spec fn decoded_with_label(label: Seq<char>, input: Seq<u8>) -> Option<(Seq<char>, bool)>;

/// The bytes of `input` in code page 437 (control-character dialect of the
/// codepage-437 crate); `None` when some character has no representation.
pub uninterp spec fn cp437_encoded(input: Seq<char>) -> Option<Seq<u8>>;

/// The text that the bytes `input` are in code page 437 (control-character
/// dialect of the codepage-437 crate).
pub uninterp spec fn cp437_decoded(input: Seq<u8>) -> Seq<char>;

/// Encodes `input` with the encoding that `label` names.
///
/// Calls `encoding_rs::Encoding::for_label` and then `Encoding::encode`; the
/// result is named (`encoded_with_label`), as it depends on the label and
/// the text alone. Nothing more is stated of it.
#[verifier::external_body]
fn encode_with_label(label: &str, input: &str) -> (res: Option<(Vec<u8>, bool)>)
    ensures
        match res {
            Some((bytes, had_errors)) => encoded_with_label(label@, input@) == Some((bytes@, had_errors)),
            None => encoded_with_label(label@, input@) is None,
        },
{
    match encoding_rs::Encoding::for_label(label.as_bytes()) {
        Some(encoding) => {
            let (bytes, _, had_errors) = encoding.encode(input);
            Some((bytes.into_owned(), had_errors))
        },
        None => None,
    }
}

/// Decodes `input` with the encoding that `label` names.
///
/// Calls `encoding_rs::Encoding::for_label` and then `Encoding::decode`
/// (which honours a byte order mark); the result is named
/// (`decoded_with_label`), as it depends on the label and the bytes alone.
#[verifier::external_body]
fn decode_with_label(label: &str, input: &[u8]) -> (res: Option<(String, bool)>)
    ensures
        match res {
            Some((text, had_errors)) => decoded_with_label(label@, input@) == Some((text@, had_errors)),
            None => decoded_with_label(label@, input@) is None,
        },
{
    match encoding_rs::Encoding::for_label(label.as_bytes()) {
        Some(encoding) => {
            let (text, _, had_errors) = encoding.decode(input);
            Some((text.into_owned(), had_errors))
        },
        None => None,
    }
}

/// Encodes `input` in code page 437.
///
/// Calls `codepage_437::ToCp437::to_cp437` with `CP437_CONTROL`. Its source
/// maps each character to one byte and fails when one has none, so the
/// bytes are as many as the characters; which bytes is named
/// (`cp437_encoded`).
#[verifier::external_body]
fn cp437_encode(input: &str) -> (res: Option<Vec<u8>>)
    ensures
        match res {
            Some(bytes) => cp437_encoded(input@) == Some(bytes@) && bytes@.len() == input@.len(),
            None => cp437_encoded(input@) is None,
        },
{
    match input.to_cp437(&CP437_CONTROL) {
        Ok(bytes) => Some(bytes.to_vec()),
        Err(_) => None,
    }
}

/// Decodes `input` from code page 437.
///
/// Calls `codepage_437::BorrowFromCp437::borrow_from_cp437` with
/// `CP437_CONTROL`. Its source maps each byte to one character, so the text
/// has as many characters as there are bytes; which characters is named
/// (`cp437_decoded`).
#[verifier::external_body]
fn cp437_decode(input: &[u8]) -> (res: String)
    ensures
        res@ == cp437_decoded(input@),
        res@.len() == input@.len(),
{
    String::borrow_from_cp437(input, &CP437_CONTROL)
}

/// The character whose scalar value is `value`.
///
/// Calls `char::from_u32`, which the standard library documents as giving
/// the character when `value` is a Unicode scalar value (at most 0x10FFFF,
/// not a surrogate) and `None` otherwise.
#[verifier::external_body]
fn char_from_u32(value: u32) -> (res: Option<char>)
    ensures
        res is Some <==> is_scalar_value(value),
        res matches Some(c) ==> c as u32 == value,
{
    char::from_u32(value)
}

/// Whether `value` is a Unicode scalar value.
pub open spec fn is_scalar_value(value: u32) -> bool {
    value <= 0x10FFFF && !(0xD800 <= value <= 0xDFFF)
}

/// The characters of a string.
fn chars_of(s: &str) -> (res: Vec<char>)
    ensures
        res@ == s@,
{
    let mut out: Vec<char> = Vec::new();
    for c in it: s.chars()
        invariant
            out@ == it.seq().take(it.index() as int),
    {
        out.push(c);
    }
    out
}

/// The UTF-16 code units of a character.
pub open spec fn utf16_units(c: char) -> Seq<u16> {
    let v = c as u32;
    if v < 0x10000 {
        seq![v as u16]
    } else {
        let w = v - 0x10000;
        seq![(0xD800 + w / 1024) as u16, (0xDC00 + w % 1024) as u16]
    }
}

/// The two bytes of a 16-bit value, most significant first when
/// `big_endian`.
pub open spec fn u16_bytes(u: u16, big_endian: bool) -> Seq<u8> {
    if big_endian {
        seq![(u / 256) as u8, (u % 256) as u8]
    } else {
        seq![(u % 256) as u8, (u / 256) as u8]
    }
}

/// The four bytes of a 32-bit value, most significant first when
/// `big_endian`.
pub open spec fn u32_bytes(v: u32, big_endian: bool) -> Seq<u8> {
    let b = seq![
        (v / 0x1000000) as u8,
        (v / 0x10000 % 256) as u8,
        (v / 0x100 % 256) as u8,
        (v % 256) as u8,
    ];
    if big_endian {
        b
    } else {
        b.reverse()
    }
}

/// The bytes of a character in UTF-16.
pub open spec fn utf16_char_bytes(c: char, big_endian: bool) -> Seq<u8> {
    let units = utf16_units(c);
    if units.len() == 1 {
        u16_bytes(units[0], big_endian)
    } else {
        u16_bytes(units[0], big_endian) + u16_bytes(units[1], big_endian)
    }
}

/// The bytes of a text in UTF-16.
pub open spec fn utf16_encoded(s: Seq<char>, big_endian: bool) -> Seq<u8>
    decreases s.len(),
{
    if s.len() == 0 {
        seq![]
    } else {
        utf16_encoded(s.drop_last(), big_endian) + utf16_char_bytes(s.last(), big_endian)
    }
}

/// The bytes of a text in UTF-32.
pub open spec fn utf32_encoded(s: Seq<char>, big_endian: bool) -> Seq<u8>
    decreases s.len(),
{
    if s.len() == 0 {
        seq![]
    } else {
        utf32_encoded(s.drop_last(), big_endian) + u32_bytes(s.last() as u32, big_endian)
    }
}

/// The bytes of a text in code page 437, a `?` for each character that has
/// none.
pub open spec fn cp437_replaced(s: Seq<char>) -> Seq<u8>
    decreases s.len(),
{
    if s.len() == 0 {
        seq![]
    } else {
        cp437_replaced(s.drop_last()) + match cp437_encoded(seq![s.last()]) {
            Some(b) => b,
            None => seq![63u8],
        }
    }
}

/// Whether every character of `s` is below `limit`.
pub open spec fn all_below(s: Seq<char>, limit: u32) -> bool {
    forall|i: int| 0 <= i < s.len() ==> (#[trigger] s[i] as u32) < limit
}

/// The byte of each character of `s`, a `?` for each at or above `limit`.
pub open spec fn bytes_below(s: Seq<char>, limit: u32) -> Seq<u8> {
    s.map_values(|c: char| if (c as u32) < limit { (c as u32) as u8 } else { 63u8 })
}

/// The name of the encoding that encoding_rs gives a character set (the
/// label of the WHATWG Encoding Standard); `None` for a set without one.
pub open spec fn spec_encoding_label(cs: CharacterSet) -> Option<Seq<char>> {
    match cs {
        CharacterSet::ISO8859_2 => Some("iso-8859-2"@),
        CharacterSet::ISO8859_3 => Some("iso-8859-3"@),
        CharacterSet::ISO8859_4 => Some("iso-8859-4"@),
        CharacterSet::ISO8859_5 => Some("iso-8859-5"@),
        CharacterSet::ISO8859_6 => Some("iso-8859-6"@),
        CharacterSet::ISO8859_7 => Some("iso-8859-7"@),
        CharacterSet::ISO8859_8 => Some("iso-8859-8"@),
        CharacterSet::ISO8859_9 => Some("iso-8859-9"@),
        CharacterSet::ISO8859_10 => Some("iso-8859-10"@),
        CharacterSet::ISO8859_11 => Some("iso-8859-11"@),
        CharacterSet::ISO8859_13 => Some("iso-8859-13"@),
        CharacterSet::ISO8859_14 => Some("iso-8859-14"@),
        CharacterSet::ISO8859_15 => Some("iso-8859-15"@),
        CharacterSet::ISO8859_16 => Some("iso-8859-16"@),
        CharacterSet::ShiftJis => Some("shift_jis"@),
        CharacterSet::Cp1250 => Some("windows-1250"@),
        CharacterSet::Cp1251 => Some("windows-1251"@),
        CharacterSet::Cp1252 => Some("windows-1252"@),
        CharacterSet::Cp1256 => Some("windows-1256"@),
        CharacterSet::UTF8 => Some("utf-8"@),
        CharacterSet::ASCII => Some("ascii"@),
        CharacterSet::Big5 => Some("big5"@),
        CharacterSet::GB18030 => Some("gb18030"@),
        CharacterSet::GB2312 => Some("gb2312"@),
        CharacterSet::EucKr => Some("euc-kr"@),
        CharacterSet::UTF16BE => Some("utf-16be"@),
        CharacterSet::UTF16LE => Some("utf-16le"@),
        _ => None,
    }
}

/// The label of the encoding of a character set; see `spec_encoding_label`.
fn encoding_label(cs: CharacterSet) -> (res: Option<&'static str>)
    ensures
        match res {
            Some(label) => spec_encoding_label(cs) == Some(label@),
            None => spec_encoding_label(cs) is None,
        },
{
    match cs {
        CharacterSet::ISO8859_2 => Some("iso-8859-2"),
        CharacterSet::ISO8859_3 => Some("iso-8859-3"),
        CharacterSet::ISO8859_4 => Some("iso-8859-4"),
        CharacterSet::ISO8859_5 => Some("iso-8859-5"),
        CharacterSet::ISO8859_6 => Some("iso-8859-6"),
        CharacterSet::ISO8859_7 => Some("iso-8859-7"),
        CharacterSet::ISO8859_8 => Some("iso-8859-8"),
        CharacterSet::ISO8859_9 => Some("iso-8859-9"),
        CharacterSet::ISO8859_10 => Some("iso-8859-10"),
        CharacterSet::ISO8859_11 => Some("iso-8859-11"),
        CharacterSet::ISO8859_13 => Some("iso-8859-13"),
        CharacterSet::ISO8859_14 => Some("iso-8859-14"),
        CharacterSet::ISO8859_15 => Some("iso-8859-15"),
        CharacterSet::ISO8859_16 => Some("iso-8859-16"),
        CharacterSet::ShiftJis => Some("shift_jis"),
        CharacterSet::Cp1250 => Some("windows-1250"),
        CharacterSet::Cp1251 => Some("windows-1251"),
        CharacterSet::Cp1252 => Some("windows-1252"),
        CharacterSet::Cp1256 => Some("windows-1256"),
        CharacterSet::UTF8 => Some("utf-8"),
        CharacterSet::ASCII => Some("ascii"),
        CharacterSet::Big5 => Some("big5"),
        CharacterSet::GB18030 => Some("gb18030"),
        CharacterSet::GB2312 => Some("gb2312"),
        CharacterSet::EucKr => Some("euc-kr"),
        CharacterSet::UTF16BE => Some("utf-16be"),
        CharacterSet::UTF16LE => Some("utf-16le"),
        _ => None,
    }
}

fn push_u16(out: &mut Vec<u8>, u: u16, big_endian: bool)
    ensures
        final(out)@ == old(out)@ + u16_bytes(u, big_endian),
{
    let hi = (u / 256) as u8;
    let lo = (u % 256) as u8;
    if big_endian {
        out.push(hi);
        out.push(lo);
    } else {
        out.push(lo);
        out.push(hi);
    }
    assert(final(out)@ =~= old(out)@ + u16_bytes(u, big_endian));
}

fn push_u32(out: &mut Vec<u8>, v: u32, big_endian: bool)
    ensures
        final(out)@ == old(out)@ + u32_bytes(v, big_endian),
{
    let b0 = (v / 0x1000000) as u8;
    let b1 = (v / 0x10000 % 256) as u8;
    let b2 = (v / 0x100 % 256) as u8;
    let b3 = (v % 256) as u8;
    if big_endian {
        out.push(b0);
        out.push(b1);
        out.push(b2);
        out.push(b3);
    } else {
        out.push(b3);
        out.push(b2);
        out.push(b1);
        out.push(b0);
    }
    assert(final(out)@ =~= old(out)@ + u32_bytes(v, big_endian));
}

fn utf16_encode(chars: &Vec<char>, big_endian: bool) -> (res: Vec<u8>)
    ensures
        res@ == utf16_encoded(chars@, big_endian),
{
    let mut out: Vec<u8> = Vec::new();
    let mut i: usize = 0;
    while i < chars.len()
        invariant
            i <= chars@.len(),
            out@ == utf16_encoded(chars@.take(i as int), big_endian),
        decreases chars@.len() - i,
    {
        let c = chars[i];
        let v = c as u32;
        if v < 0x10000 {
            push_u16(&mut out, v as u16, big_endian);
        } else {
            let w = v - 0x10000;
            push_u16(&mut out, (0xD800 + w / 1024) as u16, big_endian);
            push_u16(&mut out, (0xDC00 + w % 1024) as u16, big_endian);
        }
        proof {
            assert(chars@.take(i as int + 1).drop_last() =~= chars@.take(i as int));
            assert(chars@.take(i as int + 1).last() == c);
        }
        i = i + 1;
    }
    proof {
        assert(chars@.take(i as int) =~= chars@);
    }
    out
}

fn utf32_encode(chars: &Vec<char>, big_endian: bool) -> (res: Vec<u8>)
    ensures
        res@ == utf32_encoded(chars@, big_endian),
{
    let mut out: Vec<u8> = Vec::new();
    let mut i: usize = 0;
    while i < chars.len()
        invariant
            i <= chars@.len(),
            out@ == utf32_encoded(chars@.take(i as int), big_endian),
        decreases chars@.len() - i,
    {
        let c = chars[i];
        push_u32(&mut out, c as u32, big_endian);
        proof {
            assert(chars@.take(i as int + 1).drop_last() =~= chars@.take(i as int));
            assert(chars@.take(i as int + 1).last() == c);
        }
        i = i + 1;
    }
    proof {
        assert(chars@.take(i as int) =~= chars@);
    }
    out
}

/// The byte of each character, each below `limit` (at most 256), or `None`
/// when one is not.
fn narrow_encode(chars: &Vec<char>, limit: u32) -> (res: Option<Vec<u8>>)
    requires
        limit <= 256,
    ensures
        all_below(chars@, limit) ==> (res matches Some(v) && v@ == chars@.map_values(|c: char| (c as u32) as u8)),
        !all_below(chars@, limit) ==> res is None,
{
    let mut out: Vec<u8> = Vec::new();
    let mut i: usize = 0;
    while i < chars.len()
        invariant
            i <= chars@.len(),
            limit <= 256,
            all_below(chars@.take(i as int), limit),
            out@ == chars@.take(i as int).map_values(|c: char| (c as u32) as u8),
        decreases chars@.len() - i,
    {
        let c = chars[i];
        if c as u32 >= limit {
            assert(!all_below(chars@, limit)) by {
                assert(chars@[i as int] == c);
            }
            return None;
        }
        out.push((c as u32) as u8);
        proof {
            assert(chars@.take(i as int + 1) =~= chars@.take(i as int).push(c));
            assert(out@ =~= chars@.take(i as int + 1).map_values(|c: char| (c as u32) as u8));
        }
        i = i + 1;
    }
    proof {
        assert(chars@.take(i as int) =~= chars@);
    }
    Some(out)
}

/// The byte of each character, a `?` for each at or above `limit` (at most
/// 256).
fn narrow_encode_replace(chars: &Vec<char>, limit: u32) -> (res: Vec<u8>)
    requires
        limit <= 256,
    ensures
        res@ == bytes_below(chars@, limit),
{
    let mut out: Vec<u8> = Vec::new();
    let mut i: usize = 0;
    while i < chars.len()
        invariant
            i <= chars@.len(),
            limit <= 256,
            out@ == bytes_below(chars@.take(i as int), limit),
        decreases chars@.len() - i,
    {
        let c = chars[i];
        if c as u32 >= limit {
            out.push(63u8);
        } else {
            out.push((c as u32) as u8);
        }
        proof {
            assert(chars@.take(i as int + 1) =~= chars@.take(i as int).push(c));
            assert(out@ =~= bytes_below(chars@.take(i as int + 1), limit));
        }
        i = i + 1;
    }
    proof {
        assert(chars@.take(i as int) =~= chars@);
    }
    out
}

/// The bytes of each character in code page 437, a `?` for each that has
/// none.
fn cp437_encode_replace(chars: &Vec<char>) -> (res: Vec<u8>)
    ensures
        res@ == cp437_replaced(chars@),
{
    let mut out: Vec<u8> = Vec::new();
    let mut i: usize = 0;
    while i < chars.len()
        invariant
            i <= chars@.len(),
            out@ == cp437_replaced(chars@.take(i as int)),
        decreases chars@.len() - i,
    {
        let c = chars[i];
        let mut one: Vec<char> = Vec::new();
        one.push(c);
        let buf = chars_to_string(one);
        assert(buf@ =~= seq![c]);
        match cp437_encode(buf.as_str()) {
            Some(b) => {
                let mut k: usize = 0;
                let ghost before = out@;
                while k < b.len()
                    invariant
                        k <= b@.len(),
                        out@ == before + b@.take(k as int),
                    decreases b@.len() - k,
                {
                    out.push(b[k]);
                    assert(b@.take(k as int + 1) =~= b@.take(k as int).push(b@[k as int]));
                    k = k + 1;
                }
                assert(b@.take(k as int) =~= b@);
            },
            None => {
                out.push(63u8);
            },
        }
        proof {
            assert(chars@.take(i as int + 1).drop_last() =~= chars@.take(i as int));
            assert(chars@.take(i as int + 1).last() == c);
        }
        i = i + 1;
    }
    proof {
        assert(chars@.take(i as int) =~= chars@);
    }
    out
}

/// Scalar value of the 4-byte group `i` of `bytes`, most significant byte
/// first when `big_endian`.
pub open spec fn chunk_value(bytes: Seq<u8>, i: int, big_endian: bool) -> u32 {
    let (a, b, c, d) = if big_endian {
        (bytes[4 * i], bytes[4 * i + 1], bytes[4 * i + 2], bytes[4 * i + 3])
    } else {
        (bytes[4 * i + 3], bytes[4 * i + 2], bytes[4 * i + 1], bytes[4 * i])
    };
    (a * 0x1000000 + b * 0x10000 + c * 0x100 + d) as u32
}

/// The scalar value of a character.
pub open spec fn char_value(c: char) -> u32 {
    c as u32
}

/// The character of scalar value `value`, or U+FFFD REPLACEMENT CHARACTER
/// when `value` is not a scalar value.
pub open spec fn scalar_char(value: u32) -> char {
    if is_scalar_value(value) {
        choose|c: char| #[trigger] char_value(c) == value
    } else {
        '\u{FFFD}'
    }
}

/// The characters that the complete 4-byte groups of `bytes` are in UTF-32,
/// U+FFFD for each group that is no scalar value.
pub open spec fn utf32_text(bytes: Seq<u8>, big_endian: bool) -> Seq<char> {
    Seq::new(bytes.len() / 4, |i: int| scalar_char(chunk_value(bytes, i, big_endian)))
}

/// Whether every complete 4-byte group of `bytes` is a scalar value.
pub open spec fn utf32_valid(bytes: Seq<u8>, big_endian: bool) -> bool {
    forall|i: int| 0 <= i < bytes.len() / 4 ==> is_scalar_value(#[trigger] chunk_value(bytes, i, big_endian))
}

/// The character of each byte (ISO 8859-1 maps byte `b` to U+00`b`).
pub open spec fn latin1_text(bytes: Seq<u8>) -> Seq<char> {
    bytes.map_values(|b: u8| b as char)
}

/// Whether every byte is below 0x80.
pub open spec fn all_ascii(bytes: Seq<u8>) -> bool {
    forall|i: int| 0 <= i < bytes.len() ==> #[trigger] bytes[i] < 0x80
}

/// The character of each byte, U+FFFD for each at or above 0x80.
pub open spec fn ascii_text_replaced(bytes: Seq<u8>) -> Seq<char> {
    bytes.map_values(|b: u8| if b < 0x80 { b as char } else { '\u{FFFD}' })
}

fn chunk_value_at(bytes: &[u8], i: usize, big_endian: bool) -> (res: u32)
    requires
        4 * i + 4 <= bytes@.len(),
    ensures
        res == chunk_value(bytes@, i as int, big_endian),
{
    let len = bytes.len();
    let k = 4 * i;
    let (a, b, c, d) = if big_endian {
        (bytes[k], bytes[k + 1], bytes[k + 2], bytes[k + 3])
    } else {
        (bytes[k + 3], bytes[k + 2], bytes[k + 1], bytes[k])
    };
    a as u32 * 0x1000000 + b as u32 * 0x10000 + c as u32 * 0x100 + d as u32
}

proof fn lemma_scalar_char(c: char, value: u32)
    requires
        c as u32 == value,
    ensures
        is_scalar_value(value),
        scalar_char(value) == c,
{
    assert(char_value(c) == value);
    let d = choose|d: char| #[trigger] char_value(d) == value;
    assert(char_value(d) == value);
}

/// The characters of the 4-byte groups of `bytes` in UTF-32; `None` when a
/// group is no scalar value. The length must be a multiple of 4.
fn utf32_decode(bytes: &[u8], big_endian: bool) -> (res: Option<Vec<char>>)
    requires
        bytes@.len() % 4 == 0,
    ensures
        utf32_valid(bytes@, big_endian) ==> (res matches Some(v) && v@ == utf32_text(bytes@, big_endian)),
        !utf32_valid(bytes@, big_endian) ==> res is None,
{
    let n = bytes.len() / 4;
    let mut out: Vec<char> = Vec::new();
    let mut i: usize = 0;
    while i < n
        invariant
            n == bytes@.len() / 4,
            i <= n,
            out@ == utf32_text(bytes@, big_endian).take(i as int),
            forall|j: int| 0 <= j < i ==> is_scalar_value(#[trigger] chunk_value(bytes@, j, big_endian)),
        decreases n - i,
    {
        let v = chunk_value_at(bytes, i, big_endian);
        match char_from_u32(v) {
            Some(c) => {
                proof {
                    lemma_scalar_char(c, v);
                }
                out.push(c);
                assert(out@ =~= utf32_text(bytes@, big_endian).take(i as int + 1));
            },
            None => {
                assert(!utf32_valid(bytes@, big_endian)) by {
                    assert(!is_scalar_value(chunk_value(bytes@, i as int, big_endian)));
                }
                return None;
            },
        }
        i = i + 1;
    }
    assert(out@ =~= utf32_text(bytes@, big_endian));
    Some(out)
}

/// The characters of the complete 4-byte groups of `bytes` in UTF-32, with
/// U+FFFD for each group that is no scalar value and one more for trailing
/// bytes.
fn utf32_decode_replace(bytes: &[u8], big_endian: bool) -> (res: Vec<char>)
    ensures
        res@ == utf32_text(bytes@, big_endian) + if bytes@.len() % 4 != 0 {
            seq!['\u{FFFD}']
        } else {
            Seq::<char>::empty()
        },
{
    let n = bytes.len() / 4;
    let mut out: Vec<char> = Vec::new();
    let mut i: usize = 0;
    while i < n
        invariant
            n == bytes@.len() / 4,
            i <= n,
            out@ == utf32_text(bytes@, big_endian).take(i as int),
        decreases n - i,
    {
        let v = chunk_value_at(bytes, i, big_endian);
        match char_from_u32(v) {
            Some(c) => {
                proof {
                    lemma_scalar_char(c, v);
                }
                out.push(c);
            },
            None => {
                out.push('\u{FFFD}');
            },
        }
        assert(out@ =~= utf32_text(bytes@, big_endian).take(i as int + 1));
        i = i + 1;
    }
    assert(out@ =~= utf32_text(bytes@, big_endian));
    if bytes.len() % 4 != 0 {
        out.push('\u{FFFD}');
    }
    out
}

/// The character of each byte (ISO 8859-1).
fn latin1_decode(bytes: &[u8]) -> (res: Vec<char>)
    ensures
        res@ == latin1_text(bytes@),
{
    let mut out: Vec<char> = Vec::new();
    let mut i: usize = 0;
    while i < bytes.len()
        invariant
            i <= bytes@.len(),
            out@ == latin1_text(bytes@.take(i as int)),
        decreases bytes@.len() - i,
    {
        out.push(bytes[i] as char);
        assert(bytes@.take(i as int + 1) =~= bytes@.take(i as int).push(bytes@[i as int]));
        assert(out@ =~= latin1_text(bytes@.take(i as int + 1)));
        i = i + 1;
    }
    assert(bytes@.take(i as int) =~= bytes@);
    out
}

/// The character of each byte, U+FFFD for each at or above 0x80 when
/// `replace`; with `replace` unset, `None` when a byte is at or above 0x80.
fn ascii_decode(bytes: &[u8], replace: bool) -> (res: Option<Vec<char>>)
    ensures
        replace ==> (res matches Some(v) && v@ == ascii_text_replaced(bytes@)),
        !replace && all_ascii(bytes@) ==> (res matches Some(v) && v@ == latin1_text(bytes@)),
        !replace && !all_ascii(bytes@) ==> res is None,
{
    let mut out: Vec<char> = Vec::new();
    let mut i: usize = 0;
    while i < bytes.len()
        invariant
            i <= bytes@.len(),
            replace ==> out@ == ascii_text_replaced(bytes@.take(i as int)),
            !replace ==> out@ == latin1_text(bytes@.take(i as int)) && all_ascii(bytes@.take(i as int)),
        decreases bytes@.len() - i,
    {
        let b = bytes[i];
        assert(bytes@.take(i as int + 1) =~= bytes@.take(i as int).push(b));
        if b >= 0x80 {
            if !replace {
                assert(!all_ascii(bytes@)) by {
                    assert(bytes@[i as int] == b);
                }
                return None;
            }
            out.push('\u{FFFD}');
        } else {
            out.push(b as char);
        }
        assert(replace ==> out@ =~= ascii_text_replaced(bytes@.take(i as int + 1)));
        assert(!replace ==> out@ =~= latin1_text(bytes@.take(i as int + 1)));
        i = i + 1;
    }
    assert(bytes@.take(i as int) =~= bytes@);
    Some(out)
}

/// The bytes that encoding_rs gives for a text in the encoding of `label`,
/// an invalid format when a character has no representation there or when
/// there is no such encoding.
pub open spec fn label_encode(label: Option<Seq<char>>, s: Seq<char>) -> Result<Seq<u8>, Error> {
    match label {
        Some(l) => match encoded_with_label(l, s) {
            Some((bytes, false)) => Ok(bytes),
            _ => Err(Error::InvalidFormat),
        },
        None => Err(Error::InvalidFormat),
    }
}

/// What `CharacterSet::encode` gives for the text `s`.
pub open spec fn spec_encode(cs: CharacterSet, s: Seq<char>) -> Result<Seq<u8>, Error> {
    match cs {
        CharacterSet::Cp437 => match cp437_encoded(s) {
            Some(bytes) => Ok(bytes),
            None => Err(Error::InvalidFormat),
        },
        CharacterSet::UTF16BE => Ok(utf16_encoded(s, true)),
        CharacterSet::UTF16LE => Ok(utf16_encoded(s, false)),
        CharacterSet::UTF32BE => Ok(utf32_encoded(s, true)),
        CharacterSet::UTF32LE => Ok(utf32_encoded(s, false)),
        CharacterSet::Binary | CharacterSet::ISO8859_1 => if all_below(s, 0x100) {
            Ok(s.map_values(|c: char| (c as u32) as u8))
        } else {
            Err(Error::InvalidFormat)
        },
        CharacterSet::ASCII => if all_below(s, 0x80) {
            Ok(s.map_values(|c: char| (c as u32) as u8))
        } else {
            Err(Error::InvalidFormat)
        },
        _ => label_encode(spec_encoding_label(cs), s),
    }
}

/// What `CharacterSet::encode_replace` gives for the text `s`.
pub open spec fn spec_encode_replace(cs: CharacterSet, s: Seq<char>) -> Result<Seq<u8>, Error> {
    match cs {
        CharacterSet::UTF16BE | CharacterSet::UTF16LE | CharacterSet::UTF32BE | CharacterSet::UTF32LE => spec_encode(
            cs,
            s,
        ),
        CharacterSet::Cp437 => Ok(cp437_replaced(s)),
        CharacterSet::Binary | CharacterSet::ISO8859_1 => Ok(bytes_below(s, 0x100)),
        CharacterSet::ASCII => Ok(bytes_below(s, 0x80)),
        _ => match spec_encoding_label(cs) {
            Some(l) => match encoded_with_label(l, s) {
                Some((bytes, _)) => Ok(bytes),
                None => Err(Error::InvalidFormat),
            },
            None => Err(Error::InvalidFormat),
        },
    }
}

/// What `CharacterSet::decode` gives for the bytes `b`.
pub open spec fn spec_decode(cs: CharacterSet, b: Seq<u8>) -> Result<Seq<char>, Error> {
    match cs {
        CharacterSet::Cp437 => Ok(cp437_decoded(b)),
        CharacterSet::UTF32BE | CharacterSet::UTF32LE => {
            let be = cs == CharacterSet::UTF32BE;
            if b.len() % 4 == 0 && utf32_valid(b, be) {
                Ok(utf32_text(b, be))
            } else {
                Err(Error::InvalidFormat)
            }
        },
        CharacterSet::Binary | CharacterSet::ISO8859_1 => Ok(latin1_text(b)),
        CharacterSet::ASCII => if all_ascii(b) {
            Ok(latin1_text(b))
        } else {
            Err(Error::InvalidFormat)
        },
        _ => match spec_encoding_label(cs) {
            Some(l) => match decoded_with_label(l, b) {
                Some((text, false)) => Ok(text),
                _ => Err(Error::InvalidFormat),
            },
            None => Err(Error::InvalidFormat),
        },
    }
}

/// What `CharacterSet::decode_replace` gives for the bytes `b`.
pub open spec fn spec_decode_replace(cs: CharacterSet, b: Seq<u8>) -> Result<Seq<char>, Error> {
    match cs {
        CharacterSet::Cp437 | CharacterSet::Binary | CharacterSet::ISO8859_1 => spec_decode(cs, b),
        CharacterSet::ASCII => Ok(ascii_text_replaced(b)),
        CharacterSet::UTF32BE | CharacterSet::UTF32LE => {
            let be = cs == CharacterSet::UTF32BE;
            Ok(
                utf32_text(b, be) + if b.len() % 4 != 0 {
                    seq!['\u{FFFD}']
                } else {
                    Seq::<char>::empty()
                },
            )
        },
        _ => match spec_encoding_label(cs) {
            Some(l) => match decoded_with_label(l, b) {
                Some((text, _)) => Ok(text),
                None => Err(Error::InvalidFormat),
            },
            None => Err(Error::InvalidFormat),
        },
    }
}

impl CharacterSet {
    /// Encodes `input` in this character set. A character that the set
    /// cannot represent, or a set that has no encoding, is an invalid
    /// format.
    pub fn encode(&self, input: &str) -> (res: Result<Vec<u8>, Error>)
        ensures
            match spec_encode(*self, input@) {
                Ok(bytes) => res matches Ok(v) && v@ == bytes,
                Err(e) => res == Err::<Vec<u8>, Error>(e),
            },
    {
        match self {
            CharacterSet::Cp437 => match cp437_encode(input) {
                Some(bytes) => Ok(bytes),
                None => Err(Error::InvalidFormat),
            },
            CharacterSet::UTF16BE => Ok(utf16_encode(&chars_of(input), true)),
            CharacterSet::UTF16LE => Ok(utf16_encode(&chars_of(input), false)),
            CharacterSet::UTF32BE => Ok(utf32_encode(&chars_of(input), true)),
            CharacterSet::UTF32LE => Ok(utf32_encode(&chars_of(input), false)),
            CharacterSet::Binary | CharacterSet::ISO8859_1 => match narrow_encode(&chars_of(input), 0x100) {
                Some(bytes) => Ok(bytes),
                None => Err(Error::InvalidFormat),
            },
            CharacterSet::ASCII => match narrow_encode(&chars_of(input), 0x80) {
                Some(bytes) => Ok(bytes),
                None => Err(Error::InvalidFormat),
            },
            _ => match encoding_label(*self) {
                Some(label) => match encode_with_label(label, input) {
                    Some((bytes, had_errors)) => {
                        if had_errors {
                            Err(Error::InvalidFormat)
                        } else {
                            Ok(bytes)
                        }
                    },
                    None => Err(Error::InvalidFormat),
                },
                None => Err(Error::InvalidFormat),
            },
        }
    }

    /// Encodes `input` in this character set, with `?` for each character
    /// that the set cannot represent (for the sets that encoding_rs
    /// implements, what it puts in their place). A set that has no encoding
    /// is an invalid format.
    pub fn encode_replace(&self, input: &str) -> (res: Result<Vec<u8>, Error>)
        ensures
            match spec_encode_replace(*self, input@) {
                Ok(bytes) => res matches Ok(v) && v@ == bytes,
                Err(e) => res == Err::<Vec<u8>, Error>(e),
            },
    {
        match self {
            CharacterSet::UTF16BE | CharacterSet::UTF16LE | CharacterSet::UTF32BE | CharacterSet::UTF32LE => self.encode(
                input,
            ),
            CharacterSet::Cp437 => Ok(cp437_encode_replace(&chars_of(input))),
            CharacterSet::Binary | CharacterSet::ISO8859_1 => Ok(narrow_encode_replace(&chars_of(input), 0x100)),
            CharacterSet::ASCII => Ok(narrow_encode_replace(&chars_of(input), 0x80)),
            _ => match encoding_label(*self) {
                Some(label) => match encode_with_label(label, input) {
                    Some((bytes, _)) => Ok(bytes),
                    None => Err(Error::InvalidFormat),
                },
                None => Err(Error::InvalidFormat),
            },
        }
    }

    /// Decodes `input` from this character set. Malformed input, or a set
    /// that has no encoding, is an invalid format.
    pub fn decode(&self, input: &[u8]) -> (res: Result<String, Error>)
        ensures
            match spec_decode(*self, input@) {
                Ok(text) => res matches Ok(v) && v@ == text,
                Err(e) => res == Err::<String, Error>(e),
            },
    {
        match self {
            CharacterSet::Cp437 => Ok(cp437_decode(input)),
            CharacterSet::UTF32BE | CharacterSet::UTF32LE => {
                let big_endian = match self {
                    CharacterSet::UTF32BE => true,
                    _ => false,
                };
                if input.len() % 4 != 0 {
                    return Err(Error::InvalidFormat);
                }
                match utf32_decode(input, big_endian) {
                    Some(chars) => Ok(chars_to_string(chars)),
                    None => Err(Error::InvalidFormat),
                }
            },
            CharacterSet::Binary | CharacterSet::ISO8859_1 => Ok(chars_to_string(latin1_decode(input))),
            CharacterSet::ASCII => match ascii_decode(input, false) {
                Some(chars) => Ok(chars_to_string(chars)),
                None => Err(Error::InvalidFormat),
            },
            _ => match encoding_label(*self) {
                Some(label) => match decode_with_label(label, input) {
                    Some((text, had_errors)) => {
                        if had_errors {
                            Err(Error::InvalidFormat)
                        } else {
                            Ok(text)
                        }
                    },
                    None => Err(Error::InvalidFormat),
                },
                None => Err(Error::InvalidFormat),
            },
        }
    }

    /// Decodes `input` from this character set, with U+FFFD REPLACEMENT
    /// CHARACTER for what is malformed. A set that has no encoding is an
    /// invalid format, and so is malformed code page 437, ISO 8859-1 or
    /// binary input, which cannot occur.
    pub fn decode_replace(&self, input: &[u8]) -> (res: Result<String, Error>)
        ensures
            match spec_decode_replace(*self, input@) {
                Ok(text) => res matches Ok(v) && v@ == text,
                Err(e) => res == Err::<String, Error>(e),
            },
    {
        match self {
            CharacterSet::Cp437 | CharacterSet::Binary | CharacterSet::ISO8859_1 => self.decode(input),
            CharacterSet::ASCII => match ascii_decode(input, true) {
                Some(chars) => Ok(chars_to_string(chars)),
                None => Err(Error::InvalidFormat),
            },
            CharacterSet::UTF32BE | CharacterSet::UTF32LE => {
                let big_endian = match self {
                    CharacterSet::UTF32BE => true,
                    _ => false,
                };
                Ok(chars_to_string(utf32_decode_replace(input, big_endian)))
            },
            _ => match encoding_label(*self) {
                Some(label) => match decode_with_label(label, input) {
                    Some((text, _)) => Ok(text),
                    None => Err(Error::InvalidFormat),
                },
                None => Err(Error::InvalidFormat),
            },
        }
    }
}

proof fn lemma_utf32_encoded_layout(s: Seq<char>, big_endian: bool)
    ensures
        utf32_encoded(s, big_endian).len() == 4 * s.len(),
        forall|i: int, k: int|
            0 <= i < s.len() && 0 <= k < 4 ==> #[trigger] utf32_encoded(s, big_endian)[4 * i + k] == u32_bytes(
                s[i] as u32,
                big_endian,
            )[k],
    decreases s.len(),
{
    if s.len() > 0 {
        let rest = s.drop_last();
        lemma_utf32_encoded_layout(rest, big_endian);
        let e = utf32_encoded(s, big_endian);
        let last = u32_bytes(s.last() as u32, big_endian);
        assert(e == utf32_encoded(rest, big_endian) + last);
        assert forall|i: int, k: int| 0 <= i < s.len() && 0 <= k < 4 implies #[trigger] e[4 * i + k]
            == u32_bytes(s[i] as u32, big_endian)[k] by {
            if i < s.len() - 1 {
                assert(rest[i] == s[i]);
                assert(e[4 * i + k] == utf32_encoded(rest, big_endian)[4 * i + k]);
            } else {
                assert(e[4 * i + k] == last[k]);
            }
        }
    }
}

proof fn lemma_u32_bytes_value(v: u32)
    ensures
        (v / 0x1000000) as u8 * 0x1000000 + (v / 0x10000 % 256) as u8 * 0x10000 + (v / 0x100 % 256) as u8
            * 0x100 + (v % 256) as u8 == v,
{
    assert((v / 0x1000000) as u8 == v / 0x1000000) by (bit_vector);
    assert((v / 0x10000 % 256) as u8 == v / 0x10000 % 256) by (bit_vector);
    assert((v / 0x100 % 256) as u8 == v / 0x100 % 256) by (bit_vector);
    assert((v % 256) as u8 == v % 256) by (bit_vector);
    assert((v / 0x1000000) * 0x1000000 + (v / 0x10000 % 256) * 0x10000 + (v / 0x100 % 256) * 0x100 + v % 256
        == v) by (bit_vector);
}

/// Text encoded in UTF-32 (either byte order) decodes to itself.
pub proof fn lemma_utf32_round_trip(s: Seq<char>, big_endian: bool)
    ensures
        ({
            let cs = if big_endian {
                CharacterSet::UTF32BE
            } else {
                CharacterSet::UTF32LE
            };
            spec_encode(cs, s) == Ok::<Seq<u8>, Error>(utf32_encoded(s, big_endian)) && spec_decode(
                cs,
                utf32_encoded(s, big_endian),
            ) == Ok::<Seq<char>, Error>(s)
        }),
{
    let e = utf32_encoded(s, big_endian);
    lemma_utf32_encoded_layout(s, big_endian);
    assert forall|i: int| 0 <= i < s.len() implies #[trigger] chunk_value(e, i, big_endian) == s[i] as u32 by {
        let v = s[i] as u32;
        let b = u32_bytes(v, big_endian);
        assert(e[4 * i + 0] == b[0]);
        assert(e[4 * i + 1] == b[1]);
        assert(e[4 * i + 2] == b[2]);
        assert(e[4 * i + 3] == b[3]);
        lemma_u32_bytes_value(v);
    }
    assert(e.len() / 4 == s.len());
    assert forall|i: int| 0 <= i < e.len() / 4 implies is_scalar_value(#[trigger] chunk_value(e, i, big_endian)) by {
        lemma_scalar_char(s[i], chunk_value(e, i, big_endian));
    }
    assert forall|i: int| 0 <= i < s.len() implies #[trigger] utf32_text(e, big_endian)[i] == s[i] by {
        lemma_scalar_char(s[i], chunk_value(e, i, big_endian));
    }
    assert(utf32_text(e, big_endian) =~= s);
}

/// Text of characters below U+0100 encoded in ISO 8859-1 decodes to
/// itself; so does text below U+0080 in ASCII.
pub proof fn lemma_narrow_round_trip(s: Seq<char>)
    ensures
        all_below(s, 0x100) ==> (spec_encode(CharacterSet::ISO8859_1, s) matches Ok(b) && spec_decode(
            CharacterSet::ISO8859_1,
            b,
        ) == Ok::<Seq<char>, Error>(s)),
        all_below(s, 0x80) ==> (spec_encode(CharacterSet::ASCII, s) matches Ok(b) && spec_decode(
            CharacterSet::ASCII,
            b,
        ) == Ok::<Seq<char>, Error>(s)),
{
    let b = s.map_values(|c: char| (c as u32) as u8);
    if all_below(s, 0x100) {
        assert forall|i: int| 0 <= i < s.len() implies #[trigger] latin1_text(b)[i] == s[i] by {
            let c = s[i];
            let v = c as u32;
            assert(v < 0x100);
            let x = v as u8;
            assert(b[i] == x);
            assert(v as u8 as u32 == v) by (bit_vector)
                requires
                    v < 0x100,
            ;
            assert(x as int == v as int);
            assert((x as char) == (v as char));
            vstd::utf8::char_u32_cast(c, v);
        }
        assert(latin1_text(b) =~= s);
    }
    if all_below(s, 0x80) {
        assert forall|i: int| 0 <= i < b.len() implies #[trigger] b[i] < 0x80 by {
            assert((s[i] as u32) < 0x80);
        }
    }
}

} // verus!

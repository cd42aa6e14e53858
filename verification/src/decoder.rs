use vstd::prelude::*;
use crate::bit_source::{BitSource, source_bits};
use crate::bitmatrix_parser::bits_value;
use crate::character_set::CharacterSet;
use crate::eci_string_builder::{AIFlag, ECIStringBuilder, SegmentEncoding, SymbologyIdentifier, switched_encodings};
use crate::error::Error;
use crate::mode::{Mode, is_mode_indicator, spec_mode_for_bits, spec_character_counts, version_range};
use crate::version::Version;
use crate::bit_matrix::BitMatrix;
use crate::bitmatrix_parser::{read_codewords, read_format_information, read_version};
use crate::data_block::{DataBlock, lemma_block_matches_unique, longer_blocks_start, spec_data_block};
use crate::bitmatrix_parser::{bytes_of, codeword_bits, read_format_spec};
use crate::ec_level::{ErrorCorrectionLevel, spec_ordinal};
use crate::reed_solomon::{differences, rs_run, syndromes_zero};
use crate::version::{blocks_count, spec_version};
use crate::reed_solomon::correct_qr_errors;
use vstd::slice::slice_to_vec;

verus! {

/// What decoding a segment gives: the bytes it appends, the bit position
/// where it stops, and whether it succeeded.
pub struct SegmentRun {
    pub bytes: Seq<u8>,
    pub end: int,
    pub ok: bool,
}

/// The value of the `n` bits at `pos`, if there are that many (1 to 32).
pub open spec fn read_value(src: Seq<bool>, pos: int, n: int) -> Option<u32> {
    if 1 <= n <= 32 && 0 <= pos && pos + n <= src.len() {
        Some(bits_value(src.subrange(pos, pos + n)) as u32)
    } else {
        None
    }
}

/// `10` to the power `n`.
pub open spec fn pow10(n: nat) -> nat
    decreases n,
{
    if n == 0 {
        1
    } else {
        10 * pow10((n - 1) as nat)
    }
}

/// The `n` decimal digits of `v` as ASCII bytes, leading zeros included.
pub open spec fn decimal_digits(v: nat, n: nat) -> Seq<u8> {
    Seq::new(n, |i: int| (48 + (v / pow10((n - 1 - i) as nat)) % 10) as u8)
}

/// Bits that hold a group of `n` digits of a numeric segment.
pub open spec fn numeric_group_bits(n: int) -> int {
    if n == 1 {
        4
    } else if n == 2 {
        7
    } else {
        10
    }
}

/// A numeric segment of `count` digits at `pos`: groups of three digits in
/// ten bits, a last group of one or two digits in four or seven bits; a
/// group whose value has more digits than the group is malformed.
pub open spec fn numeric_run(src: Seq<bool>, pos: int, count: nat) -> SegmentRun
    decreases count,
{
    if count == 0 {
        SegmentRun { bytes: Seq::empty(), end: pos, ok: true }
    } else {
        let n: nat = if count < 3 {
            count
        } else {
            3
        };
        let w = numeric_group_bits(n as int);
        match read_value(src, pos, w) {
            None => SegmentRun { bytes: Seq::empty(), end: pos, ok: false },
            Some(v) => if v >= pow10(n) {
                SegmentRun { bytes: Seq::empty(), end: pos + w, ok: false }
            } else {
                let rest = numeric_run(src, pos + w, (count - n) as nat);
                SegmentRun { bytes: decimal_digits(v as nat, n) + rest.bytes, end: rest.end, ok: rest.ok }
            },
        }
    }
}

/// The 45 characters of the alphanumeric mode, as ASCII bytes.
pub open spec fn alphanumeric_table() -> Seq<u8> {
    seq![
        48u8, 49, 50, 51, 52, 53, 54, 55, 56, 57, 65, 66, 67, 68, 69, 70, 71, 72, 73, 74, 75, 76,
        77, 78, 79, 80, 81, 82, 83, 84, 85, 86, 87, 88, 89, 90, 32, 36, 37, 42, 43, 45, 46, 47, 58,
    ]
}

/// An alphanumeric segment of `count` characters at `pos`: pairs in eleven
/// bits (first character times 45 plus the second), a last single
/// character in six bits; a value beyond the table is malformed.
pub open spec fn alphanumeric_run(src: Seq<bool>, pos: int, count: nat) -> SegmentRun
    decreases count,
{
    if count == 0 {
        SegmentRun { bytes: Seq::empty(), end: pos, ok: true }
    } else if count == 1 {
        match read_value(src, pos, 6) {
            None => SegmentRun { bytes: Seq::empty(), end: pos, ok: false },
            Some(v) => if v >= 45 {
                SegmentRun { bytes: Seq::empty(), end: pos + 6, ok: false }
            } else {
                SegmentRun { bytes: seq![alphanumeric_table()[v as int]], end: pos + 6, ok: true }
            },
        }
    } else {
        match read_value(src, pos, 11) {
            None => SegmentRun { bytes: Seq::empty(), end: pos, ok: false },
            Some(v) => if v / 45 >= 45 {
                SegmentRun { bytes: Seq::empty(), end: pos + 11, ok: false }
            } else {
                let rest = alphanumeric_run(src, pos + 11, (count - 2) as nat);
                SegmentRun {
                    bytes: seq![alphanumeric_table()[(v / 45) as int], alphanumeric_table()[(v % 45) as int]]
                        + rest.bytes,
                    end: rest.end,
                    ok: rest.ok,
                }
            },
        }
    }
}

/// Alphanumeric text in FNC1 mode: a doubled `%` stands for `%`, a single
/// `%` for the group separator 0x1D.
pub open spec fn fnc1_text(s: Seq<u8>) -> Seq<u8>
    decreases s.len(),
{
    if s.len() == 0 {
        s
    } else if s[0] == 37 {
        if s.len() > 1 && s[1] == 37 {
            seq![37u8] + fnc1_text(s.skip(2))
        } else {
            seq![0x1Du8] + fnc1_text(s.skip(1))
        }
    } else {
        seq![s[0]] + fnc1_text(s.skip(1))
    }
}

/// A byte segment of `count` bytes at `pos`, eight bits each.
pub open spec fn byte_run(src: Seq<bool>, pos: int, count: nat) -> SegmentRun
    decreases count,
{
    if count == 0 {
        SegmentRun { bytes: Seq::empty(), end: pos, ok: true }
    } else {
        match read_value(src, pos, 8) {
            None => SegmentRun { bytes: Seq::empty(), end: pos, ok: false },
            Some(v) => {
                let rest = byte_run(src, pos + 8, (count - 1) as nat);
                SegmentRun { bytes: seq![v as u8] + rest.bytes, end: rest.end, ok: rest.ok }
            },
        }
    }
}

/// The two bytes of a Kanji character packed into 13 bits (Shift JIS).
pub open spec fn kanji_bytes(v: u32) -> Seq<u8> {
    let assembled = (v / 0xC0) * 256 + v % 0xC0;
    let full = if assembled < 0x1F00 {
        assembled + 0x8140
    } else {
        assembled + 0xC140
    };
    seq![(full / 256) as u8, (full % 256) as u8]
}

/// The two bytes of a Hanzi character packed into 13 bits (GB 2312).
pub open spec fn hanzi_bytes(v: u32) -> Seq<u8> {
    let assembled = (v / 0x60) * 256 + v % 0x60;
    let full = if assembled < 0xA00 {
        assembled + 0xA1A1
    } else {
        assembled + 0xA6A1
    };
    seq![(full / 256) as u8, (full % 256) as u8]
}

/// Whether `lead`, `trail` is a double-byte Shift JIS character in the
/// ranges that a Kanji segment can carry: 0x8140 to 0x9FFC and 0xE040 to
/// 0xEBBF.
pub open spec fn is_qr_kanji(lead: int, trail: int) -> bool {
    &&& 0x40 <= trail <= 0xFC
    &&& (0x81 <= lead <= 0x9F || 0xE0 <= lead <= 0xEA || (lead == 0xEB && trail <= 0xBF))
}

/// The 13-bit value a Kanji segment carries for the Shift JIS character
/// `lead`, `trail`: subtract 0x8140 (or 0xC140 above 0x9FFC), then take the
/// high byte times 0xC0 plus the low byte.
pub open spec fn kanji_packed(lead: int, trail: int) -> int {
    let code = lead * 256 + trail;
    let d = if code <= 0x9FFC { code - 0x8140 } else { code - 0xC140 };
    (d / 256) * 0xC0 + d % 256
}

/// Whether `lead`, `trail` is a GB 2312 character in the ranges that a Hanzi
/// segment can carry: 0xA1A1 to 0xAAFE and 0xB0A1 to 0xFAFE.
pub open spec fn is_qr_hanzi(lead: int, trail: int) -> bool {
    &&& 0xA1 <= trail <= 0xFE
    &&& (0xA1 <= lead <= 0xAA || 0xB0 <= lead <= 0xFA)
}

/// The 13-bit value a Hanzi segment carries for the GB 2312 character
/// `lead`, `trail`: subtract 0xA1A1 (or 0xA6A1 from 0xB0A1 on), then take the
/// high byte times 0x60 plus the low byte.
pub open spec fn hanzi_packed(lead: int, trail: int) -> int {
    let code = lead * 256 + trail;
    let d = if code <= 0xAAFE { code - 0xA1A1 } else { code - 0xA6A1 };
    (d / 256) * 0x60 + d % 256
}

/// A Kanji segment gives back every Shift JIS character it can carry: the
/// character's packed value fits in 13 bits and decodes to its two bytes.
pub proof fn lemma_kanji_round_trip(lead: u8, trail: u8)
    requires
        is_qr_kanji(lead as int, trail as int),
    ensures
        0 <= kanji_packed(lead as int, trail as int) < 0x2000,
        kanji_bytes(kanji_packed(lead as int, trail as int) as u32) == seq![lead, trail],
{
    let low = lead <= 0x9F;
    let m: int = if low { lead - 0x81 } else { lead - 0xC1 };
    let l: int = trail - 0x40;
    let code: int = lead * 256 + trail;
    let d: int = m * 256 + l;
    assert(d == if code <= 0x9FFC { code - 0x8140 } else { code - 0xC140 });
    assert(d / 256 == m && d % 256 == l) by (nonlinear_arith)
        requires d == m * 256 + l, 0 <= l < 256, 0 <= m;
    let v: int = m * 0xC0 + l;
    assert(kanji_packed(lead as int, trail as int) == v);
    assert(0 <= v < 0x2000);
    let vu = v as u32;
    assert(vu / 0xC0 == m && vu % 0xC0 == l) by (nonlinear_arith)
        requires vu == m * 0xC0 + l, 0 <= l < 0xC0, 0 <= m;
    let assembled: int = m * 256 + l;
    assert(assembled < 0x1F00 <==> low);
    let full: int = if assembled < 0x1F00 { assembled + 0x8140 } else { assembled + 0xC140 };
    assert(full == lead * 256 + trail);
    assert(full / 256 == lead && full % 256 == trail) by (nonlinear_arith)
        requires full == lead * 256 + trail, 0 <= trail < 256, 0 <= lead;
    assert(kanji_bytes(vu) =~= seq![lead, trail]);
}

/// A Hanzi segment gives back every GB 2312 character it can carry: the
/// character's packed value fits in 13 bits and decodes to its two bytes.
pub proof fn lemma_hanzi_round_trip(lead: u8, trail: u8)
    requires
        is_qr_hanzi(lead as int, trail as int),
    ensures
        0 <= hanzi_packed(lead as int, trail as int) < 0x2000,
        hanzi_bytes(hanzi_packed(lead as int, trail as int) as u32) == seq![lead, trail],
{
    let low = lead <= 0xAA;
    let m: int = if low { lead - 0xA1 } else { lead - 0xA6 };
    let l: int = trail - 0xA1;
    let code: int = lead * 256 + trail;
    let d: int = m * 256 + l;
    assert(d == if code <= 0xAAFE { code - 0xA1A1 } else { code - 0xA6A1 });
    assert(d / 256 == m && d % 256 == l) by (nonlinear_arith)
        requires d == m * 256 + l, 0 <= l < 256, 0 <= m;
    let v: int = m * 0x60 + l;
    assert(hanzi_packed(lead as int, trail as int) == v);
    assert(0 <= v < 0x2000);
    let vu = v as u32;
    assert(vu / 0x60 == m && vu % 0x60 == l) by (nonlinear_arith)
        requires vu == m * 0x60 + l, 0 <= l < 0x60, 0 <= m;
    let assembled: int = m * 256 + l;
    assert(assembled < 0xA00 <==> low);
    let full: int = if assembled < 0xA00 { assembled + 0xA1A1 } else { assembled + 0xA6A1 };
    assert(full == lead * 256 + trail);
    assert(full / 256 == lead && full % 256 == trail) by (nonlinear_arith)
        requires full == lead * 256 + trail, 0 <= trail < 256, 0 <= lead;
    assert(hanzi_bytes(vu) =~= seq![lead, trail]);
}

/// A segment of `count` double-byte characters at `pos`, 13 bits each,
/// Kanji or Hanzi.
pub open spec fn double_byte_run(src: Seq<bool>, pos: int, count: nat, hanzi: bool) -> SegmentRun
    decreases count,
{
    if count == 0 {
        SegmentRun { bytes: Seq::empty(), end: pos, ok: true }
    } else {
        match read_value(src, pos, 13) {
            None => SegmentRun { bytes: Seq::empty(), end: pos, ok: false },
            Some(v) => {
                let rest = double_byte_run(src, pos + 13, (count - 1) as nat, hanzi);
                SegmentRun {
                    bytes: (if hanzi {
                        hanzi_bytes(v)
                    } else {
                        kanji_bytes(v)
                    }) + rest.bytes,
                    end: rest.end,
                    ok: rest.ok,
                }
            },
        }
    }
}

/// The bits of a source and where it stands.
pub open spec fn src_of(bits: BitSource) -> Seq<bool> {
    source_bits(bits.spec_bytes())
}

fn read(bits: &mut BitSource, num_bits: usize) -> (res: Result<u32, Error>)
    ensures
        final(bits).spec_bytes() == old(bits).spec_bytes(),
        read_value(src_of(*old(bits)), old(bits).spec_position() as int, num_bits as int) matches Some(v)
            ==> res == Ok::<u32, Error>(v) && final(bits).spec_position() == old(bits).spec_position()
            + num_bits,
        read_value(src_of(*old(bits)), old(bits).spec_position() as int, num_bits as int) is None ==> res
            == Err::<u32, Error>(Error::InvalidFormat) && final(bits).spec_position() == old(
            bits,
        ).spec_position(),
{
    match bits.read_bits(num_bits) {
        Ok(v) => Ok(v),
        Err(_) => Err(Error::InvalidFormat),
    }
}

fn decimal_bytes(value: u32, n: u32) -> (res: Vec<u8>)
    requires
        n <= 3,
    ensures
        res@ == decimal_digits(value as nat, n as nat),
{
    let mut out: Vec<u8> = Vec::new();
    let mut i: u32 = 0;
    let mut p: u32 = if n == 3 {
        100
    } else if n == 2 {
        10
    } else {
        1
    };
    proof {
        reveal_with_fuel(pow10, 4);
    }
    while i < n
        invariant
            i <= n <= 3,
            i < n ==> p == pow10((n - 1 - i) as nat),
            i < n ==> p >= 1,
            p <= 100,
            out@ =~= decimal_digits(value as nat, n as nat).take(i as int),
        decreases n - i,
    {
        let digit: u8 = ((value / p) % 10) as u8;
        out.push(48 + digit);
        proof {
            reveal_with_fuel(pow10, 4);
            assert(out@ =~= decimal_digits(value as nat, n as nat).take(i as int + 1));
        }
        p = p / 10;
        i = i + 1;
    }
    out
}

/// Decodes a numeric segment of `count` digits into `result`, read as
/// ISO-8859-1. A malformed or truncated segment is an invalid format; the
/// digits of the groups before it stay appended.
pub fn decode_numeric_segment(bits: &mut BitSource, count: usize, result: &mut ECIStringBuilder) -> (res: Result<(), Error>)
    ensures
        ({
            let run = numeric_run(src_of(*old(bits)), old(bits).spec_position() as int, count as nat);
            &&& final(bits).spec_bytes() == old(bits).spec_bytes()
            &&& final(bits).spec_position() == run.end
            &&& final(result).bytes@ == old(result).bytes@ + run.bytes
            &&& final(result).encodings@ == switched_encodings(
                old(result).encodings@,
                old(result).has_eci,
                SegmentEncoding::Charset(CharacterSet::ISO8859_1),
                old(result).bytes@.len() as usize,
                false,
            )
            &&& final(result).has_eci == old(result).has_eci
            &&& final(result).symbology == old(result).symbology
            &&& (res is Ok <==> run.ok)
            &&& (res is Err ==> res == Err::<(), Error>(Error::InvalidFormat))
        }),
{
    let ghost src = src_of(*bits);
    let ghost start = bits.spec_position() as int;
    let ghost bytes0 = result.bytes@;
    result.switch_encoding(SegmentEncoding::Charset(CharacterSet::ISO8859_1), false);
    let ghost encodings1 = result.encodings@;
    let ghost total = count;
    let mut remaining = count;
    let ghost mut acc: Seq<u8> = Seq::empty();
    while remaining > 0
        invariant
            src == src_of(*bits),
            src == src_of(*old(bits)),
            start == old(bits).spec_position(),
            total == count,
            bytes0 == old(result).bytes@,
            encodings1 == switched_encodings(
                old(result).encodings@,
                old(result).has_eci,
                SegmentEncoding::Charset(CharacterSet::ISO8859_1),
                old(result).bytes@.len() as usize,
                false,
            ),
            bits.spec_bytes() == old(bits).spec_bytes(),
            result.bytes@ == bytes0 + acc,
            result.encodings@ == encodings1,
            result.has_eci == old(result).has_eci,
            result.symbology == old(result).symbology,
            ({
                let whole = numeric_run(src, start, total as nat);
                let now = numeric_run(src, bits.spec_position() as int, remaining as nat);
                &&& whole.bytes == acc + now.bytes
                &&& whole.end == now.end
                &&& whole.ok == now.ok
            }),
        decreases remaining,
    {
        let n: usize = if remaining < 3 {
            remaining
        } else {
            3
        };
        let width: usize = if n == 1 {
            4
        } else if n == 2 {
            7
        } else {
            10
        };
        let ghost pos = bits.spec_position() as int;
        let value = match read(bits, width) {
            Ok(v) => v,
            Err(e) => {
                proof {
                    assert(numeric_run(src, pos, remaining as nat).bytes =~= Seq::<u8>::empty());
                    assert(result.bytes@ =~= bytes0 + numeric_run(src, start, total as nat).bytes);
                }
                return Err(e);
            },
        };
        let limit: u32 = if n == 1 {
            10
        } else if n == 2 {
            100
        } else {
            1000
        };
        proof {
            reveal_with_fuel(pow10, 4);
        }
        if value >= limit {
            proof {
                assert(numeric_run(src, pos, remaining as nat).bytes =~= Seq::<u8>::empty());
                assert(result.bytes@ =~= bytes0 + numeric_run(src, start, total as nat).bytes);
            }
            return Err(Error::InvalidFormat);
        }
        let digits = decimal_bytes(value, n as u32);
        result.append_bytes(digits.as_slice());
        proof {
            let rest = numeric_run(src, pos + width, (remaining - n) as nat);
            assert(numeric_run(src, pos, remaining as nat).bytes == digits@ + rest.bytes);
            assert(acc + (digits@ + rest.bytes) =~= (acc + digits@) + rest.bytes);
            assert(bytes0 + acc + digits@ =~= bytes0 + (acc + digits@));
            acc = acc + digits@;
        }
        remaining = remaining - n;
    }
    Ok(())
}

/// The character of the alphanumeric mode with the given value; values from
/// 45 on are an invalid format.
pub fn to_alphanumeric_char(value: usize) -> (res: Result<char, Error>)
    ensures
        value < 45 ==> res == Ok::<char, Error>(alphanumeric_table()[value as int] as char),
        value >= 45 ==> res == Err::<char, Error>(Error::InvalidFormat),
{
    let table: [u8; 45] = [
        48, 49, 50, 51, 52, 53, 54, 55, 56, 57, 65, 66, 67, 68, 69, 70, 71, 72, 73, 74, 75, 76, 77,
        78, 79, 80, 81, 82, 83, 84, 85, 86, 87, 88, 89, 90, 32, 36, 37, 42, 43, 45, 46, 47, 58,
    ];
    assert(table@ =~= alphanumeric_table());
    if value >= 45 {
        return Err(Error::InvalidFormat);
    }
    Ok(table[value] as char)
}

fn alphanumeric_byte(value: u32) -> (res: Result<u8, Error>)
    ensures
        value < 45 ==> res == Ok::<u8, Error>(alphanumeric_table()[value as int]),
        value >= 45 ==> res == Err::<u8, Error>(Error::InvalidFormat),
{
    match to_alphanumeric_char(value as usize) {
        Ok(c) => {
            proof {
                assert(alphanumeric_table()[value as int] < 128);
            }
            Ok(c as u8)
        },
        Err(e) => Err(e),
    }
}

fn fnc1_massage(buffer: &Vec<u8>) -> (res: Vec<u8>)
    ensures
        res@ == fnc1_text(buffer@),
{
    let mut out: Vec<u8> = Vec::new();
    let mut i: usize = 0;
    let n = buffer.len();
    proof {
        assert(buffer@.skip(0) =~= buffer@);
        assert(out@ + fnc1_text(buffer@) =~= fnc1_text(buffer@));
    }
    while i < n
        invariant
            i <= n,
            n == buffer@.len(),
            fnc1_text(buffer@) == out@ + fnc1_text(buffer@.skip(i as int)),
        decreases n - i,
    {
        let ghost rest = buffer@.skip(i as int);
        if buffer[i] == 37 {
            if i + 1 < n && buffer[i + 1] == 37 {
                proof {
                    assert(rest.skip(2) =~= buffer@.skip(i as int + 2));
                    assert(out@.push(37u8) + fnc1_text(rest.skip(2)) =~= out@ + (seq![37u8] + fnc1_text(
                        rest.skip(2),
                    )));
                }
                out.push(37);
                i = i + 2;
            } else {
                proof {
                    assert(rest.skip(1) =~= buffer@.skip(i as int + 1));
                    assert(out@.push(0x1Du8) + fnc1_text(rest.skip(1)) =~= out@ + (seq![0x1Du8] + fnc1_text(
                        rest.skip(1),
                    )));
                }
                out.push(0x1D);
                i = i + 1;
            }
        } else {
            proof {
                assert(rest.skip(1) =~= buffer@.skip(i as int + 1));
                assert(out@.push(rest[0]) + fnc1_text(rest.skip(1)) =~= out@ + (seq![rest[0]] + fnc1_text(
                    rest.skip(1),
                )));
            }
            out.push(buffer[i]);
            i = i + 1;
        }
    }
    proof {
        assert(buffer@.skip(i as int) =~= Seq::<u8>::empty());
        assert(out@ + Seq::<u8>::empty() =~= out@);
    }
    out
}

/// Decodes an alphanumeric segment of `count` characters into `result`,
/// read as ISO-8859-1; in FNC1 mode `%` is read as described for
/// [`fnc1_text`]. A malformed or truncated segment is an invalid format and
/// appends nothing.
pub fn decode_alphanumeric_segment(bits: &mut BitSource, count: usize, result: &mut ECIStringBuilder) -> (res: Result<(), Error>)
    ensures
        ({
            let run = alphanumeric_run(src_of(*old(bits)), old(bits).spec_position() as int, count as nat);
            let text = if old(result).symbology.ai_flag != AIFlag::NoIdentifiers {
                fnc1_text(run.bytes)
            } else {
                run.bytes
            };
            &&& final(bits).spec_bytes() == old(bits).spec_bytes()
            &&& final(bits).spec_position() == run.end
            &&& final(result).has_eci == old(result).has_eci
            &&& final(result).symbology == old(result).symbology
            &&& (res is Ok <==> run.ok)
            &&& (res is Err ==> res == Err::<(), Error>(Error::InvalidFormat) && final(result).bytes@ == old(
                result,
            ).bytes@ && final(result).encodings@ == old(result).encodings@)
            &&& (res is Ok ==> final(result).bytes@ == old(result).bytes@ + text && final(result).encodings@
                == switched_encodings(
                old(result).encodings@,
                old(result).has_eci,
                SegmentEncoding::Charset(CharacterSet::ISO8859_1),
                old(result).bytes@.len() as usize,
                false,
            ))
        }),
{
    let ghost src = src_of(*bits);
    let ghost start = bits.spec_position() as int;
    let ghost total = count;
    let mut remaining = count;
    let mut buffer: Vec<u8> = Vec::new();
    while remaining > 1
        invariant
            src == src_of(*bits),
            src == src_of(*old(bits)),
            start == old(bits).spec_position(),
            total == count,
            bits.spec_bytes() == old(bits).spec_bytes(),
            remaining <= count,
            ({
                let whole = alphanumeric_run(src, start, total as nat);
                let now = alphanumeric_run(src, bits.spec_position() as int, remaining as nat);
                &&& whole.bytes == buffer@ + now.bytes
                &&& whole.end == now.end
                &&& whole.ok == now.ok
            }),
        decreases remaining,
    {
        let ghost pos = bits.spec_position() as int;
        let value = match read(bits, 11) {
            Ok(v) => v,
            Err(e) => {
                return Err(e);
            },
        };
        proof {
            crate::bit_source::lemma_bits_value_fits_11(src.subrange(pos, pos + 11));
        }
        let first = match alphanumeric_byte(value / 45) {
            Ok(b) => b,
            Err(e) => {
                return Err(e);
            },
        };
        let second = match alphanumeric_byte(value % 45) {
            Ok(b) => b,
            Err(e) => {
                return Err(e);
            },
        };
        proof {
            let rest = alphanumeric_run(src, pos + 11, (remaining - 2) as nat);
            assert(alphanumeric_run(src, pos, remaining as nat).bytes == seq![first, second] + rest.bytes);
            assert(buffer@ + (seq![first, second] + rest.bytes) =~= buffer@.push(first).push(second)
                + rest.bytes);
        }
        buffer.push(first);
        buffer.push(second);
        remaining = remaining - 2;
    }
    if remaining == 1 {
        let ghost pos = bits.spec_position() as int;
        let value = match read(bits, 6) {
            Ok(v) => v,
            Err(e) => {
                return Err(e);
            },
        };
        let single = match alphanumeric_byte(value) {
            Ok(b) => b,
            Err(e) => {
                return Err(e);
            },
        };
        proof {
            assert(buffer@ + seq![single] =~= buffer@.push(single));
        }
        buffer.push(single);
    } else {
        proof {
            assert(buffer@ + Seq::<u8>::empty() =~= buffer@);
        }
    }
    let text = if result.symbology.ai_flag != AIFlag::NoIdentifiers {
        fnc1_massage(&buffer)
    } else {
        buffer
    };
    result.switch_encoding(SegmentEncoding::Charset(CharacterSet::ISO8859_1), false);
    result.append_bytes(text.as_slice());
    Ok(())
}

/// Decodes a byte segment of `count` bytes into `result`, in an encoding
/// yet to be determined. A truncated segment is an invalid format; the
/// bytes before it stay appended.
pub fn decode_byte_segment(bits: &mut BitSource, count: usize, result: &mut ECIStringBuilder) -> (res: Result<(), Error>)
    ensures
        ({
            let run = byte_run(src_of(*old(bits)), old(bits).spec_position() as int, count as nat);
            &&& final(bits).spec_bytes() == old(bits).spec_bytes()
            &&& final(bits).spec_position() == run.end
            &&& final(result).bytes@ == old(result).bytes@ + run.bytes
            &&& final(result).encodings@ == switched_encodings(
                old(result).encodings@,
                old(result).has_eci,
                SegmentEncoding::Charset(CharacterSet::Unknown),
                old(result).bytes@.len() as usize,
                false,
            )
            &&& final(result).has_eci == old(result).has_eci
            &&& final(result).symbology == old(result).symbology
            &&& (res is Ok <==> run.ok)
            &&& (res is Err ==> res == Err::<(), Error>(Error::InvalidFormat))
        }),
{
    let ghost src = src_of(*bits);
    let ghost start = bits.spec_position() as int;
    let ghost bytes0 = result.bytes@;
    result.switch_encoding(SegmentEncoding::Charset(CharacterSet::Unknown), false);
    let ghost encodings1 = result.encodings@;
    let ghost total = count;
    let mut remaining = count;
    let ghost mut acc: Seq<u8> = Seq::empty();
    while remaining > 0
        invariant
            src == src_of(*bits),
            src == src_of(*old(bits)),
            start == old(bits).spec_position(),
            total == count,
            bytes0 == old(result).bytes@,
            encodings1 == switched_encodings(
                old(result).encodings@,
                old(result).has_eci,
                SegmentEncoding::Charset(CharacterSet::Unknown),
                old(result).bytes@.len() as usize,
                false,
            ),
            bits.spec_bytes() == old(bits).spec_bytes(),
            result.bytes@ == bytes0 + acc,
            result.encodings@ == encodings1,
            result.has_eci == old(result).has_eci,
            result.symbology == old(result).symbology,
            ({
                let whole = byte_run(src, start, total as nat);
                let now = byte_run(src, bits.spec_position() as int, remaining as nat);
                &&& whole.bytes == acc + now.bytes
                &&& whole.end == now.end
                &&& whole.ok == now.ok
            }),
        decreases remaining,
    {
        let ghost pos = bits.spec_position() as int;
        let value = match read(bits, 8) {
            Ok(v) => v,
            Err(e) => {
                proof {
                    assert(result.bytes@ =~= bytes0 + byte_run(src, start, total as nat).bytes);
                }
                return Err(e);
            },
        };
        proof {
            crate::bit_source::lemma_bits_value_fits_8(src.subrange(pos, pos + 8));
        }
        result.push_byte(value as u8);
        proof {
            let rest = byte_run(src, pos + 8, (remaining - 1) as nat);
            assert(acc + (seq![value as u8] + rest.bytes) =~= acc.push(value as u8) + rest.bytes);
            assert(bytes0 + acc.push(value as u8) =~= (bytes0 + acc).push(value as u8));
            acc = acc.push(value as u8);
        }
        remaining = remaining - 1;
    }
    proof {
        assert(acc + Seq::<u8>::empty() =~= acc);
    }
    Ok(())
}

fn decode_double_byte_segment(bits: &mut BitSource, count: usize, result: &mut ECIStringBuilder, hanzi: bool) -> (res: Result<(), Error>)
    ensures
        ({
            let run = double_byte_run(src_of(*old(bits)), old(bits).spec_position() as int, count as nat, hanzi);
            &&& final(bits).spec_bytes() == old(bits).spec_bytes()
            &&& final(bits).spec_position() == run.end
            &&& final(result).bytes@ == old(result).bytes@ + run.bytes
            &&& final(result).encodings@ == switched_encodings(
                old(result).encodings@,
                old(result).has_eci,
                SegmentEncoding::Charset(if hanzi { CharacterSet::GB18030 } else { CharacterSet::ShiftJis }),
                old(result).bytes@.len() as usize,
                false,
            )
            &&& final(result).has_eci == old(result).has_eci
            &&& final(result).symbology == old(result).symbology
            &&& (res is Ok <==> run.ok)
            &&& (res is Err ==> res == Err::<(), Error>(Error::InvalidFormat))
        }),
{
    let ghost src = src_of(*bits);
    let ghost start = bits.spec_position() as int;
    let ghost bytes0 = result.bytes@;
    let charset = if hanzi {
        CharacterSet::GB18030
    } else {
        CharacterSet::ShiftJis
    };
    result.switch_encoding(SegmentEncoding::Charset(charset), false);
    let ghost encodings1 = result.encodings@;
    let ghost total = count;
    let mut remaining = count;
    let ghost mut acc: Seq<u8> = Seq::empty();
    while remaining > 0
        invariant
            src == src_of(*bits),
            src == src_of(*old(bits)),
            start == old(bits).spec_position(),
            total == count,
            bytes0 == old(result).bytes@,
            encodings1 == switched_encodings(
                old(result).encodings@,
                old(result).has_eci,
                SegmentEncoding::Charset(if hanzi { CharacterSet::GB18030 } else { CharacterSet::ShiftJis }),
                old(result).bytes@.len() as usize,
                false,
            ),
            bits.spec_bytes() == old(bits).spec_bytes(),
            result.bytes@ == bytes0 + acc,
            result.encodings@ == encodings1,
            result.has_eci == old(result).has_eci,
            result.symbology == old(result).symbology,
            ({
                let whole = double_byte_run(src, start, total as nat, hanzi);
                let now = double_byte_run(src, bits.spec_position() as int, remaining as nat, hanzi);
                &&& whole.bytes == acc + now.bytes
                &&& whole.end == now.end
                &&& whole.ok == now.ok
            }),
        decreases remaining,
    {
        let ghost pos = bits.spec_position() as int;
        let two_bytes = match read(bits, 13) {
            Ok(v) => v,
            Err(e) => {
                proof {
                    assert(result.bytes@ =~= bytes0 + double_byte_run(src, start, total as nat, hanzi).bytes);
                }
                return Err(e);
            },
        };
        proof {
            crate::bit_source::lemma_bits_value_fits_13(src.subrange(pos, pos + 13));
        }
        let full: u32 = if hanzi {
            let assembled = (two_bytes / 0x60) * 256 + two_bytes % 0x60;
            if assembled < 0xA00 {
                assembled + 0xA1A1
            } else {
                assembled + 0xA6A1
            }
        } else {
            let assembled = (two_bytes / 0xC0) * 256 + two_bytes % 0xC0;
            if assembled < 0x1F00 {
                assembled + 0x8140
            } else {
                assembled + 0xC140
            }
        };
        let high: u8 = (full / 256) as u8;
        let low: u8 = (full % 256) as u8;
        proof {
            assert(seq![high, low] == (if hanzi { hanzi_bytes(two_bytes) } else { kanji_bytes(two_bytes) }));
        }
        result.push_byte(high);
        result.push_byte(low);
        proof {
            let rest = double_byte_run(src, pos + 13, (remaining - 1) as nat, hanzi);
            assert(acc + (seq![high, low] + rest.bytes) =~= (acc + seq![high, low]) + rest.bytes);
            assert(bytes0 + (acc + seq![high, low]) =~= (bytes0 + acc).push(high).push(low));
            acc = acc + seq![high, low];
        }
        remaining = remaining - 1;
    }
    proof {
        assert(acc + Seq::<u8>::empty() =~= acc);
    }
    Ok(())
}

/// Decodes a Kanji segment of `count` characters into `result`, as Shift
/// JIS byte pairs. A truncated segment is an invalid format; the characters
/// before it stay appended.
pub fn decode_kanji_segment(bits: &mut BitSource, count: usize, result: &mut ECIStringBuilder) -> (res: Result<(), Error>)
    ensures
        ({
            let run = double_byte_run(src_of(*old(bits)), old(bits).spec_position() as int, count as nat, false);
            &&& final(bits).spec_bytes() == old(bits).spec_bytes()
            &&& final(bits).spec_position() == run.end
            &&& final(result).bytes@ == old(result).bytes@ + run.bytes
            &&& final(result).encodings@ == switched_encodings(
                old(result).encodings@,
                old(result).has_eci,
                SegmentEncoding::Charset(CharacterSet::ShiftJis),
                old(result).bytes@.len() as usize,
                false,
            )
            &&& final(result).has_eci == old(result).has_eci
            &&& final(result).symbology == old(result).symbology
            &&& (res is Ok <==> run.ok)
            &&& (res is Err ==> res == Err::<(), Error>(Error::InvalidFormat))
        }),
{
    decode_double_byte_segment(bits, count, result, false)
}

/// Decodes a Hanzi segment of `count` characters into `result`, as GB 2312
/// byte pairs read as GB 18030 (GBT 18284-2000). A truncated segment is an
/// invalid format; the characters before it stay appended.
pub fn decode_hanzi_segment(bits: &mut BitSource, count: usize, result: &mut ECIStringBuilder) -> (res: Result<(), Error>)
    ensures
        ({
            let run = double_byte_run(src_of(*old(bits)), old(bits).spec_position() as int, count as nat, true);
            &&& final(bits).spec_bytes() == old(bits).spec_bytes()
            &&& final(bits).spec_position() == run.end
            &&& final(result).bytes@ == old(result).bytes@ + run.bytes
            &&& final(result).encodings@ == switched_encodings(
                old(result).encodings@,
                old(result).has_eci,
                SegmentEncoding::Charset(CharacterSet::GB18030),
                old(result).bytes@.len() as usize,
                false,
            )
            &&& final(result).has_eci == old(result).has_eci
            &&& final(result).symbology == old(result).symbology
            &&& (res is Ok <==> run.ok)
            &&& (res is Err ==> res == Err::<(), Error>(Error::InvalidFormat))
        }),
{
    decode_double_byte_segment(bits, count, result, true)
}

/// The assignment number of an ECI designator at `pos` (ISO 18004:2006
/// 6.4.2.1): one, two or three bytes, told apart by the leading bits of the
/// first; `None` for a malformed or truncated designator.
pub open spec fn eci_value(src: Seq<bool>, pos: int) -> Option<(u32, int)> {
    match read_value(src, pos, 8) {
        None => None,
        Some(b) => if b < 0x80 {
            Some((b, pos + 8))
        } else if b < 0xC0 {
            match read_value(src, pos + 8, 8) {
                None => None,
                Some(second) => Some((((b % 64) * 256 + second) as u32, pos + 16)),
            }
        } else if b < 0xE0 {
            match read_value(src, pos + 8, 16) {
                None => None,
                Some(rest) => Some((((b % 32) * 65536 + rest) as u32, pos + 24)),
            }
        } else {
            None
        },
    }
}

/// The character of alphanumeric value `value` (ISO 18004:2006 6.4.4
/// Table 5); a value beyond 44 is an invalid format.
pub fn to_alpha_numeric_char(value: u32) -> (res: Result<char, Error>)
    ensures
        value < 45 ==> res == Ok::<char, Error>(alphanumeric_table()[value as int] as char),
        value >= 45 ==> res == Err::<char, Error>(Error::InvalidFormat),
{
    to_alphanumeric_char(value as usize)
}

/// Where the bit position stands after a malformed or truncated ECI
/// designator: unmoved where not even its first byte is left, else just
/// after that byte.
pub open spec fn eci_error_end(src: Seq<bool>, pos: int) -> int {
    if read_value(src, pos, 8) is None {
        pos
    } else {
        pos + 8
    }
}

/// Reads an ECI designator and returns its assignment number; see
/// [`parse_eci_value`], whose contract this has.
pub fn parse_ecivalue(bits: &mut BitSource) -> (res: Result<u32, Error>)
    ensures
        final(bits).spec_bytes() == old(bits).spec_bytes(),
        eci_value(src_of(*old(bits)), old(bits).spec_position() as int) matches Some((v, end)) ==> res
            == Ok::<u32, Error>(v) && final(bits).spec_position() == end,
        eci_value(src_of(*old(bits)), old(bits).spec_position() as int) is None ==> res == Err::<
            u32,
            Error,
        >(Error::InvalidFormat) && final(bits).spec_position() == eci_error_end(
            src_of(*old(bits)),
            old(bits).spec_position() as int,
        ),
{
    parse_eci_value(bits)
}

/// Reads an ECI designator and returns its assignment number. A malformed
/// or truncated designator is an invalid format.
pub fn parse_eci_value(bits: &mut BitSource) -> (res: Result<u32, Error>)
    ensures
        final(bits).spec_bytes() == old(bits).spec_bytes(),
        eci_value(src_of(*old(bits)), old(bits).spec_position() as int) matches Some((v, end)) ==> res
            == Ok::<u32, Error>(v) && final(bits).spec_position() == end,
        eci_value(src_of(*old(bits)), old(bits).spec_position() as int) is None ==> res == Err::<
            u32,
            Error,
        >(Error::InvalidFormat) && final(bits).spec_position() == eci_error_end(
            src_of(*old(bits)),
            old(bits).spec_position() as int,
        ),
{
    let ghost src = src_of(*bits);
    let ghost pos = bits.spec_position() as int;
    let first_byte = read(bits, 8)?;
    proof {
        crate::bit_source::lemma_bits_value_fits_8(src.subrange(pos, pos + 8));
    }
    if first_byte < 0x80 {
        return Ok(first_byte);
    }
    if first_byte < 0xC0 {
        let second_byte = read(bits, 8)?;
        proof {
            crate::bit_source::lemma_bits_value_fits_8(src.subrange(pos + 8, pos + 16));
        }
        return Ok((first_byte % 64) * 256 + second_byte);
    }
    if first_byte < 0xE0 {
        let second_third_bytes = read(bits, 16)?;
        proof {
            crate::bit_source::lemma_bits_value_fits_16(src.subrange(pos + 8, pos + 24));
        }
        return Ok((first_byte % 32) * 65536 + second_third_bytes);
    }
    Err(Error::InvalidFormat)
}

/// Whether the stream ends here: fewer than four bits are left and they are
/// all zero, or the next four bits are the terminator 0000.
pub open spec fn at_end_of_stream(src: Seq<bool>, pos: int) -> bool {
    let available = src.len() - pos;
    let n = if available < 4 {
        available
    } else {
        4
    };
    n == 0 || bits_value(src.subrange(pos, pos + n)) == 0
}

/// Whether the bit stream ends at the current position (ISO 18004:2015,
/// 7.4.1, Table 2): no bits are left, or the next mode indicator (as much of
/// it as is left) is the terminator.
pub fn is_end_of_stream(bits: &mut BitSource, version: &crate::version::Version) -> (res: Result<bool, Error>)
    ensures
        *final(bits) == *old(bits),
        res == Ok::<bool, Error>(at_end_of_stream(src_of(*old(bits)), old(bits).spec_position() as int)),
{
    let bits_required = crate::mode::Mode::terminator_bit_length(version);
    let available = bits.available();
    let bits_available = if available < bits_required {
        available
    } else {
        bits_required
    };
    if bits_available == 0 {
        return Ok(true);
    }
    let peeked = match bits.peek_bits(bits_available) {
        Ok(v) => v,
        Err(e) => {
            return Err(e);
        },
    };
    proof {
        let ghost src = src_of(*bits);
        let ghost pos = bits.spec_position() as int;
        crate::bit_source::lemma_bits_value_fits_small(src.subrange(pos, pos + bits_available));
    }
    Ok(peeked == 0)
}

/// The structured append header of a symbol: its position in the sequence,
/// the number of symbols, and the parity of the whole message.
#[derive(Debug, Clone, Copy, PartialEq, Eq, Structural)]
pub struct StructuredAppendInfo {
    pub index: u8,
    pub count: u8,
    pub parity: u8,
}

/// The state of decoding a bit stream.
pub struct StreamState {
    pub pos: int,
    pub bytes: Seq<u8>,
    pub encodings: Seq<(SegmentEncoding, usize)>,
    pub has_eci: bool,
    pub symbology: SymbologyIdentifier,
    pub modes: Seq<Mode>,
    pub structured_append: Option<StructuredAppendInfo>,
    pub failed: bool,
}

/// The state with a segment's run applied: its bytes appended after the
/// encoding switch, its end position, and its failure.
pub open spec fn after_segment(st: StreamState, run: SegmentRun, encoding: SegmentEncoding) -> StreamState {
    StreamState {
        pos: run.end,
        bytes: st.bytes + run.bytes,
        encodings: switched_encodings(st.encodings, st.has_eci, encoding, st.bytes.len() as usize, false),
        failed: !run.ok,
        ..st
    }
}

/// The state after an alphanumeric segment: nothing is appended when it
/// fails.
pub open spec fn after_alphanumeric(st: StreamState, run: SegmentRun) -> StreamState {
    if run.ok {
        let text = if st.symbology.ai_flag != AIFlag::NoIdentifiers {
            fnc1_text(run.bytes)
        } else {
            run.bytes
        };
        StreamState {
            pos: run.end,
            bytes: st.bytes + text,
            encodings: switched_encodings(
                st.encodings,
                st.has_eci,
                SegmentEncoding::Charset(CharacterSet::ISO8859_1),
                st.bytes.len() as usize,
                false,
            ),
            ..st
        }
    } else {
        StreamState { pos: run.end, failed: true, ..st }
    }
}

/// One segment of a bit stream (ISO 18004:2006, 6.4.3 to 6.4.7), for a
/// symbol of version `version`: a mode indicator and what the mode reads.
#[verifier::opaque]
pub open spec fn stream_step(src: Seq<bool>, version: u32, st: StreamState) -> StreamState {
    match read_value(src, st.pos, 4) {
        None => StreamState { failed: true, ..st },
        Some(bits) => if !is_mode_indicator(bits as int) {
            StreamState { pos: st.pos + 4, failed: true, ..st }
        } else {
            let mode = spec_mode_for_bits(bits as int);
            let modes = if st.modes.contains(mode) {
                st.modes
            } else {
                st.modes.push(mode)
            };
            let s = StreamState { pos: st.pos + 4, modes: modes, ..st };
            if mode == Mode::Fnc1FirstPosition {
                StreamState {
                    symbology: SymbologyIdentifier { modifier: 51, ai_flag: AIFlag::GS1, ..s.symbology },
                    ..s
                }
            } else if mode == Mode::Fnc1SecondPosition {
                if s.bytes.len() != 0 {
                    StreamState { failed: true, ..s }
                } else {
                    let marked = StreamState {
                        symbology: SymbologyIdentifier { modifier: 53, ..s.symbology },
                        ..s
                    };
                    match read_value(src, s.pos, 8) {
                        None => StreamState { failed: true, ..marked },
                        Some(indicator) => if indicator <= 99 {
                            StreamState {
                                pos: s.pos + 8,
                                bytes: marked.bytes + decimal_digits(indicator as nat, 2),
                                symbology: SymbologyIdentifier { ai_flag: AIFlag::Aim, ..marked.symbology },
                                ..marked
                            }
                        } else if (165 <= indicator <= 190) || (197 <= indicator <= 222) {
                            StreamState {
                                pos: s.pos + 8,
                                bytes: marked.bytes.push((indicator - 100) as u8),
                                symbology: SymbologyIdentifier { ai_flag: AIFlag::Aim, ..marked.symbology },
                                ..marked
                            }
                        } else {
                            StreamState { pos: s.pos + 8, failed: true, ..marked }
                        },
                    }
                }
            } else if mode == Mode::StructuredAppend {
                match (read_value(src, s.pos, 4), read_value(src, s.pos + 4, 4), read_value(src, s.pos + 8, 8)) {
                    (Some(index), Some(count), Some(parity)) => StreamState {
                        pos: s.pos + 16,
                        structured_append: Some(
                            StructuredAppendInfo { index: index as u8, count: count as u8, parity: parity as u8 },
                        ),
                        ..s
                    },
                    _ => StreamState { failed: true, ..s },
                }
            } else if mode == Mode::Eci {
                match eci_value(src, s.pos) {
                    None => StreamState { failed: true, ..s },
                    Some((value, end)) => StreamState {
                        pos: end,
                        encodings: switched_encodings(
                            s.encodings,
                            s.has_eci,
                            SegmentEncoding::Eci(value),
                            s.bytes.len() as usize,
                            true,
                        ),
                        has_eci: true,
                        ..s
                    },
                }
            } else if mode == Mode::Hanzi {
                match read_value(src, s.pos, 4) {
                    None => StreamState { failed: true, ..s },
                    Some(subset) => if subset != 1 {
                        StreamState { pos: s.pos + 4, failed: true, ..s }
                    } else {
                        let width = spec_character_counts(mode)[version_range(version)];
                        match read_value(src, s.pos + 4, width as int) {
                            None => StreamState { pos: s.pos + 4, failed: true, ..s },
                            Some(count) => {
                                let at = StreamState { pos: s.pos + 4 + width, ..s };
                                after_segment(
                                    at,
                                    double_byte_run(src, at.pos, count as nat, true),
                                    SegmentEncoding::Charset(CharacterSet::GB18030),
                                )
                            },
                        }
                    },
                }
            } else if mode == Mode::Numeric || mode == Mode::Alphanumeric || mode == Mode::Byte || mode
                == Mode::Kanji {
                let width = spec_character_counts(mode)[version_range(version)];
                match read_value(src, s.pos, width as int) {
                    None => StreamState { failed: true, ..s },
                    Some(count) => {
                        let at = StreamState { pos: s.pos + width, ..s };
                        if mode == Mode::Numeric {
                            after_segment(
                                at,
                                numeric_run(src, at.pos, count as nat),
                                SegmentEncoding::Charset(CharacterSet::ISO8859_1),
                            )
                        } else if mode == Mode::Alphanumeric {
                            after_alphanumeric(at, alphanumeric_run(src, at.pos, count as nat))
                        } else if mode == Mode::Byte {
                            after_segment(
                                at,
                                byte_run(src, at.pos, count as nat),
                                SegmentEncoding::Charset(CharacterSet::Unknown),
                            )
                        } else {
                            after_segment(
                                at,
                                double_byte_run(src, at.pos, count as nat, false),
                                SegmentEncoding::Charset(CharacterSet::ShiftJis),
                            )
                        }
                    },
                }
            } else {
                StreamState { failed: true, ..s }
            }
        },
    }
}

/// Decodes segments until the stream ends or a segment fails.
pub open spec fn stream_run(src: Seq<bool>, version: u32, st: StreamState) -> StreamState
    decreases src.len() - st.pos,
{
    if st.failed || st.pos < 0 || st.pos > src.len() || at_end_of_stream(src, st.pos) {
        st
    } else {
        let next = stream_step(src, version, st);
        if next.failed || next.pos <= st.pos || next.pos > src.len() {
            next
        } else {
            stream_run(src, version, next)
        }
    }
}

/// The state at the start of a QR code's bit stream.
pub open spec fn initial_stream_state() -> StreamState {
    StreamState {
        pos: 0,
        bytes: Seq::empty(),
        encodings: Seq::empty(),
        has_eci: false,
        symbology: SymbologyIdentifier {
            code: 81,
            modifier: 49,
            eci_modifier_offset: 1,
            ai_flag: AIFlag::NoIdentifiers,
        },
        modes: Seq::empty(),
        structured_append: None,
        failed: false,
    }
}

/// What decoding the data of a QR code gives: the text bytes with their
/// encodings, the symbology identifier, the modes met, the structured append
/// header if any, and the error that stopped decoding, if one did.
pub struct DecoderResult {
    pub content: ECIStringBuilder,
    pub error: Option<Error>,
    pub modes: Vec<Mode>,
    pub structured_append: Option<StructuredAppendInfo>,
    pub version_number: u32,
    pub ec_level: crate::ec_level::ErrorCorrectionLevel,
    pub data_mask: u8,
}

/// Whether the exec state agrees with the spec state.
pub open spec fn state_matches(
    st: StreamState,
    bits: BitSource,
    result: ECIStringBuilder,
    modes: Seq<Mode>,
    structured_append: Option<StructuredAppendInfo>,
) -> bool {
    &&& st.pos == bits.spec_position()
    &&& st.bytes == result.bytes@
    &&& st.encodings == result.encodings@
    &&& st.has_eci == result.has_eci
    &&& st.symbology == result.symbology
    &&& st.modes == modes
    &&& st.structured_append == structured_append
    &&& !st.failed
}

fn contains_mode(modes: &Vec<Mode>, mode: Mode) -> (res: bool)
    ensures
        res == modes@.contains(mode),
{
    let mut i: usize = 0;
    while i < modes.len()
        invariant
            i <= modes@.len(),
            forall|k: int| 0 <= k < i ==> modes@[k] != mode,
        decreases modes@.len() - i,
    {
        if modes[i] == mode {
            assert(modes@[i as int] == mode);
            return true;
        }
        i = i + 1;
    }
    false
}

proof fn lemma_numeric_run_end(src: Seq<bool>, pos: int, count: nat)
    ensures
        numeric_run(src, pos, count).end >= pos,
    decreases count,
{
    if count > 0 {
        let n: nat = if count < 3 {
            count
        } else {
            3
        };
        lemma_numeric_run_end(src, pos + numeric_group_bits(n as int), (count - n) as nat);
    }
}

proof fn lemma_alphanumeric_run_end(src: Seq<bool>, pos: int, count: nat)
    ensures
        alphanumeric_run(src, pos, count).end >= pos,
    decreases count,
{
    if count > 1 {
        lemma_alphanumeric_run_end(src, pos + 11, (count - 2) as nat);
    }
}

proof fn lemma_byte_run_end(src: Seq<bool>, pos: int, count: nat)
    ensures
        byte_run(src, pos, count).end >= pos,
    decreases count,
{
    if count > 0 {
        lemma_byte_run_end(src, pos + 8, (count - 1) as nat);
    }
}

proof fn lemma_double_byte_run_end(src: Seq<bool>, pos: int, count: nat, hanzi: bool)
    ensures
        double_byte_run(src, pos, count, hanzi).end >= pos,
    decreases count,
{
    if count > 0 {
        lemma_double_byte_run_end(src, pos + 13, (count - 1) as nat, hanzi);
    }
}

/// The spec state of the exec state.
pub open spec fn exec_state(
    bits: BitSource,
    result: ECIStringBuilder,
    modes: Seq<Mode>,
    structured_append: Option<StructuredAppendInfo>,
) -> StreamState {
    StreamState {
        pos: bits.spec_position() as int,
        bytes: result.bytes@,
        encodings: result.encodings@,
        has_eci: result.has_eci,
        symbology: result.symbology,
        modes: modes,
        structured_append: structured_append,
        failed: false,
    }
}

fn decode_segment(
    bits: &mut BitSource,
    result: &mut ECIStringBuilder,
    modes: &mut Vec<Mode>,
    structured_append: &mut Option<StructuredAppendInfo>,
    version: &Version,
) -> (res: Result<(), Error>)
    ensures
        ({
            let st = exec_state(*old(bits), *old(result), old(modes)@, *old(structured_append));
            let next = stream_step(src_of(*old(bits)), version@.number, st);
            &&& final(bits).spec_bytes() == old(bits).spec_bytes()
            &&& (res is Err <==> next.failed)
            &&& (res is Err ==> res == Err::<(), Error>(Error::InvalidFormat))
            &&& final(result).bytes@ == next.bytes
            &&& final(result).encodings@ == next.encodings
            &&& final(result).has_eci == next.has_eci
            &&& final(result).symbology == next.symbology
            &&& final(modes)@ == next.modes
            &&& *final(structured_append) == next.structured_append
            &&& !next.failed ==> final(bits).spec_position() == next.pos && next.pos > st.pos
        }),
{
    reveal(stream_step);
    let ghost src = src_of(*bits);
    let ghost st = exec_state(*bits, *result, modes@, *structured_append);
    let ghost number = version@.number;
    let mode_bits = read(bits, 4)?;
    let mode = match Mode::codec_mode_for_bits(mode_bits) {
        Ok(m) => m,
        Err(e) => {
            return Err(e);
        },
    };
    if !contains_mode(modes, mode) {
        modes.push(mode);
    }
    match mode {
        Mode::Fnc1FirstPosition => {
            result.symbology = SymbologyIdentifier {
                modifier: 51,
                ai_flag: AIFlag::GS1,
                ..result.symbology
            };
            Ok(())
        },
        Mode::Fnc1SecondPosition => {
            if !result.is_empty() {
                return Err(Error::InvalidFormat);
            }
            result.symbology = SymbologyIdentifier { modifier: 53, ..result.symbology };
            let indicator = read(bits, 8)?;
            if indicator <= 99 {
                let digits = decimal_bytes(indicator, 2);
                result.append_bytes(digits.as_slice());
            } else if (165 <= indicator && indicator <= 190) || (197 <= indicator && indicator <= 222) {
                result.push_byte((indicator - 100) as u8);
            } else {
                return Err(Error::InvalidFormat);
            }
            result.symbology = SymbologyIdentifier { ai_flag: AIFlag::Aim, ..result.symbology };
            Ok(())
        },
        Mode::StructuredAppend => {
            let index = read(bits, 4)?;
            let count = read(bits, 4)?;
            let parity = read(bits, 8)?;
            *structured_append = Some(
                StructuredAppendInfo { index: index as u8, count: count as u8, parity: parity as u8 },
            );
            Ok(())
        },
        Mode::Eci => {
            let value = parse_eci_value(bits)?;
            result.switch_encoding(SegmentEncoding::Eci(value), true);
            Ok(())
        },
        Mode::Hanzi => {
            let subset = read(bits, 4)?;
            if subset != 1 {
                return Err(Error::InvalidFormat);
            }
            let width = mode.character_count_bits(version);
            let count = read(bits, width)?;
            proof {
                lemma_double_byte_run_end(src, bits.spec_position() as int, count as nat, true);
            }
            decode_hanzi_segment(bits, count as usize, result)
        },
        Mode::Numeric | Mode::Alphanumeric | Mode::Byte | Mode::Kanji => {
            let width = mode.character_count_bits(version);
            let count = read(bits, width)?;
            proof {
                let p = bits.spec_position() as int;
                lemma_numeric_run_end(src, p, count as nat);
                lemma_alphanumeric_run_end(src, p, count as nat);
                lemma_byte_run_end(src, p, count as nat);
                lemma_double_byte_run_end(src, p, count as nat, false);
            }
            match mode {
                Mode::Numeric => decode_numeric_segment(bits, count as usize, result),
                Mode::Alphanumeric => decode_alphanumeric_segment(bits, count as usize, result),
                Mode::Byte => decode_byte_segment(bits, count as usize, result),
                _ => decode_kanji_segment(bits, count as usize, result),
            }
        },
        _ => Err(Error::InvalidFormat),
    }
}

/// Decodes the data bytes of a QR code of `version` into text bytes with
/// their encodings (ISO 18004:2006, 6.4.3 to 6.4.7). Decoding stops at the
/// terminator, at the end of the data, or at the first malformed segment,
/// whose error the result records; what was decoded before it stays.
pub fn decode_bit_stream(bytes: &[u8], version: &Version) -> (res: Result<DecoderResult, Error>)
    requires
        8 * bytes@.len() <= usize::MAX,
    ensures
        res matches Ok(r) && ({
            let fin = stream_run(source_bits(bytes@), version@.number, initial_stream_state());
            &&& r.content.bytes@ == fin.bytes
            &&& r.content.encodings@ == fin.encodings
            &&& r.content.has_eci == fin.has_eci
            &&& r.content.symbology == fin.symbology
            &&& r.modes@ == fin.modes
            &&& r.structured_append == fin.structured_append
            &&& (r.error is Some <==> fin.failed)
            &&& (r.error is Some ==> r.error == Some(Error::InvalidFormat))
        }),
{
    let mut bits = BitSource::new(bytes);
    let mut result = ECIStringBuilder::new(
        SymbologyIdentifier { code: 81, modifier: 49, eci_modifier_offset: 1, ai_flag: AIFlag::NoIdentifiers },
    );
    let mut modes: Vec<Mode> = Vec::new();
    let mut structured_append: Option<StructuredAppendInfo> = None;
    let ghost src = source_bits(bytes@);
    let ghost fin = stream_run(src, version@.number, initial_stream_state());
    proof {
        assert(exec_state(bits, result, modes@, structured_append) == initial_stream_state());
    }
    let mut error: Option<Error> = None;
    loop
        invariant_except_break
            error is None,
            stream_run(src, version@.number, exec_state(bits, result, modes@, structured_append)) == fin,
            bits.spec_position() <= src.len(),
        invariant
            src == src_of(bits),
            fin == stream_run(src, version@.number, initial_stream_state()),
        ensures
            error is Some ==> error == Some(Error::InvalidFormat),
            error is None ==> exec_state(bits, result, modes@, structured_append) == fin,
            error is Some ==> fin.failed && result.bytes@ == fin.bytes && result.encodings@ == fin.encodings
                && result.has_eci == fin.has_eci && result.symbology == fin.symbology && modes@ == fin.modes
                && structured_append == fin.structured_append,
        decreases src.len() - bits.spec_position(),
    {
        let ghost st = exec_state(bits, result, modes@, structured_append);
        let available = bits.available();
        let at_end = match is_end_of_stream(&mut bits, version) {
            Ok(b) => b,
            Err(e) => {
                error = Some(e);
                break ;
            },
        };
        if at_end {
            break ;
        }
        match decode_segment(&mut bits, &mut result, &mut modes, &mut structured_append, version) {
            Ok(()) => {
                let _ = bits.available();
            },
            Err(e) => {
                error = Some(e);
                break ;
            },
        }
    }
    Ok(
        DecoderResult {
            content: result,
            error,
            modes,
            structured_append,
            version_number: 0,
            ec_level: crate::ec_level::ErrorCorrectionLevel::Invalid,
            data_mask: 0,
        },
    )
}

/// Whether a matrix has the size of a QR code: square, 21 to 177 modules,
/// one more than a multiple of four.
pub open spec fn has_qr_size(m: BitMatrix) -> bool {
    m.spec_width() == m.spec_height() && 21 <= m.spec_width() <= 177 && m.spec_width() % 4 == 1
}

/// The version number that the size of a matrix gives.
pub open spec fn qr_number(m: BitMatrix) -> u32 {
    ((m.spec_width() - 17) / 4) as u32
}

/// The codewords read from a matrix with the format information read
/// from it.
pub open spec fn qr_raw_codewords(m: BitMatrix) -> Seq<u8> {
    let fi = read_format_spec(m);
    bytes_of(codeword_bits(m, qr_number(m), fi.data_mask, fi.is_mirrored))
}

/// The error-correction blocks of the level read from a matrix.
pub open spec fn qr_level(m: BitMatrix) -> (u32, Seq<(u32, u32)>) {
    spec_version(qr_number(m)).ec_blocks[spec_ordinal(read_format_spec(m).error_correction_level) as int]
}

/// The blocks (data count, codewords) that the codewords of a matrix
/// separate into.
pub open spec fn qr_blocks(m: BitMatrix) -> Seq<(u32, Seq<u8>)> {
    let level = qr_level(m);
    let count = blocks_count(level.1) as int;
    Seq::new(
        count as nat,
        |j: int|
            spec_data_block(
                qr_raw_codewords(m),
                j,
                count,
                longer_blocks_start(level),
                level.1[0].1 as int,
                level.0 as int,
            ),
    )
}

/// The data codewords of blocks, block after block.
pub open spec fn blocks_data(blocks: Seq<(u32, Seq<u8>)>) -> Seq<u8>
    decreases blocks.len(),
{
    if blocks.len() == 0 {
        seq![]
    } else {
        blocks_data(blocks.drop_last()) + blocks.last().1.take(blocks.last().0 as int)
    }
}

/// Whether the size, format information and codewords of a matrix are
/// those of a QR code.
pub open spec fn qr_reads(m: BitMatrix) -> bool {
    &&& has_qr_size(m)
    &&& read_format_spec(m).data_mask < 8
    &&& read_format_spec(m).error_correction_level != ErrorCorrectionLevel::Invalid
    &&& qr_raw_codewords(m).len() == spec_version(qr_number(m)).total_codewords
}

/// Whether `fixed` is what Reed-Solomon correction may make of `block`: the
/// same data count and length, every syndrome zero, and at most half of the
/// error-correction codewords (rounded up) changed.
pub open spec fn corrected_block(block: (u32, Seq<u8>), fixed: (u32, Seq<u8>)) -> bool {
    let ec = (block.1.len() - block.0) as nat;
    &&& fixed.0 == block.0
    &&& fixed.1.len() == block.1.len()
    &&& syndromes_zero(fixed.1, ec)
    &&& differences(fixed.1, block.1) <= (ec + 1) / 2
}

/// Whether `fixed` holds a correction of each of `blocks`, in order.
pub open spec fn corrected_blocks(blocks: Seq<(u32, Seq<u8>)>, fixed: Seq<(u32, Seq<u8>)>) -> bool {
    &&& fixed.len() == blocks.len()
    &&& forall|j: int| 0 <= j < blocks.len() ==> corrected_block(blocks[j], #[trigger] fixed[j])
}

/// Each block as Reed-Solomon correction leaves it.
pub open spec fn corrected_by_run(blocks: Seq<(u32, Seq<u8>)>) -> Seq<(u32, Seq<u8>)> {
    Seq::new(blocks.len(), |j: int| (blocks[j].0, rs_run(blocks[j].1, blocks[j].0 as nat).1))
}

/// Whether Reed-Solomon correction succeeds on every block.
pub open spec fn all_blocks_correct(blocks: Seq<(u32, Seq<u8>)>) -> bool {
    forall|j: int| 0 <= j < blocks.len() ==> #[trigger] rs_run(blocks[j].1, blocks[j].0 as nat).0
}

/// Whether a decoder result holds what a run of the bit stream parser ended in.
pub open spec fn decoded_as(r: DecoderResult, fin: StreamState) -> bool {
    &&& r.content.bytes@ == fin.bytes
    &&& r.content.encodings@ == fin.encodings
    &&& r.content.has_eci == fin.has_eci
    &&& r.content.symbology == fin.symbology
    &&& r.modes@ == fin.modes
    &&& r.structured_append == fin.structured_append
    &&& (r.error is Some <==> fin.failed)
    &&& (r.error is Some ==> r.error == Some(Error::InvalidFormat))
}

/// Whether a matrix holds a QR code that reads without error: it reads as a
/// QR code and every block passes its Reed-Solomon check.
pub open spec fn is_clean_qr(m: BitMatrix) -> bool {
    &&& qr_reads(m)
    &&& forall|j: int|
        0 <= j < qr_blocks(m).len() ==> syndromes_zero(
            #[trigger] qr_blocks(m)[j].1,
            (qr_blocks(m)[j].1.len() - qr_blocks(m)[j].0) as nat,
        )
}

/// Decodes a QR code from its module matrix: reads the format information,
/// the version and the codewords, separates and corrects the blocks, and
/// decodes the data. A matrix that has no QR code size, or whose codewords
/// cannot be read, is an invalid format; a block that cannot be corrected
/// is a checksum error. The result records the version, error correction
/// level and data mask. A QR code that reads without error decodes to what
/// its data codewords hold; one whose blocks needed correction decodes to
/// what the data codewords of the corrected blocks hold.
#[verifier::rlimit(60)]
#[verifier::spinoff_prover]
pub fn decode(bits: &BitMatrix) -> (res: Result<DecoderResult, Error>)
    ensures
        !has_qr_size(*bits) ==> res == Err::<DecoderResult, Error>(Error::InvalidFormat),
        res matches Ok(r) ==> has_qr_size(*bits) && r.version_number == qr_number(*bits)
            && r.ec_level == read_format_spec(*bits).error_correction_level && r.data_mask
            == read_format_spec(*bits).data_mask,
        is_clean_qr(*bits) ==> (res matches Ok(r) && decoded_as(
            r,
            stream_run(source_bits(blocks_data(qr_blocks(*bits))), qr_number(*bits), initial_stream_state()),
        )),
        res is Ok ==> qr_reads(*bits),
        qr_reads(*bits) ==> (res is Ok <==> all_blocks_correct(qr_blocks(*bits))),
        qr_reads(*bits) && !all_blocks_correct(qr_blocks(*bits)) ==> res == Err::<DecoderResult, Error>(
            Error::Checksum,
        ),
        res matches Ok(r) ==> decoded_as(
            r,
            stream_run(
                source_bits(blocks_data(corrected_by_run(qr_blocks(*bits)))),
                qr_number(*bits),
                initial_stream_state(),
            ),
        ),
        qr_reads(*bits) ==> (res matches Ok(r) ==> exists|fixed: Seq<(u32, Seq<u8>)>|
            #[trigger] corrected_blocks(qr_blocks(*bits), fixed) && decoded_as(
                r,
                stream_run(source_bits(blocks_data(fixed)), qr_number(*bits), initial_stream_state()),
            )),
{
    let width = bits.width();
    let height = bits.height();
    if width != height || width < 21 || width > 177 || width % 4 != 1 {
        return Err(Error::InvalidFormat);
    }
    let ghost clean = is_clean_qr(*bits);
    let ghost reads = qr_reads(*bits);
    let ghost blocks_spec = qr_blocks(*bits);
    let format_info = match read_format_information(bits) {
        Ok(f) => f,
        Err(_) => {
            return Err(Error::InvalidFormat);
        },
    };
    let version = match read_version(bits) {
        Ok(v) => v,
        Err(_) => {
            return Err(Error::InvalidFormat);
        },
    };
    assert(height as int * height as int <= u32::MAX) by (nonlinear_arith)
        requires
            height <= 177,
    ;
    proof {
        crate::version::lemma_total_codewords_positive(qr_number(*bits));
    }
    let codewords = read_codewords(bits, &version, &format_info)?;
    assert(reads ==> codewords@ == qr_raw_codewords(*bits));
    if codewords.len() == 0 {
        return Err(Error::InvalidFormat);
    }
    let data_blocks = DataBlock::get_data_blocks(codewords.as_slice(), &version, format_info.error_correction_level)?;
    proof {
        if reads {
            let level = qr_level(*bits);
            crate::version::lemma_ec_table_shape(qr_number(*bits), spec_ordinal(format_info.error_correction_level) as int);
            assert(data_blocks@.len() == blocks_spec.len());
            assert forall|j: int| 0 <= j < data_blocks@.len() implies #[trigger] data_blocks@[j]@ == blocks_spec[j] by {
                lemma_block_matches_unique(
                    data_blocks@[j]@,
                    j,
                    codewords@,
                    blocks_count(level.1) as int,
                    longer_blocks_start(level),
                    level.1[0].1 as int,
                    level.0 as int,
                );
            }
            assert(blocks_count(level.1) > 0) by {
                reveal_with_fuel(blocks_count, 3);
                if level.1.len() == 2 {
                    assert(level.1.drop_last().drop_last() =~= Seq::<(u32, u32)>::empty());
                } else {
                    assert(level.1.drop_last() =~= Seq::<(u32, u32)>::empty());
                }
            }
        }
    }
    if data_blocks.len() == 0 {
        return Err(Error::InvalidFormat);
    }
    let ghost ec = qr_level(*bits).0;
    let mut result_bytes: Vec<u8> = Vec::new();
    let ghost mut fixed: Seq<(u32, Seq<u8>)> = Seq::empty();
    let mut b: usize = 0;
    while b < data_blocks.len()
        invariant
            b <= data_blocks@.len(),
            result_bytes@.len() <= 201 * b,
            data_blocks@.len() <= 200,
            has_qr_size(*bits),
            forall|j: int| 0 <= j < data_blocks@.len() ==> #[trigger] data_blocks@[j]@.0 <= 201 && data_blocks@[j]@.0 <= data_blocks@[j]@.1.len(),
            clean == is_clean_qr(*bits),
            reads == qr_reads(*bits),
            blocks_spec == qr_blocks(*bits),
            ec == qr_level(*bits).0,
            reads ==> 1 <= ec <= 30,
            reads ==> data_blocks@.len() == blocks_spec.len(),
            reads ==> forall|j: int| 0 <= j < data_blocks@.len() ==> #[trigger] data_blocks@[j]@ == blocks_spec[j],
            fixed.len() == b,
            result_bytes@ == blocks_data(fixed),
            reads ==> forall|j: int| 0 <= j < b ==> corrected_block(blocks_spec[j], #[trigger] fixed[j]),
            clean ==> fixed == blocks_spec.take(b as int),
            reads ==> forall|j: int|
                0 <= j < b ==> #[trigger] fixed[j] == (blocks_spec[j].0, rs_run(blocks_spec[j].1, blocks_spec[j].0 as nat).1)
                    && rs_run(blocks_spec[j].1, blocks_spec[j].0 as nat).0,
        decreases data_blocks@.len() - b,
    {
        let block = &data_blocks[b];
        let num_data_codewords = block.get_num_data_codewords() as usize;
        let mut codeword_bytes = slice_to_vec(block.get_codewords());
        assert(data_blocks@[b as int]@.0 <= 201);
        let ghost before = codeword_bytes@;
        proof {
            if clean {
                assert(blocks_spec[b as int].1.len() == blocks_spec[b as int].0 + ec);
                assert(syndromes_zero(
                    blocks_spec[b as int].1,
                    (blocks_spec[b as int].1.len() - blocks_spec[b as int].0) as nat,
                ));
            }
        }
        match correct_qr_errors(codeword_bytes.as_mut_slice(), num_data_codewords) {
            Ok(()) => {},
            Err(_) => {
                assert(reads ==> !rs_run(blocks_spec[b as int].1, blocks_spec[b as int].0 as nat).0);
                return Err(Error::Checksum);
            },
        }
        assert(clean ==> codeword_bytes@ == before);
        let ghost fixed_before = fixed;
        proof {
            fixed = fixed.push((data_blocks@[b as int]@.0, codeword_bytes@));
            if clean {
                assert(fixed =~= blocks_spec.take(b as int + 1));
            }

        }
        let mut k: usize = 0;
        let ghost len_before = result_bytes@.len();
        let ghost prefix = result_bytes@;
        while k < num_data_codewords
            invariant
                k <= num_data_codewords <= codeword_bytes@.len(),
                num_data_codewords <= 201,
                result_bytes@.len() == len_before + k,
                result_bytes@ == prefix + codeword_bytes@.take(k as int),
            decreases num_data_codewords - k,
        {
            result_bytes.push(codeword_bytes[k]);
            assert(codeword_bytes@.take(k as int + 1) =~= codeword_bytes@.take(k as int).push(codeword_bytes@[k as int]));
            k = k + 1;
        }
        proof {
            assert(fixed.drop_last() =~= fixed_before);
            assert(result_bytes@ =~= blocks_data(fixed));
        }
        b = b + 1;
    }
    assert(clean ==> blocks_spec.take(b as int) =~= blocks_spec);
    assert(reads ==> corrected_blocks(blocks_spec, fixed));
    proof {
        if reads {
            assert forall|j: int| 0 <= j < blocks_spec.len() implies #[trigger] rs_run(
                blocks_spec[j].1,
                blocks_spec[j].0 as nat,
            ).0 by {
                assert(fixed[j] == fixed[j]);
            }
            assert(fixed =~= corrected_by_run(blocks_spec));
        }
    }
    let decoded = decode_bit_stream(result_bytes.as_slice(), &version)?;
    let n = version.number();
    Ok(
        DecoderResult {
            version_number: n,
            ec_level: format_info.error_correction_level,
            data_mask: format_info.data_mask,
            ..decoded
        },
    )
}

} // verus!

use vstd::prelude::*;
use crate::error::Error;
use crate::character_set::str_equals;
use crate::result_metadata::{ascii_uppercase, to_uppercase, uppercase_of};
use crate::character_set::is_ascii_str;

verus! {

/// The error correction levels of the QR code standard (ISO 18004:2006,
/// 6.5.1). `Invalid` marks a level that has not been determined.
#[derive(Debug, PartialEq, Eq, Clone, Copy, Hash, Structural)]
pub enum ErrorCorrectionLevel {
    /// About 7% of the codewords can be restored.
    L,
    /// About 15% of the codewords can be restored.
    M,
    /// About 25% of the codewords can be restored.
    Q,
    /// About 30% of the codewords can be restored.
    H,
    /// No level determined.
    Invalid,
}

/// The level that two format bits name: `00` is M, `01` is L, `10` is H and
/// `11` is Q.
pub open spec fn level_for_format_bits(bits: int) -> ErrorCorrectionLevel {
    if bits == 0 {
        ErrorCorrectionLevel::M
    } else if bits == 1 {
        ErrorCorrectionLevel::L
    } else if bits == 2 {
        ErrorCorrectionLevel::H
    } else {
        ErrorCorrectionLevel::Q
    }
}

/// The level that the three error-correction bits of a Micro QR symbol name.
pub open spec fn micro_level_for_bits(bits: int) -> ErrorCorrectionLevel {
    if bits == 2 || bits == 4 || bits == 6 {
        ErrorCorrectionLevel::M
    } else if bits == 7 {
        ErrorCorrectionLevel::Q
    } else {
        ErrorCorrectionLevel::L
    }
}

/// The two format bits of a level; `Invalid` gets 4, which names no level.
pub open spec fn spec_format_bits(level: ErrorCorrectionLevel) -> u8 {
    match level {
        ErrorCorrectionLevel::L => 1,
        ErrorCorrectionLevel::M => 0,
        ErrorCorrectionLevel::Q => 3,
        ErrorCorrectionLevel::H => 2,
        ErrorCorrectionLevel::Invalid => 4,
    }
}

/// The position of a level in the order L, M, Q, H; `Invalid` comes last.
pub open spec fn spec_ordinal(level: ErrorCorrectionLevel) -> u8 {
    match level {
        ErrorCorrectionLevel::L => 0,
        ErrorCorrectionLevel::M => 1,
        ErrorCorrectionLevel::Q => 2,
        ErrorCorrectionLevel::H => 3,
        ErrorCorrectionLevel::Invalid => 4,
    }
}

/// A level converts to its two format bits.
impl From<ErrorCorrectionLevel> for u8 {
    fn from(value: ErrorCorrectionLevel) -> (res: u8) {
        value.format_bits()
    }
}

impl vstd::std_specs::convert::FromSpecImpl<ErrorCorrectionLevel> for u8 {
    open spec fn obeys_from_spec() -> bool {
        true
    }

    open spec fn from_spec(v: ErrorCorrectionLevel) -> u8 {
        spec_format_bits(v)
    }
}

/// Two format bits convert to their level, as [`ErrorCorrectionLevel::for_bits`].
impl TryFrom<u8> for ErrorCorrectionLevel {
    type Error = Error;

    fn try_from(value: u8) -> (res: Result<Self, Error>) {
        Self::for_bits(value)
    }
}

impl vstd::std_specs::convert::TryFromSpecImpl<u8> for ErrorCorrectionLevel {
    open spec fn obeys_try_from_spec() -> bool {
        true
    }

    open spec fn try_from_spec(v: u8) -> Result<Self, Error> {
        if v < 4 {
            Ok(level_for_format_bits(v as int))
        } else {
            Err(Error::InvalidArgument)
        }
    }
}

impl ErrorCorrectionLevel {
    /// The level encoded by the two format bits `bits`; any other value is
    /// an invalid argument.
    pub fn for_bits(bits: u8) -> (res: Result<Self, Error>)
        ensures
            bits < 4 ==> res == Ok::<Self, Error>(level_for_format_bits(bits as int)),
            bits >= 4 ==> res == Err::<Self, Error>(Error::InvalidArgument),
    {
        match bits {
            0 => Ok(ErrorCorrectionLevel::M),
            1 => Ok(ErrorCorrectionLevel::L),
            2 => Ok(ErrorCorrectionLevel::H),
            3 => Ok(ErrorCorrectionLevel::Q),
            _ => Err(Error::InvalidArgument),
        }
    }

    /// The two format bits of this level.
    pub fn format_bits(self) -> (res: u8)
        ensures
            res == spec_format_bits(self),
    {
        match self {
            ErrorCorrectionLevel::L => 0x01,
            ErrorCorrectionLevel::M => 0x00,
            ErrorCorrectionLevel::Q => 0x03,
            ErrorCorrectionLevel::H => 0x02,
            ErrorCorrectionLevel::Invalid => 0x04,
        }
    }

    /// Index of this level's error-correction blocks in a version's table.
    pub fn ec_blocks_index(self) -> (res: usize)
        ensures
            res == spec_ordinal(self),
    {
        match self {
            ErrorCorrectionLevel::L => 0,
            ErrorCorrectionLevel::M => 1,
            ErrorCorrectionLevel::Q => 2,
            ErrorCorrectionLevel::H => 3,
            ErrorCorrectionLevel::Invalid => 4,
        }
    }

    /// Position of this level in the order L, M, Q, H, Invalid.
    pub fn ordinal(self) -> (res: u8)
        ensures
            res == spec_ordinal(self),
    {
        match self {
            ErrorCorrectionLevel::L => 0,
            ErrorCorrectionLevel::M => 1,
            ErrorCorrectionLevel::Q => 2,
            ErrorCorrectionLevel::H => 3,
            ErrorCorrectionLevel::Invalid => 4,
        }
    }

    /// The level named by the low bits of `bits`: three bits for a Micro QR
    /// symbol, two for the others.
    pub fn eclevel_from_bits_signed(bits: i8, is_micro: bool) -> (res: Self)
        ensures
            is_micro ==> res == micro_level_for_bits(((bits as u8) & 7u8) as int),
            !is_micro ==> res == level_for_format_bits(((bits as u8) & 3u8) as int),
    {
        let unsigned: u8 = bits as u8;
        if is_micro {
            let index: u8 = unsigned & 0x07;
            proof {
                assert(unsigned & 7u8 < 8) by (bit_vector);
            }
            return match index {
                2 | 4 | 6 => ErrorCorrectionLevel::M,
                7 => ErrorCorrectionLevel::Q,
                _ => ErrorCorrectionLevel::L,
            };
        }
        let index: u8 = unsigned & 0x03;
        proof {
            assert(unsigned & 3u8 < 4) by (bit_vector);
        }
        match index {
            0 => ErrorCorrectionLevel::M,
            1 => ErrorCorrectionLevel::L,
            2 => ErrorCorrectionLevel::H,
            _ => ErrorCorrectionLevel::Q,
        }
    }

    /// As [`Self::eclevel_from_bits_signed`], for unsigned bits.
    pub fn eclevel_from_bits(bits: u8, is_micro: bool) -> (res: Self)
        ensures
            is_micro ==> res == micro_level_for_bits((bits & 7u8) as int),
            !is_micro ==> res == level_for_format_bits((bits & 3u8) as int),
    {
        let signed: i8 = bits as i8;
        proof {
            assert((bits as i8) as u8 == bits) by (bit_vector);
        }
        Self::eclevel_from_bits_signed(signed, is_micro)
    }

    /// The level of a QR (not Micro QR) symbol named by the low two bits.
    pub fn from_format_bits(bits: u8) -> (res: Self)
        ensures
            res == level_for_format_bits((bits & 3u8) as int),
    {
        Self::eclevel_from_bits(bits, false)
    }
}

/// Reading a valid level's format bits back gives the level again; the
/// `Invalid` level has no format bits and is refused.
pub proof fn lemma_format_bits_round_trip(level: ErrorCorrectionLevel)
    ensures
        level != ErrorCorrectionLevel::Invalid ==> spec_format_bits(level) < 4
            && level_for_format_bits(spec_format_bits(level) as int) == level,
        level == ErrorCorrectionLevel::Invalid ==> spec_format_bits(level) >= 4,
{
}

/// The value of a string of decimal digits.
pub open spec fn decimal_value(digits: Seq<char>) -> nat
    decreases digits.len(),
{
    if digits.len() == 0 {
        0
    } else {
        10 * decimal_value(digits.drop_last()) + (digits.last() as nat - '0' as nat) as nat
    }
}

/// A string without its leading `+`, if it has one.
pub open spec fn unsigned_digits(s: Seq<char>) -> Seq<char> {
    if s.len() > 0 && s[0] == '+' {
        s.drop_first()
    } else {
        s
    }
}

/// Whether every character of a string is a decimal digit.
pub open spec fn all_decimal_digits(d: Seq<char>) -> bool {
    forall|i: int| 0 <= i < d.len() ==> '0' <= #[trigger] d[i] <= '9'
}

/// What `u8::from_str` gives, as its documentation states it: an optional
/// `+` followed by one or more decimal digits whose value fits in a byte.
pub open spec fn spec_parse_u8(s: Seq<char>) -> Option<u8> {
    let digits = unsigned_digits(s);
    if digits.len() > 0 && all_decimal_digits(digits) && decimal_value(digits) <= 255 {
        Some(decimal_value(digits) as u8)
    } else {
        None
    }
}

/// The decimal value of a run of digits never falls as digits are added.
proof fn lemma_decimal_value_prefix(digits: Seq<char>, n: int)
    requires
        0 <= n <= digits.len(),
        forall|i: int| 0 <= i < digits.len() ==> '0' <= #[trigger] digits[i] <= '9',
    ensures
        decimal_value(digits.take(n)) <= decimal_value(digits),
    decreases digits.len() - n,
{
    if n < digits.len() {
        lemma_decimal_value_prefix(digits, n + 1);
        assert(digits.take(n + 1).drop_last() =~= digits.take(n));
    } else {
        assert(digits.take(n) =~= digits);
    }
}

proof fn lemma_parse_none(s: Seq<char>, digits: Seq<char>)
    requires
        digits == unsigned_digits(s),
        !all_decimal_digits(digits) || decimal_value(digits) > 255,
    ensures
        spec_parse_u8(s) is None,
{
}

/// Parses a byte in decimal, as `str::parse::<u8>` does: an optional `+`
/// and then one or more decimal digits whose value fits in a byte.
fn parse_u8(s: &str) -> (res: Option<u8>)
    ensures
        res == spec_parse_u8(s@),
{
    let n = s.unicode_len();
    let mut i: usize = 0;
    if n > 0 && s.get_char(0) == '+' {
        i = 1;
    }
    let ghost digits = unsigned_digits(s@);
    let start = i;
    assert(digits =~= s@.skip(start as int));
    if i == n {
        return None;
    }
    let mut value: u32 = 0;
    while i < n
        invariant
            start <= i <= n,
            n == s@.len(),
            digits == s@.skip(start as int),
            digits == unsigned_digits(s@),
            digits.len() > 0,
            value <= 255,
            forall|k: int| 0 <= k < i - start ==> '0' <= #[trigger] digits[k] <= '9',
            value == decimal_value(digits.take(i - start)),
        decreases n - i,
    {
        let c = s.get_char(i);
        assert(c == digits[i - start]);
        if c < '0' || c > '9' {
            proof {
                let k = i - start;
                assert(0 <= k < digits.len() && !('0' <= digits[k] <= '9'));
                assert(!all_decimal_digits(digits));
                lemma_parse_none(s@, digits);
            }
            return None;
        }
        assert(digits.take(i - start + 1).drop_last() =~= digits.take(i - start));
        value = value * 10 + (c as u32 - '0' as u32);
        assert(digits.take(i - start + 1).last() == c);
        assert(value == decimal_value(digits.take(i - start + 1)));
        if value > 255 {
            proof {
                if all_decimal_digits(digits) {
                    lemma_decimal_value_prefix(digits, i - start + 1);
                    assert(decimal_value(digits) > 255);
                }
                lemma_parse_none(s@, digits);
            }
            return None;
        }
        i = i + 1;
    }
    assert(digits.take(n - start) =~= digits);
    Some(value as u8)
}

/// The name of a level.
pub open spec fn spec_level_name(level: ErrorCorrectionLevel) -> Seq<char> {
    match level {
        ErrorCorrectionLevel::L => "L"@,
        ErrorCorrectionLevel::M => "M"@,
        ErrorCorrectionLevel::Q => "Q"@,
        ErrorCorrectionLevel::H => "H"@,
        ErrorCorrectionLevel::Invalid => "Invalid"@,
    }
}

/// The level that a string names: its letter (compared without regard to
/// case) or its two format bits in decimal.
pub open spec fn spec_level_from_str(s: Seq<char>) -> Result<ErrorCorrectionLevel, Error> {
    level_from_str_upper(s, uppercase_of(s))
}

/// The level that a string names, given its upper-case form `upper`.
pub open spec fn level_from_str_upper(s: Seq<char>, upper: Seq<char>) -> Result<ErrorCorrectionLevel, Error> {
    if upper == "L"@ {
        Ok(ErrorCorrectionLevel::L)
    } else if upper == "M"@ {
        Ok(ErrorCorrectionLevel::M)
    } else if upper == "Q"@ {
        Ok(ErrorCorrectionLevel::Q)
    } else if upper == "H"@ {
        Ok(ErrorCorrectionLevel::H)
    } else {
        match spec_parse_u8(s) {
            Some(v) => if v < 4 {
                Ok(level_for_format_bits(v as int))
            } else {
                Err(Error::InvalidArgument)
            },
            None => Err(Error::InvalidArgument),
        }
    }
}

impl ErrorCorrectionLevel {
    /// The name of this level: its letter.
    pub fn to_string(&self) -> (res: String)
        ensures
            res@ == spec_level_name(*self),
    {
        let name: &str = match self {
            ErrorCorrectionLevel::L => "L",
            ErrorCorrectionLevel::M => "M",
            ErrorCorrectionLevel::Q => "Q",
            ErrorCorrectionLevel::H => "H",
            ErrorCorrectionLevel::Invalid => "Invalid",
        };
        name.to_owned()
    }

    /// The level that `s` names: its letter, compared without regard to
    /// case, or its format bits in decimal. Anything else is an invalid
    /// argument.
    pub fn from_str(s: &str) -> (res: Result<Self, Error>)
        ensures
            res == spec_level_from_str(s@),
            is_ascii_str(s@) ==> res == level_from_str_upper(s@, ascii_uppercase(s@)),
    {
        let upper = to_uppercase(s);
        let name = upper.as_str();
        if str_equals(name, "L") {
            return Ok(ErrorCorrectionLevel::L);
        } else if str_equals(name, "M") {
            return Ok(ErrorCorrectionLevel::M);
        } else if str_equals(name, "Q") {
            return Ok(ErrorCorrectionLevel::Q);
        } else if str_equals(name, "H") {
            return Ok(ErrorCorrectionLevel::H);
        }
        match parse_u8(s) {
            Some(v) => Self::for_bits(v),
            None => Err(Error::InvalidArgument),
        }
    }
}

} // verus!

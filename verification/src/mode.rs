use vstd::prelude::*;
use crate::error::Error;
use crate::version::Version;

verus! {

/// Data encoding modes of the QR code standard (ISO 18004:2006, 6.4.1,
/// Tables 2 and 3).
#[derive(Debug, PartialEq, Eq, Copy, Clone, Structural)]
pub enum Mode {
    Terminator,
    Numeric,
    Alphanumeric,
    StructuredAppend,
    Byte,
    Fnc1FirstPosition,
    Eci,
    Kanji,
    Fnc1SecondPosition,
    /// See GBT 18284-2000; "Hanzi" is a transliteration of this mode name.
    Hanzi,
}

/// The four-bit mode indicator of a mode.
pub open spec fn spec_mode_bits(mode: Mode) -> u8 {
    match mode {
        Mode::Terminator => 0x0,
        Mode::Numeric => 0x1,
        Mode::Alphanumeric => 0x2,
        Mode::StructuredAppend => 0x3,
        Mode::Byte => 0x4,
        Mode::Fnc1FirstPosition => 0x5,
        Mode::Eci => 0x7,
        Mode::Kanji => 0x8,
        Mode::Fnc1SecondPosition => 0x9,
        Mode::Hanzi => 0xD,
    }
}

/// Whether some mode has the indicator `bits`.
pub open spec fn is_mode_indicator(bits: int) -> bool {
    0 <= bits <= 5 || bits == 7 || bits == 8 || bits == 9 || bits == 0xD
}

/// The mode whose indicator is `bits` (for an indicator that names one).
pub open spec fn spec_mode_for_bits(bits: int) -> Mode {
    if bits == 0 {
        Mode::Terminator
    } else if bits == 1 {
        Mode::Numeric
    } else if bits == 2 {
        Mode::Alphanumeric
    } else if bits == 3 {
        Mode::StructuredAppend
    } else if bits == 4 {
        Mode::Byte
    } else if bits == 5 {
        Mode::Fnc1FirstPosition
    } else if bits == 7 {
        Mode::Eci
    } else if bits == 8 {
        Mode::Kanji
    } else if bits == 9 {
        Mode::Fnc1SecondPosition
    } else {
        Mode::Hanzi
    }
}

/// Widths of the character count field for versions 1-9, 10-26 and 27-40.
pub open spec fn spec_character_counts(mode: Mode) -> Seq<usize> {
    match mode {
        Mode::Numeric => seq![10usize, 12, 14],
        Mode::Alphanumeric => seq![9usize, 11, 13],
        Mode::Byte => seq![8usize, 16, 16],
        Mode::Kanji => seq![8usize, 10, 12],
        Mode::Hanzi => seq![8usize, 10, 12],
        _ => seq![0usize, 0, 0],
    }
}

/// Which of the three version ranges a version number falls in.
pub open spec fn version_range(number: u32) -> int {
    if number <= 9 {
        0
    } else if number <= 26 {
        1
    } else {
        2
    }
}

/// A mode converts to its four-bit indicator.
impl From<Mode> for u8 {
    fn from(value: Mode) -> (res: u8) {
        value.bits()
    }
}

impl vstd::std_specs::convert::FromSpecImpl<Mode> for u8 {
    open spec fn obeys_from_spec() -> bool {
        true
    }

    open spec fn from_spec(v: Mode) -> u8 {
        spec_mode_bits(v)
    }
}

/// A four-bit indicator converts to its mode, as [`Mode::for_bits`].
impl TryFrom<u8> for Mode {
    type Error = Error;

    fn try_from(value: u8) -> (res: Result<Self, Error>) {
        Self::for_bits(value)
    }
}

impl vstd::std_specs::convert::TryFromSpecImpl<u8> for Mode {
    open spec fn obeys_try_from_spec() -> bool {
        true
    }

    open spec fn try_from_spec(v: u8) -> Result<Self, Error> {
        if is_mode_indicator(v as int) {
            Ok(spec_mode_for_bits(v as int))
        } else {
            Err(Error::InvalidArgument)
        }
    }
}

/// An indicator given as a `u32` converts as the same `u8` does; a value
/// beyond a byte is an invalid argument.
impl TryFrom<u32> for Mode {
    type Error = Error;

    fn try_from(value: u32) -> (res: Result<Self, Error>) {
        if value > 255 {
            return Err(Error::InvalidArgument);
        }
        Self::for_bits(value as u8)
    }
}

impl vstd::std_specs::convert::TryFromSpecImpl<u32> for Mode {
    open spec fn obeys_try_from_spec() -> bool {
        true
    }

    open spec fn try_from_spec(v: u32) -> Result<Self, Error> {
        if v <= 255 && is_mode_indicator(v as int) {
            Ok(spec_mode_for_bits(v as int))
        } else {
            Err(Error::InvalidArgument)
        }
    }
}

impl Mode {
    /// The mode of the four-bit indicator `bits`; an indicator that names no
    /// mode is an invalid argument.
    pub fn for_bits(bits: u8) -> (res: Result<Self, Error>)
        ensures
            is_mode_indicator(bits as int) ==> res == Ok::<Mode, Error>(spec_mode_for_bits(bits as int)),
            !is_mode_indicator(bits as int) ==> res == Err::<Mode, Error>(Error::InvalidArgument),
    {
        match bits {
            0x0 => Ok(Mode::Terminator),
            0x1 => Ok(Mode::Numeric),
            0x2 => Ok(Mode::Alphanumeric),
            0x3 => Ok(Mode::StructuredAppend),
            0x4 => Ok(Mode::Byte),
            0x5 => Ok(Mode::Fnc1FirstPosition),
            0x7 => Ok(Mode::Eci),
            0x8 => Ok(Mode::Kanji),
            0x9 => Ok(Mode::Fnc1SecondPosition),
            0xD => Ok(Mode::Hanzi),
            _ => Err(Error::InvalidArgument),
        }
    }

    /// Character count field widths for the three version ranges.
    pub fn character_counts(&self) -> (res: [usize; 3])
        ensures
            res@ == spec_character_counts(*self),
    {
        let res: [usize; 3] = match self {
            Mode::Numeric => [10, 12, 14],
            Mode::Alphanumeric => [9, 11, 13],
            Mode::Byte => [8, 16, 16],
            Mode::Kanji => [8, 10, 12],
            Mode::Hanzi => [8, 10, 12],
            _ => [0, 0, 0],
        };
        assert(res@ =~= spec_character_counts(*self));
        res
    }

    /// Width in bits of the character count that follows this mode's
    /// indicator in a symbol of `version`.
    pub fn character_count_bits(&self, version: &Version) -> (res: usize)
        ensures
            res == spec_character_counts(*self)[version_range(version@.number)],
    {
        let number = version.number();
        let offset: usize = if number <= 9 {
            0
        } else if number <= 26 {
            1
        } else {
            2
        };
        let counts = self.character_counts();
        counts[offset]
    }

    /// The four-bit indicator of this mode.
    pub fn bits(self) -> (res: u8)
        ensures
            res == spec_mode_bits(self),
    {
        match self {
            Mode::Terminator => 0x0,
            Mode::Numeric => 0x1,
            Mode::Alphanumeric => 0x2,
            Mode::StructuredAppend => 0x3,
            Mode::Byte => 0x4,
            Mode::Fnc1FirstPosition => 0x5,
            Mode::Eci => 0x7,
            Mode::Kanji => 0x8,
            Mode::Fnc1SecondPosition => 0x9,
            Mode::Hanzi => 0xD,
        }
    }

    /// Bits of the terminator: a mode indicator of four zero bits.
    pub fn terminator_bit_length(version: &Version) -> (res: usize)
        ensures
            res == 4,
    {
        4
    }

    /// Bits of a mode indicator.
    pub fn codec_mode_bits_length(version: &Version) -> (res: usize)
        ensures
            res == 4,
    {
        4
    }

    /// The mode of the indicator `bits`; an indicator that names no mode is
    /// an invalid format.
    pub fn codec_mode_for_bits(bits: u32) -> (res: Result<Self, Error>)
        ensures
            is_mode_indicator(bits as int) ==> res == Ok::<Mode, Error>(spec_mode_for_bits(bits as int)),
            !is_mode_indicator(bits as int) ==> res == Err::<Mode, Error>(Error::InvalidFormat),
    {
        if bits > 0xFF {
            return Err(Error::InvalidFormat);
        }
        match Self::for_bits(bits as u8) {
            Ok(mode) => Ok(mode),
            Err(_) => Err(Error::InvalidFormat),
        }
    }
}

/// Every mode's indicator reads back as that mode, and only the listed
/// indicators name a mode.
pub proof fn lemma_mode_bits_round_trip(mode: Mode)
    ensures
        is_mode_indicator(spec_mode_bits(mode) as int),
        spec_mode_for_bits(spec_mode_bits(mode) as int) == mode,
{
}

/// The name of a mode.
pub open spec fn spec_mode_name(mode: Mode) -> Seq<char> {
    match mode {
        Mode::Terminator => "Terminator"@,
        Mode::Numeric => "Numeric"@,
        Mode::Alphanumeric => "Alphanumeric"@,
        Mode::StructuredAppend => "StructuredAppend"@,
        Mode::Byte => "Byte"@,
        Mode::Fnc1FirstPosition => "Fnc1FirstPosition"@,
        Mode::Eci => "Eci"@,
        Mode::Kanji => "Kanji"@,
        Mode::Fnc1SecondPosition => "Fnc1SecondPosition"@,
        Mode::Hanzi => "Hanzi"@,
    }
}

impl Mode {
    /// The name of this mode.
    pub fn to_string(&self) -> (res: String)
        ensures
            res@ == spec_mode_name(*self),
    {
        let name: &str = match self {
            Mode::Terminator => "Terminator",
            Mode::Numeric => "Numeric",
            Mode::Alphanumeric => "Alphanumeric",
            Mode::StructuredAppend => "StructuredAppend",
            Mode::Byte => "Byte",
            Mode::Fnc1FirstPosition => "Fnc1FirstPosition",
            Mode::Eci => "Eci",
            Mode::Kanji => "Kanji",
            Mode::Fnc1SecondPosition => "Fnc1SecondPosition",
            Mode::Hanzi => "Hanzi",
        };
        name.to_owned()
    }
}

} // verus!

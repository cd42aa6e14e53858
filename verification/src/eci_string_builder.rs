use vstd::prelude::*;
use crate::character_set::CharacterSet;

verus! {

/// Which kind of application identifiers the decoded data carries.
#[derive(Debug, Clone, Copy, PartialEq, Eq, Structural)]
pub enum AIFlag {
    NoIdentifiers,
    GS1,
    Aim,
}

/// The symbology identifier of decoded data (ISO/IEC 15424).
#[derive(Debug, Clone, Copy, PartialEq, Eq, Structural)]
pub struct SymbologyIdentifier {
    pub code: u8,
    pub modifier: u8,
    pub eci_modifier_offset: u8,
    pub ai_flag: AIFlag,
}

/// How the bytes from some position on are to be read: a character set
/// chosen by the segment mode, or an Extended Channel Interpretation.
#[derive(Debug, Clone, Copy, PartialEq, Eq, Structural)]
pub enum SegmentEncoding {
    Charset(CharacterSet),
    Eci(u32),
}

/// Decoded bytes with the encodings they are in.
pub struct ECIStringBuilder {
    pub bytes: Vec<u8>,
    pub encodings: Vec<(SegmentEncoding, usize)>,
    pub has_eci: bool,
    pub symbology: SymbologyIdentifier,
}

/// The encodings after switching to `encoding` at byte `position`: the
/// first ECI replaces every encoding chosen by a mode; once an ECI was seen,
/// modes no longer switch.
pub open spec fn switched_encodings(
    encodings: Seq<(SegmentEncoding, usize)>,
    has_eci: bool,
    encoding: SegmentEncoding,
    position: usize,
    is_eci: bool,
) -> Seq<(SegmentEncoding, usize)> {
    let base = if is_eci && !has_eci {
        Seq::empty()
    } else {
        encodings
    };
    if is_eci || !has_eci {
        base.push((encoding, position))
    } else {
        base
    }
}

impl ECIStringBuilder {
    /// An empty builder with the given symbology identifier.
    pub fn new(symbology: SymbologyIdentifier) -> (res: Self)
        ensures
            res.bytes@ == Seq::<u8>::empty(),
            res.encodings@ == Seq::<(SegmentEncoding, usize)>::empty(),
            !res.has_eci,
            res.symbology == symbology,
    {
        ECIStringBuilder { bytes: Vec::new(), encodings: Vec::new(), has_eci: false, symbology }
    }

    /// Whether no byte was appended.
    pub fn is_empty(&self) -> (res: bool)
        ensures
            res == (self.bytes@.len() == 0),
    {
        self.bytes.len() == 0
    }

    /// Switches the encoding of the bytes appended from now on.
    pub fn switch_encoding(&mut self, encoding: SegmentEncoding, is_eci: bool)
        ensures
            final(self).bytes@ == old(self).bytes@,
            final(self).encodings@ == switched_encodings(
                old(self).encodings@,
                old(self).has_eci,
                encoding,
                old(self).bytes@.len() as usize,
                is_eci,
            ),
            final(self).has_eci == (old(self).has_eci || is_eci),
            final(self).symbology == old(self).symbology,
    {
        if is_eci && !self.has_eci {
            self.encodings = Vec::new();
        }
        if is_eci || !self.has_eci {
            let position = self.bytes.len();
            self.encodings.push((encoding, position));
        }
        self.has_eci = self.has_eci || is_eci;
    }

    /// Appends one byte.
    pub fn push_byte(&mut self, byte: u8)
        ensures
            final(self).bytes@ == old(self).bytes@.push(byte),
            final(self).encodings@ == old(self).encodings@,
            final(self).has_eci == old(self).has_eci,
            final(self).symbology == old(self).symbology,
    {
        self.bytes.push(byte);
    }

    /// Appends bytes.
    pub fn append_bytes(&mut self, bytes: &[u8])
        ensures
            final(self).bytes@ == old(self).bytes@ + bytes@,
            final(self).encodings@ == old(self).encodings@,
            final(self).has_eci == old(self).has_eci,
            final(self).symbology == old(self).symbology,
    {
        let mut i: usize = 0;
        let ghost start = self.bytes@;
        while i < bytes.len()
            invariant
                i <= bytes@.len(),
                self.bytes@ == start + bytes@.take(i as int),
                self.encodings@ == old(self).encodings@,
                self.has_eci == old(self).has_eci,
                self.symbology == old(self).symbology,
                start == old(self).bytes@,
            decreases bytes@.len() - i,
        {
            self.bytes.push(bytes[i]);
            assert(bytes@.take(i as int + 1) =~= bytes@.take(i as int).push(bytes@[i as int]));
            i = i + 1;
        }
        assert(bytes@.take(i as int) =~= bytes@);
    }
}

} // verus!

use vstd::prelude::*;
use crate::barcode_format::BarcodeFormat;

verus! {

/// The kinds of hint that a caller may pass to a reader to help it decode
/// more quickly or more accurately. What, if anything, a reader does with
/// a hint is up to it.
#[derive(PartialEq, Eq, Hash, Debug, Clone, Copy, Structural)]
pub enum DecodeHintType {
    /// An unspecified, application-specific hint.
    OTHER,
    /// The image is known to be of one of a few formats.
    PossibleFormats,
    /// Spend more time to find a barcode: optimise for accuracy, not speed.
    TryHarder,
    /// The character encoding to use when decoding, where applicable.
    CharacterSet,
    /// Allowed lengths of encoded data; anything else is rejected.
    AllowedLengths,
    /// Assume that Code 39 codes carry a check digit.
    AssumeCode39CheckDigit,
    /// Assume that the barcode is a GS1 barcode.
    AssumeGs1,
    /// Return the start and end digits of a Codabar barcode.
    ReturnCodabarStartEnd,
    /// The caller wants to be told of each possible result point found.
    NeedResultPointCallback,
    /// Allowed extension lengths for EAN or UPC barcodes.
    AllowedEanExtensions,
    /// Translate Telepen ASCII values into the Telepen numeric form.
    TelepenAsNumeric,
}

/// A hint with its value.
#[derive(Clone, Debug)]
pub enum DecodeHintValue {
    /// An unspecified, application-specific hint.
    Other(String),
    /// The image is known to be of one of these formats.
    PossibleFormats(Vec<BarcodeFormat>),
    /// Spend more time to find a barcode.
    TryHarder(bool),
    /// The character encoding to use when decoding.
    CharacterSet(String),
    /// Allowed lengths of encoded data.
    AllowedLengths(Vec<u32>),
    /// Assume that Code 39 codes carry a check digit.
    AssumeCode39CheckDigit(bool),
    /// Assume that the barcode is a GS1 barcode.
    AssumeGs1(bool),
    /// Return the start and end digits of a Codabar barcode.
    ReturnCodabarStartEnd(bool),
    /// Allowed extension lengths for EAN or UPC barcodes.
    AllowedEanExtensions(Vec<u32>),
    /// Translate Telepen ASCII values into the Telepen numeric form.
    TelepenAsNumeric(bool),
}

/// The hints given to a reader, each at most once. `possible_formats` is a
/// set: it holds no format twice.
#[derive(Clone, Debug)]
pub struct DecodeHints {
    pub other: Option<String>,
    pub possible_formats: Option<Vec<BarcodeFormat>>,
    pub try_harder: Option<bool>,
    pub character_set: Option<String>,
    pub allowed_lengths: Option<Vec<u32>>,
    pub assume_code_39_check_digit: Option<bool>,
    pub assume_gs1: Option<bool>,
    pub return_codabar_start_end: Option<bool>,
    pub allowed_ean_extensions: Option<Vec<u32>>,
    pub telepen_as_numeric: Option<bool>,
}

/// Whether no format occurs twice in `formats`.
pub open spec fn formats_distinct(formats: Seq<BarcodeFormat>) -> bool {
    forall|i: int, j: int| 0 <= i < j < formats.len() ==> formats[i] != formats[j]
}

/// The formats of `formats`, each once, in the order of their first
/// occurrence.
pub open spec fn distinct_formats(formats: Seq<BarcodeFormat>) -> Seq<BarcodeFormat>
    decreases formats.len(),
{
    if formats.len() == 0 {
        seq![]
    } else {
        let prev = distinct_formats(formats.drop_last());
        if prev.contains(formats.last()) {
            prev
        } else {
            prev.push(formats.last())
        }
    }
}

impl DecodeHints {
    /// Whether `possible_formats` holds no format twice.
    pub open spec fn wf(&self) -> bool {
        self.possible_formats matches Some(v) ==> formats_distinct(v@)
    }

    /// These hints with `value` set; a set of possible formats keeps each
    /// format once.
    pub fn with(self, value: DecodeHintValue) -> (res: Self)
        ensures
            match value {
                DecodeHintValue::Other(v) => res == (DecodeHints { other: Some(v), ..self }),
                DecodeHintValue::PossibleFormats(v) => res.possible_formats matches Some(f) && f@
                    == distinct_formats(v@) && res == (DecodeHints { possible_formats: res.possible_formats, ..self }),
                DecodeHintValue::TryHarder(v) => res == (DecodeHints { try_harder: Some(v), ..self }),
                DecodeHintValue::CharacterSet(v) => res == (DecodeHints { character_set: Some(v), ..self }),
                DecodeHintValue::AllowedLengths(v) => res == (DecodeHints { allowed_lengths: Some(v), ..self }),
                DecodeHintValue::AssumeCode39CheckDigit(v) => res == (DecodeHints {
                    assume_code_39_check_digit: Some(v),
                    ..self
                }),
                DecodeHintValue::AssumeGs1(v) => res == (DecodeHints { assume_gs1: Some(v), ..self }),
                DecodeHintValue::ReturnCodabarStartEnd(v) => res == (DecodeHints {
                    return_codabar_start_end: Some(v),
                    ..self
                }),
                DecodeHintValue::AllowedEanExtensions(v) => res == (DecodeHints {
                    allowed_ean_extensions: Some(v),
                    ..self
                }),
                DecodeHintValue::TelepenAsNumeric(v) => res == (DecodeHints { telepen_as_numeric: Some(v), ..self }),
            },
            self.wf() ==> res.wf(),
    {
        let mut hints = self;
        match value {
            DecodeHintValue::Other(v) => hints.other = Some(v),
            DecodeHintValue::PossibleFormats(v) => hints.possible_formats = Some(dedup_formats(&v)),
            DecodeHintValue::TryHarder(v) => hints.try_harder = Some(v),
            DecodeHintValue::CharacterSet(v) => hints.character_set = Some(v),
            DecodeHintValue::AllowedLengths(v) => hints.allowed_lengths = Some(v),
            DecodeHintValue::AssumeCode39CheckDigit(v) => hints.assume_code_39_check_digit = Some(v),
            DecodeHintValue::AssumeGs1(v) => hints.assume_gs1 = Some(v),
            DecodeHintValue::ReturnCodabarStartEnd(v) => hints.return_codabar_start_end = Some(v),
            DecodeHintValue::AllowedEanExtensions(v) => hints.allowed_ean_extensions = Some(v),
            DecodeHintValue::TelepenAsNumeric(v) => hints.telepen_as_numeric = Some(v),
        }
        hints
    }
}

impl Default for DecodeHints {
    /// No hint given.
    fn default() -> (res: Self)
        ensures
            res == (DecodeHints {
                other: None,
                possible_formats: None,
                try_harder: None,
                character_set: None,
                allowed_lengths: None,
                assume_code_39_check_digit: None,
                assume_gs1: None,
                return_codabar_start_end: None,
                allowed_ean_extensions: None,
                telepen_as_numeric: None,
            }),
    {
        DecodeHints {
            other: None,
            possible_formats: None,
            try_harder: None,
            character_set: None,
            allowed_lengths: None,
            assume_code_39_check_digit: None,
            assume_gs1: None,
            return_codabar_start_end: None,
            allowed_ean_extensions: None,
            telepen_as_numeric: None,
        }
    }
}

proof fn lemma_distinct_formats(formats: Seq<BarcodeFormat>)
    ensures
        formats_distinct(distinct_formats(formats)),
        forall|f: BarcodeFormat| #[trigger] distinct_formats(formats).contains(f) <==> formats.contains(f),
    decreases formats.len(),
{
    if formats.len() > 0 {
        let rest = formats.drop_last();
        lemma_distinct_formats(rest);
        assert forall|f: BarcodeFormat| #[trigger] formats.contains(f) <==> (rest.contains(f) || f
            == formats.last()) by {
            if formats.contains(f) {
                let k = choose|k: int| 0 <= k < formats.len() && formats[k] == f;
                if k < formats.len() - 1 {
                    assert(rest[k] == f);
                }
            }
            if rest.contains(f) {
                let k = choose|k: int| 0 <= k < rest.len() && rest[k] == f;
                assert(formats[k] == f);
            }
            if f == formats.last() {
                assert(formats[formats.len() - 1] == f);
            }
        }
        let prev = distinct_formats(rest);
        let x = formats.last();
        if !prev.contains(x) {
            let next = prev.push(x);
            assert forall|f: BarcodeFormat| #[trigger] next.contains(f) <==> (prev.contains(f) || f == x) by {
                if next.contains(f) {
                    let k = choose|k: int| 0 <= k < next.len() && next[k] == f;
                    if k < prev.len() {
                        assert(prev[k] == f);
                    }
                }
                if prev.contains(f) {
                    let k = choose|k: int| 0 <= k < prev.len() && prev[k] == f;
                    assert(next[k] == f);
                }
                if f == x {
                    assert(next[prev.len() as int] == f);
                }
            }
            assert forall|i: int, j: int| 0 <= i < j < next.len() implies next[i] != next[j] by {
                if j == prev.len() {
                    assert(prev[i] == next[i]);
                }
            }
        }
    }
}

/// The formats of `formats`, each once, in the order of first occurrence.
fn dedup_formats(formats: &Vec<BarcodeFormat>) -> (res: Vec<BarcodeFormat>)
    ensures
        res@ == distinct_formats(formats@),
        formats_distinct(res@),
{
    let mut out: Vec<BarcodeFormat> = Vec::new();
    let mut i: usize = 0;
    while i < formats.len()
        invariant
            i <= formats@.len(),
            out@ == distinct_formats(formats@.take(i as int)),
        decreases formats@.len() - i,
    {
        let f = formats[i];
        let mut found = false;
        let mut k: usize = 0;
        while k < out.len()
            invariant
                k <= out@.len(),
                found <==> exists|j: int| 0 <= j < k && out@[j] == f,
            decreases out@.len() - k,
        {
            if out[k] == f {
                found = true;
            }
            k = k + 1;
        }
        proof {
            assert(formats@.take(i as int + 1).drop_last() =~= formats@.take(i as int));
            assert(formats@.take(i as int + 1).last() == f);
            if found {
                let j = choose|j: int| 0 <= j < k && out@[j] == f;
                assert(out@.contains(f));
            } else {
                assert(!out@.contains(f));
            }
        }
        if !found {
            out.push(f);
        }
        i = i + 1;
    }
    proof {
        assert(formats@.take(i as int) =~= formats@);
        lemma_distinct_formats(formats@);
    }
    out
}

} // verus!

use vstd::prelude::*;
use crate::bit_matrix::BitMatrix;
use crate::bitmatrix_parser::{bits_value, bytes_of, codeword_bits, format_cells1, module_at};
use crate::data_mask::{DataMask, mask_bit, mask_index};
use crate::error::Error;
use crate::format_information::{FORMAT_INFO_MASK_QR, FormatInformation, spec_decode_pair};
use crate::qr_version::{Version, is_first_nearest_version, spec_model2, version_distance};

verus! {

/// Reads the version, the format information and the codewords of a QR
/// code from its modules, as ISO 18004:2006 lays them out. It can read the
/// format and version information mirrored (axes swapped), and can mirror
/// its matrix for a second reading.
pub struct BitMatrixParser {
    bit_matrix: BitMatrix,
    parsed_version: Option<u32>,
    parsed_format_info: Option<FormatInformation>,
    mirror: bool,
}

/// The modules at `cells`, read with the axes swapped when `mirror`.
pub open spec fn modules_read(m: BitMatrix, cells: Seq<(int, int)>, mirror: bool) -> Seq<bool> {
    cells.map_values(|c: (int, int)| module_at(m, c.0, c.1, mirror))
}

/// Cells of the second copy of the format information (top right and
/// bottom left) in reading order, for a symbol `d` modules high.
pub open spec fn second_format_cells(d: int) -> Seq<(int, int)> {
    Seq::new(7, |k: int| (8int, d - 1 - k)) + Seq::new(8, |k: int| (d - 8 + k, 8int))
}

/// Cells of the top-right version information (3 wide, 6 tall) in reading
/// order, for a symbol `d` modules wide.
pub open spec fn top_right_version_cells(d: int) -> Seq<(int, int)> {
    Seq::new(18, |k: int| (d - 9 - k % 3, 5 - k / 3))
}

/// Cells of the bottom-left version information (6 wide, 3 tall) in
/// reading order, for a symbol `d` modules high.
pub open spec fn bottom_left_version_cells(d: int) -> Seq<(int, int)> {
    Seq::new(18, |k: int| (5 - k / 3, d - 9 - k % 3))
}

/// The format information that two readings decode to: the nearest pattern
/// to either, masked as the standard prescribes or, failing that, unmasked.
pub open spec fn decoded_format(bits1: u32, bits2: u32) -> Option<FormatInformation> {
    if spec_decode_pair(bits1, bits2) is Some {
        spec_decode_pair(bits1, bits2)
    } else {
        spec_decode_pair(bits1 ^ FORMAT_INFO_MASK_QR, bits2 ^ FORMAT_INFO_MASK_QR)
    }
}

/// The version number that version bits decode to: that of the first of
/// the nearest version patterns, if at most three bits away.
pub open spec fn decoded_version(bits: u32) -> Option<u32> {
    if exists|i: int| 0 <= i < 34 && version_distance(bits, i) <= 3 {
        Some(((choose|i: int| is_first_nearest_version(bits, i)) + 7) as u32)
    } else {
        None
    }
}

/// A copy of a format information.
fn copy_format(fi: &FormatInformation) -> (res: FormatInformation)
    ensures
        res == *fi,
{
    FormatInformation {
        hamming_distance: fi.hamming_distance,
        error_correction_level: fi.error_correction_level,
        data_mask: fi.data_mask,
        micro_version: fi.micro_version,
        is_mirrored: fi.is_mirrored,
        mask: fi.mask,
        data: fi.data,
        bits_index: fi.bits_index,
    }
}

impl BitMatrixParser {
    /// The matrix being read.
    pub closed spec fn spec_matrix(&self) -> BitMatrix {
        self.bit_matrix
    }

    /// The version number read so far, if any.
    pub closed spec fn spec_parsed_version(&self) -> Option<u32> {
        self.parsed_version
    }

    /// The format information read so far, if any.
    pub closed spec fn spec_parsed_format(&self) -> Option<FormatInformation> {
        self.parsed_format_info
    }

    /// Whether format and version information are read mirrored.
    pub closed spec fn spec_mirror(&self) -> bool {
        self.mirror
    }

    /// The side of the symbol: the height of the matrix.
    pub open spec fn spec_dimension(&self) -> int {
        self.spec_matrix().spec_height() as int
    }

    /// Well-formedness: a matrix of a QR code's height (21 or more, 1 mod
    /// 4); a version read only when it agrees with that height.
    pub closed spec fn wf(&self) -> bool {
        &&& self.bit_matrix.wf()
        &&& self.bit_matrix.spec_height() >= 21
        &&& self.bit_matrix.spec_height() % 4 == 1
        &&& self.parsed_version matches Some(n) ==> 7 <= n <= 40 && 17 + 4 * n == self.bit_matrix.spec_height()
    }

    /// A parser of `bit_matrix`; a height below 21 or not 1 mod 4 is an
    /// invalid format.
    pub fn new(bit_matrix: BitMatrix) -> (res: Result<Self, Error>)
        requires
            bit_matrix.wf(),
        ensures
            (bit_matrix.spec_height() < 21 || bit_matrix.spec_height() % 4 != 1) ==> res == Err::<
                Self,
                Error,
            >(Error::InvalidFormat),
            !(bit_matrix.spec_height() < 21 || bit_matrix.spec_height() % 4 != 1) ==> (res matches Ok(p)
                && p.wf() && p.spec_matrix() == bit_matrix && p.spec_parsed_version() is None
                && p.spec_parsed_format() is None && !p.spec_mirror()),
    {
        let dimension = bit_matrix.height();
        assert(dimension & 3 == dimension % 4) by (bit_vector);
        if dimension < 21 || (dimension & 0x03) != 1 {
            Err(Error::InvalidFormat)
        } else {
            Ok(BitMatrixParser { bit_matrix, parsed_version: None, parsed_format_info: None, mirror: false })
        }
    }

    /// Sets whether format and version information are read mirrored, and
    /// forgets what was read of them.
    pub fn set_mirror(&mut self, mirror: bool)
        requires
            old(self).wf(),
        ensures
            final(self).wf(),
            final(self).spec_matrix() == old(self).spec_matrix(),
            final(self).spec_parsed_version() is None,
            final(self).spec_parsed_format() is None,
            final(self).spec_mirror() == mirror,
    {
        self.parsed_version = None;
        self.parsed_format_info = None;
        self.mirror = mirror;
    }

    /// Mirrors the (square) matrix about its main diagonal, for a second
    /// reading.
    pub fn mirror(&mut self)
        requires
            old(self).wf(),
            old(self).spec_matrix().spec_width() == old(self).spec_matrix().spec_height(),
        ensures
            final(self).wf(),
            final(self).spec_matrix().spec_width() == old(self).spec_matrix().spec_width(),
            final(self).spec_matrix().spec_height() == old(self).spec_matrix().spec_height(),
            forall|x: int, y: int|
                #[trigger] final(self).spec_matrix().spec_get(x, y) == old(self).spec_matrix().spec_get(y, x),
            final(self).spec_parsed_version() == old(self).spec_parsed_version(),
            final(self).spec_parsed_format() == old(self).spec_parsed_format(),
            final(self).spec_mirror() == old(self).spec_mirror(),
    {
        let ghost start = self.bit_matrix;
        let width = self.bit_matrix.width();
        let height = self.bit_matrix.height();
        let mut x: u32 = 0;
        while x < width
            invariant
                width == height,
                width == start.spec_width(),
                height == start.spec_height(),
                x <= width,
                self.wf(),
                self.bit_matrix.spec_width() == width,
                self.bit_matrix.spec_height() == height,
                self.parsed_version == old(self).parsed_version,
                self.parsed_format_info == old(self).parsed_format_info,
                self.mirror == old(self).mirror,
                start == old(self).bit_matrix,
                forall|a: int, b: int|
                    #[trigger] self.bit_matrix.spec_get(a, b) == if 0 <= a < width && 0 <= b < width && a != b
                        && (a < x || b < x) {
                        start.spec_get(b, a)
                    } else {
                        start.spec_get(a, b)
                    },
            decreases width - x,
        {
            let mut y: u32 = x + 1;
            while y < height
                invariant
                    width == height,
                    width == start.spec_width(),
                    height == start.spec_height(),
                    x < width,
                    x + 1 <= y <= height,
                    self.wf(),
                    self.bit_matrix.spec_width() == width,
                    self.bit_matrix.spec_height() == height,
                    self.parsed_version == old(self).parsed_version,
                    self.parsed_format_info == old(self).parsed_format_info,
                    self.mirror == old(self).mirror,
                    start == old(self).bit_matrix,
                    forall|a: int, b: int|
                        #[trigger] self.bit_matrix.spec_get(a, b) == if 0 <= a < width && 0 <= b < width && a
                            != b && (a < x || b < x || (a == x && b < y) || (b == x && a < y)) {
                            start.spec_get(b, a)
                        } else {
                            start.spec_get(a, b)
                        },
                decreases height - y,
            {
                let forward = self.bit_matrix.get(x, y);
                let backward = self.bit_matrix.get(y, x);
                if forward != backward {
                    self.bit_matrix.flip(y, x);
                    self.bit_matrix.flip(x, y);
                }
                y = y + 1;
            }
            x = x + 1;
        }
        proof {
            assert forall|a: int, b: int| #[trigger]
                self.bit_matrix.spec_get(a, b) == start.spec_get(b, a) by {
                if !(0 <= a < width && 0 <= b < width) {
                    start.lemma_get_outside(a, b);
                    start.lemma_get_outside(b, a);
                }
            }
        }
    }
}

/// The cells `(xs[k], ys[k])`.
pub open spec fn cells_of(xs: Seq<u32>, ys: Seq<u32>) -> Seq<(int, int)> {
    Seq::new(xs.len(), |k: int| (xs[k] as int, ys[k] as int))
}

fn version_cells(d: u32, top_right: bool) -> (res: (Vec<u32>, Vec<u32>))
    requires
        d >= 21,
    ensures
        res.0@.len() == 18,
        res.1@.len() == 18,
        top_right ==> cells_of(res.0@, res.1@) == top_right_version_cells(d as int),
        !top_right ==> cells_of(res.0@, res.1@) == bottom_left_version_cells(d as int),
{
    let mut xs: Vec<u32> = Vec::new();
    let mut ys: Vec<u32> = Vec::new();
    let mut k: u32 = 0;
    while k < 18
        invariant
            d >= 21,
            k <= 18,
            xs@.len() == k,
            ys@.len() == k,
            forall|j: int|
                0 <= j < k ==> if top_right {
                    #[trigger] xs@[j] == d - 9 - j % 3 && ys@[j] == 5 - j / 3
                } else {
                    xs@[j] == 5 - j / 3 && ys@[j] == d - 9 - j % 3
                },
        decreases 18 - k,
    {
        if top_right {
            xs.push(d - 9 - k % 3);
            ys.push(5 - k / 3);
        } else {
            xs.push(5 - k / 3);
            ys.push(d - 9 - k % 3);
        }
        k = k + 1;
    }
    proof {
        if top_right {
            assert(cells_of(xs@, ys@) =~= top_right_version_cells(d as int));
        } else {
            assert(cells_of(xs@, ys@) =~= bottom_left_version_cells(d as int));
        }
    }
    (xs, ys)
}

fn second_format_cells_of(d: u32) -> (res: (Vec<u32>, Vec<u32>))
    requires
        d >= 21,
    ensures
        res.0@.len() == 15,
        res.1@.len() == 15,
        cells_of(res.0@, res.1@) == second_format_cells(d as int),
{
    let mut xs: Vec<u32> = Vec::new();
    let mut ys: Vec<u32> = Vec::new();
    let mut k: u32 = 0;
    while k < 7
        invariant
            d >= 21,
            k <= 7,
            xs@.len() == k,
            ys@.len() == k,
            forall|j: int| 0 <= j < k ==> #[trigger] xs@[j] == 8,
            forall|j: int| 0 <= j < k ==> #[trigger] ys@[j] == d - 1 - j,
        decreases 7 - k,
    {
        xs.push(8);
        ys.push(d - 1 - k);
        k = k + 1;
    }
    let mut k: u32 = 0;
    while k < 8
        invariant
            d >= 21,
            k <= 8,
            xs@.len() == 7 + k,
            ys@.len() == 7 + k,
            forall|j: int| 0 <= j < 7 ==> #[trigger] xs@[j] == 8,
            forall|j: int| 0 <= j < 7 ==> #[trigger] ys@[j] == d - 1 - j,
            forall|j: int| 7 <= j < 7 + k ==> #[trigger] xs@[j] == d - 8 + (j - 7),
            forall|j: int| 7 <= j < 7 + k ==> #[trigger] ys@[j] == 8,
        decreases 8 - k,
    {
        xs.push(d - 8 + k);
        ys.push(8);
        k = k + 1;
    }
    assert(cells_of(xs@, ys@) =~= second_format_cells(d as int));
    (xs, ys)
}

fn first_format_cells_of() -> (res: (Vec<u32>, Vec<u32>))
    ensures
        res.0@.len() == 15,
        res.1@.len() == 15,
        cells_of(res.0@, res.1@) == format_cells1(),
{
    let xs = vec![0u32, 1, 2, 3, 4, 5, 7, 8, 8, 8, 8, 8, 8, 8, 8];
    let ys = vec![8u32, 8, 8, 8, 8, 8, 8, 8, 7, 5, 4, 3, 2, 1, 0];
    assert(cells_of(xs@, ys@) =~= format_cells1());
    (xs, ys)
}

impl BitMatrixParser {
    /// The value of the modules at `(xs[k], ys[k])`, first most
    /// significant, read mirrored when this parser reads so.
    fn read_cells(&self, xs: &Vec<u32>, ys: &Vec<u32>) -> (res: u32)
        requires
            xs@.len() == ys@.len(),
            xs@.len() < 32,
        ensures
            res == bits_value(modules_read(self.spec_matrix(), cells_of(xs@, ys@), self.spec_mirror())),
    {
        let ghost cells = cells_of(xs@, ys@);
        let ghost m = self.bit_matrix;
        let mut value: u32 = 0;
        let mut i: usize = 0;
        while i < xs.len()
            invariant
                i <= xs@.len(),
                xs@.len() == ys@.len(),
                xs@.len() < 32,
                cells == cells_of(xs@, ys@),
                m == self.bit_matrix,
                value == bits_value(modules_read(m, cells.take(i as int), self.mirror)),
            decreases xs@.len() - i,
        {
            let bit = if self.mirror {
                self.bit_matrix.get(ys[i], xs[i])
            } else {
                self.bit_matrix.get(xs[i], ys[i])
            };
            proof {
                assert(modules_read(m, cells.take(i as int + 1), self.mirror) =~= modules_read(
                    m,
                    cells.take(i as int),
                    self.mirror,
                ).push(bit));
            }
            value = crate::bitmatrix_parser::append_bit_u32(value, Ghost(modules_read(m, cells.take(i as int), self.mirror)), bit);
            i = i + 1;
        }
        proof {
            assert(cells.take(i as int) =~= cells);
        }
        value
    }
}

/// The format information that a parser reads from `m`: both copies,
/// read mirrored when `mirror`, decoded together.
pub open spec fn parser_format_spec(m: BitMatrix, mirror: bool) -> Option<FormatInformation> {
    decoded_format(
        bits_value(modules_read(m, format_cells1(), mirror)) as u32,
        bits_value(modules_read(m, second_format_cells(m.spec_height() as int), mirror)) as u32,
    )
}

/// The version number that a parser reads from `m` of a QR code's
/// height: below version 7 the one that the height gives; from 7 on the
/// one that the top-right version information decodes to, else the one the
/// bottom-left one decodes to, if it agrees with the height; otherwise an
/// invalid format.
pub open spec fn parser_version_spec(m: BitMatrix, mirror: bool) -> Result<u32, Error> {
    let d = m.spec_height() as int;
    let provisional = (d - 17) / 4;
    if provisional <= 6 {
        Ok(provisional as u32)
    } else {
        let first = decoded_version(bits_value(modules_read(m, top_right_version_cells(d), mirror)) as u32);
        let second = decoded_version(bits_value(modules_read(m, bottom_left_version_cells(d), mirror)) as u32);
        if first matches Some(n) && 17 + 4 * n == d {
            Ok(first->0)
        } else if second matches Some(n) && 17 + 4 * n == d {
            Ok(second->0)
        } else {
            Err(Error::InvalidFormat)
        }
    }
}

impl BitMatrixParser {
    /// Reads the format information from its two locations (or gives back
    /// what an earlier call read). Neither copy near any valid pattern is an
    /// invalid format.
    pub fn read_format_information(&mut self) -> (res: Result<FormatInformation, Error>)
        requires
            old(self).wf(),
        ensures
            final(self).wf(),
            final(self).spec_matrix() == old(self).spec_matrix(),
            final(self).spec_mirror() == old(self).spec_mirror(),
            final(self).spec_parsed_version() == old(self).spec_parsed_version(),
            old(self).spec_parsed_format() matches Some(f) ==> res == Ok::<FormatInformation, Error>(f)
                && final(self).spec_parsed_format() == old(self).spec_parsed_format(),
            old(self).spec_parsed_format() is None ==> {
                let fi = parser_format_spec(old(self).spec_matrix(), old(self).spec_mirror());
                &&& final(self).spec_parsed_format() == fi
                &&& fi matches Some(f) ==> res == Ok::<FormatInformation, Error>(f)
                &&& fi is None ==> res == Err::<FormatInformation, Error>(Error::InvalidFormat)
            },
    {
        if let Some(fi) = &self.parsed_format_info {
            return Ok(copy_format(fi));
        }
        let (xs1, ys1) = first_format_cells_of();
        let format_info_bits1 = self.read_cells(&xs1, &ys1);
        let dimension = self.bit_matrix.height();
        let (xs2, ys2) = second_format_cells_of(dimension);
        let format_info_bits2 = self.read_cells(&xs2, &ys2);
        let decoded = FormatInformation::decode_format_information(format_info_bits1, format_info_bits2);
        let res = match &decoded {
            Some(fi) => Ok(copy_format(fi)),
            None => Err(Error::InvalidFormat),
        };
        self.parsed_format_info = decoded;
        res
    }

    /// Reads the version: from the height below version 7, else from the
    /// version information (or gives back what an earlier call read).
    /// Version information that fits no version of the height is an invalid
    /// format.
    pub fn read_version(&mut self) -> (res: Result<Version, Error>)
        requires
            old(self).wf(),
        ensures
            final(self).wf(),
            final(self).spec_matrix() == old(self).spec_matrix(),
            final(self).spec_mirror() == old(self).spec_mirror(),
            final(self).spec_parsed_format() == old(self).spec_parsed_format(),
            old(self).spec_parsed_version() matches Some(n) ==> (res matches Ok(v) && v@ == spec_model2(n))
                && final(self).spec_parsed_version() == old(self).spec_parsed_version(),
            old(self).spec_parsed_version() is None ==> match parser_version_spec(
                old(self).spec_matrix(),
                old(self).spec_mirror(),
            ) {
                Ok(n) => (res matches Ok(v) && v@ == spec_model2(n)) && 1 <= n <= 40 && 17 + 4 * n
                    == old(self).spec_dimension() && final(self).spec_parsed_version() == (if n > 6 {
                    Some(n)
                } else {
                    None
                }),
                Err(e) => res == Err::<Version, Error>(e) && final(self).spec_parsed_version() is None,
            },
    {
        if let Some(n) = self.parsed_version {
            return Version::get_version_for_number(n);
        }
        let dimension = self.bit_matrix.height();
        let provisional_version = (dimension - 17) / 4;
        if provisional_version <= 6 {
            return Version::get_version_for_number(provisional_version);
        }
        let (xs, ys) = version_cells(dimension, true);
        let version_bits = self.read_cells(&xs, &ys);
        if let Ok(parsed) = Version::decode_version_information(version_bits) {
            if parsed.get_dimension_for_version() == dimension {
                let n = parsed.get_version_number();
                self.parsed_version = Some(n);
                return Ok(parsed);
            }
        }
        let (xs, ys) = version_cells(dimension, false);
        let version_bits = self.read_cells(&xs, &ys);
        if let Ok(parsed) = Version::decode_version_information(version_bits) {
            if parsed.get_dimension_for_version() == dimension {
                let n = parsed.get_version_number();
                self.parsed_version = Some(n);
                return Ok(parsed);
            }
        }
        Err(Error::InvalidFormat)
    }
}

/// The module at `(x, y)` of `m` with data mask `mask` undone on its top
/// left `d` by `d` square.
pub open spec fn unmasked_module(m: BitMatrix, mask: int, d: int, x: int, y: int) -> bool {
    if 0 <= x < d && 0 <= y < d && mask_bit(mask, y, x) {
        !m.spec_get(x, y)
    } else {
        m.spec_get(x, y)
    }
}

/// Whether `after` is `before` with data mask `mask` undone on its top left
/// `d` by `d` square.
pub open spec fn is_unmasked(before: BitMatrix, after: BitMatrix, mask: int, d: int) -> bool {
    &&& after.spec_width() == before.spec_width()
    &&& after.spec_height() == before.spec_height()
    &&& forall|x: int, y: int| #[trigger] after.spec_get(x, y) == unmasked_module(before, mask, d, x, y)
}

/// The version number that `read_codewords` works with: the one read
/// before, else the one read now.
pub open spec fn current_version(p: BitMatrixParser) -> Result<u32, Error> {
    match p.spec_parsed_version() {
        Some(n) => Ok(n),
        None => parser_version_spec(p.spec_matrix(), p.spec_mirror()),
    }
}

/// The format information that `read_codewords` works with: the one read
/// before, else the one read now.
pub open spec fn current_format(p: BitMatrixParser) -> Option<FormatInformation> {
    match p.spec_parsed_format() {
        Some(f) => Some(f),
        None => parser_format_spec(p.spec_matrix(), p.spec_mirror()),
    }
}

impl BitMatrixParser {
    /// Reads the codewords: reads the version and the format information,
    /// undoes the data mask on the matrix, and reads the modules that no
    /// function pattern covers in zigzag order (ISO 18004:2006 6.7.3).
    /// Errors of the two reads pass through; a number of codewords that
    /// differs from the version's is an invalid format.
    #[verifier::rlimit(40)]
    #[verifier::spinoff_prover]
    pub fn read_codewords(&mut self) -> (res: Result<Vec<u8>, Error>)
        requires
            old(self).wf(),
            old(self).spec_matrix().spec_width() >= old(self).spec_dimension(),
        ensures
            final(self).wf(),
            final(self).spec_mirror() == old(self).spec_mirror(),
            current_version(*old(self)) matches Err(e) ==> res == Err::<Vec<u8>, Error>(e)
                && final(self).spec_matrix() == old(self).spec_matrix(),
            current_version(*old(self)) matches Ok(n) ==> match current_format(*old(self)) {
                None => res == Err::<Vec<u8>, Error>(Error::InvalidFormat) && final(self).spec_matrix()
                    == old(self).spec_matrix(),
                Some(f) => if f.data_mask >= 8 {
                    res == Err::<Vec<u8>, Error>(Error::InvalidArgument) && final(self).spec_matrix()
                        == old(self).spec_matrix()
                } else {
                    let bytes = bytes_of(codeword_bits(old(self).spec_matrix(), n, f.data_mask, false));
                    &&& final(self).spec_parsed_format() == Some(f)
                    &&& is_unmasked(
                        old(self).spec_matrix(),
                        final(self).spec_matrix(),
                        f.data_mask as int,
                        old(self).spec_dimension(),
                    )
                    &&& bytes.len() == spec_model2(n).total_codewords ==> (res matches Ok(v) && v@ == bytes)
                    &&& bytes.len() != spec_model2(n).total_codewords ==> res == Err::<Vec<u8>, Error>(
                        Error::InvalidFormat,
                    )
                },
            },
    {
        let ghost m = self.bit_matrix;
        let version = self.read_version()?;
        let n = version.get_version_number();
        let fi = self.read_format_information()?;
        let data_mask = DataMask::try_from_bits(fi.data_mask)?;
        let dimension = self.bit_matrix.height();
        assert(dimension as int * dimension as int <= 177 * 177) by (nonlinear_arith)
            requires
                dimension <= 177,
        ;
        let unmirrored = FormatInformation {
            hamming_distance: fi.hamming_distance,
            error_correction_level: fi.error_correction_level,
            data_mask: fi.data_mask,
            micro_version: fi.micro_version,
            is_mirrored: false,
            mask: fi.mask,
            data: fi.data,
            bits_index: fi.bits_index,
        };
        let model = crate::version::Version::for_number(n)?;
        let result = crate::bitmatrix_parser::read_codewords(&self.bit_matrix, &model, &unmirrored);
        data_mask.unmask_bit_matrix(&mut self.bit_matrix, dimension);
        result
    }

    /// Undoes the unmasking that `read_codewords` did, so that the matrix is
    /// as it was: applies the data mask of the format information read,
    /// if any, again. A data mask beyond 7 is an invalid argument.
    pub fn remask(&mut self) -> (res: Result<(), Error>)
        requires
            old(self).wf(),
            old(self).spec_matrix().spec_width() >= old(self).spec_dimension(),
            old(self).spec_dimension() * old(self).spec_dimension() <= u32::MAX,
        ensures
            final(self).wf(),
            final(self).spec_mirror() == old(self).spec_mirror(),
            final(self).spec_parsed_version() == old(self).spec_parsed_version(),
            final(self).spec_parsed_format() == old(self).spec_parsed_format(),
            old(self).spec_parsed_format() is None ==> res is Ok && final(self).spec_matrix() == old(
                self,
            ).spec_matrix(),
            old(self).spec_parsed_format() matches Some(f) ==> if f.data_mask >= 8 {
                res == Err::<(), Error>(Error::InvalidArgument) && final(self).spec_matrix() == old(
                    self,
                ).spec_matrix()
            } else {
                res is Ok && is_unmasked(
                    old(self).spec_matrix(),
                    final(self).spec_matrix(),
                    f.data_mask as int,
                    old(self).spec_dimension(),
                )
            },
    {
        if let Some(fi) = &self.parsed_format_info {
            let data_mask = DataMask::try_from_bits(fi.data_mask)?;
            let dimension = self.bit_matrix.height();
            data_mask.unmask_bit_matrix(&mut self.bit_matrix, dimension);
        }
        Ok(())
    }
}

/// Undoing a data mask twice gives back the matrix: `remask` after
/// `read_codewords` leaves the matrix as it was.
pub proof fn lemma_remask_restores(original: BitMatrix, unmasked: BitMatrix, remasked: BitMatrix, mask: int, d: int)
    requires
        is_unmasked(original, unmasked, mask, d),
        is_unmasked(unmasked, remasked, mask, d),
    ensures
        remasked.spec_width() == original.spec_width(),
        remasked.spec_height() == original.spec_height(),
        forall|x: int, y: int| #[trigger] remasked.spec_get(x, y) == original.spec_get(x, y),
{
    assert forall|x: int, y: int| #[trigger] remasked.spec_get(x, y) == original.spec_get(x, y) by {
        assert(remasked.spec_get(x, y) == unmasked_module(unmasked, mask, d, x, y));
        assert(unmasked.spec_get(x, y) == unmasked_module(original, mask, d, x, y));
    }
}

/// Mirroring twice gives back the matrix: a second `mirror` undoes the
/// first.
pub proof fn lemma_mirror_twice(original: BitMatrix, mirrored: BitMatrix, twice: BitMatrix)
    requires
        forall|x: int, y: int| #[trigger] mirrored.spec_get(x, y) == original.spec_get(y, x),
        forall|x: int, y: int| #[trigger] twice.spec_get(x, y) == mirrored.spec_get(y, x),
    ensures
        forall|x: int, y: int| #[trigger] twice.spec_get(x, y) == original.spec_get(x, y),
{
    assert forall|x: int, y: int| #[trigger] twice.spec_get(x, y) == original.spec_get(x, y) by {
        assert(twice.spec_get(x, y) == mirrored.spec_get(y, x));
        assert(mirrored.spec_get(y, x) == original.spec_get(x, y));
    }
}

} // verus!

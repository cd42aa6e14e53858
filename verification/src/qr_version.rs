use vstd::prelude::*;
use crate::bit_matrix::BitMatrix;
use crate::ec_level::{ErrorCorrectionLevel, spec_ordinal};
use crate::error::Error;
use crate::format_information::{
    FormatInformation, bits_differing, gf2_reduce, lemma_bits_differing_triangle, lemma_popcount_low_bits, low_bit_count,
};
use crate::qr_type::Type;
use crate::version::{
    ECBlocks, Ecb, level_codewords, spec_alignment_centers, spec_ec_table, alignment_centers_for,
    ec_table_for, ec_blocks_one, function_pattern_cell,
};

verus! {

/// A point with integer coordinates.
#[derive(Debug, Clone, Copy, PartialEq, Eq, Structural)]
pub struct PointI {
    pub x: i32,
    pub y: i32,
}

/// The point `(x, y)`.
pub fn point(x: i32, y: i32) -> (res: PointI)
    ensures
        res == (PointI { x, y }),
{
    PointI { x, y }
}

/// Sizes (width, height) of the 32 rMQR versions.
pub open spec fn spec_rmqr_sizes() -> Seq<PointI> {
    seq![
        PointI { x: 43, y: 7 },
        PointI { x: 59, y: 7 },
        PointI { x: 77, y: 7 },
        PointI { x: 99, y: 7 },
        PointI { x: 139, y: 7 },
        PointI { x: 43, y: 9 },
        PointI { x: 59, y: 9 },
        PointI { x: 77, y: 9 },
        PointI { x: 99, y: 9 },
        PointI { x: 139, y: 9 },
        PointI { x: 27, y: 11 },
        PointI { x: 43, y: 11 },
        PointI { x: 59, y: 11 },
        PointI { x: 77, y: 11 },
        PointI { x: 99, y: 11 },
        PointI { x: 139, y: 11 },
        PointI { x: 27, y: 13 },
        PointI { x: 43, y: 13 },
        PointI { x: 59, y: 13 },
        PointI { x: 77, y: 13 },
        PointI { x: 99, y: 13 },
        PointI { x: 139, y: 13 },
        PointI { x: 43, y: 15 },
        PointI { x: 59, y: 15 },
        PointI { x: 77, y: 15 },
        PointI { x: 99, y: 15 },
        PointI { x: 139, y: 15 },
        PointI { x: 43, y: 17 },
        PointI { x: 59, y: 17 },
        PointI { x: 77, y: 17 },
        PointI { x: 99, y: 17 },
        PointI { x: 139, y: 17 }
    ]
}

fn rmqr_size(index: usize) -> (res: PointI)
    requires
        index < 32,
    ensures
        res == spec_rmqr_sizes()[index as int],
{
    let xs: [i32; 32] = [43, 59, 77, 99, 139, 43, 59, 77, 99, 139, 27, 43, 59, 77, 99, 139, 27, 43, 59, 77, 99, 139, 43, 59, 77, 99, 139, 43, 59, 77, 99, 139];
    let ys: [i32; 32] = [7, 7, 7, 7, 7, 9, 9, 9, 9, 9, 11, 11, 11, 11, 11, 11, 13, 13, 13, 13, 13, 13, 15, 15, 15, 15, 15, 17, 17, 17, 17, 17];
    assert(spec_rmqr_sizes().len() == 32);
    assert(forall|i: int| 0 <= i < 32 ==> #[trigger] spec_rmqr_sizes()[i] == (PointI { x: xs@[i], y: ys@[i] }));
    PointI { x: xs[index], y: ys[index] }
}

/// The version bits of versions 7 to 40 (ISO 18004:2006 Annex D): entry
/// `i` is version `i + 7`.
pub open spec fn spec_version_decode_info() -> Seq<u32> {
    seq![0x07C94u32, 0x085BC, 0x09A99, 0x0A4D3, 0x0BBF6, 0x0C762, 0x0D847, 0x0E60D, 0x0F928, 0x10B78, 0x1145D, 0x12A17, 0x13532, 0x149A6, 0x15683, 0x168C9, 0x177EC, 0x18EC4, 0x191E1, 0x1AFAB, 0x1B08E, 0x1CC1A, 0x1D33F, 0x1ED75, 0x1F250, 0x209D5, 0x216F0, 0x228BA, 0x2379F, 0x24B0B, 0x2542E, 0x26A64, 0x27541, 0x28C69]
}

fn version_decode_info(index: usize) -> (res: u32)
    requires
        index < 34,
    ensures
        res == spec_version_decode_info()[index as int],
{
    let table: [u32; 34] = [0x07C94, 0x085BC, 0x09A99, 0x0A4D3, 0x0BBF6, 0x0C762, 0x0D847, 0x0E60D, 0x0F928, 0x10B78, 0x1145D, 0x12A17, 0x13532, 0x149A6, 0x15683, 0x168C9, 0x177EC, 0x18EC4, 0x191E1, 0x1AFAB, 0x1B08E, 0x1CC1A, 0x1D33F, 0x1ED75, 0x1F250, 0x209D5, 0x216F0, 0x228BA, 0x2379F, 0x24B0B, 0x2542E, 0x26A64, 0x27541, 0x28C69];
    assert(table@ =~= spec_version_decode_info());
    table[index]
}

/// Error-correction parameters of the Micro QR versions M1 to M4, one entry
/// per level the version has (ISO 18004:2006 Table 9).
pub open spec fn spec_micro_table(version: u32) -> Seq<(u32, Seq<(u32, u32)>)> {
    if version == 1 {
        seq![(2u32, seq![(1u32, 3u32)])]
    } else if version == 2 {
        seq![(5u32, seq![(1u32, 5u32)]), (6u32, seq![(1u32, 4u32)])]
    } else if version == 3 {
        seq![(6u32, seq![(1u32, 11u32)]), (8u32, seq![(1u32, 9u32)])]
    } else {
        seq![(8u32, seq![(1u32, 16u32)]), (10u32, seq![(1u32, 14u32)]), (14u32, seq![(1u32, 10u32)])]
    }
}

/// The abstract content of a version of any symbol kind.
pub struct QrVersionView {
    pub number: u32,
    pub qr_type: Type,
    pub alignment_pattern_centers: Seq<u32>,
    pub ec_blocks: Seq<(u32, Seq<(u32, u32)>)>,
    pub total_codewords: nat,
}

/// QR code version `version` (1 to 40).
pub open spec fn spec_model2(version: u32) -> QrVersionView {
    QrVersionView {
        number: version,
        qr_type: Type::Model2,
        alignment_pattern_centers: spec_alignment_centers(version),
        ec_blocks: spec_ec_table(version),
        total_codewords: level_codewords(spec_ec_table(version)[1]),
    }
}

/// Micro QR code version M`version` (1 to 4).
pub open spec fn spec_micro(version: u32) -> QrVersionView {
    QrVersionView {
        number: version,
        qr_type: Type::Micro,
        alignment_pattern_centers: Seq::empty(),
        ec_blocks: spec_micro_table(version),
        total_codewords: level_codewords(spec_micro_table(version)[0]),
    }
}

/// Side of a square symbol: `17 + 4n` for QR codes, `9 + 2n` for Micro QR.
pub open spec fn spec_dimension_of(version: int, is_micro: bool) -> int {
    if is_micro {
        9 + 2 * version
    } else {
        17 + 4 * version
    }
}

/// A version of a QR or Micro QR code: its number and kind, the centres of
/// its alignment patterns and its error-correction blocks per level.
#[derive(Debug)]
pub struct Version {
    version_number: u32,
    alignment_pattern_centers: Vec<u32>,
    ec_blocks: Vec<ECBlocks>,
    total_codewords: u32,
    qr_type: Type,
}

impl View for Version {
    type V = QrVersionView;

    closed spec fn view(&self) -> QrVersionView {
        QrVersionView {
            number: self.version_number,
            qr_type: self.qr_type,
            alignment_pattern_centers: self.alignment_pattern_centers@,
            ec_blocks: self.ec_blocks@.map_values(|b: ECBlocks| b@),
            total_codewords: self.total_codewords as nat,
        }
    }
}

/// Whether `v` is the content of a QR version (1 to 40) or of a Micro QR
/// version (M1 to M4).
pub open spec fn is_version_view(v: QrVersionView) -> bool {
    ||| (v.qr_type == Type::Model2 && 1 <= v.number <= 40 && v == spec_model2(v.number))
    ||| (v.qr_type == Type::Micro && 1 <= v.number <= 4 && v == spec_micro(v.number))
}

/// Distance of read version bits to the version bits of version `i + 7`.
pub open spec fn version_distance(bits: u32, i: int) -> nat {
    bits_differing(bits, spec_version_decode_info()[i])
}

/// Whether entry `i` is the first of the nearest entries to `bits`.
pub open spec fn is_first_nearest_version(bits: u32, i: int) -> bool {
    &&& 0 <= i < 34
    &&& forall|j: int| 0 <= j < 34 ==> version_distance(bits, j) >= version_distance(bits, i)
    &&& forall|j: int| 0 <= j < i ==> version_distance(bits, j) > version_distance(bits, i)
}

/// Distance of the nearer of two readings to entry `i`.
pub open spec fn pair_version_distance(a: i32, b: i32, i: int) -> nat {
    let da = bits_differing(a as u32, spec_version_decode_info()[i]);
    let db = bits_differing(b as u32, spec_version_decode_info()[i]);
    if da <= db {
        da
    } else {
        db
    }
}

/// Whether entry `i` is the first of the nearest entries to either reading.
pub open spec fn is_first_nearest_pair(a: i32, b: i32, i: int) -> bool {
    &&& 0 <= i < 34
    &&& forall|j: int| 0 <= j < 34 ==> pair_version_distance(a, b, j) >= pair_version_distance(a, b, i)
    &&& forall|j: int| 0 <= j < i ==> pair_version_distance(a, b, j) > pair_version_distance(a, b, i)
}

/// Whether `size` is the size of a symbol of kind `qr_type`.
pub open spec fn spec_is_valid_size(size: PointI, qr_type: Type) -> bool {
    match qr_type {
        Type::Model1 => size.x == size.y && 21 <= size.x <= 73 && size.x % 4 == 1,
        Type::Model2 => size.x == size.y && 21 <= size.x <= 177 && size.x % 4 == 1,
        Type::Micro => size.x == size.y && 11 <= size.x <= 17 && size.x % 2 == 1,
        Type::RectMicro => size.x != size.y && size.x % 2 == 1 && size.y % 2 == 1 && 27 <= size.x <= 139
            && 7 <= size.y <= 17 && spec_rmqr_sizes().contains(size),
    }
}

/// The size of a symbol of kind `qr_type` and version `version`; `(0, 0)`
/// for a version that the kind does not have.
pub open spec fn spec_symbol_size(version: u32, qr_type: Type) -> PointI {
    let v = version as i32;
    match qr_type {
        Type::Model1 => if 1 <= v <= 14 {
            PointI { x: (17 + 4 * v) as i32, y: (17 + 4 * v) as i32 }
        } else {
            PointI { x: 0, y: 0 }
        },
        Type::Model2 => if 1 <= v <= 40 {
            PointI { x: (17 + 4 * v) as i32, y: (17 + 4 * v) as i32 }
        } else {
            PointI { x: 0, y: 0 }
        },
        Type::Micro => if 1 <= v <= 4 {
            PointI { x: (9 + 2 * v) as i32, y: (9 + 2 * v) as i32 }
        } else {
            PointI { x: 0, y: 0 }
        },
        Type::RectMicro => if 1 <= v <= 32 {
            spec_rmqr_sizes()[v - 1]
        } else {
            PointI { x: 0, y: 0 }
        },
    }
}

/// The version number that a symbol size gives: the rMQR version of a
/// rectangular size, the QR or Micro QR version of a square one, 0 when
/// none.
pub open spec fn spec_number_point(size: PointI) -> u32 {
    if size.x != size.y {
        if spec_rmqr_sizes().contains(size) {
            (spec_rmqr_sizes().index_of(size) + 1) as u32
        } else {
            0
        }
    } else if spec_is_valid_size(size, Type::Model2) {
        ((size.x - 17) / 4) as u32
    } else if spec_is_valid_size(size, Type::Micro) {
        ((size.x - 9) / 2) as u32
    } else {
        0
    }
}

/// The size of a matrix as a point.
pub open spec fn matrix_size(m: BitMatrix) -> PointI {
    PointI { x: m.spec_width() as i32, y: m.spec_height() as i32 }
}

/// Whether `(x, y)` is a module of a function pattern (finders, separators,
/// timing, alignment, format and version areas) of the symbol of version
/// `v` (ISO 18004:2006 Annex E). A Micro QR symbol has one finder pattern
/// with its format area in the top-left 9x9 square, and timing patterns
/// along its top row and left column.
pub open spec fn qr_function_cell(v: QrVersionView, x: int, y: int) -> bool {
    let is_micro = v.qr_type == Type::Micro;
    let d = spec_dimension_of(v.number as int, is_micro);
    &&& 0 <= x < d
    &&& 0 <= y < d
    &&& if is_micro {
        (x < 9 && y < 9) || x == 0 || y == 0
    } else {
        function_pattern_cell(v.number, x, y)
    }
}

fn micro_table_for(version: u32) -> (res: Vec<ECBlocks>)
    requires
        1 <= version <= 4,
    ensures
        res@.map_values(|b: ECBlocks| b@) == spec_micro_table(version),
{
    let mut res: Vec<ECBlocks> = Vec::new();
    if version == 1 {
        res.push(ec_blocks_one(2, 1, 3));
    } else if version == 2 {
        res.push(ec_blocks_one(5, 1, 5));
        res.push(ec_blocks_one(6, 1, 4));
    } else if version == 3 {
        res.push(ec_blocks_one(6, 1, 11));
        res.push(ec_blocks_one(8, 1, 9));
    } else {
        res.push(ec_blocks_one(8, 1, 16));
        res.push(ec_blocks_one(10, 1, 14));
        res.push(ec_blocks_one(14, 1, 10));
    }
    assert(res@.map_values(|b: ECBlocks| b@) =~= spec_micro_table(version));
    res
}

fn level_total(level: &ECBlocks) -> (res: u32)
    requires
        level@.1.len() <= 2,
        level@.0 <= 100,
        forall|i: int| 0 <= i < level@.1.len() ==> #[trigger] level@.1[i].0 <= 100 && level@.1[i].1 <= 200,
    ensures
        res == level_codewords(level@),
{
    proof {
        crate::version::lemma_level_codewords_small(level@);
    }
    let groups = level.blocks();
    let ec = level.ec_codewords_per_block();
    let ghost lv = level@;
    let mut total: u32 = 0;
    let mut i: usize = 0;
    while i < groups.len()
        invariant
            i <= groups@.len(),
            lv == (ec, groups@.map_values(|b: Ecb| b@)),
            level_codewords(lv) <= 60000,
            lv.0 <= 100,
            forall|j: int| 0 <= j < lv.1.len() ==> #[trigger] lv.1[j].0 <= 100 && lv.1[j].1 <= 200,
            total == level_codewords((lv.0, lv.1.take(i as int))),
        decreases groups@.len() - i,
    {
        proof {
            assert(lv.1.take(i as int + 1).drop_last() =~= lv.1.take(i as int));
            crate::version::lemma_level_codewords_prefix(lv, i as int + 1);
            assert(lv.1[i as int] == groups@[i as int]@);
        }
        let count = groups[i].count();
        let data = groups[i].data_codewords();
        total = total + count * (data + ec);
        i = i + 1;
    }
    proof {
        assert(lv.1.take(i as int) =~= lv.1);
    }
    total
}

impl Version {
    #[verifier::type_invariant]
    spec fn inv(&self) -> bool {
        ||| (self.qr_type == Type::Model2 && 1 <= self.version_number <= 40 && self@ == spec_model2(
            self.version_number,
        ))
        ||| (self.qr_type == Type::Micro && 1 <= self.version_number <= 4 && self@ == spec_micro(
            self.version_number,
        ))
    }

    /// QR code version `version_number` (1 to 40; other numbers are an
    /// invalid argument).
    pub fn model2(version_number: u32) -> (res: Result<Version, Error>)
        ensures
            1 <= version_number <= 40 ==> (res matches Ok(v) && v@ == spec_model2(version_number)),
            !(1 <= version_number <= 40) ==> res == Err::<Version, Error>(Error::InvalidArgument),
    {
        if version_number < 1 || version_number > 40 {
            return Err(Error::InvalidArgument);
        }
        let reference = crate::version::Version::for_number(version_number)?;
        let total = reference.total_codewords();
        let centers = alignment_centers_for(version_number);
        let blocks = ec_table_for(version_number);
        Ok(
            Version {
                version_number,
                alignment_pattern_centers: centers,
                ec_blocks: blocks,
                total_codewords: total,
                qr_type: Type::Model2,
            },
        )
    }

    /// Micro QR code version M`version_number` (1 to 4; other numbers are an
    /// invalid argument).
    pub fn micro(version_number: u32) -> (res: Result<Version, Error>)
        ensures
            1 <= version_number <= 4 ==> (res matches Ok(v) && v@ == spec_micro(version_number)),
            !(1 <= version_number <= 4) ==> res == Err::<Version, Error>(Error::InvalidArgument),
    {
        if version_number < 1 || version_number > 4 {
            return Err(Error::InvalidArgument);
        }
        let blocks = micro_table_for(version_number);
        assert(blocks@.len() >= 1) by {
            assert(blocks@.map_values(|b: ECBlocks| b@).len() == blocks@.len());
        }
        assert(blocks@[0]@ == spec_micro_table(version_number)[0]);
        let total = level_total(&blocks[0]);
        Ok(
            Version {
                version_number,
                alignment_pattern_centers: Vec::new(),
                ec_blocks: blocks,
                total_codewords: total,
                qr_type: Type::Micro,
            },
        )
    }

    /// QR code version `version_number` (1 to 40; other numbers are an
    /// invalid argument).
    pub fn get_version_for_number(version_number: u32) -> (res: Result<Version, Error>)
        ensures
            1 <= version_number <= 40 ==> (res matches Ok(v) && v@ == spec_model2(version_number)),
            !(1 <= version_number <= 40) ==> res == Err::<Version, Error>(Error::InvalidArgument),
    {
        Self::model2(version_number)
    }

    /// The QR code version of a symbol `dimension` modules wide; the
    /// dimension must be at least 21 and one more than a multiple of four
    /// (invalid format); beyond version 40 it is an invalid argument.
    pub fn get_provisional_version_for_dimension(dimension: u32) -> (res: Result<Version, Error>)
        ensures
            (dimension % 4 != 1 || dimension < 21) ==> res == Err::<Version, Error>(Error::InvalidFormat),
            (dimension % 4 == 1 && 21 <= dimension <= 177) ==> (res matches Ok(v) && v@ == spec_model2(
                ((dimension - 17) / 4) as u32,
            )),
            (dimension % 4 == 1 && dimension > 177) ==> res == Err::<Version, Error>(Error::InvalidArgument),
    {
        if dimension % 4 != 1 || dimension < 21 {
            return Err(Error::InvalidFormat);
        }
        Self::get_version_for_number((dimension - 17) / 4)
    }

    /// The version number.
    pub fn get_version_number(&self) -> (res: u32)
        ensures
            res == self@.number,
            is_version_view(self@),
    {
        proof {
            use_type_invariant(self);
        }
        self.version_number
    }

    /// Centres of the alignment patterns.
    pub fn get_alignment_pattern_centers(&self) -> (res: &[u32])
        ensures
            res@ == self@.alignment_pattern_centers,
    {
        self.alignment_pattern_centers.as_slice()
    }

    /// Codewords in a symbol of this version.
    pub fn get_total_codewords(&self) -> (res: u32)
        ensures
            res == self@.total_codewords,
    {
        self.total_codewords
    }

    /// Side of a symbol of this version.
    pub fn get_dimension_for_version(&self) -> (res: u32)
        ensures
            res == spec_dimension_of(self@.number as int, self@.qr_type == Type::Micro),
    {
        proof {
            use_type_invariant(self);
        }
        Self::dimension_of_version(self.version_number, Type::const_eq(self.qr_type, Type::Micro))
    }

    /// The error-correction blocks of `ec_level`; a level the version does
    /// not have is an invalid argument.
    pub fn get_ecblocks_for_level(&self, ec_level: ErrorCorrectionLevel) -> (res: Result<&ECBlocks, Error>)
        ensures
            spec_ordinal(ec_level) < self@.ec_blocks.len() ==> (res matches Ok(b) && b@
                == self@.ec_blocks[spec_ordinal(ec_level) as int]),
            spec_ordinal(ec_level) >= self@.ec_blocks.len() ==> res == Err::<&ECBlocks, Error>(
                Error::InvalidArgument,
            ),
    {
        proof {
            assert(self.ec_blocks@.map_values(|b: ECBlocks| b@).len() == self.ec_blocks@.len());
        }
        let index = ec_level.ordinal() as usize;
        if index >= self.ec_blocks.len() {
            return Err(Error::InvalidArgument);
        }
        Ok(&self.ec_blocks[index])
    }

    /// Side of a square symbol of version `version`: `9 + 2n` for Micro QR,
    /// `17 + 4n` otherwise.
    pub fn dimension_of_version(version: u32, is_micro: bool) -> (res: u32)
        requires
            spec_dimension_of(version as int, is_micro) <= u32::MAX,
        ensures
            res == spec_dimension_of(version as int, is_micro),
    {
        Self::dimension_offset(is_micro) + Self::dimension_step(is_micro) * version
    }

    /// Side of a version 0 symbol: 9 for Micro QR, 17 otherwise.
    pub fn dimension_offset(is_micro: bool) -> (res: u32)
        ensures
            res == if is_micro {
                9u32
            } else {
                17u32
            },
    {
        if is_micro {
            9
        } else {
            17
        }
    }

    /// Growth of the side per version: 2 for Micro QR, 4 otherwise.
    pub fn dimension_step(is_micro: bool) -> (res: u32)
        ensures
            res == if is_micro {
                2u32
            } else {
                4u32
            },
    {
        if is_micro {
            2
        } else {
            4
        }
    }

    /// Decodes read version bits (ISO 18004:2006 Annex D): the version whose
    /// bits are nearest, if at most three bits away; otherwise not found.
    pub fn decode_version_information(version_bits: u32) -> (res: Result<Version, Error>)
        ensures
            (exists|i: int| 0 <= i < 34 && version_distance(version_bits, i) <= 3) ==> (res matches Ok(v)
                && v@ == spec_model2(((choose|i: int| is_first_nearest_version(version_bits, i)) + 7) as u32)),
            !(exists|i: int| 0 <= i < 34 && version_distance(version_bits, i) <= 3) ==> res == Err::<
                Version,
                Error,
            >(Error::NotFound),
    {
        let mut best_difference: u32 = u32::MAX;
        let mut best_version: usize = 0;
        let mut i: usize = 0;
        while i < 34
            invariant
                i <= 34,
                i == 0 ==> best_difference == u32::MAX,
                i > 0 ==> best_version < i && best_difference == version_distance(version_bits, best_version as int),
                forall|j: int| 0 <= j < i ==> version_distance(version_bits, j) >= best_difference,
                forall|j: int| 0 <= j < i ==> version_distance(version_bits, j) > 0,
                forall|j: int| 0 <= j < best_version ==> version_distance(version_bits, j) > best_difference,
            decreases 34 - i,
        {
            let target = version_decode_info(i);
            proof {
                lemma_xor_zero_local(version_bits, target);
                lemma_popcount_zero(version_bits ^ target);
            }
            if target == version_bits {
                proof {
                    assert(is_first_nearest_version(version_bits, i as int));
                    let k = choose|k: int| is_first_nearest_version(version_bits, k);
                    lemma_first_nearest_version_unique(version_bits, i as int, k);
                }
                return Self::get_version_for_number(i as u32 + 7);
            }
            let bits_difference = FormatInformation::num_bits_differing(version_bits, target);
            if bits_difference < best_difference {
                best_version = i;
                best_difference = bits_difference;
            }
            i = i + 1;
        }
        proof {
            assert(is_first_nearest_version(version_bits, best_version as int));
            let k = choose|k: int| is_first_nearest_version(version_bits, k);
            lemma_first_nearest_version_unique(version_bits, best_version as int, k);
        }
        if best_difference <= 3 {
            return Self::get_version_for_number(best_version as u32 + 7);
        }
        Err(Error::NotFound)
    }

    /// Decodes two readings of the version bits: the version nearest to
    /// either, if at most three bits away; otherwise an invalid state.
    pub fn decode_version_information_pair(version_bits_a: i32, version_bits_b: i32) -> (res: Result<Version, Error>)
        ensures
            (exists|i: int| 0 <= i < 34 && pair_version_distance(version_bits_a, version_bits_b, i) <= 3)
                ==> (res matches Ok(v) && v@ == spec_model2(
                ((choose|i: int| is_first_nearest_pair(version_bits_a, version_bits_b, i)) + 7) as u32,
            )),
            !(exists|i: int| 0 <= i < 34 && pair_version_distance(version_bits_a, version_bits_b, i) <= 3)
                ==> res == Err::<Version, Error>(Error::InvalidState),
    {
        let ghost a = version_bits_a;
        let ghost b = version_bits_b;
        let mut best_difference: u32 = u32::MAX;
        let mut best_version: usize = 0;
        let mut i: usize = 0;
        while i < 34
            invariant
                i <= 34,
                a == version_bits_a,
                b == version_bits_b,
                i == 0 ==> best_difference == u32::MAX,
                i > 0 ==> best_version < i && best_difference == pair_version_distance(a, b, best_version as int),
                forall|j: int| 0 <= j < i ==> pair_version_distance(a, b, j) >= best_difference,
                forall|j: int| 0 <= j < best_version ==> pair_version_distance(a, b, j) > best_difference,
            ensures
                best_version < 34,
                best_difference == pair_version_distance(a, b, best_version as int),
                forall|j: int| 0 <= j < 34 ==> pair_version_distance(a, b, j) >= best_difference,
                forall|j: int| 0 <= j < best_version ==> pair_version_distance(a, b, j) > best_difference,
            decreases 34 - i,
        {
            let target = version_decode_info(i);
            let da = FormatInformation::num_bits_differing(version_bits_a as u32, target);
            if da < best_difference {
                best_version = i;
                best_difference = da;
            }
            let db = FormatInformation::num_bits_differing(version_bits_b as u32, target);
            if db < best_difference {
                best_version = i;
                best_difference = db;
            }
            i = i + 1;
            if best_difference == 0 {
                proof {
                    assert forall|j: int| 0 <= j < 34 implies pair_version_distance(a, b, j) >= best_difference by {}
                }
                break ;
            }
        }
        proof {
            assert(is_first_nearest_pair(a, b, best_version as int));
            let k = choose|k: int| is_first_nearest_pair(a, b, k);
            lemma_first_nearest_pair_unique(a, b, best_version as int, k);
        }
        if best_difference <= 3 {
            return Self::get_version_for_number(best_version as u32 + 7);
        }
        Err(Error::InvalidState)
    }

    /// The function patterns of this version as a square matrix of its
    /// dimension: set exactly where a function pattern lies.
    pub fn build_function_pattern(&self) -> (res: Result<BitMatrix, Error>)
        ensures
            res matches Ok(m) && m.wf() && m.spec_width() == spec_dimension_of(
                self@.number as int,
                self@.qr_type == Type::Micro,
            ) && m.spec_height() == m.spec_width() && forall|x: int, y: int|
                #[trigger] m.spec_get(x, y) == qr_function_cell(self@, x, y),
    {
        proof {
            use_type_invariant(self);
        }
        match self.qr_type {
            Type::Micro => {
                let dimension = 9 + 2 * self.version_number;
                assert(dimension as int * dimension as int <= 17 * 17) by (nonlinear_arith)
                    requires
                        11 <= dimension <= 17,
                ;
                let mut bit_matrix = BitMatrix::with_single_dimension(dimension)?;
                bit_matrix.set_region(0, 0, 9, 9)?;
                bit_matrix.set_region(9, 0, dimension - 9, 1)?;
                bit_matrix.set_region(0, 9, 1, dimension - 9)?;
                Ok(bit_matrix)
            },
            _ => {
                let version = crate::version::Version::for_number(self.version_number)?;
                version.build_function_pattern()
            },
        }
    }

    /// Whether this is a Micro QR version.
    pub fn is_micro(&self) -> (res: bool)
        ensures
            res == (self@.qr_type == Type::Micro),
    {
        Type::const_eq(self.qr_type, Type::Micro)
    }

    /// Whether this is a model 1 QR version.
    pub fn is_model1(&self) -> (res: bool)
        ensures
            res == (self@.qr_type == Type::Model1),
    {
        Type::const_eq(self.qr_type, Type::Model1)
    }

    /// Whether this is a model 2 QR version.
    pub fn is_model2(&self) -> (res: bool)
        ensures
            res == (self@.qr_type == Type::Model2),
    {
        Type::const_eq(self.qr_type, Type::Model2)
    }

    /// Whether this is a rectangular Micro QR version.
    pub fn is_rmqr(&self) -> (res: bool)
        ensures
            res == (self@.qr_type == Type::RectMicro),
    {
        Type::const_eq(self.qr_type, Type::RectMicro)
    }

    /// The size of a symbol of kind `qr_type` and version `version`; `(0, 0)`
    /// for a version the kind does not have.
    pub fn symbol_size(version: u32, qr_type: Type) -> (res: PointI)
        ensures
            res == spec_symbol_size(version, qr_type),
    {
        let v = version as i32;
        match qr_type {
            Type::Model1 => if 1 <= v && v <= 14 {
                point(17 + 4 * v, 17 + 4 * v)
            } else {
                point(0, 0)
            },
            Type::Model2 => if 1 <= v && v <= 40 {
                point(17 + 4 * v, 17 + 4 * v)
            } else {
                point(0, 0)
            },
            Type::Micro => if 1 <= v && v <= 4 {
                point(9 + 2 * v, 9 + 2 * v)
            } else {
                point(0, 0)
            },
            Type::RectMicro => if 1 <= v && v <= 32 {
                rmqr_size((v - 1) as usize)
            } else {
                point(0, 0)
            },
        }
    }

    /// Whether `size` is the size of a symbol of kind `qr_type`.
    pub fn is_valid_size(size: PointI, qr_type: Type) -> (res: bool)
        ensures
            res == spec_is_valid_size(size, qr_type),
    {
        match qr_type {
            Type::Model1 => size.x == size.y && size.x >= 21 && size.x <= 73 && size.x % 4 == 1,
            Type::Model2 => size.x == size.y && size.x >= 21 && size.x <= 177 && size.x % 4 == 1,
            Type::Micro => size.x == size.y && size.x >= 11 && size.x <= 17 && size.x % 2 == 1,
            Type::RectMicro => size.x != size.y && size.x % 2 != 0 && size.y % 2 != 0 && size.x >= 27
                && size.x <= 139 && size.y >= 7 && size.y <= 17 && index_of_rmqr(size).is_some(),
        }
    }

    /// Whether the matrix has the size of a symbol of kind `qr_type`.
    pub fn has_valid_size_type(bit_matrix: &BitMatrix, qr_type: Type) -> (res: bool)
        ensures
            res == spec_is_valid_size(matrix_size(*bit_matrix), qr_type),
    {
        Self::is_valid_size(point(bit_matrix.width() as i32, bit_matrix.height() as i32), qr_type)
    }

    /// Whether the matrix has the size of a symbol of some kind.
    pub fn has_valid_size(matrix: &BitMatrix) -> (res: bool)
        ensures
            res == (spec_is_valid_size(matrix_size(*matrix), Type::Model1) || spec_is_valid_size(
                matrix_size(*matrix),
                Type::Model2,
            ) || spec_is_valid_size(matrix_size(*matrix), Type::Micro) || spec_is_valid_size(
                matrix_size(*matrix),
                Type::RectMicro,
            )),
    {
        Self::has_valid_size_type(matrix, Type::Model1) || Self::has_valid_size_type(matrix, Type::Model2)
            || Self::has_valid_size_type(matrix, Type::Micro) || Self::has_valid_size_type(
            matrix,
            Type::RectMicro,
        )
    }

    /// The version number that a symbol size gives, 0 when none.
    pub fn number_point(size: PointI) -> (res: u32)
        ensures
            res == spec_number_point(size),
    {
        if size.x != size.y {
            match index_of_rmqr(size) {
                Some(idx) => (idx + 1) as u32,
                None => 0,
            }
        } else if Self::is_valid_size(size, Type::Model2) {
            ((size.x - 17) / 4) as u32
        } else if Self::is_valid_size(size, Type::Micro) {
            ((size.x - 9) / 2) as u32
        } else {
            0
        }
    }

    /// The version number that the size of a matrix gives, 0 when none.
    pub fn number(bit_matrix: &BitMatrix) -> (res: u32)
        ensures
            res == spec_number_point(matrix_size(*bit_matrix)),
    {
        Self::number_point(point(bit_matrix.width() as i32, bit_matrix.height() as i32))
    }
}

fn index_of_rmqr(search: PointI) -> (res: Option<usize>)
    ensures
        spec_rmqr_sizes().contains(search) ==> res == Some(spec_rmqr_sizes().index_of(search) as usize),
        !spec_rmqr_sizes().contains(search) ==> res is None,
{
    let mut i: usize = 0;
    while i < 32
        invariant
            i <= 32,
            spec_rmqr_sizes().len() == 32,
            forall|j: int| 0 <= j < i ==> spec_rmqr_sizes()[j] != search,
        decreases 32 - i,
    {
        if rmqr_size(i) == search {
            proof {
                assert(spec_rmqr_sizes()[i as int] == search);
                assert(spec_rmqr_sizes().contains(search));
                let k = spec_rmqr_sizes().index_of(search);
                assert(spec_rmqr_sizes()[k] == search);
                assert(k == i);
            }
            return Some(i);
        }
        i = i + 1;
    }
    proof {
        if spec_rmqr_sizes().contains(search) {
            let k = spec_rmqr_sizes().index_of(search);
            assert(spec_rmqr_sizes()[k] == search);
        }
    }
    None
}

proof fn lemma_xor_zero_local(a: u32, b: u32)
    ensures
        (a ^ b == 0) <==> (a == b),
{
    assert((a ^ b == 0) <==> (a == b)) by (bit_vector);
}

proof fn lemma_popcount_zero(x: u32)
    ensures
        crate::format_information::popcount(x) == 0 <==> x == 0,
    decreases x,
{
    if x != 0 && x % 2 == 0 {
        lemma_popcount_zero(x / 2);
    }
}

proof fn lemma_first_nearest_version_unique(bits: u32, i: int, k: int)
    requires
        is_first_nearest_version(bits, i),
        is_first_nearest_version(bits, k),
    ensures
        i == k,
{
    if i < k {
        assert(version_distance(bits, i) > version_distance(bits, k));
    }
    if k < i {
        assert(version_distance(bits, k) > version_distance(bits, i));
    }
}

proof fn lemma_first_nearest_pair_unique(a: i32, b: i32, i: int, k: int)
    requires
        is_first_nearest_pair(a, b, i),
        is_first_nearest_pair(a, b, k),
    ensures
        i == k,
{
    if i < k {
        assert(pair_version_distance(a, b, i) > pair_version_distance(a, b, k));
    }
    if k < i {
        assert(pair_version_distance(a, b, k) > pair_version_distance(a, b, i));
    }
}

/// The BCH(18, 6) code word of a six-bit version number (ISO 18004 Annex
/// D): the number followed by the remainder of `number * x^12` divided by
/// the generator `x^12 + x^11 + x^10 + x^9 + x^8 + x^5 + x^2 + 1`.
pub open spec fn bch_18_6(number: u32) -> u32 {
    let v0 = number << 12u32;
    let v1 = gf2_reduce(v0, 0x1F25u32, 5u32, 17u32);
    let v2 = gf2_reduce(v1, 0x1F25u32, 4u32, 16u32);
    let v3 = gf2_reduce(v2, 0x1F25u32, 3u32, 15u32);
    let v4 = gf2_reduce(v3, 0x1F25u32, 2u32, 14u32);
    let v5 = gf2_reduce(v4, 0x1F25u32, 1u32, 13u32);
    let v6 = gf2_reduce(v5, 0x1F25u32, 0u32, 12u32);
    v0 | v6
}

proof fn lemma_bch_18_6_values()
    by (bit_vector)
    ensures
        bch_18_6(7u32) >> 12u32 == 7u32,
        bch_18_6(8u32) >> 12u32 == 8u32,
        bch_18_6(9u32) >> 12u32 == 9u32,
        bch_18_6(10u32) >> 12u32 == 10u32,
        bch_18_6(11u32) >> 12u32 == 11u32,
        bch_18_6(12u32) >> 12u32 == 12u32,
        bch_18_6(13u32) >> 12u32 == 13u32,
        bch_18_6(14u32) >> 12u32 == 14u32,
        bch_18_6(15u32) >> 12u32 == 15u32,
        bch_18_6(16u32) >> 12u32 == 16u32,
        bch_18_6(17u32) >> 12u32 == 17u32,
        bch_18_6(18u32) >> 12u32 == 18u32,
        bch_18_6(19u32) >> 12u32 == 19u32,
        bch_18_6(20u32) >> 12u32 == 20u32,
        bch_18_6(21u32) >> 12u32 == 21u32,
        bch_18_6(22u32) >> 12u32 == 22u32,
        bch_18_6(23u32) >> 12u32 == 23u32,
        bch_18_6(24u32) >> 12u32 == 24u32,
        bch_18_6(25u32) >> 12u32 == 25u32,
        bch_18_6(26u32) >> 12u32 == 26u32,
        bch_18_6(27u32) >> 12u32 == 27u32,
        bch_18_6(28u32) >> 12u32 == 28u32,
        bch_18_6(29u32) >> 12u32 == 29u32,
        bch_18_6(30u32) >> 12u32 == 30u32,
        bch_18_6(31u32) >> 12u32 == 31u32,
        bch_18_6(32u32) >> 12u32 == 32u32,
        bch_18_6(33u32) >> 12u32 == 33u32,
        bch_18_6(34u32) >> 12u32 == 34u32,
        bch_18_6(35u32) >> 12u32 == 35u32,
        bch_18_6(36u32) >> 12u32 == 36u32,
        bch_18_6(37u32) >> 12u32 == 37u32,
        bch_18_6(38u32) >> 12u32 == 38u32,
        bch_18_6(39u32) >> 12u32 == 39u32,
        bch_18_6(40u32) >> 12u32 == 40u32,
        bch_18_6(7u32) == 0x07C94u32,
        bch_18_6(8u32) == 0x085BCu32,
        bch_18_6(9u32) == 0x09A99u32,
        bch_18_6(10u32) == 0x0A4D3u32,
        bch_18_6(11u32) == 0x0BBF6u32,
        bch_18_6(12u32) == 0x0C762u32,
        bch_18_6(13u32) == 0x0D847u32,
        bch_18_6(14u32) == 0x0E60Du32,
        bch_18_6(15u32) == 0x0F928u32,
        bch_18_6(16u32) == 0x10B78u32,
        bch_18_6(17u32) == 0x1145Du32,
        bch_18_6(18u32) == 0x12A17u32,
        bch_18_6(19u32) == 0x13532u32,
        bch_18_6(20u32) == 0x149A6u32,
        bch_18_6(21u32) == 0x15683u32,
        bch_18_6(22u32) == 0x168C9u32,
        bch_18_6(23u32) == 0x177ECu32,
        bch_18_6(24u32) == 0x18EC4u32,
        bch_18_6(25u32) == 0x191E1u32,
        bch_18_6(26u32) == 0x1AFABu32,
        bch_18_6(27u32) == 0x1B08Eu32,
        bch_18_6(28u32) == 0x1CC1Au32,
        bch_18_6(29u32) == 0x1D33Fu32,
        bch_18_6(30u32) == 0x1ED75u32,
        bch_18_6(31u32) == 0x1F250u32,
        bch_18_6(32u32) == 0x209D5u32,
        bch_18_6(33u32) == 0x216F0u32,
        bch_18_6(34u32) == 0x228BAu32,
        bch_18_6(35u32) == 0x2379Fu32,
        bch_18_6(36u32) == 0x24B0Bu32,
        bch_18_6(37u32) == 0x2542Eu32,
        bch_18_6(38u32) == 0x26A64u32,
        bch_18_6(39u32) == 0x27541u32,
        bch_18_6(40u32) == 0x28C69u32,
{
}

/// Every word of the version information table is the BCH(18, 6) code word
/// of its version: entry `i` is that of version `i + 7`, so its top six bits
/// are `i + 7` (version 10's word is `0x0A4D3`).
pub proof fn lemma_version_words_are_bch()
    ensures
        forall|i: int| 0 <= i < 34 ==> #[trigger] spec_version_decode_info()[i] == bch_18_6((i + 7) as u32),
        forall|i: int| 0 <= i < 34 ==> (#[trigger] spec_version_decode_info()[i] >> 12u32) == (i + 7) as u32,
{
    lemma_bch_18_6_values();
    assert forall|i: int| 0 <= i < 34 implies #[trigger] spec_version_decode_info()[i] == bch_18_6((i + 7) as u32)
        by {
        if i == 0 {
        } else if i == 1 {
        } else if i == 2 {
        } else if i == 3 {
        } else if i == 4 {
        } else if i == 5 {
        } else if i == 6 {
        } else if i == 7 {
        } else if i == 8 {
        } else if i == 9 {
        } else if i == 10 {
        } else if i == 11 {
        } else if i == 12 {
        } else if i == 13 {
        } else if i == 14 {
        } else if i == 15 {
        } else if i == 16 {
        } else if i == 17 {
        } else if i == 18 {
        } else if i == 19 {
        } else if i == 20 {
        } else if i == 21 {
        } else if i == 22 {
        } else if i == 23 {
        } else if i == 24 {
        } else if i == 25 {
        } else if i == 26 {
        } else if i == 27 {
        } else if i == 28 {
        } else if i == 29 {
        } else if i == 30 {
        } else if i == 31 {
        } else if i == 32 {
        } else if i == 33 {
        }
    }
    assert forall|i: int| 0 <= i < 34 implies (#[trigger] spec_version_decode_info()[i] >> 12u32) == (i
        + 7) as u32 by {
        if i == 0 {
        } else if i == 1 {
        } else if i == 2 {
        } else if i == 3 {
        } else if i == 4 {
        } else if i == 5 {
        } else if i == 6 {
        } else if i == 7 {
        } else if i == 8 {
        } else if i == 9 {
        } else if i == 10 {
        } else if i == 11 {
        } else if i == 12 {
        } else if i == 13 {
        } else if i == 14 {
        } else if i == 15 {
        } else if i == 16 {
        } else if i == 17 {
        } else if i == 18 {
        } else if i == 19 {
        } else if i == 20 {
        } else if i == 21 {
        } else if i == 22 {
        } else if i == 23 {
        } else if i == 24 {
        } else if i == 25 {
        } else if i == 26 {
        } else if i == 27 {
        } else if i == 28 {
        } else if i == 29 {
        } else if i == 30 {
        } else if i == 31 {
        } else if i == 32 {
        } else if i == 33 {
        }
    }
}

/// Reading the version bits of a version exactly gives that version back:
/// `decode_version_information` of the bits of version `i + 7` returns
/// version `i + 7`.
pub proof fn lemma_version_bits_decode(i: int)
    requires
        0 <= i < 34,
    ensures
        exists|j: int| 0 <= j < 34 && version_distance(spec_version_decode_info()[i], j) <= 3,
        (choose|j: int| is_first_nearest_version(spec_version_decode_info()[i], j)) == i,
{
    let table = spec_version_decode_info();
    let bits = table[i];
    lemma_version_table_increasing(0, i);
    lemma_xor_zero_local(bits, table[i]);
    lemma_popcount_zero(bits ^ table[i]);
    assert(version_distance(bits, i) == 0);
    assert forall|j: int| 0 <= j < i implies version_distance(bits, j) > 0 by {
        lemma_xor_zero_local(bits, table[j]);
        lemma_popcount_zero(bits ^ table[j]);
    }
    assert(is_first_nearest_version(bits, i));
    let k = choose|j: int| is_first_nearest_version(bits, j);
    lemma_first_nearest_version_unique(bits, i, k);
}

proof fn lemma_bch_18_6_distance(a: u32, b: u32)
    by (bit_vector)
    requires
        7u32 <= a <= 40u32,
        7u32 <= b <= 40u32,
        a != b,
    ensures
        bch_18_6(a) ^ bch_18_6(b) < 0x40000u32,
        low_bit_count(bch_18_6(a) ^ bch_18_6(b)) >= 8u32,
{
}

/// The version bits of any two versions differ in at least eight bits.
pub proof fn lemma_version_words_distance(a: int, b: int)
    requires
        0 <= a < 34,
        0 <= b < 34,
        a != b,
    ensures
        bits_differing(spec_version_decode_info()[a], spec_version_decode_info()[b]) >= 8,
{
    lemma_version_words_are_bch();
    lemma_bch_18_6_distance((a + 7) as u32, (b + 7) as u32);
    let table = spec_version_decode_info();
    assert(table[a] == bch_18_6((a + 7) as u32));
    assert(table[b] == bch_18_6((b + 7) as u32));
    lemma_popcount_low_bits(table[a] ^ table[b]);
}

/// Version bits survive up to three wrong bits: bits within three bits of
/// those of version `i + 7` decode to version `i + 7`.
pub proof fn lemma_version_decode_corrects_three(i: int, bits: u32)
    requires
        0 <= i < 34,
        bits_differing(bits, spec_version_decode_info()[i]) <= 3,
    ensures
        exists|j: int| 0 <= j < 34 && version_distance(bits, j) <= 3,
        (choose|j: int| is_first_nearest_version(bits, j)) == i,
{
    let table = spec_version_decode_info();
    assert(version_distance(bits, i) <= 3);
    assert forall|j: int| 0 <= j < 34 && j != i implies version_distance(bits, j) >= 5 by {
        lemma_version_words_distance(i, j);
        lemma_bits_differing_triangle(table[i], bits, table[j]);
        lemma_bits_differing_triangle(bits, table[i], table[j]);
    }
    assert(is_first_nearest_version(bits, i));
    let k = choose|k: int| is_first_nearest_version(bits, k);
    lemma_first_nearest_version_unique(bits, i, k);
}

/// Two readings of the version bits, each within three bits of those of
/// version `i + 7`, decode to version `i + 7`.
pub proof fn lemma_version_pair_decode_corrects_three(i: int, a: i32, b: i32)
    requires
        0 <= i < 34,
        bits_differing(a as u32, spec_version_decode_info()[i]) <= 3,
        bits_differing(b as u32, spec_version_decode_info()[i]) <= 3,
    ensures
        exists|j: int| 0 <= j < 34 && pair_version_distance(a, b, j) <= 3,
        (choose|j: int| is_first_nearest_pair(a, b, j)) == i,
{
    let table = spec_version_decode_info();
    assert(pair_version_distance(a, b, i) <= 3);
    assert forall|j: int| 0 <= j < 34 && j != i implies pair_version_distance(a, b, j) >= 5 by {
        lemma_version_words_distance(i, j);
        lemma_bits_differing_triangle(table[i], a as u32, table[j]);
        lemma_bits_differing_triangle(a as u32, table[i], table[j]);
        lemma_bits_differing_triangle(table[i], b as u32, table[j]);
        lemma_bits_differing_triangle(b as u32, table[i], table[j]);
    }
    assert(is_first_nearest_pair(a, b, i));
    let k = choose|k: int| is_first_nearest_pair(a, b, k);
    lemma_first_nearest_pair_unique(a, b, i, k);
}

proof fn lemma_version_table_adjacent()
    ensures
        forall|a: int| 0 <= a < 33 ==> #[trigger] spec_version_decode_info()[a] < spec_version_decode_info()[a + 1],
{
    let table = spec_version_decode_info();
    assert forall|a: int| 0 <= a < 33 implies #[trigger] table[a] < table[a + 1] by {
        if a == 0 {
        } else if a == 1 {
        } else if a == 2 {
        } else if a == 3 {
        } else if a == 4 {
        } else if a == 5 {
        } else if a == 6 {
        } else if a == 7 {
        } else if a == 8 {
        } else if a == 9 {
        } else if a == 10 {
        } else if a == 11 {
        } else if a == 12 {
        } else if a == 13 {
        } else if a == 14 {
        } else if a == 15 {
        } else if a == 16 {
        } else if a == 17 {
        } else if a == 18 {
        } else if a == 19 {
        } else if a == 20 {
        } else if a == 21 {
        } else if a == 22 {
        } else if a == 23 {
        } else if a == 24 {
        } else if a == 25 {
        } else if a == 26 {
        } else if a == 27 {
        } else if a == 28 {
        } else if a == 29 {
        } else if a == 30 {
        } else if a == 31 {
        } else if a == 32 {
        }
    }
}

/// The version bits increase with the version, so that no two versions
/// share them.
proof fn lemma_version_table_increasing(a: int, b: int)
    requires
        0 <= a <= b < 34,
    ensures
        forall|j: int| a <= j < b ==> #[trigger] spec_version_decode_info()[j] < spec_version_decode_info()[b],
    decreases b - a,
{
    lemma_version_table_adjacent();
    if a < b {
        lemma_version_table_increasing(a, b - 1);
        assert(spec_version_decode_info()[b - 1] < spec_version_decode_info()[b]);
    }
}

/// The version number that the size of a QR or Micro QR symbol gives is
/// that symbol's version: `number_point(symbol_size(n, t)) == n`.
pub proof fn lemma_symbol_size_number(version: u32, qr_type: Type)
    requires
        qr_type == Type::Model2 ==> 1 <= version <= 40,
        qr_type == Type::Micro ==> 1 <= version <= 4,
        qr_type == Type::Model2 || qr_type == Type::Micro,
    ensures
        spec_number_point(spec_symbol_size(version, qr_type)) == version,
        spec_is_valid_size(spec_symbol_size(version, qr_type), qr_type),
{
}

} // verus!

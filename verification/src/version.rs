use vstd::prelude::*;
use crate::bit_matrix::BitMatrix;
use crate::ec_level::{ErrorCorrectionLevel, spec_ordinal};
use crate::error::Error;

verus! {

/// Parameters of one group of error-correction blocks: how many blocks the
/// group has, and how many data codewords each block carries.
#[derive(Debug, Clone, Copy)]
pub struct Ecb {
    count: u32,
    data_codewords: u32,
}

impl View for Ecb {
    type V = (u32, u32);

    closed spec fn view(&self) -> (u32, u32) {
        (self.count, self.data_codewords)
    }
}

impl Ecb {
    /// A group of `count` blocks with `data_codewords` data codewords each.
    pub fn new(count: u32, data_codewords: u32) -> (res: Self)
        ensures
            res@ == (count, data_codewords),
    {
        Ecb { count, data_codewords }
    }

    /// Number of blocks in the group.
    pub fn count(&self) -> (res: u32)
        ensures
            res == self@.0,
    {
        self.count
    }

    /// Data codewords in each block of the group.
    pub fn data_codewords(&self) -> (res: u32)
        ensures
            res == self@.1,
    {
        self.data_codewords
    }

    /// Number of blocks in the group.
    pub fn get_count(&self) -> (res: u32)
        ensures
            res == self@.0,
    {
        self.count
    }

    /// Data codewords in each block of the group.
    pub fn get_data_codewords(&self) -> (res: u32)
        ensures
            res == self@.1,
    {
        self.data_codewords
    }
}

/// The block group type under its other name.
pub type ECB = Ecb;

/// Number of blocks in a list of block groups.
pub open spec fn blocks_count(groups: Seq<(u32, u32)>) -> nat
    decreases groups.len(),
{
    if groups.len() == 0 {
        0
    } else {
        blocks_count(groups.drop_last()) + groups.last().0 as nat
    }
}

/// Codewords (data and error correction) in all blocks of one level, given
/// the level's error-correction codewords per block and its block groups.
pub open spec fn level_codewords(level: (u32, Seq<(u32, u32)>)) -> nat
    decreases level.1.len(),
{
    if level.1.len() == 0 {
        0
    } else {
        level_codewords((level.0, level.1.drop_last())) + (level.1.last().0 as nat) * (
        level.1.last().1 as nat + level.0 as nat)
    }
}

proof fn lemma_blocks_count_prefix(groups: Seq<(u32, u32)>, i: int)
    requires
        0 <= i <= groups.len(),
    ensures
        blocks_count(groups.take(i)) <= blocks_count(groups),
    decreases groups.len(),
{
    if i < groups.len() {
        assert(groups.drop_last().take(i) =~= groups.take(i));
        lemma_blocks_count_prefix(groups.drop_last(), i);
    } else {
        assert(groups.take(i) =~= groups);
    }
}

pub(crate) proof fn lemma_level_codewords_prefix(level: (u32, Seq<(u32, u32)>), i: int)
    requires
        0 <= i <= level.1.len(),
    ensures
        level_codewords((level.0, level.1.take(i))) <= level_codewords(level),
    decreases level.1.len(),
{
    if i < level.1.len() {
        assert(level.1.drop_last().take(i) =~= level.1.take(i));
        lemma_level_codewords_prefix((level.0, level.1.drop_last()), i);
        assert(level.1.last().0 * (level.1.last().1 + level.0) >= 0) by (nonlinear_arith);
    } else {
        assert(level.1.take(i) =~= level.1);
    }
}

/// The error-correction codewords per block of one error correction level,
/// with the groups of blocks that the level splits the codewords into.
#[derive(Debug, Clone)]
pub struct ECBlocks {
    ec_codewords_per_block: u32,
    ec_blocks: Vec<Ecb>,
}

impl View for ECBlocks {
    type V = (u32, Seq<(u32, u32)>);

    closed spec fn view(&self) -> (u32, Seq<(u32, u32)>) {
        (self.ec_codewords_per_block, self.ec_blocks@.map_values(|b: Ecb| b@))
    }
}

impl ECBlocks {
    /// The level with `ec_codewords_per_block` error-correction codewords in
    /// every block, and the block groups `ec_blocks`.
    pub fn new(ec_codewords_per_block: u32, ec_blocks: Vec<Ecb>) -> (res: Self)
        ensures
            res@ == (ec_codewords_per_block, ec_blocks@.map_values(|b: Ecb| b@)),
    {
        ECBlocks { ec_codewords_per_block, ec_blocks }
    }

    /// Error-correction codewords in each block.
    pub fn ec_codewords_per_block(&self) -> (res: u32)
        ensures
            res == self@.0,
    {
        self.ec_codewords_per_block
    }

    /// Number of blocks over all groups.
    pub fn num_blocks(&self) -> (res: u32)
        requires
            blocks_count(self@.1) <= u32::MAX,
        ensures
            res == blocks_count(self@.1),
    {
        let ghost groups = self@.1;
        let mut total: u32 = 0;
        let mut i: usize = 0;
        while i < self.ec_blocks.len()
            invariant
                i <= self.ec_blocks@.len(),
                groups == self@.1,
                groups.len() == self.ec_blocks@.len(),
                blocks_count(groups) <= u32::MAX,
                total == blocks_count(groups.take(i as int)),
            decreases self.ec_blocks@.len() - i,
        {
            proof {
                assert(groups.take(i as int + 1).drop_last() =~= groups.take(i as int));
                lemma_blocks_count_prefix(groups, i as int + 1);
            }
            total = total + self.ec_blocks[i].count();
            i = i + 1;
        }
        proof {
            assert(groups.take(i as int) =~= groups);
        }
        total
    }

    /// Error-correction codewords over all blocks.
    pub fn total_ec_codewords(&self) -> (res: u32)
        requires
            blocks_count(self@.1) * self@.0 <= u32::MAX,
        ensures
            res == self@.0 * blocks_count(self@.1),
    {
        proof {
            if self@.0 > 0 {
                assert(blocks_count(self@.1) <= blocks_count(self@.1) * self@.0) by (nonlinear_arith)
                    requires
                        self@.0 > 0,
                ;
            } else {
                assert(blocks_count(self@.1) * self@.0 == 0);
            }
        }
        let n = if self.ec_codewords_per_block == 0 {
            0
        } else {
            self.num_blocks()
        };
        proof {
            if self@.0 == 0 {
                assert(self@.0 * blocks_count(self@.1) == 0);
            }
        }
        assert(self@.0 * blocks_count(self@.1) == blocks_count(self@.1) * self@.0) by (nonlinear_arith);
        self.ec_codewords_per_block * n
    }

    /// The block groups.
    pub fn blocks(&self) -> (res: &[Ecb])
        ensures
            res@.map_values(|b: Ecb| b@) == self@.1,
    {
        self.ec_blocks.as_slice()
    }

    /// Error-correction codewords in each block.
    pub fn get_eccodewords_per_block(&self) -> (res: u32)
        ensures
            res == self@.0,
    {
        self.ec_codewords_per_block
    }

    /// Number of blocks over all groups.
    pub fn get_num_blocks(&self) -> (res: u32)
        requires
            blocks_count(self@.1) <= u32::MAX,
        ensures
            res == blocks_count(self@.1),
    {
        self.num_blocks()
    }

    /// Error-correction codewords over all blocks.
    pub fn get_total_eccodewords(&self) -> (res: u32)
        requires
            blocks_count(self@.1) * self@.0 <= u32::MAX,
        ensures
            res == self@.0 * blocks_count(self@.1),
    {
        self.total_ec_codewords()
    }

    /// The block groups.
    pub fn get_ecblocks(&self) -> (res: &[Ecb])
        ensures
            res@.map_values(|b: Ecb| b@) == self@.1,
    {
        self.ec_blocks.as_slice()
    }
}

/// Alignment pattern centres of a QR code version (ISO 18004:2006 Annex E).
pub open spec fn spec_alignment_centers(version: u32) -> Seq<u32> {
    match version {
        1 => seq![],
        2 => seq![6u32, 18u32],
        3 => seq![6u32, 22u32],
        4 => seq![6u32, 26u32],
        5 => seq![6u32, 30u32],
        6 => seq![6u32, 34u32],
        7 => seq![6u32, 22u32, 38u32],
        8 => seq![6u32, 24u32, 42u32],
        9 => seq![6u32, 26u32, 46u32],
        10 => seq![6u32, 28u32, 50u32],
        11 => seq![6u32, 30u32, 54u32],
        12 => seq![6u32, 32u32, 58u32],
        13 => seq![6u32, 34u32, 62u32],
        14 => seq![6u32, 26u32, 46u32, 66u32],
        15 => seq![6u32, 26u32, 48u32, 70u32],
        16 => seq![6u32, 26u32, 50u32, 74u32],
        17 => seq![6u32, 30u32, 54u32, 78u32],
        18 => seq![6u32, 30u32, 56u32, 82u32],
        19 => seq![6u32, 30u32, 58u32, 86u32],
        20 => seq![6u32, 34u32, 62u32, 90u32],
        21 => seq![6u32, 28u32, 50u32, 72u32, 94u32],
        22 => seq![6u32, 26u32, 50u32, 74u32, 98u32],
        23 => seq![6u32, 30u32, 54u32, 78u32, 102u32],
        24 => seq![6u32, 28u32, 54u32, 80u32, 106u32],
        25 => seq![6u32, 32u32, 58u32, 84u32, 110u32],
        26 => seq![6u32, 30u32, 58u32, 86u32, 114u32],
        27 => seq![6u32, 34u32, 62u32, 90u32, 118u32],
        28 => seq![6u32, 26u32, 50u32, 74u32, 98u32, 122u32],
        29 => seq![6u32, 30u32, 54u32, 78u32, 102u32, 126u32],
        30 => seq![6u32, 26u32, 52u32, 78u32, 104u32, 130u32],
        31 => seq![6u32, 30u32, 56u32, 82u32, 108u32, 134u32],
        32 => seq![6u32, 34u32, 60u32, 86u32, 112u32, 138u32],
        33 => seq![6u32, 30u32, 58u32, 86u32, 114u32, 142u32],
        34 => seq![6u32, 34u32, 62u32, 90u32, 118u32, 146u32],
        35 => seq![6u32, 30u32, 54u32, 78u32, 102u32, 126u32, 150u32],
        36 => seq![6u32, 24u32, 50u32, 76u32, 102u32, 128u32, 154u32],
        37 => seq![6u32, 28u32, 54u32, 80u32, 106u32, 132u32, 158u32],
        38 => seq![6u32, 32u32, 58u32, 84u32, 110u32, 136u32, 162u32],
        39 => seq![6u32, 26u32, 54u32, 82u32, 110u32, 138u32, 166u32],
        40 => seq![6u32, 30u32, 58u32, 86u32, 114u32, 142u32, 170u32],
        _ => seq![],
    }
}

/// Error-correction parameters of a QR code version, one entry per level
/// in the order L, M, Q, H (ISO 18004:2006 Table 9).
pub open spec fn spec_ec_table(version: u32) -> Seq<(u32, Seq<(u32, u32)>)> {
    match version {
        1 => seq![
            (7u32, seq![(1u32, 19u32)]),
            (10u32, seq![(1u32, 16u32)]),
            (13u32, seq![(1u32, 13u32)]),
            (17u32, seq![(1u32, 9u32)]),
        ],
        2 => seq![
            (10u32, seq![(1u32, 34u32)]),
            (16u32, seq![(1u32, 28u32)]),
            (22u32, seq![(1u32, 22u32)]),
            (28u32, seq![(1u32, 16u32)]),
        ],
        3 => seq![
            (15u32, seq![(1u32, 55u32)]),
            (26u32, seq![(1u32, 44u32)]),
            (18u32, seq![(2u32, 17u32)]),
            (22u32, seq![(2u32, 13u32)]),
        ],
        4 => seq![
            (20u32, seq![(1u32, 80u32)]),
            (18u32, seq![(2u32, 32u32)]),
            (26u32, seq![(2u32, 24u32)]),
            (16u32, seq![(4u32, 9u32)]),
        ],
        5 => seq![
            (26u32, seq![(1u32, 108u32)]),
            (24u32, seq![(2u32, 43u32)]),
            (18u32, seq![(2u32, 15u32), (2u32, 16u32)]),
            (22u32, seq![(2u32, 11u32), (2u32, 12u32)]),
        ],
        6 => seq![
            (18u32, seq![(2u32, 68u32)]),
            (16u32, seq![(4u32, 27u32)]),
            (24u32, seq![(4u32, 19u32)]),
            (28u32, seq![(4u32, 15u32)]),
        ],
        7 => seq![
            (20u32, seq![(2u32, 78u32)]),
            (18u32, seq![(4u32, 31u32)]),
            (18u32, seq![(2u32, 14u32), (4u32, 15u32)]),
            (26u32, seq![(4u32, 13u32), (1u32, 14u32)]),
        ],
        8 => seq![
            (24u32, seq![(2u32, 97u32)]),
            (22u32, seq![(2u32, 38u32), (2u32, 39u32)]),
            (22u32, seq![(4u32, 18u32), (2u32, 19u32)]),
            (26u32, seq![(4u32, 14u32), (2u32, 15u32)]),
        ],
        9 => seq![
            (30u32, seq![(2u32, 116u32)]),
            (22u32, seq![(3u32, 36u32), (2u32, 37u32)]),
            (20u32, seq![(4u32, 16u32), (4u32, 17u32)]),
            (24u32, seq![(4u32, 12u32), (4u32, 13u32)]),
        ],
        10 => seq![
            (18u32, seq![(2u32, 68u32), (2u32, 69u32)]),
            (26u32, seq![(4u32, 43u32), (1u32, 44u32)]),
            (24u32, seq![(6u32, 19u32), (2u32, 20u32)]),
            (28u32, seq![(6u32, 15u32), (2u32, 16u32)]),
        ],
        11 => seq![
            (20u32, seq![(4u32, 81u32)]),
            (30u32, seq![(1u32, 50u32), (4u32, 51u32)]),
            (28u32, seq![(4u32, 22u32), (4u32, 23u32)]),
            (24u32, seq![(3u32, 12u32), (8u32, 13u32)]),
        ],
        12 => seq![
            (24u32, seq![(2u32, 92u32), (2u32, 93u32)]),
            (22u32, seq![(6u32, 36u32), (2u32, 37u32)]),
            (26u32, seq![(4u32, 20u32), (6u32, 21u32)]),
            (28u32, seq![(7u32, 14u32), (4u32, 15u32)]),
        ],
        13 => seq![
            (26u32, seq![(4u32, 107u32)]),
            (22u32, seq![(8u32, 37u32), (1u32, 38u32)]),
            (24u32, seq![(8u32, 20u32), (4u32, 21u32)]),
            (22u32, seq![(12u32, 11u32), (4u32, 12u32)]),
        ],
        14 => seq![
            (30u32, seq![(3u32, 115u32), (1u32, 116u32)]),
            (24u32, seq![(4u32, 40u32), (5u32, 41u32)]),
            (20u32, seq![(11u32, 16u32), (5u32, 17u32)]),
            (24u32, seq![(11u32, 12u32), (5u32, 13u32)]),
        ],
        15 => seq![
            (22u32, seq![(5u32, 87u32), (1u32, 88u32)]),
            (24u32, seq![(5u32, 41u32), (5u32, 42u32)]),
            (30u32, seq![(5u32, 24u32), (7u32, 25u32)]),
            (24u32, seq![(11u32, 12u32), (7u32, 13u32)]),
        ],
        16 => seq![
            (24u32, seq![(5u32, 98u32), (1u32, 99u32)]),
            (28u32, seq![(7u32, 45u32), (3u32, 46u32)]),
            (24u32, seq![(15u32, 19u32), (2u32, 20u32)]),
            (30u32, seq![(3u32, 15u32), (13u32, 16u32)]),
        ],
        17 => seq![
            (28u32, seq![(1u32, 107u32), (5u32, 108u32)]),
            (28u32, seq![(10u32, 46u32), (1u32, 47u32)]),
            (28u32, seq![(1u32, 22u32), (15u32, 23u32)]),
            (28u32, seq![(2u32, 14u32), (17u32, 15u32)]),
        ],
        18 => seq![
            (30u32, seq![(5u32, 120u32), (1u32, 121u32)]),
            (26u32, seq![(9u32, 43u32), (4u32, 44u32)]),
            (28u32, seq![(17u32, 22u32), (1u32, 23u32)]),
            (28u32, seq![(2u32, 14u32), (19u32, 15u32)]),
        ],
        19 => seq![
            (28u32, seq![(3u32, 113u32), (4u32, 114u32)]),
            (26u32, seq![(3u32, 44u32), (11u32, 45u32)]),
            (26u32, seq![(17u32, 21u32), (4u32, 22u32)]),
            (26u32, seq![(9u32, 13u32), (16u32, 14u32)]),
        ],
        20 => seq![
            (28u32, seq![(3u32, 107u32), (5u32, 108u32)]),
            (26u32, seq![(3u32, 41u32), (13u32, 42u32)]),
            (30u32, seq![(15u32, 24u32), (5u32, 25u32)]),
            (28u32, seq![(15u32, 15u32), (10u32, 16u32)]),
        ],
        21 => seq![
            (28u32, seq![(4u32, 116u32), (4u32, 117u32)]),
            (26u32, seq![(17u32, 42u32)]),
            (28u32, seq![(17u32, 22u32), (6u32, 23u32)]),
            (30u32, seq![(19u32, 16u32), (6u32, 17u32)]),
        ],
        22 => seq![
            (28u32, seq![(2u32, 111u32), (7u32, 112u32)]),
            (28u32, seq![(17u32, 46u32)]),
            (30u32, seq![(7u32, 24u32), (16u32, 25u32)]),
            (24u32, seq![(34u32, 13u32)]),
        ],
        23 => seq![
            (30u32, seq![(4u32, 121u32), (5u32, 122u32)]),
            (28u32, seq![(4u32, 47u32), (14u32, 48u32)]),
            (30u32, seq![(11u32, 24u32), (14u32, 25u32)]),
            (30u32, seq![(16u32, 15u32), (14u32, 16u32)]),
        ],
        24 => seq![
            (30u32, seq![(6u32, 117u32), (4u32, 118u32)]),
            (28u32, seq![(6u32, 45u32), (14u32, 46u32)]),
            (30u32, seq![(11u32, 24u32), (16u32, 25u32)]),
            (30u32, seq![(30u32, 16u32), (2u32, 17u32)]),
        ],
        25 => seq![
            (26u32, seq![(8u32, 106u32), (4u32, 107u32)]),
            (28u32, seq![(8u32, 47u32), (13u32, 48u32)]),
            (30u32, seq![(7u32, 24u32), (22u32, 25u32)]),
            (30u32, seq![(22u32, 15u32), (13u32, 16u32)]),
        ],
        26 => seq![
            (28u32, seq![(10u32, 114u32), (2u32, 115u32)]),
            (28u32, seq![(19u32, 46u32), (4u32, 47u32)]),
            (28u32, seq![(28u32, 22u32), (6u32, 23u32)]),
            (30u32, seq![(33u32, 16u32), (4u32, 17u32)]),
        ],
        27 => seq![
            (30u32, seq![(8u32, 122u32), (4u32, 123u32)]),
            (28u32, seq![(22u32, 45u32), (3u32, 46u32)]),
            (30u32, seq![(8u32, 23u32), (26u32, 24u32)]),
            (30u32, seq![(12u32, 15u32), (28u32, 16u32)]),
        ],
        28 => seq![
            (30u32, seq![(3u32, 117u32), (10u32, 118u32)]),
            (28u32, seq![(3u32, 45u32), (23u32, 46u32)]),
            (30u32, seq![(4u32, 24u32), (31u32, 25u32)]),
            (30u32, seq![(11u32, 15u32), (31u32, 16u32)]),
        ],
        29 => seq![
            (30u32, seq![(7u32, 116u32), (7u32, 117u32)]),
            (28u32, seq![(21u32, 45u32), (7u32, 46u32)]),
            (30u32, seq![(1u32, 23u32), (37u32, 24u32)]),
            (30u32, seq![(19u32, 15u32), (26u32, 16u32)]),
        ],
        30 => seq![
            (30u32, seq![(5u32, 115u32), (10u32, 116u32)]),
            (28u32, seq![(19u32, 47u32), (10u32, 48u32)]),
            (30u32, seq![(15u32, 24u32), (25u32, 25u32)]),
            (30u32, seq![(23u32, 15u32), (25u32, 16u32)]),
        ],
        31 => seq![
            (30u32, seq![(13u32, 115u32), (3u32, 116u32)]),
            (28u32, seq![(2u32, 46u32), (29u32, 47u32)]),
            (30u32, seq![(42u32, 24u32), (1u32, 25u32)]),
            (30u32, seq![(23u32, 15u32), (28u32, 16u32)]),
        ],
        32 => seq![
            (30u32, seq![(17u32, 115u32)]),
            (28u32, seq![(10u32, 46u32), (23u32, 47u32)]),
            (30u32, seq![(10u32, 24u32), (35u32, 25u32)]),
            (30u32, seq![(19u32, 15u32), (35u32, 16u32)]),
        ],
        33 => seq![
            (30u32, seq![(17u32, 115u32), (1u32, 116u32)]),
            (28u32, seq![(14u32, 46u32), (21u32, 47u32)]),
            (30u32, seq![(29u32, 24u32), (19u32, 25u32)]),
            (30u32, seq![(11u32, 15u32), (46u32, 16u32)]),
        ],
        34 => seq![
            (30u32, seq![(13u32, 115u32), (6u32, 116u32)]),
            (28u32, seq![(14u32, 46u32), (23u32, 47u32)]),
            (30u32, seq![(44u32, 24u32), (7u32, 25u32)]),
            (30u32, seq![(59u32, 16u32), (1u32, 17u32)]),
        ],
        35 => seq![
            (30u32, seq![(12u32, 121u32), (7u32, 122u32)]),
            (28u32, seq![(12u32, 47u32), (26u32, 48u32)]),
            (30u32, seq![(39u32, 24u32), (14u32, 25u32)]),
            (30u32, seq![(22u32, 15u32), (41u32, 16u32)]),
        ],
        36 => seq![
            (30u32, seq![(6u32, 121u32), (14u32, 122u32)]),
            (28u32, seq![(6u32, 47u32), (34u32, 48u32)]),
            (30u32, seq![(46u32, 24u32), (10u32, 25u32)]),
            (30u32, seq![(2u32, 15u32), (64u32, 16u32)]),
        ],
        37 => seq![
            (30u32, seq![(17u32, 122u32), (4u32, 123u32)]),
            (28u32, seq![(29u32, 46u32), (14u32, 47u32)]),
            (30u32, seq![(49u32, 24u32), (10u32, 25u32)]),
            (30u32, seq![(24u32, 15u32), (46u32, 16u32)]),
        ],
        38 => seq![
            (30u32, seq![(4u32, 122u32), (18u32, 123u32)]),
            (28u32, seq![(13u32, 46u32), (32u32, 47u32)]),
            (30u32, seq![(48u32, 24u32), (14u32, 25u32)]),
            (30u32, seq![(42u32, 15u32), (32u32, 16u32)]),
        ],
        39 => seq![
            (30u32, seq![(20u32, 117u32), (4u32, 118u32)]),
            (28u32, seq![(40u32, 47u32), (7u32, 48u32)]),
            (30u32, seq![(43u32, 24u32), (22u32, 25u32)]),
            (30u32, seq![(10u32, 15u32), (67u32, 16u32)]),
        ],
        40 => seq![
            (30u32, seq![(19u32, 118u32), (6u32, 119u32)]),
            (28u32, seq![(18u32, 47u32), (31u32, 48u32)]),
            (30u32, seq![(34u32, 24u32), (34u32, 25u32)]),
            (30u32, seq![(20u32, 15u32), (61u32, 16u32)]),
        ],
        _ => seq![],
    }
}

proof fn lemma_ec_table_len(version: u32)
    requires
        1 <= version <= 40,
    ensures
        spec_ec_table(version).len() == 4,
{
}

proof fn lemma_level_codewords_positive(level: (u32, Seq<(u32, u32)>))
    requires
        level.1.len() > 0,
        level.1.last().0 > 0,
        level.1.last().1 > 0,
    ensures
        level_codewords(level) > 0,
{
    assert((level.1.last().0 as nat) * (level.1.last().1 as nat + level.0 as nat) > 0) by (nonlinear_arith)
        requires
            level.1.last().0 > 0,
            level.1.last().1 > 0,
    ;
}

/// Every version has codewords.
pub proof fn lemma_total_codewords_positive(version: u32)
    requires
        1 <= version <= 40,
    ensures
        spec_version(version).total_codewords > 0,
{
    let level = spec_ec_table(version)[1];
    assert(level.1.len() > 0 && level.1.last().0 > 0 && level.1.last().1 > 0);
    lemma_level_codewords_positive(level);
}

/// Codewords of a level with one or two block groups, written out.
pub open spec fn level_codewords_closed(l: (u32, Seq<(u32, u32)>)) -> int {
    if l.1.len() == 1 {
        l.1[0].0 * (l.1[0].1 + l.0)
    } else {
        l.1[0].0 * (l.1[0].1 + l.0) + l.1[1].0 * (l.1[1].1 + l.0)
    }
}

pub proof fn lemma_level_codewords_closed(l: (u32, Seq<(u32, u32)>))
    requires
        1 <= l.1.len() <= 2,
    ensures
        level_codewords(l) == level_codewords_closed(l),
{
    reveal_with_fuel(level_codewords, 3);
    if l.1.len() == 2 {
        assert(l.1.drop_last() =~= seq![l.1[0]]);
        assert(l.1.drop_last().drop_last() =~= Seq::<(u32, u32)>::empty());
    } else {
        assert(l.1.drop_last() =~= Seq::<(u32, u32)>::empty());
    }
}

/// The shape of one level of the table: one group of blocks, or two whose
/// blocks carry one data codeword more in the second.
pub open spec fn level_shape(l: (u32, Seq<(u32, u32)>)) -> bool {
    &&& 1 <= l.0 <= 30
    &&& 1 <= l.1.len() <= 2
    &&& 1 <= l.1[0].0 <= 100
    &&& 1 <= l.1[0].1 <= 200
    &&& l.1.len() == 2 ==> 1 <= l.1[1].0 <= 100 && l.1[1].1 == l.1[0].1 + 1
}

proof fn lemma_level_total_1(l: (u32, Seq<(u32, u32)>), e: int, c: int, d: int, t: int)
    requires
        l.0 == e,
        l.1.len() == 1,
        l.1[0].0 == c,
        l.1[0].1 == d,
        c * (d + e) == t,
    ensures
        level_codewords_closed(l) == t,
{
}

proof fn lemma_level_total_2(l: (u32, Seq<(u32, u32)>), e: int, c1: int, d1: int, c2: int, d2: int, t: int)
    requires
        l.0 == e,
        l.1.len() == 2,
        l.1[0].0 == c1,
        l.1[0].1 == d1,
        l.1[1].0 == c2,
        l.1[1].1 == d2,
        c1 * (d1 + e) + c2 * (d2 + e) == t,
    ensures
        level_codewords_closed(l) == t,
{
}

proof fn lemma_ec_table_closed(version: u32)
    requires
        1 <= version <= 40,
    ensures
        forall|level: int| 0 <= level < 4 ==> level_shape(#[trigger] spec_ec_table(version)[level]),
        forall|level: int|
            0 <= level < 4 ==> level_codewords_closed(#[trigger] spec_ec_table(version)[level])
                == level_codewords_closed(spec_ec_table(version)[1]),
        level_codewords_closed(spec_ec_table(version)[1]) <= 4000,
{
    if version == 1 {
        lemma_level_total_1(spec_ec_table(1)[0], 7, 1, 19, 26);
        lemma_level_total_1(spec_ec_table(1)[1], 10, 1, 16, 26);
        lemma_level_total_1(spec_ec_table(1)[2], 13, 1, 13, 26);
        lemma_level_total_1(spec_ec_table(1)[3], 17, 1, 9, 26);
    } else if version == 2 {
        lemma_level_total_1(spec_ec_table(2)[0], 10, 1, 34, 44);
        lemma_level_total_1(spec_ec_table(2)[1], 16, 1, 28, 44);
        lemma_level_total_1(spec_ec_table(2)[2], 22, 1, 22, 44);
        lemma_level_total_1(spec_ec_table(2)[3], 28, 1, 16, 44);
    } else if version == 3 {
        lemma_level_total_1(spec_ec_table(3)[0], 15, 1, 55, 70);
        lemma_level_total_1(spec_ec_table(3)[1], 26, 1, 44, 70);
        lemma_level_total_1(spec_ec_table(3)[2], 18, 2, 17, 70);
        lemma_level_total_1(spec_ec_table(3)[3], 22, 2, 13, 70);
    } else if version == 4 {
        lemma_level_total_1(spec_ec_table(4)[0], 20, 1, 80, 100);
        lemma_level_total_1(spec_ec_table(4)[1], 18, 2, 32, 100);
        lemma_level_total_1(spec_ec_table(4)[2], 26, 2, 24, 100);
        lemma_level_total_1(spec_ec_table(4)[3], 16, 4, 9, 100);
    } else if version == 5 {
        lemma_level_total_1(spec_ec_table(5)[0], 26, 1, 108, 134);
        lemma_level_total_1(spec_ec_table(5)[1], 24, 2, 43, 134);
        lemma_level_total_2(spec_ec_table(5)[2], 18, 2, 15, 2, 16, 134);
        lemma_level_total_2(spec_ec_table(5)[3], 22, 2, 11, 2, 12, 134);
    } else if version == 6 {
        lemma_level_total_1(spec_ec_table(6)[0], 18, 2, 68, 172);
        lemma_level_total_1(spec_ec_table(6)[1], 16, 4, 27, 172);
        lemma_level_total_1(spec_ec_table(6)[2], 24, 4, 19, 172);
        lemma_level_total_1(spec_ec_table(6)[3], 28, 4, 15, 172);
    } else if version == 7 {
        lemma_level_total_1(spec_ec_table(7)[0], 20, 2, 78, 196);
        lemma_level_total_1(spec_ec_table(7)[1], 18, 4, 31, 196);
        lemma_level_total_2(spec_ec_table(7)[2], 18, 2, 14, 4, 15, 196);
        lemma_level_total_2(spec_ec_table(7)[3], 26, 4, 13, 1, 14, 196);
    } else if version == 8 {
        lemma_level_total_1(spec_ec_table(8)[0], 24, 2, 97, 242);
        lemma_level_total_2(spec_ec_table(8)[1], 22, 2, 38, 2, 39, 242);
        lemma_level_total_2(spec_ec_table(8)[2], 22, 4, 18, 2, 19, 242);
        lemma_level_total_2(spec_ec_table(8)[3], 26, 4, 14, 2, 15, 242);
    } else if version == 9 {
        lemma_level_total_1(spec_ec_table(9)[0], 30, 2, 116, 292);
        lemma_level_total_2(spec_ec_table(9)[1], 22, 3, 36, 2, 37, 292);
        lemma_level_total_2(spec_ec_table(9)[2], 20, 4, 16, 4, 17, 292);
        lemma_level_total_2(spec_ec_table(9)[3], 24, 4, 12, 4, 13, 292);
    } else if version == 10 {
        lemma_level_total_2(spec_ec_table(10)[0], 18, 2, 68, 2, 69, 346);
        lemma_level_total_2(spec_ec_table(10)[1], 26, 4, 43, 1, 44, 346);
        lemma_level_total_2(spec_ec_table(10)[2], 24, 6, 19, 2, 20, 346);
        lemma_level_total_2(spec_ec_table(10)[3], 28, 6, 15, 2, 16, 346);
    } else if version == 11 {
        lemma_level_total_1(spec_ec_table(11)[0], 20, 4, 81, 404);
        lemma_level_total_2(spec_ec_table(11)[1], 30, 1, 50, 4, 51, 404);
        lemma_level_total_2(spec_ec_table(11)[2], 28, 4, 22, 4, 23, 404);
        lemma_level_total_2(spec_ec_table(11)[3], 24, 3, 12, 8, 13, 404);
    } else if version == 12 {
        lemma_level_total_2(spec_ec_table(12)[0], 24, 2, 92, 2, 93, 466);
        lemma_level_total_2(spec_ec_table(12)[1], 22, 6, 36, 2, 37, 466);
        lemma_level_total_2(spec_ec_table(12)[2], 26, 4, 20, 6, 21, 466);
        lemma_level_total_2(spec_ec_table(12)[3], 28, 7, 14, 4, 15, 466);
    } else if version == 13 {
        lemma_level_total_1(spec_ec_table(13)[0], 26, 4, 107, 532);
        lemma_level_total_2(spec_ec_table(13)[1], 22, 8, 37, 1, 38, 532);
        lemma_level_total_2(spec_ec_table(13)[2], 24, 8, 20, 4, 21, 532);
        lemma_level_total_2(spec_ec_table(13)[3], 22, 12, 11, 4, 12, 532);
    } else if version == 14 {
        lemma_level_total_2(spec_ec_table(14)[0], 30, 3, 115, 1, 116, 581);
        lemma_level_total_2(spec_ec_table(14)[1], 24, 4, 40, 5, 41, 581);
        lemma_level_total_2(spec_ec_table(14)[2], 20, 11, 16, 5, 17, 581);
        lemma_level_total_2(spec_ec_table(14)[3], 24, 11, 12, 5, 13, 581);
    } else if version == 15 {
        lemma_level_total_2(spec_ec_table(15)[0], 22, 5, 87, 1, 88, 655);
        lemma_level_total_2(spec_ec_table(15)[1], 24, 5, 41, 5, 42, 655);
        lemma_level_total_2(spec_ec_table(15)[2], 30, 5, 24, 7, 25, 655);
        lemma_level_total_2(spec_ec_table(15)[3], 24, 11, 12, 7, 13, 655);
    } else if version == 16 {
        lemma_level_total_2(spec_ec_table(16)[0], 24, 5, 98, 1, 99, 733);
        lemma_level_total_2(spec_ec_table(16)[1], 28, 7, 45, 3, 46, 733);
        lemma_level_total_2(spec_ec_table(16)[2], 24, 15, 19, 2, 20, 733);
        lemma_level_total_2(spec_ec_table(16)[3], 30, 3, 15, 13, 16, 733);
    } else if version == 17 {
        lemma_level_total_2(spec_ec_table(17)[0], 28, 1, 107, 5, 108, 815);
        lemma_level_total_2(spec_ec_table(17)[1], 28, 10, 46, 1, 47, 815);
        lemma_level_total_2(spec_ec_table(17)[2], 28, 1, 22, 15, 23, 815);
        lemma_level_total_2(spec_ec_table(17)[3], 28, 2, 14, 17, 15, 815);
    } else if version == 18 {
        lemma_level_total_2(spec_ec_table(18)[0], 30, 5, 120, 1, 121, 901);
        lemma_level_total_2(spec_ec_table(18)[1], 26, 9, 43, 4, 44, 901);
        lemma_level_total_2(spec_ec_table(18)[2], 28, 17, 22, 1, 23, 901);
        lemma_level_total_2(spec_ec_table(18)[3], 28, 2, 14, 19, 15, 901);
    } else if version == 19 {
        lemma_level_total_2(spec_ec_table(19)[0], 28, 3, 113, 4, 114, 991);
        lemma_level_total_2(spec_ec_table(19)[1], 26, 3, 44, 11, 45, 991);
        lemma_level_total_2(spec_ec_table(19)[2], 26, 17, 21, 4, 22, 991);
        lemma_level_total_2(spec_ec_table(19)[3], 26, 9, 13, 16, 14, 991);
    } else if version == 20 {
        lemma_level_total_2(spec_ec_table(20)[0], 28, 3, 107, 5, 108, 1085);
        lemma_level_total_2(spec_ec_table(20)[1], 26, 3, 41, 13, 42, 1085);
        lemma_level_total_2(spec_ec_table(20)[2], 30, 15, 24, 5, 25, 1085);
        lemma_level_total_2(spec_ec_table(20)[3], 28, 15, 15, 10, 16, 1085);
    } else if version == 21 {
        lemma_level_total_2(spec_ec_table(21)[0], 28, 4, 116, 4, 117, 1156);
        lemma_level_total_1(spec_ec_table(21)[1], 26, 17, 42, 1156);
        lemma_level_total_2(spec_ec_table(21)[2], 28, 17, 22, 6, 23, 1156);
        lemma_level_total_2(spec_ec_table(21)[3], 30, 19, 16, 6, 17, 1156);
    } else if version == 22 {
        lemma_level_total_2(spec_ec_table(22)[0], 28, 2, 111, 7, 112, 1258);
        lemma_level_total_1(spec_ec_table(22)[1], 28, 17, 46, 1258);
        lemma_level_total_2(spec_ec_table(22)[2], 30, 7, 24, 16, 25, 1258);
        lemma_level_total_1(spec_ec_table(22)[3], 24, 34, 13, 1258);
    } else if version == 23 {
        lemma_level_total_2(spec_ec_table(23)[0], 30, 4, 121, 5, 122, 1364);
        lemma_level_total_2(spec_ec_table(23)[1], 28, 4, 47, 14, 48, 1364);
        lemma_level_total_2(spec_ec_table(23)[2], 30, 11, 24, 14, 25, 1364);
        lemma_level_total_2(spec_ec_table(23)[3], 30, 16, 15, 14, 16, 1364);
    } else if version == 24 {
        lemma_level_total_2(spec_ec_table(24)[0], 30, 6, 117, 4, 118, 1474);
        lemma_level_total_2(spec_ec_table(24)[1], 28, 6, 45, 14, 46, 1474);
        lemma_level_total_2(spec_ec_table(24)[2], 30, 11, 24, 16, 25, 1474);
        lemma_level_total_2(spec_ec_table(24)[3], 30, 30, 16, 2, 17, 1474);
    } else if version == 25 {
        lemma_level_total_2(spec_ec_table(25)[0], 26, 8, 106, 4, 107, 1588);
        lemma_level_total_2(spec_ec_table(25)[1], 28, 8, 47, 13, 48, 1588);
        lemma_level_total_2(spec_ec_table(25)[2], 30, 7, 24, 22, 25, 1588);
        lemma_level_total_2(spec_ec_table(25)[3], 30, 22, 15, 13, 16, 1588);
    } else if version == 26 {
        lemma_level_total_2(spec_ec_table(26)[0], 28, 10, 114, 2, 115, 1706);
        lemma_level_total_2(spec_ec_table(26)[1], 28, 19, 46, 4, 47, 1706);
        lemma_level_total_2(spec_ec_table(26)[2], 28, 28, 22, 6, 23, 1706);
        lemma_level_total_2(spec_ec_table(26)[3], 30, 33, 16, 4, 17, 1706);
    } else if version == 27 {
        lemma_level_total_2(spec_ec_table(27)[0], 30, 8, 122, 4, 123, 1828);
        lemma_level_total_2(spec_ec_table(27)[1], 28, 22, 45, 3, 46, 1828);
        lemma_level_total_2(spec_ec_table(27)[2], 30, 8, 23, 26, 24, 1828);
        lemma_level_total_2(spec_ec_table(27)[3], 30, 12, 15, 28, 16, 1828);
    } else if version == 28 {
        lemma_level_total_2(spec_ec_table(28)[0], 30, 3, 117, 10, 118, 1921);
        lemma_level_total_2(spec_ec_table(28)[1], 28, 3, 45, 23, 46, 1921);
        lemma_level_total_2(spec_ec_table(28)[2], 30, 4, 24, 31, 25, 1921);
        lemma_level_total_2(spec_ec_table(28)[3], 30, 11, 15, 31, 16, 1921);
    } else if version == 29 {
        lemma_level_total_2(spec_ec_table(29)[0], 30, 7, 116, 7, 117, 2051);
        lemma_level_total_2(spec_ec_table(29)[1], 28, 21, 45, 7, 46, 2051);
        lemma_level_total_2(spec_ec_table(29)[2], 30, 1, 23, 37, 24, 2051);
        lemma_level_total_2(spec_ec_table(29)[3], 30, 19, 15, 26, 16, 2051);
    } else if version == 30 {
        lemma_level_total_2(spec_ec_table(30)[0], 30, 5, 115, 10, 116, 2185);
        lemma_level_total_2(spec_ec_table(30)[1], 28, 19, 47, 10, 48, 2185);
        lemma_level_total_2(spec_ec_table(30)[2], 30, 15, 24, 25, 25, 2185);
        lemma_level_total_2(spec_ec_table(30)[3], 30, 23, 15, 25, 16, 2185);
    } else if version == 31 {
        lemma_level_total_2(spec_ec_table(31)[0], 30, 13, 115, 3, 116, 2323);
        lemma_level_total_2(spec_ec_table(31)[1], 28, 2, 46, 29, 47, 2323);
        lemma_level_total_2(spec_ec_table(31)[2], 30, 42, 24, 1, 25, 2323);
        lemma_level_total_2(spec_ec_table(31)[3], 30, 23, 15, 28, 16, 2323);
    } else if version == 32 {
        lemma_level_total_1(spec_ec_table(32)[0], 30, 17, 115, 2465);
        lemma_level_total_2(spec_ec_table(32)[1], 28, 10, 46, 23, 47, 2465);
        lemma_level_total_2(spec_ec_table(32)[2], 30, 10, 24, 35, 25, 2465);
        lemma_level_total_2(spec_ec_table(32)[3], 30, 19, 15, 35, 16, 2465);
    } else if version == 33 {
        lemma_level_total_2(spec_ec_table(33)[0], 30, 17, 115, 1, 116, 2611);
        lemma_level_total_2(spec_ec_table(33)[1], 28, 14, 46, 21, 47, 2611);
        lemma_level_total_2(spec_ec_table(33)[2], 30, 29, 24, 19, 25, 2611);
        lemma_level_total_2(spec_ec_table(33)[3], 30, 11, 15, 46, 16, 2611);
    } else if version == 34 {
        lemma_level_total_2(spec_ec_table(34)[0], 30, 13, 115, 6, 116, 2761);
        lemma_level_total_2(spec_ec_table(34)[1], 28, 14, 46, 23, 47, 2761);
        lemma_level_total_2(spec_ec_table(34)[2], 30, 44, 24, 7, 25, 2761);
        lemma_level_total_2(spec_ec_table(34)[3], 30, 59, 16, 1, 17, 2761);
    } else if version == 35 {
        lemma_level_total_2(spec_ec_table(35)[0], 30, 12, 121, 7, 122, 2876);
        lemma_level_total_2(spec_ec_table(35)[1], 28, 12, 47, 26, 48, 2876);
        lemma_level_total_2(spec_ec_table(35)[2], 30, 39, 24, 14, 25, 2876);
        lemma_level_total_2(spec_ec_table(35)[3], 30, 22, 15, 41, 16, 2876);
    } else if version == 36 {
        lemma_level_total_2(spec_ec_table(36)[0], 30, 6, 121, 14, 122, 3034);
        lemma_level_total_2(spec_ec_table(36)[1], 28, 6, 47, 34, 48, 3034);
        lemma_level_total_2(spec_ec_table(36)[2], 30, 46, 24, 10, 25, 3034);
        lemma_level_total_2(spec_ec_table(36)[3], 30, 2, 15, 64, 16, 3034);
    } else if version == 37 {
        lemma_level_total_2(spec_ec_table(37)[0], 30, 17, 122, 4, 123, 3196);
        lemma_level_total_2(spec_ec_table(37)[1], 28, 29, 46, 14, 47, 3196);
        lemma_level_total_2(spec_ec_table(37)[2], 30, 49, 24, 10, 25, 3196);
        lemma_level_total_2(spec_ec_table(37)[3], 30, 24, 15, 46, 16, 3196);
    } else if version == 38 {
        lemma_level_total_2(spec_ec_table(38)[0], 30, 4, 122, 18, 123, 3362);
        lemma_level_total_2(spec_ec_table(38)[1], 28, 13, 46, 32, 47, 3362);
        lemma_level_total_2(spec_ec_table(38)[2], 30, 48, 24, 14, 25, 3362);
        lemma_level_total_2(spec_ec_table(38)[3], 30, 42, 15, 32, 16, 3362);
    } else if version == 39 {
        lemma_level_total_2(spec_ec_table(39)[0], 30, 20, 117, 4, 118, 3532);
        lemma_level_total_2(spec_ec_table(39)[1], 28, 40, 47, 7, 48, 3532);
        lemma_level_total_2(spec_ec_table(39)[2], 30, 43, 24, 22, 25, 3532);
        lemma_level_total_2(spec_ec_table(39)[3], 30, 10, 15, 67, 16, 3532);
    } else if version == 40 {
        lemma_level_total_2(spec_ec_table(40)[0], 30, 19, 118, 6, 119, 3706);
        lemma_level_total_2(spec_ec_table(40)[1], 28, 18, 47, 31, 48, 3706);
        lemma_level_total_2(spec_ec_table(40)[2], 30, 34, 24, 34, 25, 3706);
        lemma_level_total_2(spec_ec_table(40)[3], 30, 20, 15, 61, 16, 3706);
    }
}

/// Every level of the table has one group of blocks, or two whose blocks
/// carry one data codeword more in the second; all levels of a version have
/// the version's number of codewords.
pub proof fn lemma_ec_table_shape(version: u32, level: int)
    requires
        1 <= version <= 40,
        0 <= level < 4,
    ensures
        level_shape(spec_ec_table(version)[level]),
        level_codewords(spec_ec_table(version)[level]) == spec_version(version).total_codewords,
        spec_version(version).total_codewords <= 4000,
{
    lemma_ec_table_closed(version);
    let l = spec_ec_table(version)[level];
    let m = spec_ec_table(version)[1];
    assert(level_shape(l));
    assert(level_shape(m));
    lemma_level_codewords_closed(l);
    lemma_level_codewords_closed(m);
}

/// Side of a QR code symbol of the given version, in modules.
pub open spec fn spec_dimension(version: u32) -> int {
    17 + 4 * version
}

/// Whether cell `(x, y)` lies in the rectangle `w` wide and `h` high whose
/// top left corner is `(left, top)`.
pub open spec fn in_rect(x: int, y: int, left: int, top: int, w: int, h: int) -> bool {
    left <= x < left + w && top <= y < top + h
}

/// Whether the alignment pattern at row centre `xi` and column centre `yi`
/// is drawn: not where it would overlap one of the three finder patterns.
pub open spec fn alignment_drawn(xi: int, yi: int, max: int) -> bool {
    (xi != 0 || (yi != 0 && yi != max - 1)) && (xi != max - 1 || yi != 0)
}

/// Whether cell `(x, y)` lies in the 5 by 5 alignment pattern centred at
/// column `centers[yi]`, row `centers[xi]`.
pub open spec fn in_alignment_square(centers: Seq<u32>, xi: int, yi: int, x: int, y: int) -> bool {
    in_rect(x, y, centers[yi] - 2, centers[xi] - 2, 5, 5)
}

/// Whether cell `(x, y)` lies in a drawn alignment pattern whose centre
/// pair comes before `(xi_limit, yi_limit)`, row centre first.
pub open spec fn in_alignment_before(centers: Seq<u32>, x: int, y: int, xi_limit: int, yi_limit: int) -> bool {
    exists|a: int, b: int|
        0 <= a < centers.len() && 0 <= b < centers.len() && (a < xi_limit || (a == xi_limit && b
            < yi_limit)) && alignment_drawn(a, b, centers.len() as int) && #[trigger] in_alignment_square(
            centers,
            a,
            b,
            x,
            y,
        )
}

/// Whether cell `(x, y)` belongs to a function pattern of the version:
/// finder patterns with separators and format areas, alignment patterns,
/// timing patterns, and from version 7 on the version information areas.
pub open spec fn function_pattern_cell(version: u32, x: int, y: int) -> bool {
    let d = spec_dimension(version);
    let c = spec_alignment_centers(version);
    ||| in_rect(x, y, 0, 0, 9, 9)
    ||| in_rect(x, y, d - 8, 0, 8, 9)
    ||| in_rect(x, y, 0, d - 8, 9, 8)
    ||| in_alignment_before(c, x, y, c.len() as int, 0)
    ||| in_rect(x, y, 6, 9, 1, d - 17)
    ||| in_rect(x, y, 9, 6, d - 17, 1)
    ||| (version > 6 && (in_rect(x, y, d - 11, 0, 3, 6) || in_rect(x, y, 0, d - 11, 6, 3)))
}

proof fn lemma_alignment_bounds(version: u32)
    requires
        1 <= version <= 40,
    ensures
        spec_alignment_centers(version).len() <= 7,
        forall|i: int|
            0 <= i < spec_alignment_centers(version).len() ==> 6 <= #[trigger] spec_alignment_centers(
                version,
            )[i] && spec_alignment_centers(version)[i] + 7 <= spec_dimension(version),
{
}

proof fn lemma_alignment_step(centers: Seq<u32>, x: int, y: int, xi: int, yi: int)
    requires
        0 <= xi < centers.len(),
        0 <= yi < centers.len(),
    ensures
        in_alignment_before(centers, x, y, xi, yi + 1) == (in_alignment_before(centers, x, y, xi, yi)
            || (alignment_drawn(xi, yi, centers.len() as int) && in_alignment_square(
            centers,
            xi,
            yi,
            x,
            y,
        ))),
{
    if in_alignment_before(centers, x, y, xi, yi + 1) {
        let (a, b) = choose|a: int, b: int|
            0 <= a < centers.len() && 0 <= b < centers.len() && (a < xi || (a == xi && b < yi + 1))
                && alignment_drawn(a, b, centers.len() as int) && #[trigger] in_alignment_square(
                centers,
                a,
                b,
                x,
                y,
            );
        if !(a == xi && b == yi) {
            assert(in_alignment_before(centers, x, y, xi, yi));
        }
    }
    if alignment_drawn(xi, yi, centers.len() as int) && in_alignment_square(centers, xi, yi, x, y) {
        assert(in_alignment_before(centers, x, y, xi, yi + 1));
    }
    if in_alignment_before(centers, x, y, xi, yi) {
        let (a, b) = choose|a: int, b: int|
            0 <= a < centers.len() && 0 <= b < centers.len() && (a < xi || (a == xi && b < yi))
                && alignment_drawn(a, b, centers.len() as int) && #[trigger] in_alignment_square(
                centers,
                a,
                b,
                x,
                y,
            );
        assert(in_alignment_before(centers, x, y, xi, yi + 1));
    }
}

proof fn lemma_alignment_next_row(centers: Seq<u32>, x: int, y: int, xi: int)
    ensures
        in_alignment_before(centers, x, y, xi, centers.len() as int) == in_alignment_before(
            centers,
            x,
            y,
            xi + 1,
            0,
        ),
{
    if in_alignment_before(centers, x, y, xi, centers.len() as int) {
        let (a, b) = choose|a: int, b: int|
            0 <= a < centers.len() && 0 <= b < centers.len() && (a < xi || (a == xi && b
                < centers.len())) && alignment_drawn(a, b, centers.len() as int)
                && #[trigger] in_alignment_square(centers, a, b, x, y);
        assert(in_alignment_before(centers, x, y, xi + 1, 0));
    }
    if in_alignment_before(centers, x, y, xi + 1, 0) {
        let (a, b) = choose|a: int, b: int|
            0 <= a < centers.len() && 0 <= b < centers.len() && (a < xi + 1 || (a == xi + 1 && b < 0))
                && alignment_drawn(a, b, centers.len() as int) && #[trigger] in_alignment_square(
                centers,
                a,
                b,
                x,
                y,
            );
        assert(in_alignment_before(centers, x, y, xi, centers.len() as int));
    }
}

/// The finder patterns with their separators and format areas.
pub open spec fn finder_cell(d: int, x: int, y: int) -> bool {
    ||| in_rect(x, y, 0, 0, 9, 9)
    ||| in_rect(x, y, d - 8, 0, 8, 9)
    ||| in_rect(x, y, 0, d - 8, 9, 8)
}

/// The abstract content of a version.
pub struct VersionView {
    pub number: u32,
    pub alignment_pattern_centers: Seq<u32>,
    pub ec_blocks: Seq<(u32, Seq<(u32, u32)>)>,
    pub total_codewords: nat,
}

/// The QR code version with the given number, as the standard defines it;
/// its total codewords are those of any of its levels (here M).
pub open spec fn spec_version(version: u32) -> VersionView {
    VersionView {
        number: version,
        alignment_pattern_centers: spec_alignment_centers(version),
        ec_blocks: spec_ec_table(version),
        total_codewords: level_codewords(spec_ec_table(version)[1]),
    }
}

pub(crate) fn ec_blocks_one(ec: u32, count: u32, data: u32) -> (res: ECBlocks)
    ensures
        res@ == (ec, seq![(count, data)]),
{
    let res = ECBlocks::new(ec, vec![Ecb::new(count, data)]);
    assert(res@.1 =~= seq![(count, data)]);
    res
}

pub(crate) fn ec_blocks_two(ec: u32, count1: u32, data1: u32, count2: u32, data2: u32) -> (res: ECBlocks)
    ensures
        res@ == (ec, seq![(count1, data1), (count2, data2)]),
{
    let res = ECBlocks::new(ec, vec![Ecb::new(count1, data1), Ecb::new(count2, data2)]);
    assert(res@.1 =~= seq![(count1, data1), (count2, data2)]);
    res
}

pub(crate) fn four_levels(l: ECBlocks, m: ECBlocks, q: ECBlocks, h: ECBlocks) -> (res: Vec<ECBlocks>)
    ensures
        res@.map_values(|b: ECBlocks| b@) == seq![l@, m@, q@, h@],
{
    let ghost views = seq![l@, m@, q@, h@];
    let res = vec![l, m, q, h];
    assert(res@.map_values(|b: ECBlocks| b@) =~= views);
    res
}

pub(crate) fn alignment_centers_for(version: u32) -> (res: Vec<u32>)
    requires
        1 <= version <= 40,
    ensures
        res@ == spec_alignment_centers(version),
{
    let res = match version {
        1 => Vec::new(),
        2 => vec![6u32, 18u32],
        3 => vec![6u32, 22u32],
        4 => vec![6u32, 26u32],
        5 => vec![6u32, 30u32],
        6 => vec![6u32, 34u32],
        7 => vec![6u32, 22u32, 38u32],
        8 => vec![6u32, 24u32, 42u32],
        9 => vec![6u32, 26u32, 46u32],
        10 => vec![6u32, 28u32, 50u32],
        11 => vec![6u32, 30u32, 54u32],
        12 => vec![6u32, 32u32, 58u32],
        13 => vec![6u32, 34u32, 62u32],
        14 => vec![6u32, 26u32, 46u32, 66u32],
        15 => vec![6u32, 26u32, 48u32, 70u32],
        16 => vec![6u32, 26u32, 50u32, 74u32],
        17 => vec![6u32, 30u32, 54u32, 78u32],
        18 => vec![6u32, 30u32, 56u32, 82u32],
        19 => vec![6u32, 30u32, 58u32, 86u32],
        20 => vec![6u32, 34u32, 62u32, 90u32],
        21 => vec![6u32, 28u32, 50u32, 72u32, 94u32],
        22 => vec![6u32, 26u32, 50u32, 74u32, 98u32],
        23 => vec![6u32, 30u32, 54u32, 78u32, 102u32],
        24 => vec![6u32, 28u32, 54u32, 80u32, 106u32],
        25 => vec![6u32, 32u32, 58u32, 84u32, 110u32],
        26 => vec![6u32, 30u32, 58u32, 86u32, 114u32],
        27 => vec![6u32, 34u32, 62u32, 90u32, 118u32],
        28 => vec![6u32, 26u32, 50u32, 74u32, 98u32, 122u32],
        29 => vec![6u32, 30u32, 54u32, 78u32, 102u32, 126u32],
        30 => vec![6u32, 26u32, 52u32, 78u32, 104u32, 130u32],
        31 => vec![6u32, 30u32, 56u32, 82u32, 108u32, 134u32],
        32 => vec![6u32, 34u32, 60u32, 86u32, 112u32, 138u32],
        33 => vec![6u32, 30u32, 58u32, 86u32, 114u32, 142u32],
        34 => vec![6u32, 34u32, 62u32, 90u32, 118u32, 146u32],
        35 => vec![6u32, 30u32, 54u32, 78u32, 102u32, 126u32, 150u32],
        36 => vec![6u32, 24u32, 50u32, 76u32, 102u32, 128u32, 154u32],
        37 => vec![6u32, 28u32, 54u32, 80u32, 106u32, 132u32, 158u32],
        38 => vec![6u32, 32u32, 58u32, 84u32, 110u32, 136u32, 162u32],
        39 => vec![6u32, 26u32, 54u32, 82u32, 110u32, 138u32, 166u32],
        40 => vec![6u32, 30u32, 58u32, 86u32, 114u32, 142u32, 170u32],
        _ => Vec::new(),
    };
    assert(res@ =~= spec_alignment_centers(version));
    res
}

pub(crate) fn ec_table_for(version: u32) -> (res: Vec<ECBlocks>)
    requires
        1 <= version <= 40,
    ensures
        res@.map_values(|b: ECBlocks| b@) == spec_ec_table(version),
{
    match version {
        1 => four_levels(
            ec_blocks_one(7, 1, 19),
            ec_blocks_one(10, 1, 16),
            ec_blocks_one(13, 1, 13),
            ec_blocks_one(17, 1, 9),
        ),
        2 => four_levels(
            ec_blocks_one(10, 1, 34),
            ec_blocks_one(16, 1, 28),
            ec_blocks_one(22, 1, 22),
            ec_blocks_one(28, 1, 16),
        ),
        3 => four_levels(
            ec_blocks_one(15, 1, 55),
            ec_blocks_one(26, 1, 44),
            ec_blocks_one(18, 2, 17),
            ec_blocks_one(22, 2, 13),
        ),
        4 => four_levels(
            ec_blocks_one(20, 1, 80),
            ec_blocks_one(18, 2, 32),
            ec_blocks_one(26, 2, 24),
            ec_blocks_one(16, 4, 9),
        ),
        5 => four_levels(
            ec_blocks_one(26, 1, 108),
            ec_blocks_one(24, 2, 43),
            ec_blocks_two(18, 2, 15, 2, 16),
            ec_blocks_two(22, 2, 11, 2, 12),
        ),
        6 => four_levels(
            ec_blocks_one(18, 2, 68),
            ec_blocks_one(16, 4, 27),
            ec_blocks_one(24, 4, 19),
            ec_blocks_one(28, 4, 15),
        ),
        7 => four_levels(
            ec_blocks_one(20, 2, 78),
            ec_blocks_one(18, 4, 31),
            ec_blocks_two(18, 2, 14, 4, 15),
            ec_blocks_two(26, 4, 13, 1, 14),
        ),
        8 => four_levels(
            ec_blocks_one(24, 2, 97),
            ec_blocks_two(22, 2, 38, 2, 39),
            ec_blocks_two(22, 4, 18, 2, 19),
            ec_blocks_two(26, 4, 14, 2, 15),
        ),
        9 => four_levels(
            ec_blocks_one(30, 2, 116),
            ec_blocks_two(22, 3, 36, 2, 37),
            ec_blocks_two(20, 4, 16, 4, 17),
            ec_blocks_two(24, 4, 12, 4, 13),
        ),
        10 => four_levels(
            ec_blocks_two(18, 2, 68, 2, 69),
            ec_blocks_two(26, 4, 43, 1, 44),
            ec_blocks_two(24, 6, 19, 2, 20),
            ec_blocks_two(28, 6, 15, 2, 16),
        ),
        11 => four_levels(
            ec_blocks_one(20, 4, 81),
            ec_blocks_two(30, 1, 50, 4, 51),
            ec_blocks_two(28, 4, 22, 4, 23),
            ec_blocks_two(24, 3, 12, 8, 13),
        ),
        12 => four_levels(
            ec_blocks_two(24, 2, 92, 2, 93),
            ec_blocks_two(22, 6, 36, 2, 37),
            ec_blocks_two(26, 4, 20, 6, 21),
            ec_blocks_two(28, 7, 14, 4, 15),
        ),
        13 => four_levels(
            ec_blocks_one(26, 4, 107),
            ec_blocks_two(22, 8, 37, 1, 38),
            ec_blocks_two(24, 8, 20, 4, 21),
            ec_blocks_two(22, 12, 11, 4, 12),
        ),
        14 => four_levels(
            ec_blocks_two(30, 3, 115, 1, 116),
            ec_blocks_two(24, 4, 40, 5, 41),
            ec_blocks_two(20, 11, 16, 5, 17),
            ec_blocks_two(24, 11, 12, 5, 13),
        ),
        15 => four_levels(
            ec_blocks_two(22, 5, 87, 1, 88),
            ec_blocks_two(24, 5, 41, 5, 42),
            ec_blocks_two(30, 5, 24, 7, 25),
            ec_blocks_two(24, 11, 12, 7, 13),
        ),
        16 => four_levels(
            ec_blocks_two(24, 5, 98, 1, 99),
            ec_blocks_two(28, 7, 45, 3, 46),
            ec_blocks_two(24, 15, 19, 2, 20),
            ec_blocks_two(30, 3, 15, 13, 16),
        ),
        17 => four_levels(
            ec_blocks_two(28, 1, 107, 5, 108),
            ec_blocks_two(28, 10, 46, 1, 47),
            ec_blocks_two(28, 1, 22, 15, 23),
            ec_blocks_two(28, 2, 14, 17, 15),
        ),
        18 => four_levels(
            ec_blocks_two(30, 5, 120, 1, 121),
            ec_blocks_two(26, 9, 43, 4, 44),
            ec_blocks_two(28, 17, 22, 1, 23),
            ec_blocks_two(28, 2, 14, 19, 15),
        ),
        19 => four_levels(
            ec_blocks_two(28, 3, 113, 4, 114),
            ec_blocks_two(26, 3, 44, 11, 45),
            ec_blocks_two(26, 17, 21, 4, 22),
            ec_blocks_two(26, 9, 13, 16, 14),
        ),
        20 => four_levels(
            ec_blocks_two(28, 3, 107, 5, 108),
            ec_blocks_two(26, 3, 41, 13, 42),
            ec_blocks_two(30, 15, 24, 5, 25),
            ec_blocks_two(28, 15, 15, 10, 16),
        ),
        21 => four_levels(
            ec_blocks_two(28, 4, 116, 4, 117),
            ec_blocks_one(26, 17, 42),
            ec_blocks_two(28, 17, 22, 6, 23),
            ec_blocks_two(30, 19, 16, 6, 17),
        ),
        22 => four_levels(
            ec_blocks_two(28, 2, 111, 7, 112),
            ec_blocks_one(28, 17, 46),
            ec_blocks_two(30, 7, 24, 16, 25),
            ec_blocks_one(24, 34, 13),
        ),
        23 => four_levels(
            ec_blocks_two(30, 4, 121, 5, 122),
            ec_blocks_two(28, 4, 47, 14, 48),
            ec_blocks_two(30, 11, 24, 14, 25),
            ec_blocks_two(30, 16, 15, 14, 16),
        ),
        24 => four_levels(
            ec_blocks_two(30, 6, 117, 4, 118),
            ec_blocks_two(28, 6, 45, 14, 46),
            ec_blocks_two(30, 11, 24, 16, 25),
            ec_blocks_two(30, 30, 16, 2, 17),
        ),
        25 => four_levels(
            ec_blocks_two(26, 8, 106, 4, 107),
            ec_blocks_two(28, 8, 47, 13, 48),
            ec_blocks_two(30, 7, 24, 22, 25),
            ec_blocks_two(30, 22, 15, 13, 16),
        ),
        26 => four_levels(
            ec_blocks_two(28, 10, 114, 2, 115),
            ec_blocks_two(28, 19, 46, 4, 47),
            ec_blocks_two(28, 28, 22, 6, 23),
            ec_blocks_two(30, 33, 16, 4, 17),
        ),
        27 => four_levels(
            ec_blocks_two(30, 8, 122, 4, 123),
            ec_blocks_two(28, 22, 45, 3, 46),
            ec_blocks_two(30, 8, 23, 26, 24),
            ec_blocks_two(30, 12, 15, 28, 16),
        ),
        28 => four_levels(
            ec_blocks_two(30, 3, 117, 10, 118),
            ec_blocks_two(28, 3, 45, 23, 46),
            ec_blocks_two(30, 4, 24, 31, 25),
            ec_blocks_two(30, 11, 15, 31, 16),
        ),
        29 => four_levels(
            ec_blocks_two(30, 7, 116, 7, 117),
            ec_blocks_two(28, 21, 45, 7, 46),
            ec_blocks_two(30, 1, 23, 37, 24),
            ec_blocks_two(30, 19, 15, 26, 16),
        ),
        30 => four_levels(
            ec_blocks_two(30, 5, 115, 10, 116),
            ec_blocks_two(28, 19, 47, 10, 48),
            ec_blocks_two(30, 15, 24, 25, 25),
            ec_blocks_two(30, 23, 15, 25, 16),
        ),
        31 => four_levels(
            ec_blocks_two(30, 13, 115, 3, 116),
            ec_blocks_two(28, 2, 46, 29, 47),
            ec_blocks_two(30, 42, 24, 1, 25),
            ec_blocks_two(30, 23, 15, 28, 16),
        ),
        32 => four_levels(
            ec_blocks_one(30, 17, 115),
            ec_blocks_two(28, 10, 46, 23, 47),
            ec_blocks_two(30, 10, 24, 35, 25),
            ec_blocks_two(30, 19, 15, 35, 16),
        ),
        33 => four_levels(
            ec_blocks_two(30, 17, 115, 1, 116),
            ec_blocks_two(28, 14, 46, 21, 47),
            ec_blocks_two(30, 29, 24, 19, 25),
            ec_blocks_two(30, 11, 15, 46, 16),
        ),
        34 => four_levels(
            ec_blocks_two(30, 13, 115, 6, 116),
            ec_blocks_two(28, 14, 46, 23, 47),
            ec_blocks_two(30, 44, 24, 7, 25),
            ec_blocks_two(30, 59, 16, 1, 17),
        ),
        35 => four_levels(
            ec_blocks_two(30, 12, 121, 7, 122),
            ec_blocks_two(28, 12, 47, 26, 48),
            ec_blocks_two(30, 39, 24, 14, 25),
            ec_blocks_two(30, 22, 15, 41, 16),
        ),
        36 => four_levels(
            ec_blocks_two(30, 6, 121, 14, 122),
            ec_blocks_two(28, 6, 47, 34, 48),
            ec_blocks_two(30, 46, 24, 10, 25),
            ec_blocks_two(30, 2, 15, 64, 16),
        ),
        37 => four_levels(
            ec_blocks_two(30, 17, 122, 4, 123),
            ec_blocks_two(28, 29, 46, 14, 47),
            ec_blocks_two(30, 49, 24, 10, 25),
            ec_blocks_two(30, 24, 15, 46, 16),
        ),
        38 => four_levels(
            ec_blocks_two(30, 4, 122, 18, 123),
            ec_blocks_two(28, 13, 46, 32, 47),
            ec_blocks_two(30, 48, 24, 14, 25),
            ec_blocks_two(30, 42, 15, 32, 16),
        ),
        39 => four_levels(
            ec_blocks_two(30, 20, 117, 4, 118),
            ec_blocks_two(28, 40, 47, 7, 48),
            ec_blocks_two(30, 43, 24, 22, 25),
            ec_blocks_two(30, 10, 15, 67, 16),
        ),
        40 => four_levels(
            ec_blocks_two(30, 19, 118, 6, 119),
            ec_blocks_two(28, 18, 47, 31, 48),
            ec_blocks_two(30, 34, 24, 34, 25),
            ec_blocks_two(30, 20, 15, 61, 16),
        ),
        _ => Vec::new(),
    }
}

/// A QR code version (ISO 18004:2006 Annex D): its number, the centres of
/// its alignment patterns and its error-correction blocks per level.
#[derive(Debug)]
pub struct Version {
    version_number: u32,
    alignment_pattern_centers: Vec<u32>,
    ec_blocks: Vec<ECBlocks>,
    total_codewords: u32,
}

impl View for Version {
    type V = VersionView;

    closed spec fn view(&self) -> VersionView {
        VersionView {
            number: self.version_number,
            alignment_pattern_centers: self.alignment_pattern_centers@,
            ec_blocks: self.ec_blocks@.map_values(|b: ECBlocks| b@),
            total_codewords: self.total_codewords as nat,
        }
    }
}

pub(crate) proof fn lemma_level_codewords_small(level: (u32, Seq<(u32, u32)>))
    requires
        level.1.len() <= 2,
        level.0 <= 100,
        forall|i: int| 0 <= i < level.1.len() ==> #[trigger] level.1[i].0 <= 100 && level.1[i].1
            <= 200,
    ensures
        level_codewords(level) <= 60000,
{
    reveal_with_fuel(level_codewords, 3);
    if level.1.len() >= 1 {
        let a = level.1[0];
        assert(a.0 * (a.1 + level.0) <= 100 * 300) by (nonlinear_arith)
            requires
                a.0 <= 100,
                a.1 + level.0 <= 300,
        ;
        assert(level.1.take(1).drop_last() =~= level.1.take(0));
    }
    if level.1.len() == 2 {
 let b = level.1[1];
        assert(level.1[1].0 <= 100 && level.1[1].1 <= 200);
        assert(b.0 * (b.1 + level.0) <= 100 * 300) by (nonlinear_arith)
            requires
                b.0 <= 100,
                b.1 + level.0 <= 300,
        ;
        assert(level.1.drop_last() =~= seq![level.1[0]]);
    } else if level.1.len() == 1 {
        assert(level.1.drop_last() =~= Seq::<(u32, u32)>::empty());
    }
}

impl Version {
    #[verifier::type_invariant]
    spec fn inv(&self) -> bool {
        &&& 1 <= self.version_number <= 40
        &&& self@ == spec_version(self.version_number)
    }

    /// Version number, 1 to 40.
    pub fn number(&self) -> (res: u32)
        ensures
            res == self@.number,
            1 <= res <= 40,
            self@ == spec_version(res),
    {
        proof {
            use_type_invariant(self);
        }
        self.version_number
    }

    /// Centres of the alignment patterns, along either axis.
    pub fn alignment_pattern_centers(&self) -> (res: &[u32])
        ensures
            res@ == self@.alignment_pattern_centers,
    {
        self.alignment_pattern_centers.as_slice()
    }

    /// Codewords in a symbol of this version.
    pub fn total_codewords(&self) -> (res: u32)
        ensures
            res == self@.total_codewords,
    {
        self.total_codewords
    }

    /// Side of a symbol of this version, in modules.
    pub fn dimension(&self) -> (res: u32)
        ensures
            res == spec_dimension(self@.number),
    {
        proof {
            use_type_invariant(self);
        }
        17 + 4 * self.version_number
    }

    /// The error-correction blocks of `ec_level`; a level without blocks
    /// (`Invalid`) is an invalid argument.
    pub fn ec_blocks_for_level(&self, ec_level: ErrorCorrectionLevel) -> (res: Result<&ECBlocks, Error>)
        ensures
            ec_level != ErrorCorrectionLevel::Invalid ==> (res matches Ok(b) && b@
                == self@.ec_blocks[spec_ordinal(ec_level) as int]),
            ec_level == ErrorCorrectionLevel::Invalid ==> res == Err::<&ECBlocks, Error>(
                Error::InvalidArgument,
            ),
    {
        proof {
            use_type_invariant(self);
            lemma_ec_table_len(self.version_number);
            assert(self.ec_blocks@.map_values(|b: ECBlocks| b@).len() == self.ec_blocks@.len());
        }
        let index = ec_level.ordinal() as usize;
        if index >= self.ec_blocks.len() {
            return Err(Error::InvalidArgument);
        }
        Ok(&self.ec_blocks[index])
    }

    /// The version with number `version_number`; numbers outside 1 to 40 are
    /// an invalid argument.
    pub fn for_number(version_number: u32) -> (res: Result<Version, Error>)
        ensures
            1 <= version_number <= 40 ==> (res matches Ok(v) && v@ == spec_version(version_number)),
            !(1 <= version_number <= 40) ==> res == Err::<Version, Error>(Error::InvalidArgument),
    {
        if version_number < 1 || version_number > 40 {
            return Err(Error::InvalidArgument);
        }
        let centers = alignment_centers_for(version_number);
        let blocks = ec_table_for(version_number);
        let ghost table = spec_ec_table(version_number);
        assert(blocks@.len() == 4 && table.len() == 4) by {
            assert(blocks@.map_values(|b: ECBlocks| b@).len() == blocks@.len());
        }
        let middle: &ECBlocks = &blocks[1];
        assert(middle@ == table[1]);
        proof {
            lemma_level_codewords_small(table[1]);
        }
        let ec_codewords = middle.ec_codewords_per_block();
        let groups = middle.blocks();
        let ghost level = table[1];
        let mut total: u32 = 0;
        let mut i: usize = 0;
        while i < groups.len()
            invariant
                i <= groups@.len(),
                level == (ec_codewords, groups@.map_values(|b: Ecb| b@)),
                level_codewords(level) <= 60000,
                level.0 <= 100,
                forall|j: int| 0 <= j < level.1.len() ==> #[trigger] level.1[j].0 <= 100 && level.1[j].1
                    <= 200,
                total == level_codewords((level.0, level.1.take(i as int))),
            decreases groups@.len() - i,
        {
            proof {
                assert(level.1.take(i as int + 1).drop_last() =~= level.1.take(i as int));
                lemma_level_codewords_prefix(level, i as int + 1);
                assert(level.1[i as int] == groups@[i as int]@);
            }
            let group = &groups[i];
            let count = group.count();
            let data = group.data_codewords();
            proof {
                assert(count * (data + ec_codewords) <= 60000);
            }
            total = total + count * (data + ec_codewords);
            i = i + 1;
        }
        proof {
            assert(level.1.take(i as int) =~= level.1);
        }
        Ok(
            Version {
                version_number,
                alignment_pattern_centers: centers,
                ec_blocks: blocks,
                total_codewords: total,
            },
        )
    }

    /// The matrix of this version's function patterns (ISO 18004:2006
    /// Annex E): a cell is set exactly when it belongs to a finder pattern
    /// with its separator and format area, an alignment pattern, a timing
    /// pattern, or (from version 7 on) a version information area.
    pub fn build_function_pattern(&self) -> (res: Result<BitMatrix, Error>)
        ensures
            res matches Ok(m) && m.wf() && m.spec_width() == spec_dimension(self@.number)
                && m.spec_height() == spec_dimension(self@.number) && forall|x: int, y: int|
                #[trigger] m.spec_get(x, y) == (0 <= x < spec_dimension(self@.number) && 0 <= y
                    < spec_dimension(self@.number) && function_pattern_cell(self@.number, x, y)),
    {
        proof {
            use_type_invariant(self);
            lemma_alignment_bounds(self.version_number);
        }
        let n = self.version_number;
        let dimension = self.dimension();
        let ghost d = dimension as int;
        let ghost c = self.alignment_pattern_centers@;
        assert(dimension as int * dimension as int <= 177 * 177) by (nonlinear_arith)
            requires
                dimension <= 177,
        ;
        let mut bit_matrix = BitMatrix::with_single_dimension(dimension)?;
        bit_matrix.set_region(0, 0, 9, 9)?;
        bit_matrix.set_region(dimension - 8, 0, 8, 9)?;
        bit_matrix.set_region(0, dimension - 8, 9, 8)?;
        proof {
            assert forall|x: int, y: int| #[trigger] bit_matrix.spec_get(x, y) == (finder_cell(d, x, y)
                || in_alignment_before(c, x, y, 0, 0)) by {
                if in_alignment_before(c, x, y, 0, 0) {
                    let (a, b) = choose|a: int, b: int|
                        0 <= a < c.len() && 0 <= b < c.len() && (a < 0 || (a == 0 && b < 0))
                            && alignment_drawn(a, b, c.len() as int) && #[trigger] in_alignment_square(
                            c,
                            a,
                            b,
                            x,
                            y,
                        );
                }
            }
        }
        let max = self.alignment_pattern_centers.len();
        let mut xi: usize = 0;
        while xi < max
            invariant
                xi <= max,
                max == c.len(),
                c == self.alignment_pattern_centers@,
                c == spec_alignment_centers(n),
                d == spec_dimension(n),
                d == dimension,
                1 <= n <= 40,
                c.len() <= 7,
                forall|i: int| 0 <= i < c.len() ==> 6 <= #[trigger] c[i] && c[i] + 7 <= d,
                bit_matrix.wf(),
                bit_matrix.spec_width() == dimension,
                bit_matrix.spec_height() == dimension,
                forall|x: int, y: int| #[trigger] bit_matrix.spec_get(x, y) == (finder_cell(d, x, y)
                    || in_alignment_before(c, x, y, xi as int, 0)),
            decreases max - xi,
        {
            let i = self.alignment_pattern_centers[xi] - 2;
            let mut yi: usize = 0;
            while yi < max
                invariant
                    xi < max,
                    yi <= max,
                    max == c.len(),
                    c == self.alignment_pattern_centers@,
                    d == dimension,
                    i == c[xi as int] - 2,
                    forall|k: int| 0 <= k < c.len() ==> 6 <= #[trigger] c[k] && c[k] + 7 <= d,
                    bit_matrix.wf(),
                    bit_matrix.spec_width() == dimension,
                    bit_matrix.spec_height() == dimension,
                    forall|x: int, y: int| #[trigger] bit_matrix.spec_get(x, y) == (finder_cell(d, x, y)
                        || in_alignment_before(c, x, y, xi as int, yi as int)),
                decreases max - yi,
            {
                let ghost before = bit_matrix;
                if (xi != 0 || (yi != 0 && yi != max - 1)) && (xi != max - 1 || yi != 0) {
                    bit_matrix.set_region(self.alignment_pattern_centers[yi] - 2, i, 5, 5)?;
                }
                proof {
                    assert forall|x: int, y: int| #[trigger] bit_matrix.spec_get(x, y) == (finder_cell(
                        d,
                        x,
                        y,
                    ) || in_alignment_before(c, x, y, xi as int, yi as int + 1)) by {
                        lemma_alignment_step(c, x, y, xi as int, yi as int);
                        assert(before.spec_get(x, y) == (finder_cell(d, x, y) || in_alignment_before(
                            c,
                            x,
                            y,
                            xi as int,
                            yi as int,
                        )));
                    }
                }
                yi = yi + 1;
            }
            proof {
                assert forall|x: int, y: int| #[trigger] bit_matrix.spec_get(x, y) == (finder_cell(
                    d,
                    x,
                    y,
                ) || in_alignment_before(c, x, y, xi as int + 1, 0)) by {
                    lemma_alignment_next_row(c, x, y, xi as int);
                }
            }
            xi = xi + 1;
        }
        let ghost after_alignment = bit_matrix;
        bit_matrix.set_region(6, 9, 1, dimension - 17)?;
        bit_matrix.set_region(9, 6, dimension - 17, 1)?;
        let ghost after_timing = bit_matrix;
        if n > 6 {
            bit_matrix.set_region(dimension - 11, 0, 3, 6)?;
            bit_matrix.set_region(0, dimension - 11, 6, 3)?;
        }
        proof {
            assert forall|x: int, y: int| #[trigger] bit_matrix.spec_get(x, y) == (0 <= x < d && 0 <= y
                < d && function_pattern_cell(n, x, y)) by {
                assert(after_alignment.spec_get(x, y) == (finder_cell(d, x, y) || in_alignment_before(
                    c,
                    x,
                    y,
                    c.len() as int,
                    0,
                )));
                if in_alignment_before(c, x, y, c.len() as int, 0) {
                    let (a, b) = choose|a: int, b: int|
                        0 <= a < c.len() && 0 <= b < c.len() && (a < c.len() || (a == c.len() && b
                            < 0)) && alignment_drawn(a, b, c.len() as int)
                            && #[trigger] in_alignment_square(c, a, b, x, y);
                    assert(6 <= c[a] && c[a] + 7 <= d);
                    assert(6 <= c[b] && c[b] + 7 <= d);
                }
            }
        }
        Ok(bit_matrix)
    }

    /// The version that a symbol `dimension` modules wide has. The dimension
    /// must be at least 21 and 1 more than a multiple of 4 (invalid format);
    /// one beyond version 40 is an invalid argument.
    pub fn provisional_for_dimension(dimension: u32) -> (res: Result<Version, Error>)
        ensures
            (dimension % 4 != 1 || dimension < 21) ==> res == Err::<Version, Error>(Error::InvalidFormat),
            (dimension % 4 == 1 && 21 <= dimension <= 177) ==> (res matches Ok(v) && v@
                == spec_version(((dimension - 17) / 4) as u32)),
            (dimension % 4 == 1 && dimension > 177) ==> res == Err::<Version, Error>(Error::InvalidArgument),
    {
        if dimension % 4 != 1 || dimension < 21 {
            return Err(Error::InvalidFormat);
        }
        Self::for_number((dimension - 17) / 4)
    }
}

} // verus!

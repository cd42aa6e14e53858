use vstd::prelude::*;
use crate::ec_level::{ErrorCorrectionLevel, spec_ordinal};
use crate::error::Error;
use crate::version::{Version, Ecb, blocks_count, level_shape, lemma_ec_table_shape, level_codewords, level_codewords_closed, spec_ec_table};

verus! {

/// Index of block `j` before which the blocks carry one data codeword more:
/// the start of the second group, or the number of blocks.
pub open spec fn longer_blocks_start(level: (u32, Seq<(u32, u32)>)) -> int {
    if level.1.len() == 2 {
        level.1[0].0 as int
    } else {
        blocks_count(level.1) as int
    }
}

/// Data codewords of block `j`: `shorter` in the blocks before `longer`,
/// one more from there on.
pub open spec fn block_data(j: int, longer: int, shorter: int) -> int {
    if j < longer {
        shorter
    } else {
        shorter + 1
    }
}

/// Where codeword `k` of block `j` stands in the interleaved codewords of a
/// symbol with `blocks` blocks, the longer ones from `longer` on, `shorter`
/// data codewords in the shorter ones: first data codeword of every block,
/// then the second, and so on; the extra data codewords of the longer
/// blocks; then the error-correction codewords in the same manner.
pub open spec fn interleaved_index(j: int, k: int, blocks: int, longer: int, shorter: int) -> int {
    if k < shorter {
        k * blocks + j
    } else if k == shorter && j >= longer {
        shorter * blocks + (j - longer)
    } else {
        let e = if j < longer {
            k - shorter
        } else {
            k - shorter - 1
        };
        shorter * blocks + (blocks - longer) + e * blocks + j
    }
}

proof fn lemma_interleaved_bounds(j: int, k: int, blocks: int, longer: int, shorter: int, ec: int)
    requires
        0 <= longer <= blocks,
        0 <= j < blocks,
        0 <= shorter,
        0 <= ec,
        0 <= k < block_data(j, longer, shorter) + ec,
    ensures
        0 <= interleaved_index(j, k, blocks, longer, shorter) < blocks * (shorter + ec) + blocks - longer,
{
    if k < shorter {
        assert(k * blocks + j < blocks * (shorter + ec) + blocks - longer) by (nonlinear_arith)
            requires
                0 <= k < shorter,
                0 <= j < blocks,
                0 <= longer <= blocks,
                0 <= ec,
        ;
        assert(0 <= k * blocks) by (nonlinear_arith)
            requires
                0 <= k,
                0 <= blocks,
        ;
    } else if k == shorter && j >= longer {
        assert(blocks * (shorter + ec) == shorter * blocks + blocks * ec) by (nonlinear_arith);
        assert(0 <= blocks * ec) by (nonlinear_arith)
            requires
                0 <= blocks,
                0 <= ec,
        ;
        assert(0 <= shorter * blocks) by (nonlinear_arith)
            requires
                0 <= shorter,
                0 <= blocks,
        ;
    } else {
        let e = if j < longer {
            k - shorter
        } else {
            k - shorter - 1
        };
        assert(0 <= e < ec);
        assert(shorter * blocks + (blocks - longer) + e * blocks + j < blocks * (shorter + ec) + blocks
            - longer) by (nonlinear_arith)
            requires
                0 <= e < ec,
                0 <= j < blocks,
                0 <= longer <= blocks,
        ;
        assert(0 <= shorter * blocks + e * blocks) by (nonlinear_arith)
            requires
                0 <= shorter,
                0 <= e,
                0 <= blocks,
        ;
    }
}

/// Whether `block` is block `j` of the interleaved `raw` codewords: its data
/// count, its length, and each codeword taken from its place in `raw`.
pub open spec fn block_matches(block: (u32, Seq<u8>), j: int, raw: Seq<u8>, count: int, longer: int, shorter: int, ec: int) -> bool {
    &&& block.0 == block_data(j, longer, shorter)
    &&& block.1.len() == block_data(j, longer, shorter) + ec
    &&& forall|k: int|
        0 <= k < block.1.len() ==> #[trigger] block.1[k] == raw[interleaved_index(j, k, count, longer, shorter)]
}

/// Block `j` of the interleaved `raw` codewords: its data count and its
/// codewords, each taken from its place in `raw`.
pub open spec fn spec_data_block(raw: Seq<u8>, j: int, count: int, longer: int, shorter: int, ec: int) -> (u32, Seq<u8>) {
    let nd = block_data(j, longer, shorter);
    (nd as u32, Seq::new((nd + ec) as nat, |k: int| raw[interleaved_index(j, k, count, longer, shorter)]))
}

/// A block that matches block `j` of `raw` is that block.
pub proof fn lemma_block_matches_unique(block: (u32, Seq<u8>), j: int, raw: Seq<u8>, count: int, longer: int, shorter: int, ec: int)
    requires
        block_matches(block, j, raw, count, longer, shorter, ec),
    ensures
        block == spec_data_block(raw, j, count, longer, shorter, ec),
{
    let s = spec_data_block(raw, j, count, longer, shorter, ec);
    assert(block.1 =~= s.1);
}

/// A block of data and error-correction codewords of a QR code.
pub struct DataBlock {
    num_data_codewords: u32,
    codewords: Vec<u8>,
}

impl View for DataBlock {
    type V = (u32, Seq<u8>);

    closed spec fn view(&self) -> (u32, Seq<u8>) {
        (self.num_data_codewords, self.codewords@)
    }
}

impl DataBlock {
    fn new(num_data_codewords: u32, codewords: Vec<u8>) -> (res: Self)
        ensures
            res@ == (num_data_codewords, codewords@),
    {
        DataBlock { num_data_codewords, codewords }
    }

    /// Number of data codewords at the front of the block.
    pub fn get_num_data_codewords(&self) -> (res: u32)
        ensures
            res == self@.0,
    {
        self.num_data_codewords
    }

    /// The block's codewords: data first, then error correction.
    pub fn get_codewords(&self) -> (res: &[u8])
        ensures
            res@ == self@.1,
    {
        self.codewords.as_slice()
    }

    /// Separates the interleaved codewords read from a symbol into its
    /// blocks (ISO 18004:2006 6.6). The codewords must number as many as the
    /// version has (else an invalid argument), and the level must be a real
    /// one (else an invalid argument).
    pub fn get_data_blocks(raw_codewords: &[u8], version: &Version, ec_level: ErrorCorrectionLevel) -> (res: Result<Vec<DataBlock>, Error>)
        ensures
            raw_codewords@.len() != version@.total_codewords ==> res == Err::<Vec<DataBlock>, Error>(
                Error::InvalidArgument,
            ),
            raw_codewords@.len() == version@.total_codewords && ec_level == ErrorCorrectionLevel::Invalid
                ==> res == Err::<Vec<DataBlock>, Error>(Error::InvalidArgument),
            raw_codewords@.len() == version@.total_codewords && ec_level != ErrorCorrectionLevel::Invalid
                ==> (res matches Ok(blocks) && {
                let level = version@.ec_blocks[spec_ordinal(ec_level) as int];
                let count = blocks_count(level.1) as int;
                let longer = longer_blocks_start(level);
                let shorter = level.1[0].1 as int;
                &&& blocks@.len() == count
                &&& count <= 200
                &&& forall|j: int| 0 <= j < count ==> #[trigger] blocks@[j]@.0 <= 201 && blocks@[j]@.0 <= blocks@[j]@.1.len()
                &&& forall|j: int|
                    0 <= j < count ==> block_matches(
                        #[trigger] blocks@[j]@,
                        j,
                        raw_codewords@,
                        count,
                        longer,
                        shorter,
                        level.0 as int,
                    )
            }),
    {
        let n = version.number();
        if raw_codewords.len() as u64 != version.total_codewords() as u64 {
            return Err(Error::InvalidArgument);
        }
        let ec_blocks = version.ec_blocks_for_level(ec_level)?;
        let ghost level = version@.ec_blocks[spec_ordinal(ec_level) as int];
        proof {
            lemma_ec_table_shape(n, spec_ordinal(ec_level) as int);
            crate::version::lemma_level_codewords_closed(level);
        }
        let groups: &[Ecb] = ec_blocks.blocks();
        let ec: u32 = ec_blocks.ec_codewords_per_block();
        assert(level_shape(level));
        assert(groups@.len() == level.1.len()) by {
            assert(groups@.map_values(|b: Ecb| b@).len() == groups@.len());
        }
        assert(groups@[0]@ == level.1[0]);
        let ghost count = blocks_count(level.1) as int;
        let ghost longer = longer_blocks_start(level);
        let ghost shorter = level.1[0].1 as int;
        proof {
            reveal_with_fuel(blocks_count, 3);
            if level.1.len() == 2 {
                assert(groups@[1]@ == level.1[1]);
                assert(level.1.drop_last() =~= seq![level.1[0]]);
                assert(level.1.drop_last().drop_last() =~= Seq::<(u32, u32)>::empty());
            } else {
                assert(level.1.drop_last() =~= Seq::<(u32, u32)>::empty());
            }
            assert(raw_codewords@.len() == count * (shorter + ec) + count - longer) by (nonlinear_arith)
                requires
                    raw_codewords@.len() == level_codewords_closed(level),
                    level_shape(level),
                    level.0 == ec,
                    count == (if level.1.len() == 2 { level.1[0].0 + level.1[1].0 } else { level.1[0].0 as int }),
                    longer == (if level.1.len() == 2 { level.1[0].0 as int } else { count }),
                    shorter == level.1[0].1,
                    level_codewords_closed(level) == (if level.1.len() == 1 {
                        level.1[0].0 * (level.1[0].1 + level.0)
                    } else {
                        level.1[0].0 * (level.1[0].1 + level.0) + level.1[1].0 * (level.1[1].1 + level.0)
                    }),
            ;
        }
        // The data codewords of every block, group after group.
        let mut sizes: Vec<u32> = Vec::new();
        let mut g: usize = 0;
        while g < groups.len()
            invariant
                g <= groups@.len(),
                groups@.len() == level.1.len(),
                1 <= level.1.len() <= 2,
                forall|q: int| 0 <= q < groups@.len() ==> #[trigger] groups@[q]@ == level.1[q],
                level_shape(level),
                count == blocks_count(level.1),
                level.1.len() == 2 ==> count == level.1[0].0 + level.1[1].0,
                level.1.len() == 1 ==> count == level.1[0].0,
                longer == longer_blocks_start(level),
                longer == (if level.1.len() == 2 { level.1[0].0 as int } else { count }),
                shorter == level.1[0].1,
                g == 0 ==> sizes@.len() == 0,
                g == 1 ==> sizes@.len() == level.1[0].0,
                g == 2 ==> sizes@.len() == count,
                forall|j: int| 0 <= j < sizes@.len() ==> #[trigger] sizes@[j] == block_data(j, longer, shorter),
            decreases groups@.len() - g,
        {
            let group = &groups[g];
            assert(group@ == level.1[g as int]);
            let group_count = group.count();
            let data = group.data_codewords();
            let mut c: u32 = 0;
            while c < group_count
                invariant
                    c <= group_count,
                    g < groups@.len(),
                    groups@.len() == level.1.len(),
                    group_count == level.1[g as int].0,
                    data == level.1[g as int].1,
                    level_shape(level),
                    1 <= level.1.len() <= 2,
                    count == blocks_count(level.1),
                    level.1.len() == 2 ==> count == level.1[0].0 + level.1[1].0,
                    level.1.len() == 1 ==> count == level.1[0].0,
                    longer == longer_blocks_start(level),
                    longer == (if level.1.len() == 2 { level.1[0].0 as int } else { count }),
                    shorter == level.1[0].1,
                    g == 0 ==> sizes@.len() == c,
                    g == 1 ==> sizes@.len() == level.1[0].0 + c,
                    forall|j: int| 0 <= j < sizes@.len() ==> #[trigger] sizes@[j] == block_data(j, longer, shorter),
                decreases group_count - c,
            {
                let ghost before = sizes@;
                sizes.push(data);
                proof {
                    assert(sizes@[before.len() as int] == block_data(before.len() as int, longer, shorter));
                    assert forall|q: int| 0 <= q < sizes@.len() implies #[trigger] sizes@[q] == block_data(
                        q,
                        longer,
                        shorter,
                    ) by {
                        if q < before.len() {
                            assert(sizes@[q] == before[q]);
                        }
                    }
                }
                c = c + 1;
            }
            g = g + 1;
        }
        assert(sizes@.len() == count);
        if sizes.len() == 0 {
            return Err(Error::InvalidArgument);
        }
        let shorter_blocks_total_codewords: u32 = sizes[0] + ec;
        let mut longer_blocks_start_at: usize = sizes.len() - 1;
        while sizes[longer_blocks_start_at] + ec != shorter_blocks_total_codewords
            invariant
                0 <= longer_blocks_start_at < sizes@.len(),
                sizes@.len() == count,
                longer_blocks_start_at >= longer - 1,
                0 <= longer <= count,
                longer >= 1,
                ec <= 30,
                shorter <= 200,
                shorter_blocks_total_codewords == shorter + ec,
                forall|j: int| 0 <= j < sizes@.len() ==> #[trigger] sizes@[j] == block_data(j, longer, shorter),
            decreases longer_blocks_start_at,
        {
            longer_blocks_start_at = longer_blocks_start_at - 1;
        }
        longer_blocks_start_at = longer_blocks_start_at + 1;
        assert(longer_blocks_start_at == longer);
        let shorter_data: u32 = shorter_blocks_total_codewords - ec;
        let num_blocks: usize = sizes.len();
        let raw_len: usize = raw_codewords.len();
        let mut result: Vec<DataBlock> = Vec::new();
        let mut j: usize = 0;
        while j < num_blocks
            invariant
                j <= num_blocks,
                num_blocks == count,
                sizes@.len() == count,
                longer_blocks_start_at == longer,
                0 <= longer <= count,
                shorter_data == shorter,
                ec == level.0,
                ec <= 30,
                shorter <= 200,
                count <= 200,
                raw_codewords@.len() == count * (shorter + ec) + count - longer,
                raw_len == raw_codewords@.len(),
                forall|q: int| 0 <= q < sizes@.len() ==> #[trigger] sizes@[q] == block_data(q, longer, shorter),
                result@.len() == j,
                forall|q: int|
                    0 <= q < j ==> block_matches(
                        #[trigger] result@[q]@,
                        q,
                        raw_codewords@,
                        count,
                        longer,
                        shorter,
                        level.0 as int,
                    ),
            decreases num_blocks - j,
        {
            let data = sizes[j];
            let total = data + ec;
            let mut codewords: Vec<u8> = Vec::new();
            let mut k: u32 = 0;
            while k < total
                invariant
                    k <= total,
                    j < num_blocks,
                    num_blocks == count,
                    total == block_data(j as int, longer, shorter) + ec,
                    longer_blocks_start_at == longer,
                    0 <= longer <= count,
                    shorter_data == shorter,
                    ec <= 30,
                    shorter <= 200,
                    count <= 200,
                    raw_codewords@.len() == count * (shorter + ec) + count - longer,
                    raw_len == raw_codewords@.len(),
                    codewords@.len() == k,
                    forall|q: int|
                        0 <= q < k ==> #[trigger] codewords@[q] == raw_codewords@[interleaved_index(
                            j as int,
                            q,
                            count,
                            longer,
                            shorter,
                        )],
                decreases total - k,
            {
                proof {
                    lemma_interleaved_bounds(j as int, k as int, count, longer, shorter, ec as int);
                    assert(interleaved_index(j as int, k as int, count, longer, shorter) < raw_codewords@.len());
                    if k < shorter_data {
                        assert((k as int) * (num_blocks as int) + (j as int) < raw_len as int);
                        assert(0 <= (k as int) * (num_blocks as int)) by (nonlinear_arith)
                            requires
                                0 <= k,
                                0 <= num_blocks,
                        ;
                    }
                    assert(0 <= (shorter_data as int) * (num_blocks as int)) by (nonlinear_arith)
                        requires
                            0 <= shorter_data,
                            0 <= num_blocks,
                    ;
                    if !(k < shorter_data) && !(k == shorter_data && j >= longer_blocks_start_at) {
                        let e: int = if j < longer_blocks_start_at {
                            k - shorter_data
                        } else {
                            k - shorter_data - 1
                        };
                        assert(0 <= e * (num_blocks as int)) by (nonlinear_arith)
                            requires
                                0 <= e,
                                0 <= num_blocks,
                        ;
                    }
                }
                let index: usize = if k < shorter_data {
                    (k as usize) * num_blocks + j
                } else if k == shorter_data && j >= longer_blocks_start_at {
                    (shorter_data as usize) * num_blocks + (j - longer_blocks_start_at)
                } else {
                    let e: usize = if j < longer_blocks_start_at {
                        (k - shorter_data) as usize
                    } else {
                        (k - shorter_data - 1) as usize
                    };
                    (shorter_data as usize) * num_blocks + (num_blocks - longer_blocks_start_at) + e
                        * num_blocks + j
                };
                codewords.push(raw_codewords[index]);
                k = k + 1;
            }
            let block = DataBlock::new(data, codewords);
            proof {
                assert(block_matches(block@, j as int, raw_codewords@, count, longer, shorter, level.0 as int));
            }
            let ghost prev = result@;
            result.push(block);
            proof {
                assert forall|q: int| 0 <= q < j + 1 implies block_matches(
                    #[trigger] result@[q]@,
                    q,
                    raw_codewords@,
                    count,
                    longer,
                    shorter,
                    level.0 as int,
                ) by {
                    if q < j {
                        assert(result@[q] == prev[q]);
                    }
                }
            }
            j = j + 1;
        }
        Ok(result)
    }
}

} // verus!

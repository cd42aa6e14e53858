use vstd::prelude::*;
use crate::bit_matrix::BitMatrix;
use crate::error::Error;

verus! {

/// Whether data mask `index` (ISO 18004:2006 6.8.1) flips the module in row
/// `i`, column `j`.
pub open spec fn mask_bit(index: int, i: int, j: int) -> bool {
    if index == 0 {
        (i + j) % 2 == 0
    } else if index == 1 {
        i % 2 == 0
    } else if index == 2 {
        j % 3 == 0
    } else if index == 3 {
        (i + j) % 3 == 0
    } else if index == 4 {
        (i / 2 + j / 3) % 2 == 0
    } else if index == 5 {
        (i * j) % 6 == 0
    } else if index == 6 {
        (i * j) % 6 < 3
    } else {
        (i + j + (i * j) % 3) % 2 == 0
    }
}

/// Number of rows after which data mask `m` repeats.
pub open spec fn mask_tile_rows(m: int) -> int {
    if m == 4 {
        4
    } else {
        6
    }
}

/// The tile that data mask `m` repeats (ISO 18004 Table 10), row after row,
/// 6 entries a row: `true` where the module is flipped.
pub open spec fn mask_tile(m: int) -> Seq<bool> {
    if m < 0 {
        seq![]
    } else if m == 0 {
        seq![true, false, true, false, true, false, false, true, false, true, false, true, true, false, true, false, true, false, false, true, false, true, false, true, true, false, true, false, true, false, false, true, false, true, false, true]
    } else if m == 1 {
        seq![true, true, true, true, true, true, false, false, false, false, false, false, true, true, true, true, true, true, false, false, false, false, false, false, true, true, true, true, true, true, false, false, false, false, false, false]
    } else if m == 2 {
        seq![true, false, false, true, false, false, true, false, false, true, false, false, true, false, false, true, false, false, true, false, false, true, false, false, true, false, false, true, false, false, true, false, false, true, false, false]
    } else if m == 3 {
        seq![true, false, false, true, false, false, false, false, true, false, false, true, false, true, false, false, true, false, true, false, false, true, false, false, false, false, true, false, false, true, false, true, false, false, true, false]
    } else if m == 4 {
        seq![true, true, true, false, false, false, true, true, true, false, false, false, false, false, false, true, true, true, false, false, false, true, true, true]
    } else if m == 5 {
        seq![true, true, true, true, true, true, true, false, false, false, false, false, true, false, false, true, false, false, true, false, true, false, true, false, true, false, false, true, false, false, true, false, false, false, false, false]
    } else if m == 6 {
        seq![true, true, true, true, true, true, true, true, true, false, false, false, true, true, false, true, true, false, true, false, true, false, true, false, true, false, true, true, false, true, true, false, false, false, true, true]
    } else if m == 7 {
        seq![true, false, true, false, true, false, false, false, false, true, true, true, true, false, false, false, true, true, false, true, false, true, false, true, true, true, true, false, false, false, false, true, true, true, false, false]
    } else {
        seq![]
    }
}

proof fn lemma_mask_tile_0(i: int, j: int)
    requires
        0 <= i,
        0 <= j,
    ensures
        mask_bit(0, i, j) == mask_tile(0)[(i % 6) * 6 + j % 6],
{
    let r = i % 6;
    let s = j % 6;
    let q = i / 6;
    let p = j / 6;
    assert(i == 6 * q + r && j == 6 * p + s);
    assert((i + j) % 2 == (r + s) % 2) by (nonlinear_arith)
        requires
            i == 6 * q + r,
            j == 6 * p + s,
            0 <= r < 6,
            0 <= s < 6,
            0 <= q,
            0 <= p,
    ;
    assert(mask_bit(0, i, j) == mask_bit(0, r, s));
    if r == 0 {
            if s == 0 {
            } else if s == 1 {
            } else if s == 2 {
            } else if s == 3 {
            } else if s == 4 {
            } else if s == 5 {
            }
        } else if r == 1 {
            if s == 0 {
            } else if s == 1 {
            } else if s == 2 {
            } else if s == 3 {
            } else if s == 4 {
            } else if s == 5 {
            }
        } else if r == 2 {
            if s == 0 {
            } else if s == 1 {
            } else if s == 2 {
            } else if s == 3 {
            } else if s == 4 {
            } else if s == 5 {
            }
        } else if r == 3 {
            if s == 0 {
            } else if s == 1 {
            } else if s == 2 {
            } else if s == 3 {
            } else if s == 4 {
            } else if s == 5 {
            }
        } else if r == 4 {
            if s == 0 {
            } else if s == 1 {
            } else if s == 2 {
            } else if s == 3 {
            } else if s == 4 {
            } else if s == 5 {
            }
        } else if r == 5 {
            if s == 0 {
            } else if s == 1 {
            } else if s == 2 {
            } else if s == 3 {
            } else if s == 4 {
            } else if s == 5 {
            }
        }
}

proof fn lemma_mask_tile_1(i: int, j: int)
    requires
        0 <= i,
        0 <= j,
    ensures
        mask_bit(1, i, j) == mask_tile(1)[(i % 6) * 6 + j % 6],
{
    let r = i % 6;
    let s = j % 6;
    let q = i / 6;
    let p = j / 6;
    assert(i == 6 * q + r && j == 6 * p + s);
    assert(i % 2 == r % 2) by (nonlinear_arith)
        requires
            i == 6 * q + r,
            j == 6 * p + s,
            0 <= r < 6,
            0 <= s < 6,
            0 <= q,
            0 <= p,
    ;
    assert(mask_bit(1, i, j) == mask_bit(1, r, s));
    if r == 0 {
            if s == 0 {
            } else if s == 1 {
            } else if s == 2 {
            } else if s == 3 {
            } else if s == 4 {
            } else if s == 5 {
            }
        } else if r == 1 {
            if s == 0 {
            } else if s == 1 {
            } else if s == 2 {
            } else if s == 3 {
            } else if s == 4 {
            } else if s == 5 {
            }
        } else if r == 2 {
            if s == 0 {
            } else if s == 1 {
            } else if s == 2 {
            } else if s == 3 {
            } else if s == 4 {
            } else if s == 5 {
            }
        } else if r == 3 {
            if s == 0 {
            } else if s == 1 {
            } else if s == 2 {
            } else if s == 3 {
            } else if s == 4 {
            } else if s == 5 {
            }
        } else if r == 4 {
            if s == 0 {
            } else if s == 1 {
            } else if s == 2 {
            } else if s == 3 {
            } else if s == 4 {
            } else if s == 5 {
            }
        } else if r == 5 {
            if s == 0 {
            } else if s == 1 {
            } else if s == 2 {
            } else if s == 3 {
            } else if s == 4 {
            } else if s == 5 {
            }
        }
}

proof fn lemma_mask_tile_2(i: int, j: int)
    requires
        0 <= i,
        0 <= j,
    ensures
        mask_bit(2, i, j) == mask_tile(2)[(i % 6) * 6 + j % 6],
{
    let r = i % 6;
    let s = j % 6;
    let q = i / 6;
    let p = j / 6;
    assert(i == 6 * q + r && j == 6 * p + s);
    assert(j % 3 == s % 3) by (nonlinear_arith)
        requires
            i == 6 * q + r,
            j == 6 * p + s,
            0 <= r < 6,
            0 <= s < 6,
            0 <= q,
            0 <= p,
    ;
    assert(mask_bit(2, i, j) == mask_bit(2, r, s));
    if r == 0 {
            if s == 0 {
            } else if s == 1 {
            } else if s == 2 {
            } else if s == 3 {
            } else if s == 4 {
            } else if s == 5 {
            }
        } else if r == 1 {
            if s == 0 {
            } else if s == 1 {
            } else if s == 2 {
            } else if s == 3 {
            } else if s == 4 {
            } else if s == 5 {
            }
        } else if r == 2 {
            if s == 0 {
            } else if s == 1 {
            } else if s == 2 {
            } else if s == 3 {
            } else if s == 4 {
            } else if s == 5 {
            }
        } else if r == 3 {
            if s == 0 {
            } else if s == 1 {
            } else if s == 2 {
            } else if s == 3 {
            } else if s == 4 {
            } else if s == 5 {
            }
        } else if r == 4 {
            if s == 0 {
            } else if s == 1 {
            } else if s == 2 {
            } else if s == 3 {
            } else if s == 4 {
            } else if s == 5 {
            }
        } else if r == 5 {
            if s == 0 {
            } else if s == 1 {
            } else if s == 2 {
            } else if s == 3 {
            } else if s == 4 {
            } else if s == 5 {
            }
        }
}

proof fn lemma_mask_tile_3(i: int, j: int)
    requires
        0 <= i,
        0 <= j,
    ensures
        mask_bit(3, i, j) == mask_tile(3)[(i % 6) * 6 + j % 6],
{
    let r = i % 6;
    let s = j % 6;
    let q = i / 6;
    let p = j / 6;
    assert(i == 6 * q + r && j == 6 * p + s);
    assert((i + j) % 3 == (r + s) % 3) by (nonlinear_arith)
        requires
            i == 6 * q + r,
            j == 6 * p + s,
            0 <= r < 6,
            0 <= s < 6,
            0 <= q,
            0 <= p,
    ;
    assert(mask_bit(3, i, j) == mask_bit(3, r, s));
    if r == 0 {
            if s == 0 {
            } else if s == 1 {
            } else if s == 2 {
            } else if s == 3 {
            } else if s == 4 {
            } else if s == 5 {
            }
        } else if r == 1 {
            if s == 0 {
            } else if s == 1 {
            } else if s == 2 {
            } else if s == 3 {
            } else if s == 4 {
            } else if s == 5 {
            }
        } else if r == 2 {
            if s == 0 {
            } else if s == 1 {
            } else if s == 2 {
            } else if s == 3 {
            } else if s == 4 {
            } else if s == 5 {
            }
        } else if r == 3 {
            if s == 0 {
            } else if s == 1 {
            } else if s == 2 {
            } else if s == 3 {
            } else if s == 4 {
            } else if s == 5 {
            }
        } else if r == 4 {
            if s == 0 {
            } else if s == 1 {
            } else if s == 2 {
            } else if s == 3 {
            } else if s == 4 {
            } else if s == 5 {
            }
        } else if r == 5 {
            if s == 0 {
            } else if s == 1 {
            } else if s == 2 {
            } else if s == 3 {
            } else if s == 4 {
            } else if s == 5 {
            }
        }
}

proof fn lemma_mask_tile_4(i: int, j: int)
    requires
        0 <= i,
        0 <= j,
    ensures
        mask_bit(4, i, j) == mask_tile(4)[(i % 4) * 6 + j % 6],
{
    let r = i % 4;
    let s = j % 6;
    let q = i / 4;
    let p = j / 6;
    assert(i == 4 * q + r && j == 6 * p + s);
    assert((i / 2 + j / 3) % 2 == (r / 2 + s / 3) % 2) by (nonlinear_arith)
        requires
            i == 4 * q + r,
            j == 6 * p + s,
            0 <= r < 4,
            0 <= s < 6,
            0 <= q,
            0 <= p,
    ;
    assert(mask_bit(4, i, j) == mask_bit(4, r, s));
    if r == 0 {
            if s == 0 {
            } else if s == 1 {
            } else if s == 2 {
            } else if s == 3 {
            } else if s == 4 {
            } else if s == 5 {
            }
        } else if r == 1 {
            if s == 0 {
            } else if s == 1 {
            } else if s == 2 {
            } else if s == 3 {
            } else if s == 4 {
            } else if s == 5 {
            }
        } else if r == 2 {
            if s == 0 {
            } else if s == 1 {
            } else if s == 2 {
            } else if s == 3 {
            } else if s == 4 {
            } else if s == 5 {
            }
        } else if r == 3 {
            if s == 0 {
            } else if s == 1 {
            } else if s == 2 {
            } else if s == 3 {
            } else if s == 4 {
            } else if s == 5 {
            }
        }
}

proof fn lemma_mask_tile_5(i: int, j: int)
    requires
        0 <= i,
        0 <= j,
    ensures
        mask_bit(5, i, j) == mask_tile(5)[(i % 6) * 6 + j % 6],
{
    let r = i % 6;
    let s = j % 6;
    let q = i / 6;
    let p = j / 6;
    assert(i == 6 * q + r && j == 6 * p + s);
    let k = 6 * q * p + q * s + r * p;
    assert(i * j == 6 * k + r * s) by (nonlinear_arith)
        requires
            i == 6 * q + r,
            j == 6 * p + s,
            k == 6 * q * p + q * s + r * p,
    ;
    vstd::arithmetic::div_mod::lemma_mod_multiples_vanish(k, r * s, 6);
    assert((i * j) % 6 == (r * s) % 6);
    assert(mask_bit(5, i, j) == mask_bit(5, r, s));
    if r == 0 {
            if s == 0 {
            } else if s == 1 {
            } else if s == 2 {
            } else if s == 3 {
            } else if s == 4 {
            } else if s == 5 {
            }
        } else if r == 1 {
            if s == 0 {
            } else if s == 1 {
            } else if s == 2 {
            } else if s == 3 {
            } else if s == 4 {
            } else if s == 5 {
            }
        } else if r == 2 {
            if s == 0 {
            } else if s == 1 {
            } else if s == 2 {
            } else if s == 3 {
            } else if s == 4 {
            } else if s == 5 {
            }
        } else if r == 3 {
            if s == 0 {
            } else if s == 1 {
            } else if s == 2 {
            } else if s == 3 {
            } else if s == 4 {
            } else if s == 5 {
            }
        } else if r == 4 {
            if s == 0 {
            } else if s == 1 {
            } else if s == 2 {
            } else if s == 3 {
            } else if s == 4 {
            } else if s == 5 {
            }
        } else if r == 5 {
            if s == 0 {
            } else if s == 1 {
            } else if s == 2 {
            } else if s == 3 {
            } else if s == 4 {
            } else if s == 5 {
            }
        }
}

proof fn lemma_mask_tile_6(i: int, j: int)
    requires
        0 <= i,
        0 <= j,
    ensures
        mask_bit(6, i, j) == mask_tile(6)[(i % 6) * 6 + j % 6],
{
    let r = i % 6;
    let s = j % 6;
    let q = i / 6;
    let p = j / 6;
    assert(i == 6 * q + r && j == 6 * p + s);
    let k = 6 * q * p + q * s + r * p;
    assert(i * j == 6 * k + r * s) by (nonlinear_arith)
        requires
            i == 6 * q + r,
            j == 6 * p + s,
            k == 6 * q * p + q * s + r * p,
    ;
    vstd::arithmetic::div_mod::lemma_mod_multiples_vanish(k, r * s, 6);
    assert((i * j) % 6 == (r * s) % 6);
    assert(mask_bit(6, i, j) == mask_bit(6, r, s));
    if r == 0 {
            if s == 0 {
            } else if s == 1 {
            } else if s == 2 {
            } else if s == 3 {
            } else if s == 4 {
            } else if s == 5 {
            }
        } else if r == 1 {
            if s == 0 {
            } else if s == 1 {
            } else if s == 2 {
            } else if s == 3 {
            } else if s == 4 {
            } else if s == 5 {
            }
        } else if r == 2 {
            if s == 0 {
            } else if s == 1 {
            } else if s == 2 {
            } else if s == 3 {
            } else if s == 4 {
            } else if s == 5 {
            }
        } else if r == 3 {
            if s == 0 {
            } else if s == 1 {
            } else if s == 2 {
            } else if s == 3 {
            } else if s == 4 {
            } else if s == 5 {
            }
        } else if r == 4 {
            if s == 0 {
            } else if s == 1 {
            } else if s == 2 {
            } else if s == 3 {
            } else if s == 4 {
            } else if s == 5 {
            }
        } else if r == 5 {
            if s == 0 {
            } else if s == 1 {
            } else if s == 2 {
            } else if s == 3 {
            } else if s == 4 {
            } else if s == 5 {
            }
        }
}

proof fn lemma_mask_tile_7(i: int, j: int)
    requires
        0 <= i,
        0 <= j,
    ensures
        mask_bit(7, i, j) == mask_tile(7)[(i % 6) * 6 + j % 6],
{
    let r = i % 6;
    let s = j % 6;
    let q = i / 6;
    let p = j / 6;
    assert(i == 6 * q + r && j == 6 * p + s);
    let k = 6 * q * p + q * s + r * p;
    assert(i * j == 3 * (2 * k) + r * s) by (nonlinear_arith)
        requires
            i == 6 * q + r,
            j == 6 * p + s,
            k == 6 * q * p + q * s + r * p,
    ;
    vstd::arithmetic::div_mod::lemma_mod_multiples_vanish(2 * k, r * s, 3);
    assert((i * j) % 3 == (r * s) % 3);
    assert((i + j) % 2 == (r + s) % 2);
    assert((i + j + (i * j) % 3) % 2 == (r + s + (r * s) % 3) % 2);
    assert(mask_bit(7, i, j) == mask_bit(7, r, s));
    if r == 0 {
            if s == 0 {
            } else if s == 1 {
            } else if s == 2 {
            } else if s == 3 {
            } else if s == 4 {
            } else if s == 5 {
            }
        } else if r == 1 {
            if s == 0 {
            } else if s == 1 {
            } else if s == 2 {
            } else if s == 3 {
            } else if s == 4 {
            } else if s == 5 {
            }
        } else if r == 2 {
            if s == 0 {
            } else if s == 1 {
            } else if s == 2 {
            } else if s == 3 {
            } else if s == 4 {
            } else if s == 5 {
            }
        } else if r == 3 {
            if s == 0 {
            } else if s == 1 {
            } else if s == 2 {
            } else if s == 3 {
            } else if s == 4 {
            } else if s == 5 {
            }
        } else if r == 4 {
            if s == 0 {
            } else if s == 1 {
            } else if s == 2 {
            } else if s == 3 {
            } else if s == 4 {
            } else if s == 5 {
            }
        } else if r == 5 {
            if s == 0 {
            } else if s == 1 {
            } else if s == 2 {
            } else if s == 3 {
            } else if s == 4 {
            } else if s == 5 {
            }
        }
}

/// The data masks of ISO 18004 Table 10 as the tiles they repeat: data mask
/// `m` flips the module in row `i`, column `j` exactly when entry
/// `(i mod rows) * 6 + (j mod 6)` of its tile is set, where a tile has 6
/// columns and 6 rows, but 4 rows for mask 100. Each tile is written out
/// from the mask's condition in the standard; for mask 100 (`((i div 2) +
/// (j div 3)) mod 2 = 0`) row 0, column 2 is flipped and row 2, column 0 is
/// not.
pub proof fn lemma_mask_tiles(m: int, i: int, j: int)
    requires
        0 <= m < 8,
        0 <= i,
        0 <= j,
    ensures
        mask_bit(m, i, j) == mask_tile(m)[(i % mask_tile_rows(m)) * 6 + j % 6],
{
    if m == 0 {
        lemma_mask_tile_0(i, j);
    } else if m == 1 {
        lemma_mask_tile_1(i, j);
    } else if m == 2 {
        lemma_mask_tile_2(i, j);
    } else if m == 3 {
        lemma_mask_tile_3(i, j);
    } else if m == 4 {
        lemma_mask_tile_4(i, j);
    } else if m == 5 {
        lemma_mask_tile_5(i, j);
    } else if m == 6 {
        lemma_mask_tile_6(i, j);
    } else {
        lemma_mask_tile_7(i, j);
    }
}

/// Whether computing mask `index` at row `i`, column `j` stays within
/// 32-bit arithmetic.
pub open spec fn mask_fits(index: int, i: int, j: int) -> bool {
    &&& (index == 0 || index == 3 || index == 7) ==> i + j <= u32::MAX
    &&& (index >= 5) ==> i * j <= u32::MAX
    &&& (index == 7) ==> i + j + 2 <= u32::MAX
}

/// The eight data masks of the QR code standard. Row `i`, column `j`.
#[derive(Debug, Copy, Clone, PartialEq, Eq, Structural)]
pub enum DataMask {
    /// 000: masks modules where (i + j) mod 2 == 0
    DataMask000,
    /// 001: masks modules where i mod 2 == 0
    DataMask001,
    /// 010: masks modules where j mod 3 == 0
    DataMask010,
    /// 011: masks modules where (i + j) mod 3 == 0
    DataMask011,
    /// 100: masks modules where (i/2 + j/3) mod 2 == 0
    DataMask100,
    /// 101: masks modules where ij mod 6 == 0
    DataMask101,
    /// 110: masks modules where ij mod 6 < 3
    DataMask110,
    /// 111: masks modules where (i + j + ij mod 3) mod 2 == 0
    DataMask111,
}

/// The three-bit index of a data mask.
pub open spec fn mask_index(mask: DataMask) -> int {
    match mask {
        DataMask::DataMask000 => 0,
        DataMask::DataMask001 => 1,
        DataMask::DataMask010 => 2,
        DataMask::DataMask011 => 3,
        DataMask::DataMask100 => 4,
        DataMask::DataMask101 => 5,
        DataMask::DataMask110 => 6,
        DataMask::DataMask111 => 7,
    }
}

fn mask_bit_at(index: u32, i: u32, j: u32) -> (res: bool)
    requires
        index < 8,
        mask_fits(index as int, i as int, j as int),
    ensures
        res == mask_bit(index as int, i as int, j as int),
{
    match index {
        0 => (i + j) % 2 == 0,
        1 => i % 2 == 0,
        2 => j % 3 == 0,
        3 => (i + j) % 3 == 0,
        4 => ((i / 2) + (j / 3)) % 2 == 0,
        5 => (i * j) % 6 == 0,
        6 => (i * j) % 6 < 3,
        _ => {
            proof {
                assert((i * j) % 3 <= 2) by (nonlinear_arith)
                    requires
                        i * j <= u32::MAX,
                ;
            }
            (i + j + ((i * j) % 3)) % 2 == 0
        },
    }
}

impl DataMask {
    /// The data mask with the three-bit index `value`; other values are an
    /// invalid argument.
    pub fn try_from_bits(value: u8) -> (res: Result<DataMask, Error>)
        ensures
            value < 8 ==> (res matches Ok(m) && mask_index(m) == value),
            value >= 8 ==> res == Err::<DataMask, Error>(Error::InvalidArgument),
    {
        match value {
            0 => Ok(DataMask::DataMask000),
            1 => Ok(DataMask::DataMask001),
            2 => Ok(DataMask::DataMask010),
            3 => Ok(DataMask::DataMask011),
            4 => Ok(DataMask::DataMask100),
            5 => Ok(DataMask::DataMask101),
            6 => Ok(DataMask::DataMask110),
            7 => Ok(DataMask::DataMask111),
            _ => Err(Error::InvalidArgument),
        }
    }

    fn index(&self) -> (res: u32)
        ensures
            res == mask_index(*self),
    {
        match self {
            DataMask::DataMask000 => 0,
            DataMask::DataMask001 => 1,
            DataMask::DataMask010 => 2,
            DataMask::DataMask011 => 3,
            DataMask::DataMask100 => 4,
            DataMask::DataMask101 => 5,
            DataMask::DataMask110 => 6,
            DataMask::DataMask111 => 7,
        }
    }

    /// Whether this mask flips the module in row `i`, column `j`.
    pub fn is_masked(&self, i: u32, j: u32) -> (res: bool)
        requires
            mask_fits(mask_index(*self), i as int, j as int),
        ensures
            res == mask_bit(mask_index(*self), i as int, j as int),
    {
        mask_bit_at(self.index(), i, j)
    }

    /// Undoes this mask on the top left `dimension` by `dimension` square
    /// of `bits`: every module that the mask covers is flipped, the others
    /// stay.
    pub fn unmask_bit_matrix(&self, bits: &mut BitMatrix, dimension: u32)
        requires
            old(bits).wf(),
            dimension <= old(bits).spec_width(),
            dimension <= old(bits).spec_height(),
            dimension as int * dimension as int <= u32::MAX,
        ensures
            final(bits).wf(),
            final(bits).spec_width() == old(bits).spec_width(),
            final(bits).spec_height() == old(bits).spec_height(),
            forall|x: int, y: int|
                #[trigger] final(bits).spec_get(x, y) == if 0 <= x < dimension && 0 <= y < dimension
                    && mask_bit(mask_index(*self), y, x) {
                    !old(bits).spec_get(x, y)
                } else {
                    old(bits).spec_get(x, y)
                },
    {
        let index = self.index();
        let ghost start = *bits;
        let mut i: u32 = 0;
        while i < dimension
            invariant
                i <= dimension,
                index == mask_index(*self),
                dimension <= start.spec_width(),
                dimension <= start.spec_height(),
                dimension as int * dimension as int <= u32::MAX,
                bits.wf(),
                bits.spec_width() == start.spec_width(),
                bits.spec_height() == start.spec_height(),
                forall|x: int, y: int|
                    #[trigger] bits.spec_get(x, y) == if 0 <= x < dimension && 0 <= y < i && mask_bit(
                        index as int,
                        y,
                        x,
                    ) {
                        !start.spec_get(x, y)
                    } else {
                        start.spec_get(x, y)
                    },
            decreases dimension - i,
        {
            let mut j: u32 = 0;
            while j < dimension
                invariant
                    i < dimension,
                    j <= dimension,
                    index == mask_index(*self),
                    dimension <= start.spec_width(),
                    dimension <= start.spec_height(),
                    dimension as int * dimension as int <= u32::MAX,
                    bits.wf(),
                    bits.spec_width() == start.spec_width(),
                    bits.spec_height() == start.spec_height(),
                    forall|x: int, y: int|
                        #[trigger] bits.spec_get(x, y) == if 0 <= x < dimension && (0 <= y < i || (y
                            == i && x < j)) && mask_bit(index as int, y, x) {
                            !start.spec_get(x, y)
                        } else {
                            start.spec_get(x, y)
                        },
                decreases dimension - j,
            {
                proof {
                    assert(i as int * j as int <= dimension as int * dimension as int) by (nonlinear_arith)
                        requires
                            i < dimension,
                            j < dimension,
                    ;
                    if dimension >= 2 {
                        assert(2 * dimension <= dimension as int * dimension as int) by (nonlinear_arith)
                            requires
                                dimension >= 2,
                        ;
                    }
                    assert(i + j + 2 <= u32::MAX);
                }
                if mask_bit_at(index, i, j) {
                    bits.flip(j, i);
                }
                j = j + 1;
            }
            i = i + 1;
        }
    }
}

/// Whether data mask `mask_index` flips the module in column `x`, row `y`;
/// indices beyond 7 are an invalid argument.
pub fn get_data_mask_bit(mask_index: u32, x: u32, y: u32) -> (res: Result<bool, Error>)
    requires
        mask_fits(mask_index as int, y as int, x as int),
    ensures
        mask_index < 8 ==> res == Ok::<bool, Error>(mask_bit(mask_index as int, y as int, x as int)),
        mask_index >= 8 ==> res == Err::<bool, Error>(Error::InvalidArgument),
{
    if mask_index >= 8 {
        return Err(Error::InvalidArgument);
    }
    Ok(mask_bit_at(mask_index, y, x))
}

} // verus!

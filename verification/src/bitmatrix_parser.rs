use vstd::prelude::*;
use crate::bit_matrix::BitMatrix;
use crate::data_mask::{get_data_mask_bit, mask_bit};
use crate::error::Error;
use crate::format_information::{FormatInformation, spec_decode_qr};
use crate::version::{Version, function_pattern_cell, spec_dimension};

verus! {

/// Value of a sequence of bits read most significant first.
pub open spec fn bits_value(bits: Seq<bool>) -> nat
    decreases bits.len(),
{
    if bits.len() == 0 {
        0
    } else {
        2 * bits_value(bits.drop_last()) + if bits.last() {
            1nat
        } else {
            0nat
        }
    }
}

pub proof fn lemma_bits_value_bound(bits: Seq<bool>)
    ensures
        bits_value(bits) < crate::format_information::pow2_nat(bits.len()),
    decreases bits.len(),
{
    if bits.len() > 0 {
        lemma_bits_value_bound(bits.drop_last());
    }
}

/// The module at `(x, y)`, read with the axes swapped when `mirrored`.
pub open spec fn module_at(m: BitMatrix, x: int, y: int, mirrored: bool) -> bool {
    if mirrored {
        m.spec_get(y, x)
    } else {
        m.spec_get(x, y)
    }
}

/// The modules at `cells`, in order.
pub open spec fn modules_at(m: BitMatrix, cells: Seq<(int, int)>) -> Seq<bool> {
    cells.map_values(|c: (int, int)| m.spec_get(c.0, c.1))
}

/// Cells of the first copy of the format information, in reading order.
pub open spec fn format_cells1() -> Seq<(int, int)> {
    seq![
        (0int, 8int), (1, 8), (2, 8), (3, 8), (4, 8), (5, 8), (7, 8), (8, 8), (8, 7),
        (8, 5), (8, 4), (8, 3), (8, 2), (8, 1), (8, 0),
    ]
}

/// Cells of the second copy of the format information, dark module
/// included, in reading order, for a symbol `d` modules high.
pub open spec fn format_cells2(d: int) -> Seq<(int, int)> {
    Seq::new(8, |k: int| (8int, d - 1 - k)) + Seq::new(8, |k: int| (d - 8 + k, 8int))
}

/// The cells of one pair of columns, right column first in each row, rows
/// bottom to top when reading up.
pub open spec fn pair_cells(x: int, up: bool, d: int) -> Seq<(int, int)> {
    Seq::new(
        (2 * d) as nat,
        |k: int| (x - k % 2, if up { d - 1 - k / 2 } else { k / 2 }),
    )
}

/// The zigzag reading order from column pair `x` leftwards (ISO 18004:2006
/// 6.7.3): pairs of columns from right to left, skipping the vertical
/// timing column, alternately upwards and downwards.
pub open spec fn zigzag_cells(x: int, up: bool, d: int) -> Seq<(int, int)>
    decreases x + 2,
{
    if x <= 0 {
        seq![]
    } else {
        let xc = if x == 6 {
            5
        } else {
            x
        };
        pair_cells(xc, up, d) + zigzag_cells(xc - 2, !up, d)
    }
}

/// Whether `cell` is a function-pattern module of `version`.
pub open spec fn is_function_cell(version: u32, cell: (int, int)) -> bool {
    let dv = spec_dimension(version);
    0 <= cell.0 < dv && 0 <= cell.1 < dv && function_pattern_cell(version, cell.0, cell.1)
}

/// The data bits read at `cells`: function-pattern cells are skipped, the
/// others read with the data mask undone.
pub open spec fn data_bits(m: BitMatrix, version: u32, mask: u8, mirrored: bool, cells: Seq<(int, int)>) -> Seq<bool>
    decreases cells.len(),
{
    if cells.len() == 0 {
        seq![]
    } else {
        let prev = data_bits(m, version, mask, mirrored, cells.drop_last());
        let c = cells.last();
        if is_function_cell(version, c) {
            prev
        } else {
            prev.push(mask_bit(mask as int, c.1, c.0) != module_at(m, c.0, c.1, mirrored))
        }
    }
}

/// Whether some cell of `cells` is read as data.
pub open spec fn has_data_cell(version: u32, cells: Seq<(int, int)>) -> bool {
    exists|k: int| 0 <= k < cells.len() && !is_function_cell(version, #[trigger] cells[k])
}

/// Full bytes of a bit sequence, most significant bit first; a trailing
/// partial byte is dropped.
pub open spec fn bytes_of(bits: Seq<bool>) -> Seq<u8> {
    Seq::new(bits.len() / 8, |i: int| byte_at(bits, i))
}

/// Byte `i` of a bit sequence, most significant bit first.
pub open spec fn byte_at(bits: Seq<bool>, i: int) -> u8 {
    bits_value(bits.subrange(8 * i, 8 * i + 8)) as u8
}

/// The bits after the last full byte.
pub open spec fn partial_byte(bits: Seq<bool>) -> Seq<bool> {
    bits.subrange(8 * (bits.len() / 8) as int, bits.len() as int)
}

pub(crate) proof fn lemma_bytes_push(bits: Seq<bool>, b: bool)
    ensures
        (bits.len() + 1) % 8 != 0 ==> bytes_of(bits.push(b)) == bytes_of(bits) && partial_byte(bits.push(b))
            == partial_byte(bits).push(b),
        (bits.len() + 1) % 8 == 0 ==> bytes_of(bits.push(b)) == bytes_of(bits).push(
            bits_value(partial_byte(bits).push(b)) as u8,
        ) && partial_byte(bits.push(b)) == Seq::<bool>::empty(),
{
    let n = bits.len();
    let next = bits.push(b);
    if (n + 1) % 8 != 0 {
        assert((n + 1) / 8 == n / 8);
        assert(partial_byte(next) =~= partial_byte(bits).push(b));
        assert forall|i: int| 0 <= i < n / 8 implies #[trigger] byte_at(next, i) == byte_at(bits, i) by {
            assert(8 * i + 8 <= n) by (nonlinear_arith)
                requires
                    0 <= i < n / 8,
            ;
            assert(next.subrange(8 * i, 8 * i + 8) =~= bits.subrange(8 * i, 8 * i + 8));
        }
        assert(bytes_of(next) =~= bytes_of(bits));
    } else {
        assert((n + 1) / 8 == n / 8 + 1);
        assert(8 * (n / 8) + 7 == n);
        assert(next.subrange(8 * (n / 8) as int, 8 * (n / 8) as int + 8) =~= partial_byte(bits).push(b));
        assert forall|i: int| 0 <= i < n / 8 implies #[trigger] byte_at(next, i) == byte_at(bits, i) by {
            assert(8 * i + 8 <= n) by (nonlinear_arith)
                requires
                    0 <= i < n / 8,
            ;
            assert(next.subrange(8 * i, 8 * i + 8) =~= bits.subrange(8 * i, 8 * i + 8));
        }
        assert(bytes_of(next) =~= bytes_of(bits).push(bits_value(partial_byte(bits).push(b)) as u8));
        assert(partial_byte(next) =~= Seq::<bool>::empty());
    }
}

fn module_bit(bit_matrix: &BitMatrix, x: u32, y: u32, mirrored: bool) -> (res: bool)
    ensures
        res == module_at(*bit_matrix, x as int, y as int, mirrored),
{
    if mirrored {
        bit_matrix.get(y, x)
    } else {
        bit_matrix.get(x, y)
    }
}

pub(crate) fn append_bit_u32(value: u32, bits: Ghost<Seq<bool>>, bit: bool) -> (res: u32)
    requires
        value == bits_value(bits@),
        bits@.len() < 32,
    ensures
        res == bits_value(bits@.push(bit)),
{
    proof {
        lemma_bits_value_bound(bits@);
        reveal_with_fuel(crate::format_information::pow2_nat, 2);
        lemma_pow2_monotone(bits@.len(), 31);
        lemma_pow2_31();
        assert(bits@.push(bit).drop_last() =~= bits@);
    }
    value * 2 + if bit {
        1
    } else {
        0
    }
}

pub(crate) proof fn lemma_pow2_monotone(a: nat, b: nat)
    requires
        a <= b,
    ensures
        crate::format_information::pow2_nat(a) <= crate::format_information::pow2_nat(b),
    decreases b,
{
    if a < b {
        lemma_pow2_monotone(a, (b - 1) as nat);
    }
}

proof fn lemma_pow2_31()
    ensures
        crate::format_information::pow2_nat(31) == 0x8000_0000,
{
    reveal_with_fuel(crate::format_information::pow2_nat, 32);
}

/// The version that the size of `bit_matrix` gives: a square of side
/// `17 + 4n` for `n` from 1 to 40.
fn number_from_matrix(bit_matrix: &BitMatrix) -> (res: Option<u32>)
    ensures
        res == (if bit_matrix.spec_width() == bit_matrix.spec_height() && 21 <= bit_matrix.spec_width()
            <= 177 && bit_matrix.spec_width() % 4 == 1 {
            Some(((bit_matrix.spec_width() - 17) / 4) as u32)
        } else {
            None::<u32>
        }),
{
    let width = bit_matrix.width();
    let height = bit_matrix.height();
    if width != height || width < 21 || width > 177 || width % 4 != 1 {
        return None;
    }
    Some((width - 17) / 4)
}

/// The version of a QR code read from its size; a size that fits no
/// version is an invalid format.
pub fn read_version(bit_matrix: &BitMatrix) -> (res: Result<Version, Error>)
    ensures
        (bit_matrix.spec_width() == bit_matrix.spec_height() && 21 <= bit_matrix.spec_width() <= 177
            && bit_matrix.spec_width() % 4 == 1) ==> (res matches Ok(v) && v@ == crate::version::spec_version(
            ((bit_matrix.spec_width() - 17) / 4) as u32,
        )),
        !(bit_matrix.spec_width() == bit_matrix.spec_height() && 21 <= bit_matrix.spec_width() <= 177
            && bit_matrix.spec_width() % 4 == 1) ==> res == Err::<Version, Error>(Error::InvalidFormat),
{
    match number_from_matrix(bit_matrix) {
        Some(number) => Version::for_number(number),
        None => Err(Error::InvalidFormat),
    }
}

fn read_cells_value(bit_matrix: &BitMatrix, xs: &[u32], ys: &[u32]) -> (res: u32)
    requires
        xs@.len() == ys@.len(),
        xs@.len() < 32,
    ensures
        res == bits_value(
            modules_at(*bit_matrix, Seq::new(xs@.len(), |k: int| (xs@[k] as int, ys@[k] as int))),
        ),
{
    let ghost cells = Seq::new(xs@.len(), |k: int| (xs@[k] as int, ys@[k] as int));
    let mut value: u32 = 0;
    let mut i: usize = 0;
    while i < xs.len()
        invariant
            i <= xs@.len(),
            xs@.len() == ys@.len(),
            xs@.len() < 32,
            cells == Seq::new(xs@.len(), |k: int| (xs@[k] as int, ys@[k] as int)),
            value == bits_value(modules_at(*bit_matrix, cells.take(i as int))),
        decreases xs@.len() - i,
    {
        let bit = bit_matrix.get(xs[i], ys[i]);
        proof {
            assert(modules_at(*bit_matrix, cells.take(i as int + 1)) =~= modules_at(
                *bit_matrix,
                cells.take(i as int),
            ).push(bit));
        }
        value = append_bit_u32(value, Ghost(modules_at(*bit_matrix, cells.take(i as int))), bit);
        i = i + 1;
    }
    proof {
        assert(cells.take(i as int) =~= cells);
    }
    value
}

/// The format information that `read_format_information` reads from a
/// matrix.
pub open spec fn read_format_spec(m: BitMatrix) -> FormatInformation {
    spec_decode_qr(
        bits_value(modules_at(m, format_cells1())) as u32,
        bits_value(modules_at(m, format_cells2(m.spec_height() as int))) as u32,
    )
}

/// Reads both copies of the format information of a QR code (the symbol
/// must be at least 8 modules high) and decodes them.
pub fn read_format_information(bit_matrix: &BitMatrix) -> (res: Result<FormatInformation, Error>)
    requires
        bit_matrix.spec_height() >= 8,
    ensures
        res == Ok::<FormatInformation, Error>(
            spec_decode_qr(
                bits_value(modules_at(*bit_matrix, format_cells1())) as u32,
                bits_value(modules_at(*bit_matrix, format_cells2(bit_matrix.spec_height() as int))) as u32,
            ),
        ),
{
    let xs1: [u32; 15] = [0, 1, 2, 3, 4, 5, 7, 8, 8, 8, 8, 8, 8, 8, 8];
    let ys1: [u32; 15] = [8, 8, 8, 8, 8, 8, 8, 8, 7, 5, 4, 3, 2, 1, 0];
    let format_info_bits1 = read_cells_value(bit_matrix, &xs1, &ys1);
    proof {
        assert(Seq::new(xs1@.len(), |k: int| (xs1@[k] as int, ys1@[k] as int)) =~= format_cells1());
    }
    let dimension = bit_matrix.height();
    let mut xs2: Vec<u32> = Vec::new();
    let mut ys2: Vec<u32> = Vec::new();
    let mut k: u32 = 0;
    while k < 8
        invariant
            k <= 8,
            dimension >= 8,
            xs2@.len() == k,
            ys2@.len() == k,
            forall|j: int| 0 <= j < k ==> #[trigger] xs2@[j] == 8 && ys2@[j] == dimension - 1 - j,
        decreases 8 - k,
    {
        xs2.push(8);
        ys2.push(dimension - 1 - k);
        k = k + 1;
    }
    let mut x: u32 = dimension - 8;
    while x < dimension
        invariant
            dimension >= 8,
            dimension - 8 <= x <= dimension,
            xs2@.len() == 8 + x - (dimension - 8),
            ys2@.len() == xs2@.len(),
            forall|j: int| 0 <= j < 8 ==> #[trigger] xs2@[j] == 8 && ys2@[j] == dimension - 1 - j,
            forall|j: int| 8 <= j < xs2@.len() ==> #[trigger] xs2@[j] == dimension - 8 + (j - 8) && ys2@[j] == 8,
        decreases dimension - x,
    {
        xs2.push(x);
        ys2.push(8);
        x = x + 1;
    }
    let format_info_bits2 = read_cells_value(bit_matrix, xs2.as_slice(), ys2.as_slice());
    proof {
        assert(Seq::new(xs2@.len(), |k: int| (xs2@[k] as int, ys2@[k] as int)) =~= format_cells2(
            dimension as int,
        ));
    }
    Ok(FormatInformation::decode_qr(format_info_bits1, format_info_bits2))
}

/// The data bits of a QR code: every module in zigzag order that is not a
/// function-pattern module of `version`, with data mask `mask` undone.
pub open spec fn codeword_bits(m: BitMatrix, version: u32, mask: u8, mirrored: bool) -> Seq<bool> {
    let h = m.spec_height() as int;
    data_bits(m, version, mask, mirrored, zigzag_cells(h - 1, true, h))
}

proof fn lemma_no_data_bits(m: BitMatrix, version: u32, mask: u8, mirrored: bool, cells: Seq<(int, int)>)
    requires
        !has_data_cell(version, cells),
    ensures
        data_bits(m, version, mask, mirrored, cells).len() == 0,
    decreases cells.len(),
{
    if cells.len() > 0 {
        assert forall|k: int| 0 <= k < cells.drop_last().len() implies is_function_cell(
            version,
            #[trigger] cells.drop_last()[k],
        ) by {
            assert(cells.drop_last()[k] == cells[k]);
        }
        lemma_no_data_bits(m, version, mask, mirrored, cells.drop_last());
        assert(is_function_cell(version, cells[cells.len() - 1]));
    }
}

proof fn lemma_zigzag_skip_timing(up: bool, d: int)
    ensures
        zigzag_cells(6, up, d) == zigzag_cells(5, up, d),
{
}

/// Reads the codewords of a QR code of `version`: the modules in zigzag
/// order that no function pattern covers, unmasked and packed into bytes.
/// A data mask beyond 7 is an invalid argument; a number of codewords that
/// differs from the version's is an invalid format.
pub fn read_codewords(bit_matrix: &BitMatrix, version: &Version, format_info: &FormatInformation) -> (res: Result<Vec<u8>, Error>)
    requires
        bit_matrix.spec_height() as int * bit_matrix.spec_height() as int <= u32::MAX,
    ensures
        format_info.data_mask >= 8 ==> res is Err,
        format_info.data_mask >= 8 && has_data_cell(
            version@.number,
            zigzag_cells(bit_matrix.spec_height() - 1, true, bit_matrix.spec_height() as int),
        ) ==> res == Err::<Vec<u8>, Error>(Error::InvalidArgument),
        format_info.data_mask < 8 ==> {
            let bytes = bytes_of(
                codeword_bits(*bit_matrix, version@.number, format_info.data_mask, format_info.is_mirrored),
            );
            &&& bytes.len() == version@.total_codewords ==> (res matches Ok(v) && v@ == bytes)
            &&& bytes.len() != version@.total_codewords ==> res == Err::<Vec<u8>, Error>(
                Error::InvalidFormat,
            )
        },
{
    let function_pattern = version.build_function_pattern()?;
    let n = version.number();
    let ghost m = *bit_matrix;
    let ghost mask = format_info.data_mask;
    let ghost mirrored = format_info.is_mirrored;
    let dimension = bit_matrix.height();
    let ghost h = dimension as int;
    let ghost full = zigzag_cells(h - 1, true, h);
    let ghost mut done: Seq<(int, int)> = Seq::empty();
    let mut result: Vec<u8> = Vec::new();
    let mut current_byte: u32 = 0;
    let mut reading_up = true;
    let mut bits_in_byte: u32 = 0;
    let mut x: i64 = dimension as i64 - 1;
    proof {
        assert(done + zigzag_cells(x as int, reading_up, h) =~= full);
    }
    while x > 0
        invariant
            h == dimension,
            h * h <= u32::MAX,
            x <= h - 1,
            m == *bit_matrix,
            mask == format_info.data_mask,
            mirrored == format_info.is_mirrored,
            full == zigzag_cells(h - 1, true, h),
            done + zigzag_cells(x as int, reading_up, h) == full,
            function_pattern.wf(),
            n == version@.number,
            forall|i: int, j: int| #[trigger] function_pattern.spec_get(i, j) == is_function_cell(n, (i, j)),
            mask >= 8 ==> !has_data_cell(n, done),
            bits_in_byte == partial_byte(data_bits(m, n, mask, mirrored, done)).len(),
            result@ == bytes_of(data_bits(m, n, mask, mirrored, done)),
            current_byte == bits_value(partial_byte(data_bits(m, n, mask, mirrored, done))),
        decreases x + 2,
    {
        if x == 6 {
            proof {
                lemma_zigzag_skip_timing(reading_up, h);
            }
            x = x - 1;
        }
        let ghost xc = x as int;
        let ghost pair = pair_cells(xc, reading_up, h);
        assert(zigzag_cells(xc, reading_up, h) == pair + zigzag_cells(xc - 2, !reading_up, h));
        let ghost start = done;
        let mut row: u32 = 0;
        while row < dimension
            invariant
                h == dimension,
                h * h <= u32::MAX,
                1 <= xc <= h - 1,
                xc == x,
                pair == pair_cells(xc, reading_up, h),
                m == *bit_matrix,
                mask == format_info.data_mask,
                mirrored == format_info.is_mirrored,
                full == zigzag_cells(h - 1, true, h),
                start + zigzag_cells(xc, reading_up, h) == full,
                zigzag_cells(xc, reading_up, h) == pair + zigzag_cells(xc - 2, !reading_up, h),
                row <= dimension,
                done == start + pair.take(2 * row),
                function_pattern.wf(),
                n == version@.number,
                forall|i: int, j: int| #[trigger] function_pattern.spec_get(i, j) == is_function_cell(n, (i, j)),
                mask >= 8 ==> !has_data_cell(n, done),
                bits_in_byte == partial_byte(data_bits(m, n, mask, mirrored, done)).len(),
                result@ == bytes_of(data_bits(m, n, mask, mirrored, done)),
                current_byte == bits_value(partial_byte(data_bits(m, n, mask, mirrored, done))),
            decreases dimension - row,
        {
            let y: u32 = if reading_up {
                dimension - 1 - row
            } else {
                row
            };
            let mut col: i64 = 0;
            while col < 2
                invariant
                    h == dimension,
                    h * h <= u32::MAX,
                    1 <= xc <= h - 1,
                    xc == x,
                    pair == pair_cells(xc, reading_up, h),
                    m == *bit_matrix,
                    mask == format_info.data_mask,
                    mirrored == format_info.is_mirrored,
                    full == zigzag_cells(h - 1, true, h),
                    start + zigzag_cells(xc, reading_up, h) == full,
                    zigzag_cells(xc, reading_up, h) == pair + zigzag_cells(xc - 2, !reading_up, h),
                    row < dimension,
                    y == (if reading_up { h - 1 - row } else { row as int }),
                    0 <= col <= 2,
                    done == start + pair.take(2 * row + col),
                    function_pattern.wf(),
                    n == version@.number,
                    forall|i: int, j: int| #[trigger] function_pattern.spec_get(i, j) == is_function_cell(n, (i, j)),
                    mask >= 8 ==> !has_data_cell(n, done),
                    bits_in_byte == partial_byte(data_bits(m, n, mask, mirrored, done)).len(),
                    result@ == bytes_of(data_bits(m, n, mask, mirrored, done)),
                    current_byte == bits_value(partial_byte(data_bits(m, n, mask, mirrored, done))),
                decreases 2 - col,
            {
                let xx: u32 = (x - col) as u32;
                let ghost k = 2 * row + col;
                let ghost cell = (xx as int, y as int);
                assert(pair[k] == cell);
                let ghost next = start + pair.take(k + 1);
                assert(next =~= done.push(cell));
                assert(next.drop_last() =~= done);
                let ghost bits = data_bits(m, n, mask, mirrored, done);
                if !function_pattern.get(xx, y) {
                    proof {
                        assert(xx < h && y < h);
                        assert(xx as int * y as int <= h * h) by (nonlinear_arith)
                            requires
                                0 <= xx < h,
                                0 <= y < h,
                        ;
                        assert(2 * h <= h * h) by (nonlinear_arith)
                            requires
                                h >= 2,
                        ;
                        if mask >= 8 {
                            assert(full[done.len() as int] == cell) by {
                                assert(full == start + (pair + zigzag_cells(xc - 2, !reading_up, h)));
                            }
                            assert(!is_function_cell(n, full[done.len() as int]));
                            assert(has_data_cell(n, full));
                        }
                    }
                    let masked = get_data_mask_bit(format_info.data_mask as u32, xx, y)?;
                    let bit = masked != module_bit(bit_matrix, xx, y, format_info.is_mirrored);
                    proof {
                        lemma_bytes_push(bits, bit);
                        assert(data_bits(m, n, mask, mirrored, next) == bits.push(bit));
                        lemma_bits_value_bound(partial_byte(bits));
                        assert(partial_byte(bits).len() < 8);
                        reveal_with_fuel(crate::format_information::pow2_nat, 9);
                        lemma_pow2_monotone(partial_byte(bits).len(), 7);
                        assert(partial_byte(bits).push(bit).drop_last() =~= partial_byte(bits));
                    }
                    current_byte = current_byte * 2 + if bit {
                        1
                    } else {
                        0
                    };
                    bits_in_byte = bits_in_byte + 1;
                    if bits_in_byte == 8 {
                        result.push(current_byte as u8);
                        current_byte = 0;
                        bits_in_byte = 0;
                    }
                } else {
                    proof {
                        assert(data_bits(m, n, mask, mirrored, next) == bits);
                        if mask >= 8 {
                            assert forall|q: int| 0 <= q < next.len() implies is_function_cell(n, #[trigger] next[q]) by {
                                if q < done.len() {
                                    assert(next[q] == done[q]);
                                    assert(!(0 <= q < done.len() && !is_function_cell(n, done[q])));
                                }
                            }
                        }
                    }
                }
                proof {
                    done = next;
                }
                col = col + 1;
            }
            row = row + 1;
        }
        proof {
            assert(pair.take(2 * dimension) =~= pair);
            assert(done + zigzag_cells(xc - 2, !reading_up, h) =~= full);
        }
        reading_up = !reading_up;
        x = x - 2;
    }
    proof {
        assert(zigzag_cells(x as int, reading_up, h) =~= Seq::<(int, int)>::empty());
        assert(done =~= full);
        crate::version::lemma_total_codewords_positive(n);
        if mask >= 8 {
            lemma_no_data_bits(m, n, mask, mirrored, done);
        }
    }
    let expected_codewords = version.total_codewords() as usize;
    if result.len() != expected_codewords {
        return Err(Error::InvalidFormat);
    }
    Ok(result)
}

} // verus!

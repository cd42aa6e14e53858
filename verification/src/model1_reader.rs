use vstd::prelude::*;
use crate::bit_matrix::BitMatrix;
use crate::bitmatrix_parser::{bits_value, module_at};
use crate::data_mask::{get_data_mask_bit, mask_bit};
use crate::error::Error;
use crate::format_information::FormatInformation;
use crate::qr_version::Version;
use crate::symbol_reader::get_bit;

verus! {

/// Number of codeword places that column group `j` of a Model 1 symbol of
/// size `d` is scanned for.
pub open spec fn model1_rows(d: int, j: int) -> int {
    if j <= 1 {
        (d - 8) / 4
    } else if d / 4 + 3 - j <= 4 {
        (d - 16) / 4
    } else {
        d / 2
    }
}

/// Place `i` of column group `j` of a Model 1 symbol of size `d`: the column
/// and row of the codeword's first (bottom right) module and whether the
/// codeword is four modules wide (else two), or `None` where the place holds
/// no codeword. Groups 0 and 1 are column pairs along the right edge, the
/// last four groups column pairs along the left edge below the finder
/// pattern, the others four-column blocks read upwards (ISO 18004:2000
/// Annex M).
pub open spec fn model1_place(d: int, j: int, i: int) -> Option<(int, int, bool)> {
    let columns = d / 4 + 3;
    if j <= 1 {
        let rows = (d - 8) / 4;
        if j == 0 && i % 2 == 0 && i > 0 && i < rows - 1 {
            None
        } else {
            Some((d - 1 - j * 2, d - 1 - i * 4, false))
        }
    } else if columns - j <= 4 {
        Some(((columns - j - 1) * 2 + 1 + (if columns - j == 4 { 1int } else { 0int }), d - 9 - i * 4, false))
    } else {
        let rows = d / 2;
        if (j == 2 && i >= rows - 4) || (i == 0 && j % 2 == 1 && j + 1 != columns - 4) {
            None
        } else {
            Some((d - 5 - (j - 2) * 4, d - 1 - i * 2 - (if i >= rows - 3 { 1int } else { 0int }), true))
        }
    }
}

/// The codeword places among the first `n` places of column group `j`.
pub open spec fn model1_places_in(d: int, j: int, n: nat) -> Seq<(int, int, bool)>
    decreases n,
{
    if n == 0 {
        Seq::empty()
    } else {
        let prev = model1_places_in(d, j, (n - 1) as nat);
        match model1_place(d, j, n - 1) {
            Some(p) => prev.push(p),
            None => prev,
        }
    }
}

/// The codeword places of the first `n` column groups, group after group.
pub open spec fn model1_places(d: int, n: nat) -> Seq<(int, int, bool)>
    decreases n,
{
    if n == 0 {
        Seq::empty()
    } else {
        model1_places(d, (n - 1) as nat) + model1_places_in(d, n - 1, model1_rows(d, n - 1) as nat)
    }
}

/// Module `b` (0 to 7) of the codeword at place `p`: right to left within a
/// row, rows upwards.
pub open spec fn model1_cell(p: (int, int, bool), b: int) -> (int, int) {
    if p.2 {
        (p.0 - b % 4, p.1 - b / 4)
    } else {
        (p.0 - b % 2, p.1 - b / 2)
    }
}

/// The codeword at place `p`, most significant bit first, with data mask
/// `mask` undone.
pub open spec fn model1_byte(m: BitMatrix, mask: int, mirrored: bool, p: (int, int, bool)) -> u8 {
    bits_value(
        Seq::new(
            8,
            |b: int|
                mask_bit(mask, model1_cell(p, b).1, model1_cell(p, b).0) != module_at(
                    m,
                    model1_cell(p, b).0,
                    model1_cell(p, b).1,
                    mirrored,
                ),
        ),
    ) as u8
}

/// The codewords at `places`, in order.
pub open spec fn model1_raw(m: BitMatrix, mask: int, mirrored: bool, places: Seq<(int, int, bool)>) -> Seq<u8> {
    Seq::new(places.len(), |k: int| model1_byte(m, mask, mirrored, places[k]))
}

/// The codewords of a Model 1 symbol: those of all its codeword places, the
/// first with its upper four bits (the corner) cleared.
pub open spec fn model1_codewords(m: BitMatrix, fi: FormatInformation) -> Seq<u8> {
    let d = m.spec_height() as int;
    let raw = model1_raw(m, fi.data_mask as int, fi.is_mirrored, model1_places(d, (d / 4 + 3) as nat));
    raw.update(0, raw[0] & 0x0Fu8)
}

/// Reads the codewords of a Model 1 QR code (ISO 18004:2000 Annex M): the
/// column pairs along the right edge, those along the left edge, then the
/// four-column blocks between them, with the data mask undone and the
/// corner bits of the first codeword cleared. A data mask beyond 7 is an
/// invalid argument; a number of codewords that differs from the version's
/// is an invalid format.
pub fn read_qrcodewords_model1(bit_matrix: &BitMatrix, version: &Version, format_info: &FormatInformation) -> (res:
    Result<Vec<u8>, Error>)
    requires
        bit_matrix.spec_width() >= bit_matrix.spec_height(),
        16 <= bit_matrix.spec_height(),
        bit_matrix.spec_height() % 2 == 1 || bit_matrix.spec_height() <= 18,
        bit_matrix.spec_height() as int * bit_matrix.spec_height() as int <= u32::MAX,
    ensures
        format_info.data_mask >= 8 ==> res == Err::<Vec<u8>, Error>(Error::InvalidArgument),
        format_info.data_mask < 8 ==> {
            let codewords = model1_codewords(*bit_matrix, *format_info);
            &&& codewords.len() == version@.total_codewords ==> (res matches Ok(v) && v@ == codewords)
            &&& codewords.len() != version@.total_codewords ==> res == Err::<Vec<u8>, Error>(
                Error::InvalidFormat,
            )
        },
{
    let dimension = bit_matrix.height();
    let ghost d = dimension as int;
    let mask = format_info.data_mask as u32;
    let mirrored = format_info.is_mirrored;
    let ghost m = *bit_matrix;
    let columns = dimension / 4 + 1 + 2;
    let mut result: Vec<u8> = Vec::new();
    let mut j: u32 = 0;
    while j < columns
        invariant
            16 <= d,
            d % 2 == 1 || d <= 18,
            d * d <= u32::MAX,
            d == dimension,
            columns == d / 4 + 3,
            j <= columns,
            m == *bit_matrix,
            mask == format_info.data_mask,
            mirrored == format_info.is_mirrored,
            mask >= 8 ==> result@.len() == 0,
            j > 0 ==> result@.len() >= 1,
            result@ == model1_raw(m, mask as int, mirrored, model1_places(d, j as nat)),
        decreases columns - j,
    {
        let rows = if j <= 1 {
            (dimension - 8) / 4
        } else if columns - j <= 4 {
            (dimension - 16) / 4
        } else {
            dimension / 2
        };
        assert(rows == model1_rows(d, j as int));
        let ghost before = model1_places(d, j as nat);
        let mut i: u32 = 0;
        while i < rows
            invariant
                16 <= d,
                d % 2 == 1 || d <= 18,
                d * d <= u32::MAX,
                d == dimension,
                columns == d / 4 + 3,
                j < columns,
                i <= rows,
                rows == model1_rows(d, j as int),
                m == *bit_matrix,
                mask == format_info.data_mask,
                mirrored == format_info.is_mirrored,
                mask >= 8 ==> result@.len() == 0,
                (j > 0 || i > 0) ==> result@.len() >= 1,
                before == model1_places(d, j as nat),
                result@ == model1_raw(m, mask as int, mirrored, before + model1_places_in(d, j as int, i as nat)),
            decreases rows - i,
        {
            let skip = if j <= 1 {
                j == 0 && i % 2 == 0 && i > 0 && i < rows - 1
            } else if columns - j <= 4 {
                false
            } else {
                (j == 2 && i >= rows - 4) || (i == 0 && j % 2 == 1 && j + 1 != columns - 4)
            };
            let ghost place = model1_place(d, j as int, i as int);
            assert(skip == (place is None));
            if !skip {
                let (x, y, wide) = if j <= 1 {
                    (dimension - 1 - j * 2, dimension - 1 - i * 4, false)
                } else if columns - j <= 4 {
                    ((columns - j - 1) * 2 + 1 + (if columns - j == 4 { 1 } else { 0 }), dimension - 9 - i * 4, false)
                } else {
                    (
                        dimension - 5 - (j - 2) * 4,
                        dimension - 1 - i * 2 - (if i >= rows - 3 { 1 } else { 0 }),
                        true,
                    )
                };
                let ghost p = (x as int, y as int, wide);
                assert(place == Some(p));
                let ghost target = Seq::new(
                    8,
                    |b: int|
                        mask_bit(mask as int, model1_cell(p, b).1, model1_cell(p, b).0) != module_at(
                            m,
                            model1_cell(p, b).0,
                            model1_cell(p, b).1,
                            mirrored,
                        ),
                );
                let mut current: u32 = 0;
                let ghost mut bits: Seq<bool> = Seq::empty();
                let mut b: u32 = 0;
                while b < 8
                    invariant
                        b <= 8,
                        b > 0 ==> mask < 8,
                        x >= 1,
                        y >= 1,
                        wide ==> x >= 3,
                        !wide ==> y >= 3,
                        x < d,
                        y < d,
                        d * d <= u32::MAX,
                        p == (x as int, y as int, wide),
                        m == *bit_matrix,
                        mask == format_info.data_mask,
                        mirrored == format_info.is_mirrored,
                        mask >= 8 ==> result@.len() == 0,
                        bits.len() == b,
                        target.len() == 8,
                        forall|k: int|
                            0 <= k < 8 ==> #[trigger] target[k] == (mask_bit(
                                mask as int,
                                model1_cell(p, k).1,
                                model1_cell(p, k).0,
                            ) != module_at(m, model1_cell(p, k).0, model1_cell(p, k).1, mirrored)),
                        bits == target.take(b as int),
                        current == bits_value(bits),
                    decreases 8 - b,
                {
                    let (cx, cy) = if wide {
                        (x - b % 4, y - b / 4)
                    } else {
                        (x - b % 2, y - b / 2)
                    };
                    assert((cx as int, cy as int) == model1_cell(p, b as int));
                    assert(cy as int * cx as int <= u32::MAX) by (nonlinear_arith)
                        requires
                            cx < d,
                            cy < d,
                            d * d <= u32::MAX,
                    ;
                    assert(d <= 65536) by (nonlinear_arith)
                        requires
                            d * d <= u32::MAX,
                            d >= 1,
                    ;
                    assert(cy as int + cx as int + 2 <= u32::MAX);
                    let flip = get_data_mask_bit(mask, cx, cy)?;
                    let bit = flip != get_bit(bit_matrix, cx, cy, Some(mirrored));
                    current = crate::bitmatrix_parser::append_bit_u32(current, Ghost(bits), bit);
                    proof {
                        assert(target[b as int] == bit);
                        bits = bits.push(bit);
                        assert(bits =~= target.take(b as int + 1));
                    }
                    b = b + 1;
                }
                proof {
                    assert(bits =~= target);
                    crate::bit_source::lemma_bits_value_fits_8(bits);
                }
                result.push(current as u8);
                assert(model1_places_in(d, j as int, (i + 1) as nat) == model1_places_in(d, j as int, i as nat).push(p));
                assert(before + model1_places_in(d, j as int, (i + 1) as nat) =~= (before + model1_places_in(d, j as int, i as nat)).push(p));
                assert(result@ =~= model1_raw(m, mask as int, mirrored, before + model1_places_in(d, j as int, (i + 1) as nat)));
            } else {
                assert(model1_places_in(d, j as int, (i + 1) as nat) == model1_places_in(d, j as int, i as nat));
            }
            i = i + 1;
        }
        assert(model1_places(d, (j + 1) as nat) == before + model1_places_in(d, j as int, rows as nat));
        j = j + 1;
    }
    let first = result[0] & 0x0F;
    result.set(0, first);
    assert(result@ == model1_codewords(m, *format_info));
    let expected = version.get_total_codewords();
    if result.len() != expected as usize {
        return Err(Error::InvalidFormat);
    }
    Ok(result)
}

} // verus!

use vstd::prelude::*;
use crate::bit_matrix::BitMatrix;
use crate::bitmatrix_parser::{
    bits_value, bytes_of, codeword_bits, has_data_cell, lemma_bits_value_bound, lemma_bytes_push, module_at,
    pair_cells, partial_byte, zigzag_cells,
};
use crate::data_mask::{get_data_mask_bit, mask_bit, mask_fits};
use crate::ec_level::ErrorCorrectionLevel;
use crate::model1_reader::{model1_codewords, read_qrcodewords_model1};
use crate::error::Error;
use crate::format_information::{FormatInformation, pow2_nat};
use crate::qr_type::Type;
use crate::qr_version::{
    QrVersionView, Version, matrix_size, qr_function_cell, spec_is_valid_size, spec_micro,
    spec_micro_table, spec_model2, spec_number_point,
};
use crate::version::level_codewords;

verus! {

/// The module at column `x`, row `y` of `bit_matrix`; at column `y`, row
/// `x` when `mirrored` is `Some(true)`.
pub fn get_bit(bit_matrix: &BitMatrix, x: u32, y: u32, mirrored: Option<bool>) -> (res: bool)
    ensures
        res == module_at(*bit_matrix, x as int, y as int, mirrored == Some(true)),
{
    let mirrored = match mirrored {
        Some(m) => m,
        None => false,
    };
    if mirrored {
        bit_matrix.get(y, x)
    } else {
        bit_matrix.get(x, y)
    }
}

/// Whether a matrix has the size of a symbol of some kind.
pub open spec fn has_symbol_size(m: BitMatrix) -> bool {
    ||| spec_is_valid_size(matrix_size(m), Type::Model1)
    ||| spec_is_valid_size(matrix_size(m), Type::Model2)
    ||| spec_is_valid_size(matrix_size(m), Type::Micro)
    ||| spec_is_valid_size(matrix_size(m), Type::RectMicro)
}

/// The version of a symbol of kind `qr_type` read from the size of its
/// matrix. A size that fits no kind is an invalid format; a number that the
/// kind does not have is an invalid argument. The version tables of Model 1
/// and rMQR symbols are not part of this library: for those kinds the
/// version is an unsupported operation.
pub fn read_version(bit_matrix: &BitMatrix, qr_type: Type) -> (res: Result<Version, Error>)
    ensures
        !has_symbol_size(*bit_matrix) ==> res == Err::<Version, Error>(Error::InvalidFormat),
        has_symbol_size(*bit_matrix) ==> {
            let n = spec_number_point(matrix_size(*bit_matrix));
            match qr_type {
                Type::Model2 => if 1 <= n <= 40 {
                    res matches Ok(v) && v@ == spec_model2(n)
                } else {
                    res == Err::<Version, Error>(Error::InvalidArgument)
                },
                Type::Micro => if 1 <= n <= 4 {
                    res matches Ok(v) && v@ == spec_micro(n)
                } else {
                    res == Err::<Version, Error>(Error::InvalidArgument)
                },
                _ => res == Err::<Version, Error>(Error::UnsupportedOperation),
            }
        },
{
    if !Version::has_valid_size(bit_matrix) {
        return Err(Error::InvalidFormat);
    }
    let number = Version::number(bit_matrix);
    match qr_type {
        Type::Model2 => Version::model2(number),
        Type::Micro => Version::micro(number),
        _ => Err(Error::UnsupportedOperation),
    }
}

/// Reads the codewords of a QR code (Model 2) in zigzag order, skipping its
/// function patterns and undoing its data mask; see
/// [`crate::bitmatrix_parser::read_codewords`], whose contract this has.
pub fn read_qrcodewords(bit_matrix: &BitMatrix, version: &Version, format_info: &FormatInformation) -> (res:
    Result<Vec<u8>, Error>)
    requires
        version@.qr_type == Type::Model2,
        bit_matrix.spec_height() as int * bit_matrix.spec_height() as int <= u32::MAX,
    ensures
        format_info.data_mask >= 8 ==> res is Err,
        format_info.data_mask >= 8 && has_data_cell(
            version@.number,
            zigzag_cells(bit_matrix.spec_height() - 1, true, bit_matrix.spec_height() as int),
        ) ==> res == Err::<Vec<u8>, Error>(Error::InvalidArgument),
        format_info.data_mask < 8 ==> {
            let bytes = bytes_of(
                codeword_bits(*bit_matrix, version@.number, format_info.data_mask, format_info.is_mirrored),
            );
            &&& bytes.len() == version@.total_codewords ==> (res matches Ok(v) && v@ == bytes)
            &&& bytes.len() != version@.total_codewords ==> res == Err::<Vec<u8>, Error>(
                Error::InvalidFormat,
            )
        },
{
    let number = version.get_version_number();
    let model = crate::version::Version::for_number(number)?;
    crate::bitmatrix_parser::read_codewords(bit_matrix, &model, format_info)
}

/// Micro QR reading order from column pair `x` leftwards: pairs of columns
/// from right to left, alternately upwards and downwards (ISO 18004:2006
/// 6.7.3). A Micro QR symbol has no timing column to skip.
pub open spec fn micro_zigzag_cells(x: int, up: bool, d: int) -> Seq<(int, int)>
    decreases x + 2,
{
    if x <= 0 {
        seq![]
    } else {
        pair_cells(x, up, d) + micro_zigzag_cells(x - 2, !up, d)
    }
}

/// The QR data mask that Micro QR data mask `mask` (0 to 3) is: the masks
/// 001, 100, 110 and 111 of ISO 18004:2006 6.8.1.
pub open spec fn micro_mask_index(mask: int) -> int {
    if mask == 0 {
        1
    } else if mask == 1 {
        4
    } else if mask == 2 {
        6
    } else {
        7
    }
}

/// The data bits read at `cells` of a symbol of version `v`: function
/// pattern cells are skipped, the others read with data mask `mask` undone.
pub open spec fn symbol_data_bits(m: BitMatrix, v: QrVersionView, mask: int, mirrored: bool, cells: Seq<(int, int)>) -> Seq<bool>
    decreases cells.len(),
{
    if cells.len() == 0 {
        seq![]
    } else {
        let prev = symbol_data_bits(m, v, mask, mirrored, cells.drop_last());
        let c = cells.last();
        if qr_function_cell(v, c.0, c.1) {
            prev
        } else {
            prev.push(mask_bit(mask, c.1, c.0) != module_at(m, c.0, c.1, mirrored))
        }
    }
}

/// Whether some cell of `cells` is read as data in a symbol of version `v`.
pub open spec fn has_symbol_data_cell(v: QrVersionView, cells: Seq<(int, int)>) -> bool {
    exists|k: int| 0 <= k < cells.len() && !qr_function_cell(v, #[trigger] cells[k].0, cells[k].1)
}

/// The codewords that the bits of a Micro QR symbol make, and the bits of
/// the incomplete codeword after them: 8 bits per codeword, most
/// significant first, except codeword `short_index`, which has 4.
pub open spec fn mqr_codewords(bits: Seq<bool>, short_index: int) -> (Seq<u8>, Seq<bool>)
    decreases bits.len(),
{
    if bits.len() == 0 {
        (seq![], seq![])
    } else {
        let prev = mqr_codewords(bits.drop_last(), short_index);
        let pending = prev.1.push(bits.last());
        if pending.len() == 8 || (pending.len() == 4 && prev.0.len() == short_index) {
            (prev.0.push(bits_value(pending) as u8), seq![])
        } else {
            (prev.0, pending)
        }
    }
}

/// Index of the 4-bit codeword of a Micro QR symbol: the last data codeword
/// of M1 and of M3 (2 in M1, 10 in M3-L, 8 in M3-M); -1 for M2 and M4.
pub open spec fn short_codeword_index(number: u32, level: ErrorCorrectionLevel) -> int {
    if number % 2 == 1 {
        if number == 1 {
            2
        } else if level == ErrorCorrectionLevel::L {
            10
        } else {
            8
        }
    } else {
        -1
    }
}

proof fn lemma_mqr_pending_short(bits: Seq<bool>, short_index: int)
    ensures
        mqr_codewords(bits, short_index).1.len() < 8,
    decreases bits.len(),
{
    if bits.len() > 0 {
        lemma_mqr_pending_short(bits.drop_last(), short_index);
    }
}

/// Whether Micro QR data mask `mask` flips the module in column `x`, row
/// `y`; masks beyond 3 are an invalid argument.
fn micro_data_mask_bit(mask: u32, x: u32, y: u32) -> (res: Result<bool, Error>)
    requires
        x as int * y as int <= u32::MAX,
        x + y + 2 <= u32::MAX,
    ensures
        mask < 4 ==> res == Ok::<bool, Error>(mask_bit(micro_mask_index(mask as int), y as int, x as int)),
        mask >= 4 ==> res == Err::<bool, Error>(Error::InvalidArgument),
{
    if mask >= 4 {
        return Err(Error::InvalidArgument);
    }
    let index: u32 = if mask == 0 {
        1
    } else if mask == 1 {
        4
    } else if mask == 2 {
        6
    } else {
        7
    };
    proof {
        assert(y as int * x as int == x as int * y as int) by (nonlinear_arith);
        assert(mask_fits(index as int, y as int, x as int));
    }
    get_data_mask_bit(index, x, y)
}

/// The codewords that `read_mqrcodewords` reads from a Micro QR symbol.
pub open spec fn mqr_read(m: BitMatrix, v: QrVersionView, fi: FormatInformation) -> Seq<u8> {
    let h = m.spec_height() as int;
    let bits = symbol_data_bits(
        m,
        v,
        micro_mask_index(fi.data_mask as int),
        fi.is_mirrored,
        micro_zigzag_cells(h - 1, true, h),
    );
    mqr_codewords(bits, short_codeword_index(v.number, fi.error_correction_level)).0
}

/// Reads the codewords of a Micro QR symbol: the modules in zigzag order
/// that no function pattern covers, with the Micro QR data mask undone,
/// packed into 8-bit codewords but for the 4-bit last data codeword of M1
/// and M3 (ISO 18004:2006 6.7.3). A data mask beyond 3 is an invalid
/// argument; a number of codewords that differs from the version's is an
/// invalid format. The matrix must be of odd height.
#[verifier::spinoff_prover]
#[verifier::rlimit(40)]
pub fn read_mqrcodewords(bit_matrix: &BitMatrix, version: &Version, format_info: &FormatInformation) -> (res:
    Result<Vec<u8>, Error>)
    requires
        version@.qr_type == Type::Micro,
        bit_matrix.spec_height() % 2 == 1,
        bit_matrix.spec_height() as int * bit_matrix.spec_height() as int <= u32::MAX,
    ensures
        format_info.data_mask >= 4 ==> res is Err,
        format_info.data_mask >= 4 && has_symbol_data_cell(
            version@,
            micro_zigzag_cells(bit_matrix.spec_height() - 1, true, bit_matrix.spec_height() as int),
        ) ==> res == Err::<Vec<u8>, Error>(Error::InvalidArgument),
        format_info.data_mask < 4 ==> {
            let cw = mqr_read(*bit_matrix, version@, *format_info);
            &&& cw.len() == version@.total_codewords ==> (res matches Ok(v) && v@ == cw)
            &&& cw.len() != version@.total_codewords ==> res == Err::<Vec<u8>, Error>(Error::InvalidFormat)
        },
{
    let number = version.get_version_number();
    let function_pattern = version.build_function_pattern()?;
    let ghost vv = version@;
    let ghost m = *bit_matrix;
    let ghost mask = micro_mask_index(format_info.data_mask as int);
    let ghost mirrored = format_info.is_mirrored;
    let has_d4m_block = number % 2 == 1;
    let d4m_block_index: usize = if number == 1 {
        3
    } else {
        match format_info.error_correction_level {
            ErrorCorrectionLevel::L => 11,
            _ => 9,
        }
    };
    let ghost short = short_codeword_index(number, format_info.error_correction_level);
    assert(has_d4m_block ==> short == d4m_block_index - 1);
    assert(!has_d4m_block ==> short == -1);
    let dimension = bit_matrix.height();
    let ghost h = dimension as int;
    let ghost full = micro_zigzag_cells(h - 1, true, h);
    let ghost mut done: Seq<(int, int)> = Seq::empty();
    let mut result: Vec<u8> = Vec::new();
    let mut current_byte: u32 = 0;
    let mut reading_up = true;
    let mut bits_read: u32 = 0;
    let mut x: i64 = dimension as i64 - 1;
    proof {
        assert(done + micro_zigzag_cells(x as int, reading_up, h) =~= full);
    }
    while x > 0
        invariant
            h == dimension,
            h * h <= u32::MAX,
            x <= h - 1,
            m == *bit_matrix,
            vv == version@,
            mask == micro_mask_index(format_info.data_mask as int),
            mirrored == format_info.is_mirrored,
            full == micro_zigzag_cells(h - 1, true, h),
            done + micro_zigzag_cells(x as int, reading_up, h) == full,
            function_pattern.wf(),
            forall|i: int, j: int| #[trigger] function_pattern.spec_get(i, j) == qr_function_cell(vv, i, j),
            short == short_codeword_index(number, format_info.error_correction_level),
            has_d4m_block ==> short == d4m_block_index - 1,
            d4m_block_index >= 3,
            !has_d4m_block ==> short == -1,
            format_info.data_mask >= 4 ==> !has_symbol_data_cell(vv, done),
            bits_read == mqr_codewords(symbol_data_bits(m, vv, mask, mirrored, done), short).1.len(),
            result@ == mqr_codewords(symbol_data_bits(m, vv, mask, mirrored, done), short).0,
            current_byte == bits_value(mqr_codewords(symbol_data_bits(m, vv, mask, mirrored, done), short).1),
        decreases x + 2,
    {
        let ghost xc = x as int;
        let ghost pair = pair_cells(xc, reading_up, h);
        assert(micro_zigzag_cells(xc, reading_up, h) == pair + micro_zigzag_cells(xc - 2, !reading_up, h));
        let ghost start = done;
        let mut row: u32 = 0;
        while row < dimension
            invariant
                h == dimension,
                h * h <= u32::MAX,
                1 <= xc <= h - 1,
                xc == x,
                pair == pair_cells(xc, reading_up, h),
                m == *bit_matrix,
                vv == version@,
                mask == micro_mask_index(format_info.data_mask as int),
                mirrored == format_info.is_mirrored,
                full == micro_zigzag_cells(h - 1, true, h),
                start + micro_zigzag_cells(xc, reading_up, h) == full,
                micro_zigzag_cells(xc, reading_up, h) == pair + micro_zigzag_cells(xc - 2, !reading_up, h),
                row <= dimension,
                done == start + pair.take(2 * row),
                function_pattern.wf(),
                forall|i: int, j: int| #[trigger] function_pattern.spec_get(i, j) == qr_function_cell(vv, i, j),
                short == short_codeword_index(number, format_info.error_correction_level),
                has_d4m_block ==> short == d4m_block_index - 1,
                d4m_block_index >= 3,
                !has_d4m_block ==> short == -1,
                format_info.data_mask >= 4 ==> !has_symbol_data_cell(vv, done),
                bits_read == mqr_codewords(symbol_data_bits(m, vv, mask, mirrored, done), short).1.len(),
                result@ == mqr_codewords(symbol_data_bits(m, vv, mask, mirrored, done), short).0,
                current_byte == bits_value(mqr_codewords(symbol_data_bits(m, vv, mask, mirrored, done), short).1),
            decreases dimension - row,
        {
            let y: u32 = if reading_up {
                dimension - 1 - row
            } else {
                row
            };
            let mut col: i64 = 0;
            while col < 2
                invariant
                    h == dimension,
                    h * h <= u32::MAX,
                    1 <= xc <= h - 1,
                    xc == x,
                    pair == pair_cells(xc, reading_up, h),
                    m == *bit_matrix,
                    vv == version@,
                    mask == micro_mask_index(format_info.data_mask as int),
                    mirrored == format_info.is_mirrored,
                    full == micro_zigzag_cells(h - 1, true, h),
                    start + micro_zigzag_cells(xc, reading_up, h) == full,
                    micro_zigzag_cells(xc, reading_up, h) == pair + micro_zigzag_cells(xc - 2, !reading_up, h),
                    row < dimension,
                    y == (if reading_up { h - 1 - row } else { row as int }),
                    0 <= col <= 2,
                    done == start + pair.take(2 * row + col),
                    function_pattern.wf(),
                    forall|i: int, j: int| #[trigger] function_pattern.spec_get(i, j) == qr_function_cell(vv, i, j),
                    short == short_codeword_index(number, format_info.error_correction_level),
                    has_d4m_block ==> short == d4m_block_index - 1,
                    d4m_block_index >= 3,
                d4m_block_index >= 3,
                    !has_d4m_block ==> short == -1,
                    format_info.data_mask >= 4 ==> !has_symbol_data_cell(vv, done),
                    bits_read == mqr_codewords(symbol_data_bits(m, vv, mask, mirrored, done), short).1.len(),
                    result@ == mqr_codewords(symbol_data_bits(m, vv, mask, mirrored, done), short).0,
                    current_byte == bits_value(mqr_codewords(symbol_data_bits(m, vv, mask, mirrored, done), short).1),
                decreases 2 - col,
            {
                let xx: u32 = (x - col) as u32;
                let ghost k = 2 * row + col;
                let ghost cell = (xx as int, y as int);
                assert(pair[k] == cell);
                let ghost next = start + pair.take(k + 1);
                assert(next =~= done.push(cell));
                assert(next.drop_last() =~= done);
                let ghost bits = symbol_data_bits(m, vv, mask, mirrored, done);
                let ghost st = mqr_codewords(bits, short);
                if !function_pattern.get(xx, y) {
                    proof {
                        assert(xx < h && y < h);
                        assert(xx as int * y as int <= h * h) by (nonlinear_arith)
                            requires
                                0 <= xx < h,
                                0 <= y < h,
                        ;
                        assert(2 * h <= h * h) by (nonlinear_arith)
                            requires
                                h >= 2,
                        ;
                        if format_info.data_mask >= 4 {
                            assert(full[done.len() as int] == cell) by {
                                assert(full == start + (pair + micro_zigzag_cells(xc - 2, !reading_up, h)));
                            }
                            assert(!qr_function_cell(vv, full[done.len() as int].0, full[done.len() as int].1));
                            assert(has_symbol_data_cell(vv, full));
                        }
                    }
                    let masked = micro_data_mask_bit(format_info.data_mask as u32, xx, y)?;
                    let bit = masked != get_bit(bit_matrix, xx, y, Some(format_info.is_mirrored));
                    proof {
                        assert(symbol_data_bits(m, vv, mask, mirrored, next) == bits.push(bit));
                        assert(bits.push(bit).drop_last() =~= bits);
                        lemma_mqr_pending_short(bits, short);
                        lemma_bits_value_bound(st.1.push(bit));
                        reveal_with_fuel(pow2_nat, 9);
                        crate::bitmatrix_parser::lemma_pow2_monotone(st.1.len() + 1, 8);
                        assert(st.1.push(bit).drop_last() =~= st.1);
                    }
                    current_byte = current_byte * 2 + if bit {
                        1
                    } else {
                        0
                    };
                    bits_read = bits_read + 1;
                    if bits_read == 8 || (bits_read == 4 && has_d4m_block && result.len() == d4m_block_index
                        - 1) {
                        result.push(current_byte as u8);
                        current_byte = 0;
                        bits_read = 0;
                    }
                } else {
                    proof {
                        assert(symbol_data_bits(m, vv, mask, mirrored, next) == bits);
                        if format_info.data_mask >= 4 {
                            assert forall|q: int| 0 <= q < next.len() implies qr_function_cell(
                                vv,
                                #[trigger] next[q].0,
                                next[q].1,
                            ) by {
                                if q < done.len() {
                                    assert(next[q] == done[q]);
                                    assert(!(0 <= q < done.len() && !qr_function_cell(vv, done[q].0, done[q].1)));
                                }
                            }
                        }
                    }
                }
                proof {
                    done = next;
                }
                col = col + 1;
            }
            row = row + 1;
        }
        proof {
            assert(pair.take(2 * dimension) =~= pair);
            assert(done + micro_zigzag_cells(xc - 2, !reading_up, h) =~= full);
        }
        reading_up = !reading_up;
        x = x - 2;
    }
    proof {
        assert(micro_zigzag_cells(x as int, reading_up, h) =~= Seq::<(int, int)>::empty());
        assert(done =~= full);
        lemma_micro_total_positive(number);
        if format_info.data_mask >= 4 {
            lemma_no_symbol_data_bits(m, vv, mask, mirrored, done, short);
        }
    }
    let expected_codewords = version.get_total_codewords() as usize;
    if result.len() != expected_codewords {
        return Err(Error::InvalidFormat);
    }
    Ok(result)
}

proof fn lemma_micro_total_positive(number: u32)
    requires
        1 <= number <= 4,
    ensures
        level_codewords(spec_micro_table(number)[0]) > 0,
{
    reveal_with_fuel(level_codewords, 2);
    let l = spec_micro_table(number)[0];
    assert(l.1.len() == 1);
    assert(l.1.drop_last().len() == 0);
    assert(l.1.last().0 >= 1 && l.1.last().1 >= 1);
}

proof fn lemma_no_symbol_data_bits(m: BitMatrix, v: QrVersionView, mask: int, mirrored: bool, cells: Seq<(int, int)>, short: int)
    requires
        !has_symbol_data_cell(v, cells),
    ensures
        symbol_data_bits(m, v, mask, mirrored, cells).len() == 0,
        mqr_codewords(symbol_data_bits(m, v, mask, mirrored, cells), short).0.len() == 0,
    decreases cells.len(),
{
    if cells.len() > 0 {
        assert forall|k: int| 0 <= k < cells.drop_last().len() implies qr_function_cell(
            v,
            #[trigger] cells.drop_last()[k].0,
            cells.drop_last()[k].1,
        ) by {
            assert(cells.drop_last()[k] == cells[k]);
        }
        lemma_no_symbol_data_bits(m, v, mask, mirrored, cells.drop_last(), short);
        assert(qr_function_cell(v, cells[cells.len() - 1].0, cells[cells.len() - 1].1));
    }
}

/// Reads the codewords of a symbol by the reading order of its kind: that
/// of QR codes for a Model 2 version, that of Micro QR codes for a Micro
/// version (whose matrix must then be of odd height).
pub fn read_codewords(bit_matrix: &BitMatrix, version: &Version, format_info: &FormatInformation) -> (res: Result<
    Vec<u8>,
    Error,
>)
    requires
        bit_matrix.spec_height() as int * bit_matrix.spec_height() as int <= u32::MAX,
        version@.qr_type == Type::Micro ==> bit_matrix.spec_height() % 2 == 1,
        version@.qr_type == Type::Model1 ==> {
            &&& bit_matrix.spec_width() >= bit_matrix.spec_height()
            &&& 16 <= bit_matrix.spec_height()
            &&& bit_matrix.spec_height() % 2 == 1 || bit_matrix.spec_height() <= 18
        },
    ensures
        version@.qr_type == Type::Model1 ==> {
            &&& format_info.data_mask >= 8 ==> res == Err::<Vec<u8>, Error>(Error::InvalidArgument)
            &&& format_info.data_mask < 8 ==> {
                let codewords = model1_codewords(*bit_matrix, *format_info);
                &&& codewords.len() == version@.total_codewords ==> (res matches Ok(v) && v@ == codewords)
                &&& codewords.len() != version@.total_codewords ==> res == Err::<Vec<u8>, Error>(
                    Error::InvalidFormat,
                )
            }
        },
        version@.qr_type == Type::Model2 ==> {
            &&& format_info.data_mask >= 8 ==> res is Err
            &&& format_info.data_mask >= 8 && has_data_cell(
                version@.number,
                zigzag_cells(bit_matrix.spec_height() - 1, true, bit_matrix.spec_height() as int),
            ) ==> res == Err::<Vec<u8>, Error>(Error::InvalidArgument)
            &&& format_info.data_mask < 8 ==> {
                let bytes = bytes_of(
                    codeword_bits(*bit_matrix, version@.number, format_info.data_mask, format_info.is_mirrored),
                );
                &&& bytes.len() == version@.total_codewords ==> (res matches Ok(v) && v@ == bytes)
                &&& bytes.len() != version@.total_codewords ==> res == Err::<Vec<u8>, Error>(
                    Error::InvalidFormat,
                )
            }
        },
        version@.qr_type == Type::Micro ==> {
            &&& format_info.data_mask >= 4 ==> res is Err
            &&& format_info.data_mask >= 4 && has_symbol_data_cell(
                version@,
                micro_zigzag_cells(bit_matrix.spec_height() - 1, true, bit_matrix.spec_height() as int),
            ) ==> res == Err::<Vec<u8>, Error>(Error::InvalidArgument)
            &&& format_info.data_mask < 4 ==> {
                let cw = mqr_read(*bit_matrix, version@, *format_info);
                &&& cw.len() == version@.total_codewords ==> (res matches Ok(v) && v@ == cw)
                &&& cw.len() != version@.total_codewords ==> res == Err::<Vec<u8>, Error>(
                    Error::InvalidFormat,
                )
            }
        },
{
    if version.is_model1() {
        read_qrcodewords_model1(bit_matrix, version, format_info)
    } else if version.is_micro() {
        read_mqrcodewords(bit_matrix, version, format_info)
    } else {
        let _ = version.get_version_number();
        read_qrcodewords(bit_matrix, version, format_info)
    }
}

/// Reads and decodes the format information of a QR code: both copies,
/// the second with its dark module (see
/// [`crate::bitmatrix_parser::read_format_information`]). The format
/// information of Micro QR and rMQR symbols is coded with tables that this
/// library does not have: for a matrix of their sizes it is an unsupported
/// operation.
pub fn read_format_information(bit_matrix: &BitMatrix) -> (res: Result<FormatInformation, Error>)
    requires
        !spec_is_valid_size(matrix_size(*bit_matrix), Type::Micro) && !spec_is_valid_size(
            matrix_size(*bit_matrix),
            Type::RectMicro,
        ) ==> bit_matrix.spec_height() >= 8,
    ensures
        spec_is_valid_size(matrix_size(*bit_matrix), Type::Micro) || spec_is_valid_size(
            matrix_size(*bit_matrix),
            Type::RectMicro,
        ) ==> res == Err::<FormatInformation, Error>(Error::UnsupportedOperation),
        !spec_is_valid_size(matrix_size(*bit_matrix), Type::Micro) && !spec_is_valid_size(
            matrix_size(*bit_matrix),
            Type::RectMicro,
        ) ==> res == Ok::<FormatInformation, Error>(crate::bitmatrix_parser::read_format_spec(*bit_matrix)),
{
    if Version::has_valid_size_type(bit_matrix, Type::Micro) || Version::has_valid_size_type(
        bit_matrix,
        Type::RectMicro,
    ) {
        return Err(Error::UnsupportedOperation);
    }
    crate::bitmatrix_parser::read_format_information(bit_matrix)
}

/// The codewords of a Micro QR symbol from its data bits, written out:
/// 8-bit codewords, most significant bit first, but for codeword
/// `short_index`, which has 4 bits when the bits reach it.
pub open spec fn mqr_codewords_closed(bits: Seq<bool>, short_index: int) -> Seq<u8> {
    let p = 8 * short_index;
    if short_index >= 0 && bits.len() >= p + 4 {
        bytes_of(bits.take(p)) + seq![bits_value(bits.subrange(p, p + 4)) as u8] + bytes_of(bits.skip(p + 4))
    } else {
        bytes_of(bits)
    }
}

proof fn lemma_bytes_of_prefix(bits: Seq<bool>, n: int)
    requires
        0 <= n <= bits.len(),
        n / 8 == bits.len() / 8,
    ensures
        bytes_of(bits.take(n)) == bytes_of(bits),
{
    let a = bytes_of(bits.take(n));
    let b = bytes_of(bits);
    assert forall|i: int| 0 <= i < a.len() implies a[i] == b[i] by {
        assert(8 * i + 8 <= n) by (nonlinear_arith)
            requires
                0 <= i < n / 8,
        ;
        assert(bits.take(n).subrange(8 * i, 8 * i + 8) =~= bits.subrange(8 * i, 8 * i + 8));
    }
    assert(a =~= b);
}

proof fn lemma_mqr_codewords_state(bits: Seq<bool>, k: int)
    ensures
        ({
            let st = mqr_codewords(bits, k);
            let p = 8 * k;
            if k >= 0 && bits.len() >= p + 4 {
                let rest = bits.skip(p + 4);
                &&& st.0 == bytes_of(bits.take(p)) + seq![bits_value(bits.subrange(p, p + 4)) as u8] + bytes_of(rest)
                &&& st.1 == partial_byte(rest)
            } else {
                &&& st.0 == bytes_of(bits)
                &&& st.1 == partial_byte(bits)
            }
        }),
    decreases bits.len(),
{
    let n = bits.len() as int;
    if n == 0 {
        assert(bytes_of(bits) =~= Seq::<u8>::empty());
        assert(partial_byte(bits) =~= Seq::<bool>::empty());
        return;
    }
    let prev_bits = bits.drop_last();
    let b = bits.last();
    assert(prev_bits.push(b) =~= bits);
    lemma_mqr_codewords_state(prev_bits, k);
    let prev = mqr_codewords(prev_bits, k);
    let p = 8 * k;
    if k >= 0 && n > p + 4 {
        let rest0 = prev_bits.skip(p + 4);
        assert(bits.skip(p + 4) =~= rest0.push(b));
        assert(prev_bits.take(p) =~= bits.take(p));
        assert(prev_bits.subrange(p, p + 4) =~= bits.subrange(p, p + 4));
        lemma_bytes_push(rest0, b);
        assert(prev.0.len() == k + 1 + bytes_of(rest0).len()) by {
            assert(bytes_of(prev_bits.take(p)).len() == k) by {
                assert(prev_bits.take(p).len() == p);
                assert(p / 8 == k);
            }
        }
        assert(partial_byte(rest0).len() < 8);
        if partial_byte(rest0).push(b).len() == 8 {
            assert((rest0.len() + 1) % 8 == 0);
        }
    } else if k >= 0 && n == p + 4 {
        assert(prev_bits.len() == p + 3);
        assert(prev.0 == bytes_of(prev_bits));
        assert(prev_bits.len() / 8 == k);
        assert(bytes_of(prev_bits).len() == k);
        assert(partial_byte(prev_bits) =~= prev_bits.subrange(p, p + 3));
        assert(partial_byte(prev_bits).push(b) =~= bits.subrange(p, p + 4));
        lemma_bytes_of_prefix(prev_bits, p);
        assert(prev_bits.take(p) =~= bits.take(p));
        assert(bits.skip(p + 4) =~= Seq::<bool>::empty());
        assert(bytes_of(bits.skip(p + 4)) =~= Seq::<u8>::empty());
        assert(partial_byte(bits.skip(p + 4)) =~= Seq::<bool>::empty());
    } else {
        lemma_bytes_push(prev_bits, b);
        assert(partial_byte(prev_bits).len() == prev_bits.len() % 8);
        assert(bytes_of(prev_bits).len() == prev_bits.len() / 8);
        if k >= 0 && partial_byte(prev_bits).len() + 1 == 4 && prev.0.len() == k {
            assert(prev_bits.len() == 8 * k + 3);
            assert(false);
        }
    }
}

/// Reading a Micro QR symbol packs its data bits into 8-bit codewords, but
/// for the one codeword of 4 bits that M1 and M3 have.
pub proof fn lemma_mqr_codewords_closed(bits: Seq<bool>, short_index: int)
    ensures
        mqr_codewords(bits, short_index).0 == mqr_codewords_closed(bits, short_index),
{
    lemma_mqr_codewords_state(bits, short_index);
}

} // verus!

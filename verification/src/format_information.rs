use vstd::prelude::*;
use crate::ec_level::{ErrorCorrectionLevel, level_for_format_bits};

verus! {

/// The mask that the QR code standard applies to the format information.
pub const FORMAT_INFO_MASK_QR: u32 = 0x5412;

/// The same mask, under the name of the symbol type it belongs to.
pub const FORMAT_INFO_MASK_MODEL2: u32 = 0x5412;

/// Number of set bits of `x`.
pub open spec fn popcount(x: u32) -> nat
    decreases x,
{
    if x == 0 {
        0
    } else {
        popcount(x / 2) + (x % 2) as nat
    }
}

proof fn lemma_popcount_bound(x: u32, k: nat)
    requires
        x < pow2_nat(k),
    ensures
        popcount(x) <= k,
    decreases k,
{
    if x != 0 {
        if k == 0 {
            assert(false);
        } else {
            lemma_popcount_bound(x / 2, (k - 1) as nat);
        }
    }
}

/// `2` to the power `k`.
pub open spec fn pow2_nat(k: nat) -> nat
    decreases k,
{
    if k == 0 {
        1
    } else {
        2 * pow2_nat((k - 1) as nat)
    }
}

proof fn lemma_popcount_u32(x: u32)
    ensures
        popcount(x) <= 32,
        popcount(x) == 0 <==> x == 0,
{
    reveal_with_fuel(pow2_nat, 33);
    assert(pow2_nat(32) == 0x1_0000_0000);
    lemma_popcount_bound(x, 32);
    if x != 0 {
        lemma_popcount_positive(x);
    }
}

proof fn lemma_popcount_positive(x: u32)
    requires
        x != 0,
    ensures
        popcount(x) > 0,
    decreases x,
{
    if x % 2 == 0 {
        lemma_popcount_positive(x / 2);
    }
}

proof fn lemma_xor_zero(a: u32, b: u32)
    ensures
        (a ^ b == 0) <==> (a == b),
{
    assert((a ^ b == 0) <==> (a == b)) by (bit_vector);
}

/// Number of set bits among the low 18 bits of `x`, bit by bit.
pub open spec fn low_bit_count(x: u32) -> u32 {
    (((x >> 0u32) & 1u32)
        + ((x >> 1u32) & 1u32)
        + ((x >> 2u32) & 1u32)
        + ((x >> 3u32) & 1u32)
        + ((x >> 4u32) & 1u32)
        + ((x >> 5u32) & 1u32)
        + ((x >> 6u32) & 1u32)
        + ((x >> 7u32) & 1u32)
        + ((x >> 8u32) & 1u32)
        + ((x >> 9u32) & 1u32)
        + ((x >> 10u32) & 1u32)
        + ((x >> 11u32) & 1u32)
        + ((x >> 12u32) & 1u32)
        + ((x >> 13u32) & 1u32)
        + ((x >> 14u32) & 1u32)
        + ((x >> 15u32) & 1u32)
        + ((x >> 16u32) & 1u32)
        + ((x >> 17u32) & 1u32)
    ) as u32
}

proof fn lemma_low_bit_count_step(x: u32)
    by (bit_vector)
    requires
        x < 0x40000u32,
    ensures
        low_bit_count(x) == (low_bit_count(x / 2u32) + x % 2u32) as u32,
        low_bit_count(x / 2u32) + x % 2u32 < 0x100,
        x / 2u32 < 0x40000u32,
{
}

/// Below `2^18`, `popcount` counts the same bits as `low_bit_count`.
pub proof fn lemma_popcount_low_bits(x: u32)
    requires
        x < 0x40000u32,
    ensures
        popcount(x) == low_bit_count(x) as nat,
    decreases x,
{
    if x == 0 {
        assert(low_bit_count(0u32) == 0u32) by (bit_vector);
    } else {
        lemma_low_bit_count_step(x);
        lemma_popcount_low_bits(x / 2);
    }
}

proof fn lemma_xor_halves(x: u32, y: u32)
    by (bit_vector)
    ensures
        (x ^ y) / 2u32 == (x / 2u32) ^ (y / 2u32),
        (x ^ y) % 2u32 <= x % 2u32 + y % 2u32,
        0u32 ^ y == y,
{
}

proof fn lemma_popcount_xor_le(x: u32, y: u32)
    ensures
        popcount(x ^ y) <= popcount(x) + popcount(y),
    decreases x,
{
    lemma_xor_halves(x, y);
    if x != 0 {
        lemma_popcount_xor_le(x / 2, y / 2);
    }
}

proof fn lemma_xor_chain(a: u32, b: u32, c: u32)
    by (bit_vector)
    ensures
        a ^ c == (a ^ b) ^ (b ^ c),
        a ^ b == b ^ a,
{
}

/// The Hamming distance is symmetric and obeys the triangle inequality.
pub proof fn lemma_bits_differing_triangle(a: u32, b: u32, c: u32)
    ensures
        bits_differing(a, b) == bits_differing(b, a),
        bits_differing(a, c) <= bits_differing(a, b) + bits_differing(b, c),
{
    lemma_xor_chain(a, b, c);
    lemma_popcount_xor_le(a ^ b, b ^ c);
}

/// Number of bits in which `a` and `b` differ.
pub open spec fn bits_differing(a: u32, b: u32) -> nat {
    popcount(a ^ b)
}

/// The 32 masked format information words (ISO 18004:2006, Annex C, Table
/// C.1); word `i` carries the five data bits `i`.
pub open spec fn spec_masked_patterns() -> Seq<u32> {
    seq![
        0x5412u32, 0x5125, 0x5E7C, 0x5B4B, 0x45F9, 0x40CE, 0x4F97, 0x4AA0, 0x77C4, 0x72F3, 0x7DAA,
        0x789D, 0x662F, 0x6318, 0x6C41, 0x6976, 0x1689, 0x13BE, 0x1CE7, 0x19D0, 0x0762, 0x0255,
        0x0D0C, 0x083B, 0x355F, 0x3068, 0x3F31, 0x3A06, 0x24B4, 0x2183, 0x2EDA, 0x2BED,
    ]
}

fn masked_pattern(index: usize) -> (res: u32)
    requires
        index < 32,
    ensures
        res == spec_masked_patterns()[index as int],
{
    let table: [u32; 32] = [
        0x5412, 0x5125, 0x5E7C, 0x5B4B, 0x45F9, 0x40CE, 0x4F97, 0x4AA0, 0x77C4, 0x72F3, 0x7DAA,
        0x789D, 0x662F, 0x6318, 0x6C41, 0x6976, 0x1689, 0x13BE, 0x1CE7, 0x19D0, 0x0762, 0x0255,
        0x0D0C, 0x083B, 0x355F, 0x3068, 0x3F31, 0x3A06, 0x24B4, 0x2183, 0x2EDA, 0x2BED,
    ];
    assert(table@ =~= spec_masked_patterns());
    table[index]
}

/// A QR code's format information: the error correction level and the data
/// mask, with what the search for the best match left behind.
#[derive(Debug, PartialEq, Eq, Hash, Structural)]
pub struct FormatInformation {
    pub hamming_distance: u32,
    pub error_correction_level: ErrorCorrectionLevel,
    pub data_mask: u8,
    pub micro_version: u32,
    pub is_mirrored: bool,
    pub mask: u32,
    pub data: u32,
    pub bits_index: u8,
}

/// The format information before any search: nothing matched.
pub open spec fn default_format_information() -> FormatInformation {
    FormatInformation {
        hamming_distance: 255,
        error_correction_level: ErrorCorrectionLevel::Invalid,
        data_mask: 0,
        micro_version: 0,
        is_mirrored: false,
        mask: 0,
        data: 255,
        bits_index: 255,
    }
}

/// The format information that the five data bits `format_info` carry: bits
/// 3 and 4 give the level, bits 0 to 2 the data mask.
pub open spec fn format_information_for(format_info: u8) -> FormatInformation {
    FormatInformation {
        hamming_distance: 255,
        error_correction_level: level_for_format_bits(((format_info >> 3u8) & 3u8) as int),
        data_mask: format_info & 7u8,
        micro_version: 0,
        is_mirrored: false,
        mask: 0,
        data: 255,
        bits_index: 255,
    }
}

/// Distance of the pair of read words to table word `i`: the nearer of
/// the two.
pub open spec fn pair_distance(info1: u32, info2: u32, i: int) -> nat {
    let d1 = bits_differing(info1, spec_masked_patterns()[i]);
    let d2 = bits_differing(info2, spec_masked_patterns()[i]);
    if d1 <= d2 {
        d1
    } else {
        d2
    }
}

/// Whether table word `i` is the first of the nearest words to the pair.
pub open spec fn is_first_nearest(info1: u32, info2: u32, i: int) -> bool {
    &&& 0 <= i < 32
    &&& forall|j: int| 0 <= j < 32 ==> pair_distance(info1, info2, j) >= pair_distance(info1, info2, i)
    &&& forall|j: int| 0 <= j < i ==> pair_distance(info1, info2, j) > pair_distance(info1, info2, i)
}

/// The format information that a pair of masked words decodes to: the
/// first nearest table word, when it differs in at most three bits.
pub open spec fn spec_decode_pair(info1: u32, info2: u32) -> Option<FormatInformation> {
    if exists|i: int| 0 <= i < 32 && pair_distance(info1, info2, i) <= 3 {
        let i = choose|i: int| is_first_nearest(info1, info2, i);
        Some(format_information_for(i as u8))
    } else {
        None
    }
}

/// Hamming distance of the read word `bits[b]` with `masks[m]` applied to
/// the format word of table entry `p`.
pub open spec fn candidate_distance(masks: Seq<u32>, bits: Seq<u32>, m: int, b: int, p: int) -> nat {
    popcount((bits[b] ^ masks[m]) ^ (spec_masked_patterns()[p] ^ FORMAT_INFO_MASK_QR))
}

/// Whether candidate `(m, b, p)` comes before `(mi, bi, pi)` in the order
/// of the search: masks first, then read words, then table entries.
pub open spec fn candidate_before(m: int, b: int, p: int, mi: int, bi: int, pi: int) -> bool {
    m < mi || (m == mi && (b < bi || (b == bi && p < pi)))
}

/// Whether `(m, b, p)` is a candidate of the search.
pub open spec fn is_candidate(masks: Seq<u32>, bits: Seq<u32>, m: int, b: int, p: int) -> bool {
    0 <= m < masks.len() && 0 <= b < bits.len() && 0 <= p < 32
}

/// Whether `(m, b, p)` is the first candidate of least distance.
pub open spec fn is_best_candidate(masks: Seq<u32>, bits: Seq<u32>, m: int, b: int, p: int) -> bool {
    &&& is_candidate(masks, bits, m, b, p)
    &&& forall|m2: int, b2: int, p2: int|
        #![trigger candidate_distance(masks, bits, m2, b2, p2)]
        is_candidate(masks, bits, m2, b2, p2) ==> candidate_distance(masks, bits, m2, b2, p2)
            >= candidate_distance(masks, bits, m, b, p)
    &&& forall|m2: int, b2: int, p2: int|
        #![trigger candidate_distance(masks, bits, m2, b2, p2)]
        is_candidate(masks, bits, m2, b2, p2) && candidate_before(m2, b2, p2, m, b, p)
            ==> candidate_distance(masks, bits, m2, b2, p2) > candidate_distance(masks, bits, m, b, p)
}

/// What the search over masks, read words and table entries finds: the
/// first candidate of least distance, or nothing when there is no candidate.
pub open spec fn spec_find_best(masks: Seq<u32>, bits: Seq<u32>) -> FormatInformation {
    if masks.len() > 0 && bits.len() > 0 {
        let (m, b, p) = choose|m: int, b: int, p: int| is_best_candidate(masks, bits, m, b, p);
        FormatInformation {
            hamming_distance: candidate_distance(masks, bits, m, b, p) as u32,
            error_correction_level: ErrorCorrectionLevel::Invalid,
            data_mask: 0,
            micro_version: 0,
            is_mirrored: false,
            mask: masks[m],
            data: (spec_masked_patterns()[p] ^ FORMAT_INFO_MASK_QR) >> 10u32,
            bits_index: b as u8,
        }
    } else {
        default_format_information()
    }
}

/// Reverses the lowest `n` bits of `x`.
pub open spec fn reverse_low_bits(x: nat, n: nat) -> nat
    decreases n,
{
    if n == 0 {
        0
    } else {
        (x % 2) * pow2_nat((n - 1) as nat) + reverse_low_bits(x / 2, (n - 1) as nat)
    }
}

proof fn lemma_reverse_low_bits_bound(x: nat, n: nat)
    ensures
        reverse_low_bits(x, n) < pow2_nat(n),
    decreases n,
{
    if n > 0 {
        lemma_reverse_low_bits_bound(x / 2, (n - 1) as nat);
        let p = pow2_nat((n - 1) as nat);
        assert((x % 2) * p <= p) by (nonlinear_arith)
            requires
                x % 2 <= 1,
        ;
    }
}

/// The second copy of the format bits with the dark module taken out,
/// as read in reading order.
pub open spec fn second_copy(bits2: u32) -> u32 {
    ((bits2 >> 1u32) & 0b111111100000000u32) | (bits2 & 0b11111111u32)
}

/// The second copy with the dark module taken out, for a mirrored symbol.
pub open spec fn second_copy_mirrored(bits2: u32) -> u32 {
    reverse_low_bits((((bits2 >> 1u32) & 0b111111110000000u32) | (bits2 & 0b1111111u32)) as nat, 15) as u32
}

/// The format information that `decode_qr` reads from the two copies.
pub open spec fn spec_decode_qr(bits1: u32, bits2: u32) -> FormatInformation {
    let best = spec_find_best(
        seq![FORMAT_INFO_MASK_QR, 0u32],
        seq![
            bits1,
            second_copy(bits2),
            reverse_low_bits(bits1 as nat, 15) as u32,
            second_copy_mirrored(bits2),
        ],
    );
    FormatInformation {
        error_correction_level: level_for_format_bits((((best.data >> 3u32) as u8) & 3u8) as int),
        data_mask: (best.data as u8) & 7u8,
        is_mirrored: best.bits_index > 1,
        ..best
    }
}

proof fn lemma_first_nearest_unique(info1: u32, info2: u32, i: int, k: int)
    requires
        is_first_nearest(info1, info2, i),
        is_first_nearest(info1, info2, k),
    ensures
        i == k,
{
    if i < k {
        assert(pair_distance(info1, info2, i) > pair_distance(info1, info2, k));
    }
    if k < i {
        assert(pair_distance(info1, info2, k) > pair_distance(info1, info2, i));
    }
}

proof fn lemma_best_candidate_unique(masks: Seq<u32>, bits: Seq<u32>, m: int, b: int, p: int, m2: int, b2: int, p2: int)
    requires
        is_best_candidate(masks, bits, m, b, p),
        is_best_candidate(masks, bits, m2, b2, p2),
    ensures
        m == m2 && b == b2 && p == p2,
{
    let d1 = candidate_distance(masks, bits, m, b, p);
    let d2 = candidate_distance(masks, bits, m2, b2, p2);
    assert(d1 >= d2 && d2 >= d1);
    if candidate_before(m, b, p, m2, b2, p2) {
        assert(d1 > d2);
    }
    if candidate_before(m2, b2, p2, m, b, p) {
        assert(d2 > d1);
    }
}

impl FormatInformation {
    /// The format information that the five data bits `format_info` carry.
    fn new(format_info: u8) -> (res: Self)
        ensures
            res == format_information_for(format_info),
    {
        let level_bits: u8 = (format_info >> 3) & 0x03;
        proof {
            assert((format_info >> 3u8) & 3u8 < 4) by (bit_vector);
        }
        let error_correction_level = match ErrorCorrectionLevel::for_bits(level_bits) {
            Ok(level) => level,
            Err(_) => ErrorCorrectionLevel::Invalid,
        };
        FormatInformation {
            hamming_distance: 255,
            micro_version: 0,
            error_correction_level,
            data_mask: format_info & 0x07,
            is_mirrored: false,
            mask: 0,
            bits_index: 255,
            data: 255,
        }
    }

    /// Number of bits in which `a` and `b` differ.
    pub fn num_bits_differing(a: u32, b: u32) -> (res: u32)
        ensures
            res == bits_differing(a, b),
            res <= 32,
    {
        let mut rest: u32 = a ^ b;
        let mut count: u32 = 0;
        proof {
            lemma_popcount_u32(a ^ b);
        }
        while rest != 0
            invariant
                count + popcount(rest) == popcount(a ^ b),
                popcount(a ^ b) <= 32,
            decreases rest,
        {
            count = count + rest % 2;
            rest = rest / 2;
        }
        count
    }

    /// Decodes two copies of the masked format information: the table word
    /// nearest to either copy, if it is at most three bits away. When
    /// nothing is that near, the copies are tried again with the mask
    /// applied, for symbols that leave their format information unmasked.
    pub fn decode_format_information(masked_format_info1: u32, masked_format_info2: u32) -> (res: Option<FormatInformation>)
        ensures
            res == (if spec_decode_pair(masked_format_info1, masked_format_info2) is Some {
                spec_decode_pair(masked_format_info1, masked_format_info2)
            } else {
                spec_decode_pair(
                    masked_format_info1 ^ FORMAT_INFO_MASK_QR,
                    masked_format_info2 ^ FORMAT_INFO_MASK_QR,
                )
            }),
    {
        let format_info = Self::do_decode_format_information(masked_format_info1, masked_format_info2);
        if format_info.is_some() {
            return format_info;
        }
        Self::do_decode_format_information(
            masked_format_info1 ^ FORMAT_INFO_MASK_QR,
            masked_format_info2 ^ FORMAT_INFO_MASK_QR,
        )
    }

    fn do_decode_format_information(masked_format_info1: u32, masked_format_info2: u32) -> (res: Option<FormatInformation>)
        ensures
            res == spec_decode_pair(masked_format_info1, masked_format_info2),
    {
        let ghost info1 = masked_format_info1;
        let ghost info2 = masked_format_info2;
        let mut best_difference: u32 = u32::MAX;
        let mut best_format_info: u8 = 0;
        let mut i: usize = 0;
        while i < 32
            invariant
                i <= 32,
                info1 == masked_format_info1,
                info2 == masked_format_info2,
                i == 0 ==> best_difference == u32::MAX,
                i > 0 ==> best_format_info < i && best_difference == pair_distance(info1, info2, best_format_info as int),
                forall|j: int| 0 <= j < i ==> pair_distance(info1, info2, j) >= best_difference,
                forall|j: int| 0 <= j < i ==> pair_distance(info1, info2, j) > 0,
                forall|j: int| 0 <= j < best_format_info ==> pair_distance(info1, info2, j) > best_difference,
            decreases 32 - i,
        {
            let target_info = masked_pattern(i);
            proof {
                lemma_xor_zero(masked_format_info1, target_info);
                lemma_xor_zero(masked_format_info2, target_info);
                lemma_popcount_u32(masked_format_info1 ^ target_info);
                lemma_popcount_u32(masked_format_info2 ^ target_info);
            }
            if target_info == masked_format_info1 || target_info == masked_format_info2 {
                proof {
                    assert(pair_distance(info1, info2, i as int) == 0);
                    assert(is_first_nearest(info1, info2, i as int));
                    let k = choose|k: int| is_first_nearest(info1, info2, k);
                    lemma_first_nearest_unique(info1, info2, i as int, k);
                }
                return Some(Self::new(i as u8));
            }
            let mut bits_difference = Self::num_bits_differing(masked_format_info1, target_info);
            if bits_difference < best_difference {
                best_format_info = i as u8;
                best_difference = bits_difference;
            }
            if masked_format_info1 != masked_format_info2 {
                bits_difference = Self::num_bits_differing(masked_format_info2, target_info);
                if bits_difference < best_difference {
                    best_format_info = i as u8;
                    best_difference = bits_difference;
                }
            }
            i = i + 1;
        }
        proof {
            assert(is_first_nearest(info1, info2, best_format_info as int));
            let k = choose|k: int| is_first_nearest(info1, info2, k);
            lemma_first_nearest_unique(info1, info2, best_format_info as int, k);
        }
        if best_difference <= 3 {
            return Some(Self::new(best_format_info));
        }
        None
    }

    /// The error correction level.
    pub fn get_error_correction_level(&self) -> (res: ErrorCorrectionLevel)
        ensures
            res == self.error_correction_level,
    {
        self.error_correction_level
    }

    /// The data mask, 0 to 7.
    pub fn get_data_mask(&self) -> (res: u8)
        ensures
            res == self.data_mask,
    {
        self.data_mask
    }

    /// Reverses the lowest 15 bits of `bits`: the format bits as read from a
    /// mirrored symbol.
    pub fn mirror_bits(bits: u32) -> (res: u32)
        ensures
            res == reverse_low_bits(bits as nat, 15),
    {
        let mut rest: u32 = bits;
        let mut weight: u32 = 0x4000;
        let mut result: u32 = 0;
        let mut i: u32 = 0;
        proof {
            reveal_with_fuel(pow2_nat, 16);
        }
        while i < 15
            invariant
                i <= 15,
                i < 15 ==> weight == pow2_nat((14 - i) as nat),
                weight <= 0x4000,
                result + reverse_low_bits(rest as nat, (15 - i) as nat) == reverse_low_bits(bits as nat, 15),
                result + 2 * weight <= 0x8000,
            decreases 15 - i,
        {
            let bit: u32 = rest % 2;
            assert(bit * weight <= weight) by (nonlinear_arith)
                requires
                    bit <= 1,
            ;
            proof {
                if i < 14 {
                    assert(pow2_nat((14 - i) as nat) == 2 * pow2_nat((13 - i) as nat));
                }
            }
            result = result + bit * weight;
            rest = rest / 2;
            weight = weight / 2;
            i = i + 1;
        }
        result
    }

    /// Searches every mask in `masks`, applied to every read word in
    /// `bits`, for the format word it is nearest to; the first candidate
    /// of least distance wins.
    pub fn find_best_format_info(masks: &[u32], bits: &[u32]) -> (res: Self)
        ensures
            res == spec_find_best(masks@, bits@),
    {
        let mut fi = FormatInformation {
            hamming_distance: 255,
            error_correction_level: ErrorCorrectionLevel::Invalid,
            data_mask: 0,
            micro_version: 0,
            is_mirrored: false,
            mask: 0,
            data: 255,
            bits_index: 255,
        };
        let ghost mut best: (int, int, int) = (0, 0, 0);
        let mut found: bool = false;
        let mut mi: usize = 0;
        while mi < masks.len()
            invariant
                mi <= masks@.len(),
                !found ==> mi == 0 || bits@.len() == 0,
                !found ==> fi == default_format_information(),
                found ==> is_candidate(masks@, bits@, best.0, best.1, best.2) && candidate_before(best.0, best.1, best.2, mi as int, 0, 0),
                found ==> fi == (FormatInformation {
                    hamming_distance: candidate_distance(masks@, bits@, best.0, best.1, best.2) as u32,
                    error_correction_level: ErrorCorrectionLevel::Invalid,
                    data_mask: 0,
                    micro_version: 0,
                    is_mirrored: false,
                    mask: masks@[best.0],
                    data: (spec_masked_patterns()[best.2] ^ FORMAT_INFO_MASK_QR) >> 10u32,
                    bits_index: best.1 as u8,
                }),
                forall|m2: int, b2: int, p2: int|
                    #![trigger candidate_distance(masks@, bits@, m2, b2, p2)]
                    is_candidate(masks@, bits@, m2, b2, p2) && candidate_before(m2, b2, p2, mi as int, 0, 0)
                        ==> candidate_distance(masks@, bits@, m2, b2, p2) >= fi.hamming_distance,
                forall|m2: int, b2: int, p2: int|
                    #![trigger candidate_distance(masks@, bits@, m2, b2, p2)]
                    is_candidate(masks@, bits@, m2, b2, p2) && candidate_before(m2, b2, p2, best.0, best.1, best.2)
                        ==> candidate_distance(masks@, bits@, m2, b2, p2) > fi.hamming_distance,
            decreases masks@.len() - mi,
        {
            let mask = masks[mi];
            let mut bi: usize = 0;
            while bi < bits.len()
                invariant
                    mi < masks@.len(),
                    bi <= bits@.len(),
                    mask == masks@[mi as int],
                    !found ==> (mi == 0 && bi == 0) || bits@.len() == 0,
                    !found ==> fi == default_format_information(),
                    found ==> is_candidate(masks@, bits@, best.0, best.1, best.2) && candidate_before(best.0, best.1, best.2, mi as int, bi as int, 0),
                    found ==> fi == (FormatInformation {
                        hamming_distance: candidate_distance(masks@, bits@, best.0, best.1, best.2) as u32,
                        error_correction_level: ErrorCorrectionLevel::Invalid,
                        data_mask: 0,
                        micro_version: 0,
                        is_mirrored: false,
                        mask: masks@[best.0],
                        data: (spec_masked_patterns()[best.2] ^ FORMAT_INFO_MASK_QR) >> 10u32,
                        bits_index: best.1 as u8,
                    }),
                    forall|m2: int, b2: int, p2: int|
                        #![trigger candidate_distance(masks@, bits@, m2, b2, p2)]
                        is_candidate(masks@, bits@, m2, b2, p2) && candidate_before(m2, b2, p2, mi as int, bi as int, 0)
                            ==> candidate_distance(masks@, bits@, m2, b2, p2) >= fi.hamming_distance,
                    forall|m2: int, b2: int, p2: int|
                        #![trigger candidate_distance(masks@, bits@, m2, b2, p2)]
                        is_candidate(masks@, bits@, m2, b2, p2) && candidate_before(m2, b2, p2, best.0, best.1, best.2)
                            ==> candidate_distance(masks@, bits@, m2, b2, p2) > fi.hamming_distance,
                decreases bits@.len() - bi,
            {
                let bits_item = bits[bi];
                let mut pi: usize = 0;
                while pi < 32
                    invariant
                        mi < masks@.len(),
                        bi < bits@.len(),
                        pi <= 32,
                        mask == masks@[mi as int],
                        bits_item == bits@[bi as int],
                        !found ==> mi == 0 && bi == 0 && pi == 0,
                        !found ==> fi == default_format_information(),
                        found ==> is_candidate(masks@, bits@, best.0, best.1, best.2) && candidate_before(best.0, best.1, best.2, mi as int, bi as int, pi as int),
                        found ==> fi == (FormatInformation {
                            hamming_distance: candidate_distance(masks@, bits@, best.0, best.1, best.2) as u32,
                            error_correction_level: ErrorCorrectionLevel::Invalid,
                            data_mask: 0,
                            micro_version: 0,
                            is_mirrored: false,
                            mask: masks@[best.0],
                            data: (spec_masked_patterns()[best.2] ^ FORMAT_INFO_MASK_QR) >> 10u32,
                            bits_index: best.1 as u8,
                        }),
                        forall|m2: int, b2: int, p2: int|
                            #![trigger candidate_distance(masks@, bits@, m2, b2, p2)]
                            is_candidate(masks@, bits@, m2, b2, p2) && candidate_before(m2, b2, p2, mi as int, bi as int, pi as int)
                                ==> candidate_distance(masks@, bits@, m2, b2, p2) >= fi.hamming_distance,
                        forall|m2: int, b2: int, p2: int|
                            #![trigger candidate_distance(masks@, bits@, m2, b2, p2)]
                            is_candidate(masks@, bits@, m2, b2, p2) && candidate_before(m2, b2, p2, best.0, best.1, best.2)
                                ==> candidate_distance(masks@, bits@, m2, b2, p2) > fi.hamming_distance,
                    decreases 32 - pi,
                {
                    let pattern = masked_pattern(pi) ^ FORMAT_INFO_MASK_QR;
                    let hamming_dist = Self::num_bits_differing(bits_item ^ mask, pattern);
                    proof {
                        assert(hamming_dist == candidate_distance(masks@, bits@, mi as int, bi as int, pi as int));
                    }
                    if hamming_dist < fi.hamming_distance {
                        fi.mask = mask;
                        fi.data = pattern >> 10;
                        fi.hamming_distance = hamming_dist;
                        fi.bits_index = bi as u8;
                        proof {
                            best = (mi as int, bi as int, pi as int);
                        }
                        found = true;
                    }
                    pi = pi + 1;
                }
                bi = bi + 1;
            }
            mi = mi + 1;
        }
        proof {
            if masks@.len() > 0 && bits@.len() > 0 {
                assert(found);
                lemma_popcount_u32((bits@[best.1] ^ masks@[best.0]) ^ (spec_masked_patterns()[best.2] ^ FORMAT_INFO_MASK_QR));
                assert(is_best_candidate(masks@, bits@, best.0, best.1, best.2));
                let (m, b, p) = choose|m: int, b: int, p: int| is_best_candidate(masks@, bits@, m, b, p);
                lemma_best_candidate_unique(masks@, bits@, best.0, best.1, best.2, m, b, p);
            }
        }
        fi
    }

    /// Reads the format information of a QR code from its two copies: the
    /// search covers the copies as read and mirrored, with and without the
    /// standard mask; bits 3 and 4 of the result give the error correction
    /// level and bits 0 to 2 the data mask.
    pub fn decode_qr(format_info_bits1: u32, format_info_bits2: u32) -> (res: Self)
        ensures
            res == spec_decode_qr(format_info_bits1, format_info_bits2),
    {
        let mirrored_format_info_bits2 = Self::mirror_bits(
            ((format_info_bits2 >> 1) & 0b111111110000000) | (format_info_bits2 & 0b1111111),
        );
        let second = ((format_info_bits2 >> 1) & 0b111111100000000) | (format_info_bits2 & 0b11111111);
        let mirrored_first = Self::mirror_bits(format_info_bits1);
        let masks: [u32; 2] = [FORMAT_INFO_MASK_QR, 0];
        let bits: [u32; 4] = [format_info_bits1, second, mirrored_first, mirrored_format_info_bits2];
        proof {
            lemma_reverse_low_bits_bound(format_info_bits1 as nat, 15);
            lemma_reverse_low_bits_bound(
                (((format_info_bits2 >> 1u32) & 0b111111110000000u32) | (format_info_bits2 & 0b1111111u32)) as nat,
                15,
            );
            reveal_with_fuel(pow2_nat, 16);
            assert(masks@ =~= seq![FORMAT_INFO_MASK_QR, 0u32]);
            assert(bits@ =~= seq![
                format_info_bits1,
                second_copy(format_info_bits2),
                reverse_low_bits(format_info_bits1 as nat, 15) as u32,
                second_copy_mirrored(format_info_bits2),
            ]);
        }
        let mut format_info = Self::find_best_format_info(&masks, &bits);
        format_info.error_correction_level = ErrorCorrectionLevel::from_format_bits((format_info.data >> 3) as u8);
        format_info.data_mask = format_info.data as u8 & 0x07;
        format_info.is_mirrored = format_info.bits_index > 1;
        format_info
    }
}

impl Default for FormatInformation {
    /// The format information before any search: nothing matched.
    fn default() -> (res: Self)
        ensures
            res == default_format_information(),
    {
        FormatInformation {
            hamming_distance: 255,
            error_correction_level: ErrorCorrectionLevel::Invalid,
            data_mask: 0,
            micro_version: 0,
            is_mirrored: false,
            mask: 0,
            data: 255,
            bits_index: 255,
        }
    }
}

proof fn lemma_pattern_data_literals()
    by (bit_vector)
    ensures
        (0x5412u32 ^ 0x5412u32) >> 10u32 == 0u32,
        (0x5125u32 ^ 0x5412u32) >> 10u32 == 1u32,
        (0x5E7Cu32 ^ 0x5412u32) >> 10u32 == 2u32,
        (0x5B4Bu32 ^ 0x5412u32) >> 10u32 == 3u32,
        (0x45F9u32 ^ 0x5412u32) >> 10u32 == 4u32,
        (0x40CEu32 ^ 0x5412u32) >> 10u32 == 5u32,
        (0x4F97u32 ^ 0x5412u32) >> 10u32 == 6u32,
        (0x4AA0u32 ^ 0x5412u32) >> 10u32 == 7u32,
        (0x77C4u32 ^ 0x5412u32) >> 10u32 == 8u32,
        (0x72F3u32 ^ 0x5412u32) >> 10u32 == 9u32,
        (0x7DAAu32 ^ 0x5412u32) >> 10u32 == 10u32,
        (0x789Du32 ^ 0x5412u32) >> 10u32 == 11u32,
        (0x662Fu32 ^ 0x5412u32) >> 10u32 == 12u32,
        (0x6318u32 ^ 0x5412u32) >> 10u32 == 13u32,
        (0x6C41u32 ^ 0x5412u32) >> 10u32 == 14u32,
        (0x6976u32 ^ 0x5412u32) >> 10u32 == 15u32,
        (0x1689u32 ^ 0x5412u32) >> 10u32 == 16u32,
        (0x13BEu32 ^ 0x5412u32) >> 10u32 == 17u32,
        (0x1CE7u32 ^ 0x5412u32) >> 10u32 == 18u32,
        (0x19D0u32 ^ 0x5412u32) >> 10u32 == 19u32,
        (0x0762u32 ^ 0x5412u32) >> 10u32 == 20u32,
        (0x0255u32 ^ 0x5412u32) >> 10u32 == 21u32,
        (0x0D0Cu32 ^ 0x5412u32) >> 10u32 == 22u32,
        (0x083Bu32 ^ 0x5412u32) >> 10u32 == 23u32,
        (0x355Fu32 ^ 0x5412u32) >> 10u32 == 24u32,
        (0x3068u32 ^ 0x5412u32) >> 10u32 == 25u32,
        (0x3F31u32 ^ 0x5412u32) >> 10u32 == 26u32,
        (0x3A06u32 ^ 0x5412u32) >> 10u32 == 27u32,
        (0x24B4u32 ^ 0x5412u32) >> 10u32 == 28u32,
        (0x2183u32 ^ 0x5412u32) >> 10u32 == 29u32,
        (0x2EDAu32 ^ 0x5412u32) >> 10u32 == 30u32,
        (0x2BEDu32 ^ 0x5412u32) >> 10u32 == 31u32,
{
}

/// Unmasked, table word `a` carries `a` in its top five bits.
proof fn lemma_pattern_data_bits()
    ensures
        forall|a: int| 0 <= a < 32 ==> #[trigger] ((spec_masked_patterns()[a] ^ FORMAT_INFO_MASK_QR) >> 10u32) == a,
{
    lemma_pattern_data_literals();
    assert forall|a: int| 0 <= a < 32 implies #[trigger] ((spec_masked_patterns()[a] ^ FORMAT_INFO_MASK_QR)
        >> 10u32) == a by {
        if a == 0 {
        } else if a == 1 {
        } else if a == 2 {
        } else if a == 3 {
        } else if a == 4 {
        } else if a == 5 {
        } else if a == 6 {
        } else if a == 7 {
        } else if a == 8 {
        } else if a == 9 {
        } else if a == 10 {
        } else if a == 11 {
        } else if a == 12 {
        } else if a == 13 {
        } else if a == 14 {
        } else if a == 15 {
        } else if a == 16 {
        } else if a == 17 {
        } else if a == 18 {
        } else if a == 19 {
        } else if a == 20 {
        } else if a == 21 {
        } else if a == 22 {
        } else if a == 23 {
        } else if a == 24 {
        } else if a == 25 {
        } else if a == 26 {
        } else if a == 27 {
        } else if a == 28 {
        } else if a == 29 {
        } else if a == 30 {
        } else if a == 31 {
        }
    }
}

/// One step of dividing a binary polynomial (bit `k` the coefficient of
/// `x^k`) by a generator: the term of degree `b` is cancelled, when present,
/// by the generator times `x^shift`.
pub open spec fn gf2_reduce(v: u32, g: u32, shift: u32, b: u32) -> u32 {
    if (v >> b) & 1u32 == 1u32 {
        v ^ (g << shift)
    } else {
        v
    }
}

/// The BCH(15, 5) code word of five data bits (ISO 18004 Annex C): the data
/// followed by the remainder of `data * x^10` divided by the generator
/// `x^10 + x^8 + x^5 + x^4 + x^2 + x + 1`.
pub open spec fn bch_15_5(data: u32) -> u32 {
    let v0 = data << 10u32;
    let v1 = gf2_reduce(v0, 0x537u32, 4u32, 14u32);
    let v2 = gf2_reduce(v1, 0x537u32, 3u32, 13u32);
    let v3 = gf2_reduce(v2, 0x537u32, 2u32, 12u32);
    let v4 = gf2_reduce(v3, 0x537u32, 1u32, 11u32);
    let v5 = gf2_reduce(v4, 0x537u32, 0u32, 10u32);
    v0 | v5
}

proof fn lemma_bch_15_5_values()
    by (bit_vector)
    ensures
        bch_15_5(0u32) ^ 0x5412u32 == 0x5412u32,
        bch_15_5(1u32) ^ 0x5412u32 == 0x5125u32,
        bch_15_5(2u32) ^ 0x5412u32 == 0x5E7Cu32,
        bch_15_5(3u32) ^ 0x5412u32 == 0x5B4Bu32,
        bch_15_5(4u32) ^ 0x5412u32 == 0x45F9u32,
        bch_15_5(5u32) ^ 0x5412u32 == 0x40CEu32,
        bch_15_5(6u32) ^ 0x5412u32 == 0x4F97u32,
        bch_15_5(7u32) ^ 0x5412u32 == 0x4AA0u32,
        bch_15_5(8u32) ^ 0x5412u32 == 0x77C4u32,
        bch_15_5(9u32) ^ 0x5412u32 == 0x72F3u32,
        bch_15_5(10u32) ^ 0x5412u32 == 0x7DAAu32,
        bch_15_5(11u32) ^ 0x5412u32 == 0x789Du32,
        bch_15_5(12u32) ^ 0x5412u32 == 0x662Fu32,
        bch_15_5(13u32) ^ 0x5412u32 == 0x6318u32,
        bch_15_5(14u32) ^ 0x5412u32 == 0x6C41u32,
        bch_15_5(15u32) ^ 0x5412u32 == 0x6976u32,
        bch_15_5(16u32) ^ 0x5412u32 == 0x1689u32,
        bch_15_5(17u32) ^ 0x5412u32 == 0x13BEu32,
        bch_15_5(18u32) ^ 0x5412u32 == 0x1CE7u32,
        bch_15_5(19u32) ^ 0x5412u32 == 0x19D0u32,
        bch_15_5(20u32) ^ 0x5412u32 == 0x762u32,
        bch_15_5(21u32) ^ 0x5412u32 == 0x255u32,
        bch_15_5(22u32) ^ 0x5412u32 == 0xD0Cu32,
        bch_15_5(23u32) ^ 0x5412u32 == 0x83Bu32,
        bch_15_5(24u32) ^ 0x5412u32 == 0x355Fu32,
        bch_15_5(25u32) ^ 0x5412u32 == 0x3068u32,
        bch_15_5(26u32) ^ 0x5412u32 == 0x3F31u32,
        bch_15_5(27u32) ^ 0x5412u32 == 0x3A06u32,
        bch_15_5(28u32) ^ 0x5412u32 == 0x24B4u32,
        bch_15_5(29u32) ^ 0x5412u32 == 0x2183u32,
        bch_15_5(30u32) ^ 0x5412u32 == 0x2EDAu32,
        bch_15_5(31u32) ^ 0x5412u32 == 0x2BEDu32,
{
}

/// Every word of the format information table is the BCH(15, 5) code word
/// of its index (two level bits, three mask bits) masked with `0x5412`; so
/// the word of level L (`01`) and data mask 0 is `0x77C4`.
pub proof fn lemma_format_words_are_bch()
    ensures
        forall|d: int| 0 <= d < 32 ==> #[trigger] spec_masked_patterns()[d] == bch_15_5(d as u32) ^ 0x5412u32,
        spec_masked_patterns()[8] == 0x77C4u32,
{
    lemma_bch_15_5_values();
    assert forall|d: int| 0 <= d < 32 implies #[trigger] spec_masked_patterns()[d] == bch_15_5(d as u32)
        ^ 0x5412u32 by {
        if d == 0 {
        } else if d == 1 {
        } else if d == 2 {
        } else if d == 3 {
        } else if d == 4 {
        } else if d == 5 {
        } else if d == 6 {
        } else if d == 7 {
        } else if d == 8 {
        } else if d == 9 {
        } else if d == 10 {
        } else if d == 11 {
        } else if d == 12 {
        } else if d == 13 {
        } else if d == 14 {
        } else if d == 15 {
        } else if d == 16 {
        } else if d == 17 {
        } else if d == 18 {
        } else if d == 19 {
        } else if d == 20 {
        } else if d == 21 {
        } else if d == 22 {
        } else if d == 23 {
        } else if d == 24 {
        } else if d == 25 {
        } else if d == 26 {
        } else if d == 27 {
        } else if d == 28 {
        } else if d == 29 {
        } else if d == 30 {
        } else if d == 31 {
        }
    }
}

/// Reading both copies of the format information of format `i` exactly
/// gives format `i` back: `decode_format_information` of its masked word,
/// twice, returns it.
pub proof fn lemma_format_bits_decode(i: int)
    requires
        0 <= i < 32,
    ensures
        spec_decode_pair(spec_masked_patterns()[i], spec_masked_patterns()[i]) == Some(
            format_information_for(i as u8),
        ),
{
    let table = spec_masked_patterns();
    let w = table[i];
    lemma_pattern_data_bits();
    lemma_xor_zero(w, w);
    lemma_popcount_zero_iff(w ^ w);
    assert(pair_distance(w, w, i) == 0);
    assert forall|j: int| 0 <= j < i implies pair_distance(w, w, j) > 0 by {
        assert(((table[j] ^ FORMAT_INFO_MASK_QR) >> 10u32) == j);
        assert(table[j] != w);
        lemma_xor_zero(w, table[j]);
        lemma_popcount_positive(w ^ table[j]);
    }
    assert(is_first_nearest(w, w, i));
    let k = choose|k: int| is_first_nearest(w, w, k);
    lemma_first_nearest_unique(w, w, i, k);
}

proof fn lemma_bch_15_5_distance(a: u32, b: u32)
    by (bit_vector)
    requires
        a < 32u32,
        b < 32u32,
        a != b,
    ensures
        (bch_15_5(a) ^ 0x5412u32) ^ (bch_15_5(b) ^ 0x5412u32) < 0x40000u32,
        low_bit_count((bch_15_5(a) ^ 0x5412u32) ^ (bch_15_5(b) ^ 0x5412u32)) >= 7u32,
{
}

/// Any two words of the format information table differ in at least seven
/// bits.
pub proof fn lemma_format_words_distance(a: int, b: int)
    requires
        0 <= a < 32,
        0 <= b < 32,
        a != b,
    ensures
        bits_differing(spec_masked_patterns()[a], spec_masked_patterns()[b]) >= 7,
{
    lemma_format_words_are_bch();
    lemma_bch_15_5_distance(a as u32, b as u32);
    let table = spec_masked_patterns();
    assert(table[a] == bch_15_5(a as u32) ^ 0x5412u32);
    assert(table[b] == bch_15_5(b as u32) ^ 0x5412u32);
    lemma_popcount_low_bits(table[a] ^ table[b]);
}

/// Format information survives up to three wrong bits: when each of the two
/// read copies is within three bits of the word of format `i`, the pair
/// decodes to format `i`.
pub proof fn lemma_format_decode_corrects_three(i: int, info1: u32, info2: u32)
    requires
        0 <= i < 32,
        bits_differing(info1, spec_masked_patterns()[i]) <= 3,
        bits_differing(info2, spec_masked_patterns()[i]) <= 3,
    ensures
        spec_decode_pair(info1, info2) == Some(format_information_for(i as u8)),
{
    let table = spec_masked_patterns();
    assert(pair_distance(info1, info2, i) <= 3);
    assert forall|j: int| 0 <= j < 32 && j != i implies pair_distance(info1, info2, j) >= 4 by {
        lemma_format_words_distance(i, j);
        lemma_bits_differing_triangle(table[i], info1, table[j]);
        lemma_bits_differing_triangle(info1, table[i], table[j]);
        lemma_bits_differing_triangle(table[i], info2, table[j]);
        lemma_bits_differing_triangle(info2, table[i], table[j]);
    }
    assert(is_first_nearest(info1, info2, i));
    let k = choose|k: int| is_first_nearest(info1, info2, k);
    lemma_first_nearest_unique(info1, info2, i, k);
}

proof fn lemma_popcount_zero_iff(x: u32)
    ensures
        popcount(x) == 0 <==> x == 0,
{
    if x != 0 {
        lemma_popcount_positive(x);
    } else {
        assert(popcount(0) == 0);
    }
}

} // verus!

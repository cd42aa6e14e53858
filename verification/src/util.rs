use vstd::prelude::*;
use crate::error::Error;

verus! {

/// A direction along a line.
#[derive(Debug, Clone, Copy, PartialEq, Eq, Structural)]
pub enum Direction {
    Left,
    Right,
}

/// The other direction.
pub fn opposite(dir: Direction) -> (res: Direction)
    ensures
        res != dir,
{
    match dir {
        Direction::Left => Direction::Right,
        Direction::Right => Direction::Left,
    }
}

/// Widens `[min, max]` to take in `val`.
pub fn update_min_max(min: &mut i32, max: &mut i32, val: i32)
    ensures
        *final(min) == if val < *old(min) {
            val
        } else {
            *old(min)
        },
        *final(max) == if val > *old(max) {
            val
        } else {
            *old(max)
        },
{
    if val < *min {
        *min = val;
    }
    if val > *max {
        *max = val;
    }
}

/// The `len` decimal digits of `val`, leading zeros included.
pub open spec fn decimal_chars(val: nat, len: nat) -> Seq<char> {
    Seq::new(len, |i: int| (48 + (val / crate::decoder::pow10((len - 1 - i) as nat)) % 10) as char)
}

/// Makes a `String` of the given characters.
///
/// Calls `String::from_iter`; the string holds exactly the characters, in
/// order.
#[verifier::external_body]
pub(crate) fn chars_to_string(chars: Vec<char>) -> (res: String)
    ensures
        res@ == chars@,
{
    String::from_iter(chars)
}

proof fn lemma_pow10_monotone(a: nat, b: nat)
    requires
        a <= b,
    ensures
        crate::decoder::pow10(a) <= crate::decoder::pow10(b),
    decreases b,
{
    if a < b {
        lemma_pow10_monotone(a, (b - 1) as nat);
    }
}

/// `val` written with exactly `len` decimal digits, zeros in front; a value
/// with more digits is an invalid format.
pub fn to_string(val: usize, len: usize) -> (res: Result<String, Error>)
    ensures
        val < crate::decoder::pow10(len as nat) ==> (res matches Ok(s) && s@ == decimal_chars(val as nat, len as nat)),
        val >= crate::decoder::pow10(len as nat) ==> res == Err::<String, Error>(Error::InvalidFormat),
{
    let mut result: Vec<char> = Vec::new();
    let mut k: usize = 0;
    while k < len
        invariant
            k <= len,
            result@.len() == k,
            forall|j: int| 0 <= j < k ==> #[trigger] result@[j] == '0',
        decreases len - k,
    {
        result.push('0');
        k = k + 1;
    }
    let mut rest: usize = val;
    let mut idx: usize = len;
    let ghost mut weight: nat = 1;
    while idx > 0 && rest != 0
        invariant
            idx <= len,
            result@.len() == len,
            weight == crate::decoder::pow10((len - idx) as nat),
            rest == (val as nat) / weight,
            forall|j: int| 0 <= j < idx ==> #[trigger] result@[j] == '0',
            forall|j: int| idx <= j < len ==> #[trigger] result@[j] == decimal_chars(val as nat, len as nat)[j],
        decreases idx,
    {
        proof {
            lemma_pow10_positive((len - idx) as nat);
        }
        idx = idx - 1;
        let digit: u8 = (rest % 10) as u8;
        proof {
            assert(crate::decoder::pow10((len - idx) as nat) == 10 * weight);
            assert(rest % 10 == ((val as nat) / weight) % 10);
            assert(((val as nat) / weight) / 10 == (val as nat) / (weight * 10)) by (nonlinear_arith)
                requires
                    weight > 0,
            ;
        }
        result.set(idx, (48 + digit) as char);
        rest = rest / 10;
        proof {
            weight = weight * 10;
        }
    }
    proof {
        assert forall|j: int| 0 <= j < idx implies decimal_chars(val as nat, len as nat)[j] == '0' by {
            if rest == 0 {
                lemma_pow10_monotone((len - idx) as nat, (len - 1 - j) as nat);
                lemma_pow10_positive((len - idx) as nat);
                assert((val as nat) / crate::decoder::pow10((len - 1 - j) as nat) == 0) by (nonlinear_arith)
                    requires
                        (val as nat) / weight == 0,
                        weight <= crate::decoder::pow10((len - 1 - j) as nat),
                        weight > 0,
                ;
            }
        }
    }
    if rest != 0 {
        proof {
            assert(idx == 0);
            lemma_pow10_positive(len as nat);
            assert(val >= crate::decoder::pow10(len as nat)) by (nonlinear_arith)
                requires
                    (val as nat) / weight != 0,
                    weight == crate::decoder::pow10(len as nat),
                    weight > 0,
            ;
        }
        return Err(Error::InvalidFormat);
    }
    proof {
        if val >= crate::decoder::pow10(len as nat) {
            lemma_pow10_monotone((len - idx) as nat, len as nat);
            lemma_pow10_positive((len - idx) as nat);
            assert((val as nat) / weight >= 1) by (nonlinear_arith)
                requires
                    val >= crate::decoder::pow10(len as nat),
                    weight <= crate::decoder::pow10(len as nat),
                    weight > 0,
            ;
        }
        assert(result@ =~= decimal_chars(val as nat, len as nat));
    }
    Ok(chars_to_string(result))
}

proof fn lemma_pow10_positive(n: nat)
    ensures
        crate::decoder::pow10(n) > 0,
    decreases n,
{
    if n > 0 {
        lemma_pow10_positive((n - 1) as nat);
    }
}

/// Sum of a sequence of widths.
pub open spec fn total_bits(a: Seq<u32>) -> nat
    decreases a.len(),
{
    if a.len() == 0 {
        0
    } else {
        total_bits(a.drop_last()) + a.last() as nat
    }
}

/// The number whose bits, most significant first, are runs of the given
/// widths, alternately ones and zeros, ones first.
pub open spec fn runs_value(a: Seq<u32>) -> nat
    decreases a.len(),
{
    if a.len() == 0 {
        0
    } else {
        let w = crate::format_information::pow2_nat(a.last() as nat);
        runs_value(a.drop_last()) * w + if (a.len() - 1) % 2 == 0 {
            (w - 1) as nat
        } else {
            0nat
        }
    }
}

proof fn lemma_runs_value_bound(a: Seq<u32>)
    ensures
        runs_value(a) < crate::format_information::pow2_nat(total_bits(a)),
    decreases a.len(),
{
    if a.len() > 0 {
        let p = a.drop_last();
        lemma_runs_value_bound(p);
        let w = crate::format_information::pow2_nat(a.last() as nat);
        lemma_pow2_add(total_bits(p), a.last() as nat);
        lemma_pow2_pos(a.last() as nat);
        assert(runs_value(p) * w + (w - 1) < crate::format_information::pow2_nat(total_bits(p)) * w) by (nonlinear_arith)
            requires
                runs_value(p) < crate::format_information::pow2_nat(total_bits(p)),
                w > 0,
        ;
    }
}

proof fn lemma_pow2_pos(n: nat)
    ensures
        crate::format_information::pow2_nat(n) > 0,
    decreases n,
{
    if n > 0 {
        lemma_pow2_pos((n - 1) as nat);
    }
}

proof fn lemma_pow2_add(a: nat, b: nat)
    ensures
        crate::format_information::pow2_nat(a + b) == crate::format_information::pow2_nat(a)
            * crate::format_information::pow2_nat(b),
    decreases b,
{
    let pa = crate::format_information::pow2_nat(a);
    if b == 0 {
        assert(crate::format_information::pow2_nat(b) == 1);
        assert(pa * 1 == pa) by (nonlinear_arith);
    } else {
        lemma_pow2_add(a, (b - 1) as nat);
        let pb1 = crate::format_information::pow2_nat((b - 1) as nat);
        let pab1 = crate::format_information::pow2_nat((a + b - 1) as nat);
        assert((a + b - 1) as nat == a + (b - 1) as nat);
        assert(pab1 == pa * pb1);
        assert(crate::format_information::pow2_nat(a + b) == 2 * pab1);
        assert(crate::format_information::pow2_nat(b) == 2 * pb1);
        assert(2 * (pa * pb1) == pa * (2 * pb1)) by (nonlinear_arith);
    }
}

proof fn lemma_total_bits_prefix(a: Seq<u32>, i: int)
    requires
        0 <= i <= a.len(),
    ensures
        total_bits(a.take(i)) <= total_bits(a),
    decreases a.len(),
{
    if i < a.len() {
        assert(a.drop_last().take(i) =~= a.take(i));
        lemma_total_bits_prefix(a.drop_last(), i);
    } else {
        assert(a.take(i) =~= a);
    }
}

fn pow2_u64(n: u32) -> (res: u64)
    requires
        n <= 32,
    ensures
        res == crate::format_information::pow2_nat(n as nat),
{
    let mut r: u64 = 1;
    let mut i: u32 = 0;
    while i < n
        invariant
            i <= n <= 32,
            r == crate::format_information::pow2_nat(i as nat),
            r <= 0x1_0000_0000,
        decreases n - i,
    {
        proof {
            lemma_pow2_le(i as nat + 1, 32);
            reveal_with_fuel(crate::format_information::pow2_nat, 33);
        }
        r = r * 2;
        i = i + 1;
    }
    r
}

proof fn lemma_pow2_le(a: nat, b: nat)
    requires
        a <= b,
        b <= 32,
    ensures
        crate::format_information::pow2_nat(a) <= 0x1_0000_0000,
{
    lemma_pow2_monotone_util(a, 32);
    reveal_with_fuel(crate::format_information::pow2_nat, 33);
}

proof fn lemma_pow2_monotone_util(a: nat, b: nat)
    requires
        a <= b,
    ensures
        crate::format_information::pow2_nat(a) <= crate::format_information::pow2_nat(b),
    decreases b,
{
    if a < b {
        lemma_pow2_monotone_util(a, (b - 1) as nat);
    }
}

/// The number whose bits are runs of the widths in `a`, alternately ones
/// and zeros, ones first; `None` when the widths add up to more than 32
/// bits.
pub fn to_int(a: &[u32]) -> (res: Option<u32>)
    ensures
        total_bits(a@) > 32 ==> res is None,
        total_bits(a@) <= 32 ==> res == Some(runs_value(a@) as u32),
{
    let mut total: u64 = 0;
    let mut i: usize = 0;
    while i < a.len()
        invariant
            i <= a@.len(),
            total == total_bits(a@.take(i as int)),
            total <= 33 * 0x1_0000_0000,
        decreases a@.len() - i,
    {
        proof {
            assert(a@.take(i as int + 1).drop_last() =~= a@.take(i as int));
        }
        if total > 32 {
            proof {
                lemma_total_bits_prefix(a@, i as int);
            }
            return None;
        }
        total = total + a[i] as u64;
        i = i + 1;
    }
    proof {
        assert(a@.take(i as int) =~= a@);
    }
    if total > 32 {
        return None;
    }
    let mut pattern: u64 = 0;
    let mut j: usize = 0;
    while j < a.len()
        invariant
            j <= a@.len(),
            total_bits(a@) <= 32,
            pattern == runs_value(a@.take(j as int)),
            pattern < crate::format_information::pow2_nat(total_bits(a@.take(j as int))),
        decreases a@.len() - j,
    {
        let element = a[j];
        proof {
            assert(a@.take(j as int + 1).drop_last() =~= a@.take(j as int));
            lemma_total_bits_prefix(a@, j as int + 1);
            lemma_runs_value_bound(a@.take(j as int + 1));
            lemma_pow2_le(total_bits(a@.take(j as int + 1)), 32);
            lemma_pow2_add(total_bits(a@.take(j as int)), element as nat);
        }
        let w = pow2_u64(element);
        proof {
            lemma_pow2_pos(element as nat);
            let tj = crate::format_information::pow2_nat(total_bits(a@.take(j as int)));
            assert(total_bits(a@.take(j as int + 1)) == total_bits(a@.take(j as int)) + element);
            assert(tj * w <= 0x1_0000_0000);
            assert(pattern * w + (w - 1) < 0x1_0000_0000) by (nonlinear_arith)
                requires
                    pattern + 1 <= tj,
                    w > 0,
                    tj * w <= 0x1_0000_0000,
            ;
            assert(pattern * w <= pattern * w + (w - 1));
        }
        pattern = pattern * w + if j % 2 == 0 {
            w - 1
        } else {
            0
        };
        j = j + 1;
    }
    proof {
        assert(a@.take(j as int) =~= a@);
        lemma_pow2_le(total_bits(a@), 32);
    }
    Some(pattern as u32)
}

/// Shifts `val` left by one and puts `bit` in the freed lowest bit.
pub fn append_bit(val: &mut i32, bit: bool)
    ensures
        *final(val) == ((*old(val) << 1i32) | (if bit { 1i32 } else { 0i32 })),
{
    *val = (*val << 1i32) | (if bit {
        1i32
    } else {
        0i32
    });
}

/// The value of a bit sequence folded with [`append_bit`].
pub open spec fn fold_bits(bits: Seq<u8>) -> i32
    decreases bits.len(),
{
    if bits.len() == 0 {
        0
    } else {
        (fold_bits(bits.drop_last()) << 1i32) | (if bits.last() != 0 { 1i32 } else { 0i32 })
    }
}

/// The number made of the `count` bits (nonzero bytes are ones) from `pos`
/// on, as many as there are.
pub fn to_int_pos(bits: &[u8], pos: usize, count: usize) -> (res: Option<u32>)
    ensures
        res == Some(
            fold_bits(
                bits@.subrange(
                    if pos < bits@.len() { pos as int } else { bits@.len() as int },
                    if pos < bits@.len() && count < bits@.len() - pos {
                        pos + count
                    } else {
                        bits@.len() as int
                    },
                ),
            ) as u32,
        ),
{
    let len = bits.len();
    let from = if pos < len {
        pos
    } else {
        len
    };
    let to = if pos < len && count < len - pos {
        pos + count
    } else {
        len
    };
    let ghost s = bits@.subrange(from as int, to as int);
    let mut res: i32 = 0;
    let mut i: usize = from;
    while i < to
        invariant
            from <= i <= to <= len,
            len == bits@.len(),
            s == bits@.subrange(from as int, to as int),
            res == fold_bits(s.take(i - from)),
        decreases to - i,
    {
        proof {
            assert(s.take(i - from + 1).drop_last() =~= s.take(i - from));
        }
        append_bit(&mut res, bits[i] != 0);
        i = i + 1;
    }
    proof {
        assert(s.take(to - from) =~= s);
    }
    Some(res as u32)
}

} // verus!

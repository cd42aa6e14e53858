use vstd::prelude::*;
use vstd::slice::slice_to_vec;

verus! {

/// Why Reed-Solomon correction of a block failed.
#[derive(Debug, Clone, Copy, PartialEq, Eq)]
pub enum ReedSolomonError {
    TooManyErrors,
}

pub const FIELD_SIZE: usize = 256;

pub const PRIMITIVE: usize = 0x011D;

// ---------------------------------------------------------------------------
// The field GF(256) with generator polynomial 0x11D, given by its tables.
// ---------------------------------------------------------------------------

/// One step of the exponent table: multiply by the generator 2 and reduce.
pub open spec fn exp_next(x: usize) -> usize {
    if (x << 1usize) >= 256usize {
        ((x << 1usize) ^ 0x011Dusize) & 0xFFusize
    } else {
        x << 1usize
    }
}

/// `2^i` in the field, as the table that the field is built from holds it.
pub open spec fn gf_exp(i: nat) -> usize
    decreases i,
{
    if i == 0 {
        1
    } else {
        exp_next(gf_exp((i - 1) as nat))
    }
}

/// The logarithm table after the first `k` exponents have been entered.
pub open spec fn log_after(k: nat) -> Seq<u8>
    decreases k,
{
    if k == 0 {
        Seq::new(256, |i: int| 0u8)
    } else {
        log_after((k - 1) as nat).update(gf_exp((k - 1) as nat) as int, (k - 1) as u8)
    }
}

/// Discrete logarithm of `a` as the field's table holds it.
pub open spec fn gf_log(a: u8) -> u8 {
    log_after(255)[a as int]
}

/// Field multiplication.
pub open spec fn gf_mul(a: u8, b: u8) -> u8 {
    if a == 0 || b == 0 {
        0
    } else {
        gf_exp(((gf_log(a) + gf_log(b)) % 255) as nat) as u8
    }
}

/// Multiplicative inverse of a nonzero element.
pub open spec fn gf_inv(a: u8) -> u8 {
    gf_exp((255 - gf_log(a)) as nat) as u8
}

proof fn lemma_exp_next_bound(x: usize)
    requires
        x < 256,
    ensures
        exp_next(x) < 256,
{
    assert(x < 256usize ==> (if (x << 1usize) >= 256usize {
        ((x << 1usize) ^ 0x011Dusize) & 0xFFusize
    } else {
        x << 1usize
    }) < 256usize) by (bit_vector);
}

proof fn lemma_exp_bound(i: nat)
    ensures
        gf_exp(i) < 256,
    decreases i,
{
    if i > 0 {
        lemma_exp_bound((i - 1) as nat);
        lemma_exp_next_bound(gf_exp((i - 1) as nat));
    }
}

proof fn lemma_log_after(k: nat)
    requires
        k <= 255,
    ensures
        log_after(k).len() == 256,
        forall|i: int| 0 <= i < 256 ==> #[trigger] log_after(k)[i] < 255,
    decreases k,
{
    if k > 0 {
        lemma_log_after((k - 1) as nat);
        lemma_exp_bound((k - 1) as nat);
    }
}

/// Every logarithm is below 255.
pub proof fn lemma_log_bound(a: u8)
    ensures
        gf_log(a) < 255,
{
    lemma_log_after(255);
}

struct QrField {
    exp_table: Vec<u8>,
    log_table: Vec<u8>,
}

impl QrField {
    spec fn wf(&self) -> bool {
        &&& self.exp_table@.len() == 256
        &&& self.log_table@.len() == 256
        &&& forall|i: int| 0 <= i < 256 ==> #[trigger] self.exp_table@[i] == gf_exp(i as nat) as u8
        &&& self.log_table@ == log_after(255)
    }

    fn new() -> (res: Self)
        ensures
            res.wf(),
    {
        let mut exp_table: Vec<u8> = vec![0u8; FIELD_SIZE];
        let mut log_table: Vec<u8> = vec![0u8; FIELD_SIZE];
        let mut x: usize = 1;
        let mut i: usize = 0;
        while i < FIELD_SIZE
            invariant
                i <= 256,
                exp_table@.len() == 256,
                log_table@.len() == 256,
                x == gf_exp(i as nat),
                x < 256,
                forall|j: int| 0 <= j < i ==> #[trigger] exp_table@[j] == gf_exp(j as nat) as u8,
            decreases 256 - i,
        {
            exp_table.set(i, x as u8);
            proof {
                lemma_exp_next_bound(x);
            }
            x = x << 1;
            if x >= FIELD_SIZE {
                x = x ^ PRIMITIVE;
                x = x & (FIELD_SIZE - 1);
            }
            i = i + 1;
        }
        assert(log_table@ =~= log_after(0));
        let mut k: usize = 0;
        while k < FIELD_SIZE - 1
            invariant
                k <= 255,
                exp_table@.len() == 256,
                forall|j: int| 0 <= j < 256 ==> #[trigger] exp_table@[j] == gf_exp(j as nat) as u8,
                log_table@ == log_after(k as nat),
            decreases 255 - k,
        {
            let value = exp_table[k];
            proof {
                lemma_exp_bound(k as nat);
                lemma_log_after(k as nat);
            }
            log_table.set(value as usize, k as u8);
            k = k + 1;
        }
        proof {
            lemma_log_after(255);
        }
        QrField { exp_table, log_table }
    }

    fn exp(&self, value: usize) -> (res: u8)
        requires
            self.wf(),
            value < 256,
        ensures
            res == gf_exp(value as nat) as u8,
    {
        self.exp_table[value]
    }

    fn log(&self, value: u8) -> (res: Result<usize, ReedSolomonError>)
        requires
            self.wf(),
        ensures
            value == 0 ==> res is Err,
            value != 0 ==> res == Ok::<usize, ReedSolomonError>(gf_log(value) as usize),
    {
        if value == 0 {
            return Err(ReedSolomonError::TooManyErrors);
        }
        Ok(self.log_table[value as usize] as usize)
    }

    fn inverse(&self, value: u8) -> (res: Result<u8, ReedSolomonError>)
        requires
            self.wf(),
        ensures
            value == 0 ==> res is Err,
            value != 0 ==> res == Ok::<u8, ReedSolomonError>(gf_inv(value)),
    {
        if value == 0 {
            return Err(ReedSolomonError::TooManyErrors);
        }
        proof {
            lemma_log_bound(value);
        }
        Ok(self.exp_table[FIELD_SIZE - 1 - self.log_table[value as usize] as usize])
    }

    fn multiply(&self, a: u8, b: u8) -> (res: u8)
        requires
            self.wf(),
        ensures
            res == gf_mul(a, b),
    {
        if a == 0 || b == 0 {
            return 0;
        }
        proof {
            lemma_log_bound(a);
            lemma_log_bound(b);
        }
        let log_sum = self.log_table[a as usize] as usize + self.log_table[b as usize] as usize;
        self.exp_table[log_sum % (FIELD_SIZE - 1)]
    }
}

// ---------------------------------------------------------------------------
// Polynomials over the field, coefficients highest degree first.
// ---------------------------------------------------------------------------

/// Coefficient of `x^d` of a polynomial written highest degree first.
pub open spec fn coef(p: Seq<u8>, d: int) -> u8 {
    p[p.len() - 1 - d]
}

/// The canonical form of a coefficient list: leading zeros removed, the zero
/// polynomial written as the single coefficient 0.
pub open spec fn strip(s: Seq<u8>) -> Seq<u8>
    decreases s.len(),
{
    if s.len() == 0 {
        seq![0u8]
    } else if s[0] == 0 && s.len() > 1 {
        strip(s.drop_first())
    } else {
        s
    }
}

/// Horner evaluation at `x`.
pub open spec fn horner(p: Seq<u8>, x: u8) -> u8
    decreases p.len(),
{
    if p.len() == 0 {
        0
    } else if p.len() == 1 {
        p[0]
    } else {
        gf_mul(horner(p.drop_last(), x), x) ^ p.last()
    }
}

/// Sum (exclusive or) of all coefficients.
pub open spec fn xor_all(p: Seq<u8>) -> u8
    decreases p.len(),
{
    if p.len() == 0 {
        0
    } else {
        xor_all(p.drop_last()) ^ p.last()
    }
}

/// Value of a polynomial at `x`: the constant term at 0, the sum of the
/// coefficients at 1, Horner's scheme elsewhere.
pub open spec fn poly_value(p: Seq<u8>, x: u8) -> u8 {
    if x == 0 {
        p.last()
    } else if x == 1 {
        xor_all(p)
    } else {
        horner(p, x)
    }
}

/// Coefficient-wise sum of two coefficient lists aligned at the constant term.
pub open spec fn xor_sum(a: Seq<u8>, b: Seq<u8>) -> Seq<u8> {
    let l = if a.len() < b.len() { b.len() } else { a.len() };
    Seq::new(
        l,
        |i: int|
            {
                let d = l - 1 - i;
                if d < a.len() && d < b.len() {
                    coef(a, d) ^ coef(b, d)
                } else if d < a.len() {
                    coef(a, d)
                } else {
                    coef(b, d)
                }
            },
    )
}

/// Sum of two polynomials.
pub open spec fn poly_sum(a: Seq<u8>, b: Seq<u8>) -> Seq<u8> {
    if a[0] == 0 {
        b
    } else if b[0] == 0 {
        a
    } else {
        strip(xor_sum(a, b))
    }
}

/// Coefficient `k` (index from the front) of the product, summing the terms of
/// the first `rows` coefficients of `a`.
pub open spec fn product_term(a: Seq<u8>, b: Seq<u8>, k: int, rows: nat) -> u8
    decreases rows,
{
    if rows == 0 {
        0
    } else {
        let prev = product_term(a, b, k, (rows - 1) as nat);
        let r = rows - 1;
        if 0 <= k - r < b.len() {
            prev ^ gf_mul(a[r], b[k - r])
        } else {
            prev
        }
    }
}

/// Product of two polynomials.
pub open spec fn poly_product(a: Seq<u8>, b: Seq<u8>) -> Seq<u8> {
    if a[0] == 0 || b[0] == 0 {
        seq![0u8]
    } else {
        strip(Seq::new((a.len() + b.len() - 1) as nat, |k: int| product_term(a, b, k, a.len())))
    }
}

/// A polynomial times a field element.
pub open spec fn poly_scaled(p: Seq<u8>, s: u8) -> Seq<u8> {
    if s == 0 || p[0] == 0 {
        seq![0u8]
    } else if s == 1 {
        p
    } else {
        Seq::new(p.len(), |i: int| gf_mul(p[i], s))
    }
}

/// A polynomial times `c * x^degree`.
pub open spec fn poly_shifted(p: Seq<u8>, degree: nat, c: u8) -> Seq<u8> {
    if c == 0 || p[0] == 0 {
        seq![0u8]
    } else {
        Seq::new(p.len() + degree, |i: int| if i < p.len() { gf_mul(p[i], c) } else { 0u8 })
    }
}

/// The monomial `c * x^degree`.
pub open spec fn monomial(degree: nat, c: u8) -> Seq<u8> {
    if c == 0 {
        seq![0u8]
    } else {
        Seq::new(degree + 1, |i: int| if i == 0 { c } else { 0u8 })
    }
}

proof fn lemma_strip_nonempty(s: Seq<u8>)
    ensures
        strip(s).len() >= 1,
        strip(s).len() <= if s.len() == 0 { 1 } else { s.len() },
    decreases s.len(),
{
    if s.len() > 0 && s[0] == 0 && s.len() > 1 {
        lemma_strip_nonempty(s.drop_first());
    }
}

fn zero_poly() -> (res: Vec<u8>)
    ensures
        res@ == seq![0u8],
{
    let mut v: Vec<u8> = Vec::new();
    v.push(0);
    v
}

fn build_monomial(degree: usize, coefficient: u8) -> (res: Vec<u8>)
    requires
        degree < usize::MAX,
    ensures
        res@ == monomial(degree as nat, coefficient),
{
    if coefficient == 0 {
        return zero_poly();
    }
    let mut coefficients: Vec<u8> = vec![0u8; degree + 1];
    coefficients.set(0, coefficient);
    assert(coefficients@ =~= monomial(degree as nat, coefficient));
    coefficients
}

fn poly_new(coefficients: Vec<u8>) -> (res: Vec<u8>)
    ensures
        res@ == strip(coefficients@),
{
    let len = coefficients.len();
    if len == 0 {
        return zero_poly();
    }
    let mut k: usize = 0;
    assert(coefficients@.skip(0) =~= coefficients@);
    while k + 1 < len && coefficients[k] == 0
        invariant
            k < len,
            len == coefficients@.len(),
            strip(coefficients@) == strip(coefficients@.skip(k as int)),
        decreases len - k,
    {
        assert(coefficients@.skip(k as int).drop_first() =~= coefficients@.skip(k as int + 1));
        k = k + 1;
    }
    if k == 0 {
        return coefficients;
    }
    let mut out: Vec<u8> = Vec::new();
    let mut j: usize = k;
    while j < len
        invariant
            k <= j <= len,
            len == coefficients@.len(),
            out@ == coefficients@.subrange(k as int, j as int),
        decreases len - j,
    {
        out.push(coefficients[j]);
        j = j + 1;
    }
    assert(out@ =~= coefficients@.skip(k as int));
    out
}

fn poly_is_zero(poly: &[u8]) -> (res: bool)
    requires
        poly@.len() > 0,
    ensures
        res == (poly@[0] == 0),
{
    poly[0] == 0
}

fn poly_degree(poly: &[u8]) -> (res: usize)
    requires
        poly@.len() > 0,
    ensures
        res == poly@.len() - 1,
{
    poly.len() - 1
}

fn poly_coefficient(poly: &[u8], degree: usize) -> (res: u8)
    requires
        degree < poly@.len(),
    ensures
        res == coef(poly@, degree as int),
{
    poly[poly.len() - 1 - degree]
}

fn poly_eval(field: &QrField, poly: &[u8], value: u8) -> (res: u8)
    requires
        field.wf(),
        poly@.len() > 0,
    ensures
        res == poly_value(poly@, value),
{
    if value == 0 {
        return poly_coefficient(poly, 0);
    }
    if value == 1 {
        let mut acc: u8 = 0;
        let mut i: usize = 0;
        while i < poly.len()
            invariant
                i <= poly@.len(),
                acc == xor_all(poly@.take(i as int)),
            decreases poly@.len() - i,
        {
            assert(poly@.take(i as int + 1).drop_last() =~= poly@.take(i as int));
            acc = acc ^ poly[i];
            i = i + 1;
        }
        assert(poly@.take(poly@.len() as int) =~= poly@);
        return acc;
    }
    let mut result = poly[0];
    let mut i: usize = 1;
    assert(poly@.take(1).len() == 1);
    while i < poly.len()
        invariant
            1 <= i <= poly@.len(),
            field.wf(),
            result == horner(poly@.take(i as int), value),
        decreases poly@.len() - i,
    {
        assert(poly@.take(i as int + 1).drop_last() =~= poly@.take(i as int));
        result = field.multiply(result, value) ^ poly[i];
        i = i + 1;
    }
    assert(poly@.take(poly@.len() as int) =~= poly@);
    result
}

fn poly_add(a: &[u8], b: &[u8]) -> (res: Vec<u8>)
    requires
        a@.len() > 0,
        b@.len() > 0,
    ensures
        res@ == poly_sum(a@, b@),
{
    if poly_is_zero(a) {
        return slice_to_vec(b);
    }
    if poly_is_zero(b) {
        return slice_to_vec(a);
    }
    let la = a.len();
    let lb = b.len();
    let l = if la < lb { lb } else { la };
    let mut sum: Vec<u8> = Vec::new();
    let mut i: usize = 0;
    while i < l
        invariant
            i <= l,
            la == a@.len(),
            lb == b@.len(),
            l == if la < lb { lb } else { la },
            sum@ == xor_sum(a@, b@).take(i as int),
        decreases l - i,
    {
        let d = l - 1 - i;
        let c = if d < la && d < lb {
            a[la - 1 - d] ^ b[lb - 1 - d]
        } else if d < la {
            a[la - 1 - d]
        } else {
            b[lb - 1 - d]
        };
        sum.push(c);
        assert(sum@ =~= xor_sum(a@, b@).take(i as int + 1));
        i = i + 1;
    }
    assert(sum@ =~= xor_sum(a@, b@));
    poly_new(sum)
}

fn poly_multiply(field: &QrField, a: &[u8], b: &[u8]) -> (res: Vec<u8>)
    requires
        field.wf(),
        a@.len() > 0,
        b@.len() > 0,
        a@.len() + b@.len() <= usize::MAX,
    ensures
        res@ == poly_product(a@, b@),
{
    if poly_is_zero(a) || poly_is_zero(b) {
        return zero_poly();
    }
    let la = a.len();
    let lb = b.len();
    let n = la + lb - 1;
    let mut product: Vec<u8> = vec![0u8; n];
    let mut i: usize = 0;
    while i < la
        invariant
            i <= la,
            field.wf(),
            la == a@.len(),
            lb == b@.len(),
            n == la + lb - 1,
            product@.len() == n,
            forall|k: int| 0 <= k < n ==> #[trigger] product@[k] == product_term(a@, b@, k, i as nat),
        decreases la - i,
    {
        let mut j: usize = 0;
        while j < lb
            invariant
                j <= lb,
                i < la,
                field.wf(),
                la == a@.len(),
                lb == b@.len(),
                n == la + lb - 1,
                product@.len() == n,
                forall|k: int|
                    0 <= k < n ==> #[trigger] product@[k] == if i <= k < i + j {
                        product_term(a@, b@, k, i as nat) ^ gf_mul(a@[i as int], b@[k - i])
                    } else {
                        product_term(a@, b@, k, i as nat)
                    },
            decreases lb - j,
        {
            let m = field.multiply(a[i], b[j]);
            let cur = product[i + j];
            product.set(i + j, cur ^ m);
            j = j + 1;
        }
        assert forall|k: int| 0 <= k < n implies #[trigger] product@[k] == product_term(
            a@,
            b@,
            k,
            (i + 1) as nat,
        ) by {
            assert(product_term(a@, b@, k, (i + 1) as nat) == if 0 <= k - i < lb {
                product_term(a@, b@, k, i as nat) ^ gf_mul(a@[i as int], b@[k - i])
            } else {
                product_term(a@, b@, k, i as nat)
            });
        }
        i = i + 1;
    }
    assert(product@ =~= Seq::new((la + lb - 1) as nat, |k: int| product_term(a@, b@, k, la as nat)));
    poly_new(product)
}

fn poly_multiply_scalar(field: &QrField, poly: &[u8], scalar: u8) -> (res: Vec<u8>)
    requires
        field.wf(),
        poly@.len() > 0,
    ensures
        res@ == poly_scaled(poly@, scalar),
{
    if scalar == 0 || poly_is_zero(poly) {
        return zero_poly();
    }
    if scalar == 1 {
        return slice_to_vec(poly);
    }
    let mut out: Vec<u8> = Vec::new();
    let mut i: usize = 0;
    while i < poly.len()
        invariant
            i <= poly@.len(),
            field.wf(),
            out@ =~= Seq::new(i as nat, |k: int| gf_mul(poly@[k], scalar)),
        decreases poly@.len() - i,
    {
        let m = field.multiply(poly[i], scalar);
        out.push(m);
        i = i + 1;
    }
    out
}

fn poly_multiply_by_monomial(field: &QrField, poly: &[u8], degree: usize, coefficient: u8) -> (res: Vec<u8>)
    requires
        field.wf(),
        poly@.len() > 0,
        poly@.len() + degree <= usize::MAX,
    ensures
        res@ == poly_shifted(poly@, degree as nat, coefficient),
{
    if coefficient == 0 || poly_is_zero(poly) {
        return zero_poly();
    }
    let len = poly.len();
    let mut product: Vec<u8> = vec![0u8; len + degree];
    let mut i: usize = 0;
    while i < len
        invariant
            i <= len,
            field.wf(),
            len == poly@.len(),
            product@.len() == len + degree,
            forall|k: int| 0 <= k < len + degree ==> #[trigger] product@[k] == if k < i {
                gf_mul(poly@[k], coefficient)
            } else {
                0u8
            },
        decreases len - i,
    {
        let m = field.multiply(poly[i], coefficient);
        product.set(i, m);
        i = i + 1;
    }
    assert(product@ =~= poly_shifted(poly@, degree as nat, coefficient));
    product
}

/// Product of the terms `x_j * x_i^-1 + 1` over the error locations `j < n`
/// other than `i`.
pub open spec fn magnitude_denominator(locations: Seq<u8>, i: int, n: nat) -> u8
    decreases n,
{
    if n == 0 {
        1
    } else {
        let prev = magnitude_denominator(locations, i, (n - 1) as nat);
        let j = n - 1;
        if j != i {
            gf_mul(prev, gf_mul(locations[j], gf_inv(locations[i])) ^ 1u8)
        } else {
            prev
        }
    }
}

/// Forney's formula: the magnitude of the error at location `i`.
pub open spec fn error_magnitude(error_evaluator: Seq<u8>, locations: Seq<u8>, i: int) -> u8 {
    gf_mul(
        poly_value(error_evaluator, gf_inv(locations[i])),
        gf_inv(magnitude_denominator(locations, i, locations.len())),
    )
}

/// Whether each entry of `magnitudes` is the error magnitude at the matching
/// (nonzero) location.
pub open spec fn magnitudes_match(error_evaluator: Seq<u8>, locations: Seq<u8>, magnitudes: Seq<u8>) -> bool {
    &&& forall|k: int| 0 <= k < magnitudes.len() ==> #[trigger] locations[k] != 0
    &&& forall|k: int|
        0 <= k < magnitudes.len() ==> #[trigger] magnitudes[k] == error_magnitude(
            error_evaluator,
            locations,
            k,
        )
}

proof fn lemma_magnitudes_push(error_evaluator: Seq<u8>, locations: Seq<u8>, prev: Seq<u8>, m: u8)
    requires
        magnitudes_match(error_evaluator, locations, prev),
        prev.len() < locations.len(),
        locations[prev.len() as int] != 0,
        m == error_magnitude(error_evaluator, locations, prev.len() as int),
    ensures
        magnitudes_match(error_evaluator, locations, prev.push(m)),
{
    let next = prev.push(m);
    assert forall|k: int| 0 <= k < next.len() implies #[trigger] next[k] == error_magnitude(
        error_evaluator,
        locations,
        k,
    ) by {
        if k < prev.len() {
            assert(next[k] == prev[k]);
        }
    }
}

/// Whether every syndrome of a received block is zero: the block, read as a
/// polynomial, vanishes at the first `two_s` powers of the generator.
pub open spec fn syndromes_zero(received: Seq<u8>, two_s: nat) -> bool {
    forall|i: nat| i < two_s ==> poly_value(strip(received), #[trigger] gf_exp(i) as u8) == 0
}

fn has_errors(field: &QrField, received: &[u8], two_s: usize) -> (res: bool)
    requires
        field.wf(),
        two_s <= 256,
    ensures
        res == !syndromes_zero(received@, two_s as nat),
{
    let poly = poly_new(slice_to_vec(received));
    proof {
        lemma_strip_nonempty(received@);
    }
    let mut i: usize = 0;
    while i < two_s
        invariant
            i <= two_s <= 256,
            field.wf(),
            poly@ == strip(received@),
            poly@.len() > 0,
            forall|j: nat| j < i ==> poly_value(strip(received@), #[trigger] gf_exp(j) as u8) == 0,
        decreases two_s - i,
    {
        let e = field.exp(i);
        if poly_eval(field, &poly, e) != 0 {
            return true;
        }
        i = i + 1;
    }
    false
}

/// Long division of `r` by `r_last`, with `q` the quotient so far and
/// `dlt_inverse` the inverse of the leading coefficient of `r_last`: each step
/// cancels the leading term of `r`. Gives the quotient and the remainder, or
/// `None` where a step fails to lower the degree of a nonzero remainder.
#[verifier::opaque]
pub open spec fn long_division(r: Seq<u8>, r_last: Seq<u8>, q: Seq<u8>, dlt_inverse: u8) -> Option<
    (Seq<u8>, Seq<u8>),
>
    decreases (if r.len() == 0 || r[0] == 0 {
        0
    } else {
        r.len()
    }),
{
    if r.len() == 0 || r[0] == 0 || r.len() < r_last.len() {
        Some((q, r))
    } else {
        let degree_diff = (r.len() - r_last.len()) as nat;
        let scale = gf_mul(r[0], dlt_inverse);
        let next_q = poly_sum(q, monomial(degree_diff, scale));
        let next = poly_sum(r, poly_shifted(r_last, degree_diff, scale));
        if next[0] != 0 && next.len() >= r.len() {
            None
        } else {
            long_division(next, r_last, next_q, dlt_inverse)
        }
    }
}

/// The extended Euclidean algorithm from the remainders `r_last`, `r` and the
/// matching coefficients `t_last`, `t`, run until the degree of the remainder
/// falls below `half`. Gives the last coefficient and remainder, or `None`
/// where a remainder vanishes or a division fails to lower the degree.
#[verifier::opaque]
pub open spec fn euclid_steps(r_last: Seq<u8>, r: Seq<u8>, t_last: Seq<u8>, t: Seq<u8>, half: nat) -> Option<
    (Seq<u8>, Seq<u8>),
>
    decreases r.len(),
{
    if r.len() == 0 || r.len() - 1 < half {
        Some((t, r))
    } else if r[0] == 0 {
        None
    } else {
        match long_division(r_last, r, seq![0u8], gf_inv(r[0])) {
            None => None,
            Some((q, remainder)) => if remainder.len() >= r.len() {
                None
            } else {
                euclid_steps(r, remainder, t, poly_sum(poly_product(q, t), t_last), half)
            },
        }
    }
}

/// The final coefficient and remainder of the algorithm, both scaled so that
/// the coefficient's constant term becomes one; `None` where the algorithm
/// failed or that constant term is zero.
pub open spec fn euclid_finish(steps: Option<(Seq<u8>, Seq<u8>)>) -> Option<(Seq<u8>, Seq<u8>)> {
    match steps {
        None => None,
        Some((t, r)) => if coef(t, 0) == 0 {
            None
        } else {
            let inverse = gf_inv(coef(t, 0));
            Some((poly_scaled(t, inverse), poly_scaled(r, inverse)))
        },
    }
}

/// The error locator and error evaluator that the Euclidean algorithm finds
/// from `a` and `b` (the larger degree first) for `ec_len` error-correction
/// codewords, or `None` where it fails.
pub open spec fn euclid_result(a: Seq<u8>, b: Seq<u8>, ec_len: nat) -> Option<(Seq<u8>, Seq<u8>)> {
    if a.len() < b.len() {
        euclid_finish(euclid_steps(b, a, seq![0u8], seq![1u8], ec_len / 2))
    } else {
        euclid_finish(euclid_steps(a, b, seq![0u8], seq![1u8], ec_len / 2))
    }
}

/// One step of the long division: it stops where the remainder is zero or of
/// lower degree than the divisor, fails where cancelling the leading term does
/// not lower the degree, and otherwise goes on from the new remainder.
proof fn lemma_division_step(r: Seq<u8>, r_last: Seq<u8>, q: Seq<u8>, dlt_inverse: u8, next_q: Seq<u8>, next: Seq<u8>)
    requires
        r.len() > 0,
    ensures
        (r[0] == 0 || r.len() < r_last.len()) ==> long_division(r, r_last, q, dlt_inverse) == Some((q, r)),
        ({
            let degree_diff = (r.len() - r_last.len()) as nat;
            let scale = gf_mul(r[0], dlt_inverse);
            &&& r[0] != 0
            &&& r.len() >= r_last.len()
            &&& next_q == poly_sum(q, monomial(degree_diff, scale))
            &&& next == poly_sum(r, poly_shifted(r_last, degree_diff, scale))
        }) ==> if next[0] != 0 && next.len() >= r.len() {
            long_division(r, r_last, q, dlt_inverse) is None
        } else {
            long_division(r, r_last, q, dlt_inverse) == long_division(next, r_last, next_q, dlt_inverse)
        },
{
    reveal_with_fuel(long_division, 1);
}

/// One round of the Euclidean algorithm, as `euclid_steps` takes it.
proof fn lemma_euclid_step(r_last: Seq<u8>, r: Seq<u8>, t_last: Seq<u8>, t: Seq<u8>, half: nat)
    requires
        r.len() > 0,
    ensures
        r.len() - 1 < half ==> euclid_steps(r_last, r, t_last, t, half) == Some((t, r)),
        r.len() - 1 >= half && r[0] == 0 ==> euclid_steps(r_last, r, t_last, t, half) is None,
        r.len() - 1 >= half && r[0] != 0 ==> match long_division(r_last, r, seq![0u8], gf_inv(r[0])) {
            None => euclid_steps(r_last, r, t_last, t, half) is None,
            Some((q, remainder)) => if remainder.len() >= r.len() {
                euclid_steps(r_last, r, t_last, t, half) is None
            } else {
                euclid_steps(r_last, r, t_last, t, half) == euclid_steps(
                    r,
                    remainder,
                    t,
                    poly_sum(poly_product(q, t), t_last),
                    half,
                )
            },
        },
{
    reveal_with_fuel(euclid_steps, 1);
}

/// Runs the extended Euclidean algorithm on `a` and `b` until the remainder's
/// degree falls below half of `received_ec_len`, and gives the error locator
/// and the error evaluator, exactly as `euclid_result` describes them.
#[verifier::loop_isolation(false)]
fn run_euclidean_algorithm(field: &QrField, a: Vec<u8>, b: Vec<u8>, received_ec_len: usize) -> (res:
    Result<(Vec<u8>, Vec<u8>), ReedSolomonError>)
    requires
        field.wf(),
        a@.len() > 0,
        b@.len() > 0,
        a@.len() <= 256,
        b@.len() <= 256,
    ensures
        match res {
            Ok((sigma, omega)) => {
                &&& euclid_result(a@, b@, received_ec_len as nat) == Some((sigma@, omega@))
                &&& sigma@.len() > 0
                &&& omega@.len() > 0
                &&& sigma@.len() == 1 || sigma@.len() + received_ec_len / 2 <= if a@.len() < b@.len() {
                    b@.len()
                } else {
                    a@.len()
                }
            },
            Err(_) => euclid_result(a@, b@, received_ec_len as nat) is None,
        },
{
    let ghost outcome = euclid_result(a@, b@, received_ec_len as nat);
    let ghost half: nat = (received_ec_len / 2) as nat;
    let mut a = a;
    let mut b = b;
    if poly_degree(&a) < poly_degree(&b) {
        let tmp = a;
        a = b;
        b = tmp;
    }
    let ghost first_len = a@.len();
    let mut r_last = a;
    let mut r = b;
    let mut t_last = zero_poly();
    let mut t: Vec<u8> = Vec::new();
    t.push(1);
    assert(t@ =~= seq![1u8]);

    while poly_degree(&r) >= received_ec_len / 2
        invariant
            field.wf(),
            half == received_ec_len / 2,
            r_last@.len() > 0,
            r@.len() > 0,
            r_last@.len() <= 256,
            r@.len() <= 256,
            t_last@.len() > 0,
            t@.len() > 0,
            t@.len() + 256 * r@.len() <= 65792,
            t_last@.len() + 256 * r@.len() <= 65792,
            r@.len() <= r_last@.len(),
            t@.len() + r_last@.len() <= first_len + 1,
            t_last@.len() + r@.len() <= first_len + 1,
            t@.len() == 1 || r_last@.len() - 1 >= half,
            outcome == euclid_finish(euclid_steps(r_last@, r@, t_last@, t@, half)),
        decreases r@.len(),
    {
        let ghost old_r_last = r_last@;
        let ghost old_r = r@;
        let ghost old_t_last = t_last@;
        let ghost old_t = t@;
        proof {
            lemma_euclid_step(old_r_last, old_r, old_t_last, old_t, half);
        }
        let r_last_last = r_last;
        let t_last_last = t_last;
        r_last = r;
        t_last = t;

        if poly_is_zero(&r_last) {
            return Err(ReedSolomonError::TooManyErrors);
        }

        r = r_last_last;
        let mut q = zero_poly();
        let denominator_leading_term = poly_coefficient(&r_last, poly_degree(&r_last));
        let dlt_inverse = field.inverse(denominator_leading_term)?;
        assert(dlt_inverse == gf_inv(old_r[0]));
        let ghost division = long_division(old_r_last, old_r, seq![0u8], dlt_inverse);

        while !poly_is_zero(&r) && poly_degree(&r) >= poly_degree(&r_last)
            invariant
                field.wf(),
                r_last@.len() > 0,
                r@.len() > 0,
                r_last@.len() <= 256,
                r@.len() <= 256,
                q@.len() > 0,
                q@.len() <= 256,
                q@.len() + old_r.len() <= old_r_last.len() + 1,
                r@.len() <= old_r_last.len(),
                r_last@ == old_r,
                long_division(r@, r_last@, q@, dlt_inverse) == division,
                division is None ==> outcome is None,
            decreases (if r@[0] == 0 { 0 } else { r@.len() }),
        {
            let degree_diff = poly_degree(&r) - poly_degree(&r_last);
            let scale = field.multiply(poly_coefficient(&r, poly_degree(&r)), dlt_inverse);
            let m = build_monomial(degree_diff, scale);
            proof {
                lemma_strip_nonempty(xor_sum(q@, m@));
            }
            let next_q = poly_add(&q, &m);
            let shifted = poly_multiply_by_monomial(field, &r_last, degree_diff, scale);
            proof {
                lemma_strip_nonempty(xor_sum(r@, shifted@));
            }
            let next = poly_add(&r, &shifted);
            proof {
                lemma_division_step(r@, r_last@, q@, dlt_inverse, next_q@, next@);
            }
            // In GF(256) the leading terms cancel, so the remainder's degree
            // falls; should it not, the division cannot make progress.
            if !poly_is_zero(&next) && poly_degree(&next) >= poly_degree(&r) {
                return Err(ReedSolomonError::TooManyErrors);
            }
            q = next_q;
            r = next;
        }
        proof {
            lemma_division_step(r@, r_last@, q@, dlt_inverse, q@, r@);
            assert(division == Some((q@, r@)));
        }

        let product = poly_multiply(field, &q, &t_last);
        proof {
            lemma_strip_nonempty(
                Seq::new((q@.len() + t_last@.len() - 1) as nat, |k: int| product_term(q@, t_last@, k, q@.len())),
            );
            lemma_strip_nonempty(xor_sum(product@, t_last_last@));
        }
        t = poly_add(&product, &t_last_last);
        if poly_degree(&r) >= poly_degree(&r_last) {
            return Err(ReedSolomonError::TooManyErrors);
        }
    }

    proof {
        lemma_euclid_step(r_last@, r@, t_last@, t@, half);
    }
    let sigma_tilde_at_zero = poly_coefficient(&t, 0);
    if sigma_tilde_at_zero == 0 {
        return Err(ReedSolomonError::TooManyErrors);
    }

    let inverse = field.inverse(sigma_tilde_at_zero)?;
    let sigma = poly_multiply_scalar(field, &t, inverse);
    let omega = poly_multiply_scalar(field, &r, inverse);
    Ok((sigma, omega))
}

/// The inverses of the roots of `p` among `1, 2, ..., n - 1`, in increasing
/// order of the root.
pub open spec fn root_inverses(p: Seq<u8>, n: nat) -> Seq<u8>
    decreases n,
{
    if n <= 1 {
        Seq::empty()
    } else {
        let prev = root_inverses(p, (n - 1) as nat);
        let x = (n - 1) as u8;
        if poly_value(p, x) == 0 {
            prev.push(gf_inv(x))
        } else {
            prev
        }
    }
}

/// The scan over fewer candidates finds a prefix of what the longer scan finds.
proof fn lemma_root_inverses_prefix(p: Seq<u8>, m: nat, n: nat)
    requires
        m <= n,
    ensures
        root_inverses(p, m).len() <= root_inverses(p, n).len(),
        root_inverses(p, n).take(root_inverses(p, m).len() as int) == root_inverses(p, m),
    decreases n - m,
{
    if m < n {
        lemma_root_inverses_prefix(p, m, (n - 1) as nat);
        let a = root_inverses(p, m);
        let b = root_inverses(p, (n - 1) as nat);
        let c = root_inverses(p, n);
        if n > 1 {
            assert(c.take(a.len() as int) =~= b.take(a.len() as int));
        }
    } else {
        assert(root_inverses(p, n).take(root_inverses(p, n).len() as int) =~= root_inverses(p, n));
    }
}

/// Where the error locator has degree one, its coefficient of `x` is the one
/// location; otherwise the locations are the inverses of its first roots among
/// the nonzero field elements, in increasing order of the root, and there must
/// be as many as the degree (none at all where the degree is zero).
fn find_error_locations(field: &QrField, error_locator: &[u8]) -> (res: Result<Vec<u8>, ReedSolomonError>)
    requires
        field.wf(),
        error_locator@.len() > 0,
    ensures
        error_locator@.len() == 2 ==> (res matches Ok(locations) && locations@ == seq![coef(error_locator@, 1)]),
        error_locator@.len() != 2 ==> {
            let num_errors = error_locator@.len() - 1;
            let found = root_inverses(error_locator@, 256);
            &&& res is Ok <==> (if num_errors == 0 {
                found.len() == 0
            } else {
                found.len() >= num_errors
            })
            &&& res matches Ok(locations) ==> locations@ == found.take(num_errors)
        },
{
    let num_errors = poly_degree(error_locator);
    if num_errors == 1 {
        let mut one: Vec<u8> = Vec::new();
        one.push(poly_coefficient(error_locator, 1));
        return Ok(one);
    }
    let mut result: Vec<u8> = Vec::new();
    let mut i: usize = 1;
    while i < FIELD_SIZE && (num_errors == 0 || result.len() < num_errors)
        invariant
            1 <= i <= 256,
            field.wf(),
            error_locator@.len() > 0,
            num_errors == error_locator@.len() - 1,
            num_errors > 0 ==> result@.len() <= num_errors,
            result@ == root_inverses(error_locator@, i as nat),
        decreases 256 - i,
    {
        let x = i as u8;
        if poly_eval(field, error_locator, x) == 0 {
            let inv = match field.inverse(x) {
                Ok(v) => v,
                Err(e) => {
                    return Err(e);
                },
            };
            result.push(inv);
        }
        assert(result@ == root_inverses(error_locator@, (i + 1) as nat));
        i = i + 1;
    }
    proof {
        lemma_root_inverses_prefix(error_locator@, i as nat, 256);
    }
    if result.len() == num_errors {
        assert(root_inverses(error_locator@, 256).take(num_errors as int) == result@);
        Ok(result)
    } else {
        Err(ReedSolomonError::TooManyErrors)
    }
}

/// Whether Forney's formula can be applied at every error location: each
/// location is nonzero and so is its denominator.
pub open spec fn magnitudes_defined(locations: Seq<u8>) -> bool {
    forall|k: int|
        0 <= k < locations.len() ==> #[trigger] locations[k] != 0 && magnitude_denominator(
            locations,
            k,
            locations.len(),
        ) != 0
}

fn find_error_magnitudes(field: &QrField, error_evaluator: &[u8], error_locations: &[u8]) -> (res: Result<
    Vec<u8>,
    ReedSolomonError,
>)
    requires
        field.wf(),
        error_evaluator@.len() > 0,
    ensures
        res is Ok <==> magnitudes_defined(error_locations@),
        res matches Ok(magnitudes) ==> {
            &&& magnitudes@.len() == error_locations@.len()
            &&& magnitudes_match(error_evaluator@, error_locations@, magnitudes@)
        },
{
    let n = error_locations.len();
    let mut result: Vec<u8> = Vec::new();
    let mut i: usize = 0;
    while i < n
        invariant
            i <= n,
            n == error_locations@.len(),
            field.wf(),
            error_evaluator@.len() > 0,
            result@.len() == i,
            magnitudes_match(error_evaluator@, error_locations@, result@),
            forall|k: int|
                0 <= k < i ==> #[trigger] error_locations@[k] != 0 && magnitude_denominator(
                    error_locations@,
                    k,
                    n as nat,
                ) != 0,
        decreases n - i,
    {
        let location = error_locations[i];
        let xi_inverse = match field.inverse(location) {
            Ok(v) => v,
            Err(e) => {
                assert(error_locations@[i as int] == 0);
                return Err(e);
            },
        };
        let mut denominator: u8 = 1;
        let mut j: usize = 0;
        while j < n
            invariant
                j <= n,
                i < n,
                n == error_locations@.len(),
                field.wf(),
                location != 0,
                location == error_locations@[i as int],
                error_evaluator@.len() > 0,
                result@.len() == i,
                magnitudes_match(error_evaluator@, error_locations@, result@),
                xi_inverse == gf_inv(error_locations@[i as int]),
                denominator == magnitude_denominator(error_locations@, i as int, j as nat),
            decreases n - j,
        {
            if i != j {
                let term = field.multiply(error_locations[j], xi_inverse) ^ 1;
                denominator = field.multiply(denominator, term);
            }
            j = j + 1;
        }
        let value = poly_eval(field, error_evaluator, xi_inverse);
        let denominator_inverse = match field.inverse(denominator) {
            Ok(v) => v,
            Err(e) => {
                assert(magnitude_denominator(error_locations@, i as int, n as nat) == 0);
                return Err(e);
            },
        };
        let magnitude = field.multiply(value, denominator_inverse);
        let ghost prev = result@;
        result.push(magnitude);
        assert(denominator == magnitude_denominator(error_locations@, i as int, n as nat));
        assert(denominator_inverse == gf_inv(denominator));
        assert(value == poly_value(error_evaluator@, gf_inv(error_locations@[i as int])));
        assert(magnitude == error_magnitude(error_evaluator@, error_locations@, i as int));
        assert(result@[i as int] == magnitude);
        assert(forall|k: int| 0 <= k < i ==> result@[k] == prev[k]);
        proof {
            lemma_magnitudes_push(error_evaluator@, error_locations@, prev, magnitude);
        }
        assert(magnitudes_match(error_evaluator@, error_locations@, result@));
        i = i + 1;
    }
    Ok(result)
}

/// The number of positions at which two blocks of the same length differ.
pub open spec fn differences(a: Seq<u8>, b: Seq<u8>) -> nat
    decreases a.len(),
{
    if a.len() == 0 {
        0
    } else {
        differences(a.drop_last(), b.drop_last()) + if a.last() != b.last() {
            1nat
        } else {
            0nat
        }
    }
}

/// A block differs from itself nowhere.
pub proof fn lemma_differences_self(a: Seq<u8>)
    ensures
        differences(a, a) == 0,
    decreases a.len(),
{
    if a.len() > 0 {
        lemma_differences_self(a.drop_last());
    }
}

/// Changing one position adds at most one difference.
pub proof fn lemma_differences_update(a: Seq<u8>, b: Seq<u8>, p: int, v: u8)
    requires
        a.len() == b.len(),
        0 <= p < a.len(),
    ensures
        differences(a.update(p, v), b) <= differences(a, b) + 1,
    decreases a.len(),
{
    let u = a.update(p, v);
    if p < a.len() - 1 {
        assert(u.drop_last() =~= a.drop_last().update(p, v));
        lemma_differences_update(a.drop_last(), b.drop_last(), p, v);
    } else {
        assert(u.drop_last() =~= a.drop_last());
    }
}

/// The syndromes of a block for `two_s` error-correction codewords, as the
/// coefficients of a polynomial written highest degree first: the value at
/// `2^(two_s - 1)` first, the value at `2^0` last.
pub open spec fn syndrome_poly_coefficients(received: Seq<u8>, two_s: nat) -> Seq<u8> {
    Seq::new(two_s, |j: int| poly_value(strip(received), gf_exp((two_s - 1 - j) as nat) as u8))
}

/// The error locations that an error locator gives, as `find_error_locations`
/// finds them; `None` where it fails.
pub open spec fn locator_locations(sigma: Seq<u8>) -> Option<Seq<u8>> {
    if sigma.len() == 2 {
        Some(seq![coef(sigma, 1)])
    } else {
        let n = sigma.len() - 1;
        let found = root_inverses(sigma, 256);
        if (if n == 0 {
            found.len() == 0
        } else {
            found.len() >= n
        }) {
            Some(found.take(n))
        } else {
            None
        }
    }
}

/// Applies the corrections from `k` on to a block: the codeword at the
/// position that each location's logarithm counts from the end is xored with
/// its magnitude. Stops, failing, at a location that is zero or points before
/// the block. Gives whether all applied and the block after.
#[verifier::opaque]
pub open spec fn apply_corrections(block: Seq<u8>, locations: Seq<u8>, magnitudes: Seq<u8>, k: nat) -> (bool, Seq<u8>)
    decreases locations.len() - k,
{
    if k >= locations.len() {
        (true, block)
    } else if locations[k as int] == 0 || gf_log(locations[k as int]) >= block.len() {
        (false, block)
    } else {
        let p = block.len() - 1 - gf_log(locations[k as int]);
        apply_corrections(block.update(p, block[p] ^ magnitudes[k as int]), locations, magnitudes, k + 1)
    }
}

/// One step of applying corrections.
proof fn lemma_apply_step(block: Seq<u8>, locations: Seq<u8>, magnitudes: Seq<u8>, k: nat)
    ensures
        k >= locations.len() ==> apply_corrections(block, locations, magnitudes, k) == (true, block),
        k < locations.len() && (locations[k as int] == 0 || gf_log(locations[k as int]) >= block.len())
            ==> apply_corrections(block, locations, magnitudes, k) == (false, block),
        k < locations.len() && locations[k as int] != 0 && gf_log(locations[k as int]) < block.len() ==> {
            let p = block.len() - 1 - gf_log(locations[k as int]);
            apply_corrections(block, locations, magnitudes, k) == apply_corrections(
                block.update(p, block[p] ^ magnitudes[k as int]),
                locations,
                magnitudes,
                k + 1,
            )
        },
{
    reveal_with_fuel(apply_corrections, 1);
}

/// What correcting a block with `num_data` data codewords does: whether it
/// succeeds, and the block after. Syndromes, the Euclidean algorithm, the
/// root search and Forney's formula give the corrections; the corrected
/// block must have all syndromes zero.
#[verifier::opaque]
pub open spec fn rs_run(received: Seq<u8>, num_data: nat) -> (bool, Seq<u8>) {
    if num_data > received.len() {
        (false, received)
    } else {
        let two_s = (received.len() - num_data) as nat;
        if two_s == 0 {
            (true, received)
        } else if received.len() >= 256 {
            (false, received)
        } else if syndromes_zero(received, two_s) {
            (true, received)
        } else {
            match euclid_result(monomial(two_s, 1), strip(syndrome_poly_coefficients(received, two_s)), two_s) {
                None => (false, received),
                Some((sigma, omega)) => match locator_locations(sigma) {
                    None => (false, received),
                    Some(locations) => if !magnitudes_defined(locations) {
                        (false, received)
                    } else {
                        let magnitudes = Seq::new(
                            locations.len(),
                            |k: int| error_magnitude(omega, locations, k),
                        );
                        let applied = apply_corrections(received, locations, magnitudes, 0);
                        if !applied.0 {
                            (false, applied.1)
                        } else {
                            (syndromes_zero(applied.1, two_s), applied.1)
                        }
                    },
                },
            }
        }
    }
}

/// Corrects errors in a Reed-Solomon block in place: `received` holds the data
/// codewords followed by the error-correction codewords.
///
/// The block is left as it is when there are no error-correction codewords or
/// when all syndromes are zero. A block that comes back `Ok` has all syndromes
/// zero.
pub fn correct_qr_errors(received: &mut [u8], num_data_codewords: usize) -> (res: Result<(), ReedSolomonError>)
    ensures
        final(received)@.len() == old(received)@.len(),
        num_data_codewords > old(received)@.len() ==> res is Err && final(received)@ == old(received)@,
        num_data_codewords == old(received)@.len() ==> res is Ok && final(received)@ == old(received)@,
        num_data_codewords < old(received)@.len() && old(received)@.len() >= 256 ==> res is Err
            && final(received)@ == old(received)@,
        num_data_codewords < old(received)@.len() < 256 && syndromes_zero(
            old(received)@,
            (old(received)@.len() - num_data_codewords) as nat,
        ) ==> res is Ok && final(received)@ == old(received)@,
        res is Ok && num_data_codewords <= old(received)@.len() ==> syndromes_zero(
            final(received)@,
            (old(received)@.len() - num_data_codewords) as nat,
        ),
        res is Ok ==> differences(final(received)@, old(received)@) <= (old(received)@.len()
            - num_data_codewords + 1) / 2,
        res is Ok <==> rs_run(old(received)@, num_data_codewords as nat).0,
        final(received)@ == rs_run(old(received)@, num_data_codewords as nat).1,
{
    proof {
        lemma_differences_self(received@);
        reveal(rs_run);
    }
    let len = received.len();
    if num_data_codewords > len {
        return Err(ReedSolomonError::TooManyErrors);
    }
    let two_s = len - num_data_codewords;
    if two_s == 0 {
        return Ok(());
    }
    if len >= FIELD_SIZE {
        return Err(ReedSolomonError::TooManyErrors);
    }

    let field = QrField::new();
    let poly = poly_new(slice_to_vec(received));
    proof {
        lemma_strip_nonempty(received@);
    }
    let mut syndrome_coefficients: Vec<u8> = vec![0u8; two_s];
    let mut no_error = true;
    let mut i: usize = 0;
    while i < two_s
        invariant
            i <= two_s < 256,
            field.wf(),
            poly@ == strip(received@),
            poly@.len() > 0,
            syndrome_coefficients@.len() == two_s,
            forall|j: int|
                two_s - i <= j < two_s ==> #[trigger] syndrome_coefficients@[j] == poly_value(
                    strip(received@),
                    gf_exp((two_s - 1 - j) as nat) as u8,
                ),
            no_error == forall|j: nat| j < i ==> poly_value(strip(received@), #[trigger] gf_exp(j) as u8) == 0,
        decreases two_s - i,
    {
        let e = field.exp(i);
        let eval = poly_eval(&field, &poly, e);
        syndrome_coefficients.set(two_s - 1 - i, eval);
        no_error = no_error && eval == 0;
        i = i + 1;
    }
    assert(no_error == syndromes_zero(received@, two_s as nat));
    if no_error {
        return Ok(());
    }

    assert(syndrome_coefficients@ =~= syndrome_poly_coefficients(received@, two_s as nat));
    let syndrome = poly_new(syndrome_coefficients);
    proof {
        lemma_strip_nonempty(syndrome_coefficients@);
    }
    let monomial = build_monomial(two_s, 1);
    let (sigma, omega) = run_euclidean_algorithm(&field, monomial, syndrome, two_s)?;
    let error_locations = find_error_locations(&field, &sigma)?;
    let error_magnitudes = find_error_magnitudes(&field, &omega, &error_locations)?;
    let ghost magnitudes = Seq::new(
        error_locations@.len(),
        |k: int| error_magnitude(omega@, error_locations@, k),
    );
    assert(error_magnitudes@ =~= magnitudes);
    let ghost applied = apply_corrections(old(received)@, error_locations@, error_magnitudes@, 0);
    let ghost run = rs_run(old(received)@, num_data_codewords as nat);
    assert(run == (if !applied.0 {
        (false, applied.1)
    } else {
        (syndromes_zero(applied.1, two_s as nat), applied.1)
    }));

    let mut k: usize = 0;
    while k < error_locations.len()
        invariant
            field.wf(),
            len == received@.len(),
            received@.len() == old(received)@.len(),
            num_data_codewords < len,
            two_s == len - num_data_codewords,
            !syndromes_zero(old(received)@, two_s as nat),
            len < 256,
            error_magnitudes@.len() == error_locations@.len(),
            error_locations@.len() <= (two_s + 1) / 2,
            k <= error_locations@.len(),
            differences(received@, old(received)@) <= k,
            apply_corrections(received@, error_locations@, error_magnitudes@, k as nat) == applied,
            run == (if !applied.0 {
                (false, applied.1)
            } else {
                (syndromes_zero(applied.1, two_s as nat), applied.1)
            }),
            run == rs_run(old(received)@, num_data_codewords as nat),
        decreases error_locations@.len() - k,
    {
        proof {
            lemma_apply_step(received@, error_locations@, error_magnitudes@, k as nat);
        }
        let log = field.log(error_locations[k])?;
        if log >= len {
            return Err(ReedSolomonError::TooManyErrors);
        }
        let position = len - 1 - log;
        let corrected = received[position] ^ error_magnitudes[k];
        proof {
            lemma_differences_update(received@, old(received)@, position as int, corrected);
        }
        received[position] = corrected;
        k = k + 1;
    }

    proof {
        lemma_apply_step(received@, error_locations@, error_magnitudes@, k as nat);
    }
    if has_errors(&field, received, two_s) {
        return Err(ReedSolomonError::TooManyErrors);
    }

    Ok(())
}

} // verus!

//! Cosine similarity over fixed-point embeddings.
//!
//! An embedding is a non-empty vector of fixed-point components (thousandths,
//! each in [-1.0, 1.0]). The cosine of two embeddings is kept in exact form:
//! its numerator `dot(a, b)` and the product of the squared norms
//! `dot(a, a) * dot(b, b)`, so the real value is `dot / sqrt(norm_prod)`.
//! Two similarities are compared exactly by cross-multiplying squares, with
//! sign handling; a zero norm denotes similarity 0, never a division by zero.

use vstd::prelude::*;

verus! {

/// Largest embedding dimensionality the fixed-point arithmetic admits
/// without overflow.
pub const MAX_DIM: usize = 2048;

/// Largest absolute value of a fixed-point component (one thousandth units).
pub const MAX_ABS_COMPONENT: i32 = 1000;

/// Largest absolute value a dot product of two valid embeddings can take.
pub const MAX_ABS_DOT: i64 = 2_048_000_000;

/// Largest value `dot(a,a) * dot(b,b)` can take for valid embeddings.
pub const MAX_NORM_PROD: i64 = 2_048_000_000 * 2_048_000_000;

/// A well-formed embedding: non-empty, bounded dimensionality, bounded
/// components.
pub open spec fn valid_embedding(s: Seq<i32>) -> bool {
    &&& 1 <= s.len() <= MAX_DIM
    &&& forall|i: int| 0 <= i < s.len() ==> -MAX_ABS_COMPONENT <= #[trigger] s[i] <= MAX_ABS_COMPONENT
}

/// Some component is nonzero.
pub open spec fn nonzero_embedding(s: Seq<i32>) -> bool {
    exists|i: int| 0 <= i < s.len() && s[i] != 0
}

/// The dot product of two equal-length component sequences.
pub open spec fn spec_dot(a: Seq<i32>, b: Seq<i32>) -> int
    decreases a.len(),
{
    if a.len() == 0 || b.len() == 0 {
        0
    } else {
        spec_dot(a.drop_last(), b.drop_last()) + a.last() * b.last()
    }
}

/// `|x * y| <= bx * by` when `|x| <= bx` and `|y| <= by`.
pub proof fn lemma_mul_bound(x: int, y: int, bx: int, by: int)
    by (nonlinear_arith)
    requires
        -bx <= x <= bx,
        -by <= y <= by,
        0 <= bx,
        0 <= by,
    ensures
        -(bx * by) <= x * y <= bx * by,
{
}

/// A dot product of bounded components is bounded by the dimension.
pub proof fn lemma_dot_bound(a: Seq<i32>, b: Seq<i32>)
    requires
        a.len() == b.len(),
        forall|i: int| 0 <= i < a.len() ==> -MAX_ABS_COMPONENT <= #[trigger] a[i] <= MAX_ABS_COMPONENT,
        forall|i: int| 0 <= i < b.len() ==> -MAX_ABS_COMPONENT <= #[trigger] b[i] <= MAX_ABS_COMPONENT,
    ensures
        -1_000_000 * a.len() <= spec_dot(a, b) <= 1_000_000 * a.len(),
    decreases a.len(),
{
    if a.len() > 0 {
        lemma_dot_bound(a.drop_last(), b.drop_last());
        lemma_mul_bound(a.last() as int, b.last() as int, 1000, 1000);
    }
}

/// The dot product is symmetric.
pub proof fn lemma_dot_symmetric(a: Seq<i32>, b: Seq<i32>)
    requires
        a.len() == b.len(),
    ensures
        spec_dot(a, b) == spec_dot(b, a),
    decreases a.len(),
{
    if a.len() > 0 {
        lemma_dot_symmetric(a.drop_last(), b.drop_last());
    }
}

/// A self dot product is non-negative, and positive exactly when some
/// component is nonzero.
pub proof fn lemma_self_dot_nonneg(a: Seq<i32>)
    ensures
        spec_dot(a, a) >= 0,
        nonzero_embedding(a) <==> spec_dot(a, a) > 0,
    decreases a.len(),
{
    if a.len() > 0 {
        lemma_self_dot_nonneg(a.drop_last());
        assert(a.last() * a.last() >= 0) by (nonlinear_arith);
        if a.last() != 0 {
            assert(a.last() * a.last() > 0) by (nonlinear_arith)
                requires a.last() != 0;
        }
        if nonzero_embedding(a) && a.last() == 0 {
            let i = choose|i: int| 0 <= i < a.len() && a[i] != 0;
            assert(a.drop_last()[i] != 0);
        }
        if nonzero_embedding(a.drop_last()) {
            let i = choose|i: int| 0 <= i < a.drop_last().len() && a.drop_last()[i] != 0;
            assert(a[i] != 0);
        }
    }
}

/// A dot product against an all-zero embedding is zero.
pub proof fn lemma_dot_zero_left(a: Seq<i32>, b: Seq<i32>)
    requires
        a.len() == b.len(),
        !nonzero_embedding(a),
    ensures
        spec_dot(a, b) == 0,
    decreases a.len(),
{
    if a.len() > 0 {
        assert(forall|i: int| 0 <= i < a.drop_last().len() ==> a.drop_last()[i] == a[i]);
        lemma_dot_zero_left(a.drop_last(), b.drop_last());
        assert(a.last() == a[a.len() - 1]);
        assert(a.last() == 0);
    }
}

/// A cosine similarity in exact form: the real value is
/// `dot / sqrt(norm_prod)`, or 0 when `norm_prod` is 0.
#[derive(Clone, Copy, Debug, PartialEq, Eq, Structural)]
pub struct Similarity {
    pub dot: i64,
    pub norm_prod: i64,
}

/// Field bounds under which exact comparison cannot overflow.
pub open spec fn sim_wf(s: Similarity) -> bool {
    &&& -MAX_ABS_DOT <= s.dot <= MAX_ABS_DOT
    &&& 0 <= s.norm_prod <= MAX_NORM_PROD
}

/// The cosine of two valid embeddings, in exact form. The casts are exact:
/// `lemma_cosine_fields` discharges them.
pub open spec fn spec_cosine(a: Seq<i32>, b: Seq<i32>) -> Similarity {
    Similarity {
        dot: spec_dot(a, b) as i64,
        norm_prod: (spec_dot(a, a) * spec_dot(b, b)) as i64,
    }
}

/// For valid embeddings the fields of `spec_cosine` are the exact integers.
pub proof fn lemma_cosine_fields(a: Seq<i32>, b: Seq<i32>)
    requires
        valid_embedding(a),
        valid_embedding(b),
        a.len() == b.len(),
    ensures
        spec_cosine(a, b).dot == spec_dot(a, b),
        spec_cosine(a, b).norm_prod == spec_dot(a, a) * spec_dot(b, b),
        sim_wf(spec_cosine(a, b)),
{
    lemma_dot_bound(a, b);
    lemma_dot_bound(a, a);
    lemma_dot_bound(b, b);
    lemma_self_dot_nonneg(a);
    lemma_self_dot_nonneg(b);
    lemma_mul_bound(spec_dot(a, a), spec_dot(b, b), MAX_ABS_DOT as int, MAX_ABS_DOT as int);
}

/// The numerator of the comparison key: 0 stands in when the norm product
/// vanishes, so a zero-norm similarity compares as the value 0.
pub open spec fn sim_key_dot(s: Similarity) -> int {
    if s.norm_prod == 0 {
        0
    } else {
        s.dot as int
    }
}

/// The denominator of the comparison key; at least 1.
pub open spec fn sim_key_np(s: Similarity) -> int {
    if s.norm_prod == 0 {
        1
    } else {
        s.norm_prod as int
    }
}

/// Exact order on similarity values: `x <= y` as real numbers
/// `dot / sqrt(norm_prod)`.
pub open spec fn sim_le(x: Similarity, y: Similarity) -> bool {
    let dx = sim_key_dot(x);
    let nx = sim_key_np(x);
    let dy = sim_key_dot(y);
    let ny = sim_key_np(y);
    if dx < 0 && dy >= 0 {
        true
    } else if dx >= 0 && dy < 0 {
        false
    } else if dx >= 0 && dy >= 0 {
        dx * dx * ny <= dy * dy * nx
    } else {
        dx * dx * ny >= dy * dy * nx
    }
}

/// Strict order: `x` is strictly below `y`.
pub open spec fn sim_lt(x: Similarity, y: Similarity) -> bool {
    !sim_le(y, x)
}

/// Equality of the denoted real values (representations may differ).
pub open spec fn sim_equiv(x: Similarity, y: Similarity) -> bool {
    sim_le(x, y) && sim_le(y, x)
}

/// The order is total.
pub proof fn lemma_sim_le_total(x: Similarity, y: Similarity)
    ensures
        sim_le(x, y) || sim_le(y, x),
{
}

proof fn lemma_rat_sq_trans(a: int, b: int, c: int, p: int, q: int, r: int)
    requires
        p >= 1,
        q >= 1,
        r >= 1,
        a >= 0,
        b >= 0,
        c >= 0,
        a * a * q <= b * b * p,
        b * b * r <= c * c * q,
    ensures
        a * a * r <= c * c * p,
{
    assert(a * a * q * r <= b * b * p * r) by (nonlinear_arith)
        requires r >= 1, a * a * q <= b * b * p;
    assert(b * b * r * p <= c * c * q * p) by (nonlinear_arith)
        requires p >= 1, b * b * r <= c * c * q;
    assert(b * b * p * r == b * b * r * p) by (nonlinear_arith);
    assert(a * a * r * q <= c * c * p * q) by (nonlinear_arith)
        requires a * a * q * r <= c * c * q * p;
    assert(a * a * r <= c * c * p) by (nonlinear_arith)
        requires q >= 1, a * a * r * q <= c * c * p * q, a >= 0;
}

/// The order is transitive.
pub proof fn lemma_sim_le_trans(x: Similarity, y: Similarity, z: Similarity)
    requires
        sim_wf(x),
        sim_wf(y),
        sim_wf(z),
        sim_le(x, y),
        sim_le(y, z),
    ensures
        sim_le(x, z),
{
    let dx = sim_key_dot(x);
    let nx = sim_key_np(x);
    let dy = sim_key_dot(y);
    let ny = sim_key_np(y);
    let dz = sim_key_dot(z);
    let nz = sim_key_np(z);
    assert(nx >= 1 && ny >= 1 && nz >= 1);
    if dx >= 0 {
        assert(dy >= 0);
        assert(dz >= 0);
        lemma_rat_sq_trans(dx, dy, dz, nx, ny, nz);
    } else if dy >= 0 {
        assert(dz >= 0);
    } else if dz < 0 {
        assert((-dz) * (-dz) * ny == dz * dz * ny) by (nonlinear_arith);
        assert((-dy) * (-dy) * nz == dy * dy * nz) by (nonlinear_arith);
        assert((-dy) * (-dy) * nx == dy * dy * nx) by (nonlinear_arith);
        assert((-dx) * (-dx) * ny == dx * dx * ny) by (nonlinear_arith);
        lemma_rat_sq_trans(-dz, -dy, -dx, nz, ny, nx);
        assert((-dz) * (-dz) * nx == dz * dz * nx) by (nonlinear_arith);
        assert((-dx) * (-dx) * nz == dx * dx * nz) by (nonlinear_arith);
    }
}

/// The similarity that denotes the real value 1.
pub open spec fn unit_similarity() -> Similarity {
    Similarity { dot: 1, norm_prod: 1 }
}

/// The similarity that denotes the real value 0.
pub open spec fn zero_similarity() -> Similarity {
    Similarity { dot: 0, norm_prod: 1 }
}

/// The similarity that denotes the real value -1.
pub open spec fn neg_unit_similarity() -> Similarity {
    Similarity { dot: -1i64, norm_prod: 1 }
}

/// The cosine of a nonzero embedding with itself is the value 1.
pub proof fn lemma_cosine_self_is_unit(a: Seq<i32>)
    requires
        valid_embedding(a),
        nonzero_embedding(a),
    ensures
        sim_equiv(spec_cosine(a, a), unit_similarity()),
{
    lemma_cosine_fields(a, a);
    lemma_self_dot_nonneg(a);
    let n = spec_dot(a, a);
    let s = spec_cosine(a, a);
    assert(n * n >= 1) by (nonlinear_arith)
        requires n >= 1;
    assert(sim_key_dot(s) == n && sim_key_np(s) == n * n);
    assert(n * n * 1 == 1 * 1 * (n * n)) by (nonlinear_arith);
}

/// Cosine similarity is symmetric.
pub proof fn lemma_cosine_symmetric(a: Seq<i32>, b: Seq<i32>)
    requires
        a.len() == b.len(),
    ensures
        spec_cosine(a, b) == spec_cosine(b, a),
{
    lemma_dot_symmetric(a, b);
    assert(spec_dot(a, a) * spec_dot(b, b) == spec_dot(b, b) * spec_dot(a, a))
        by (nonlinear_arith);
}

/// The cosine against an all-zero embedding is the value 0.
pub proof fn lemma_cosine_zero_left(a: Seq<i32>, b: Seq<i32>)
    requires
        valid_embedding(a),
        valid_embedding(b),
        a.len() == b.len(),
        !nonzero_embedding(a),
    ensures
        sim_equiv(spec_cosine(a, b), zero_similarity()),
{
    lemma_cosine_fields(a, b);
    lemma_dot_zero_left(a, b);
    lemma_self_dot_nonneg(a);
}

/// The dot product over unbounded integer sequences, for proofs that scale
/// embedding components.
pub open spec fn idot(x: Seq<int>, y: Seq<int>) -> int
    decreases x.len(),
{
    if x.len() == 0 || y.len() == 0 {
        0
    } else {
        idot(x.drop_last(), y.drop_last()) + x.last() * y.last()
    }
}

/// The component-wise combination `p * a - q * b`.
pub open spec fn scaled_diff(a: Seq<i32>, b: Seq<i32>, p: int, q: int) -> Seq<int> {
    Seq::new(a.len(), |i: int| p * a[i] - q * b[i])
}

proof fn lemma_idot_self_nonneg(z: Seq<int>)
    ensures
        idot(z, z) >= 0,
    decreases z.len(),
{
    if z.len() > 0 {
        lemma_idot_self_nonneg(z.drop_last());
        assert(z.last() * z.last() >= 0) by (nonlinear_arith);
    }
}

proof fn lemma_sq_diff(u: int, v: int)
    by (nonlinear_arith)
    ensures
        (u - v) * (u - v) == u * u - 2 * (u * v) + v * v,
{
}

proof fn lemma_mul_rearrange(p: int, x: int, q: int, y: int)
    by (nonlinear_arith)
    ensures
        (p * x) * (q * y) == (p * q) * (x * y),
{
}

proof fn lemma_mul_assoc(u: int, v: int, w: int)
    by (nonlinear_arith)
    ensures
        u * (v * w) == (u * v) * w,
{
}

proof fn lemma_binomial(p: int, q: int, x: int, y: int)
    ensures
        (p * x - q * y) * (p * x - q * y) == p * p * (x * x) - 2 * p * q * (x * y) + q * q * (y
            * y),
{
    lemma_sq_diff(p * x, q * y);
    lemma_mul_rearrange(p, x, p, x);
    lemma_mul_rearrange(p, x, q, y);
    lemma_mul_rearrange(q, y, q, y);
    lemma_mul_assoc(2, p * q, x * y);
    lemma_mul_assoc(2, p, q);
}

proof fn lemma_mul_distrib(m: int, u: int, v: int)
    by (nonlinear_arith)
    ensures
        m * (u + v) == m * u + m * v,
{
}

proof fn lemma_scaled_diff_expansion(a: Seq<i32>, b: Seq<i32>, p: int, q: int)
    requires
        a.len() == b.len(),
    ensures
        idot(scaled_diff(a, b, p, q), scaled_diff(a, b, p, q)) == p * p * spec_dot(a, a) - 2 * p
            * q * spec_dot(a, b) + q * q * spec_dot(b, b),
    decreases a.len(),
{
    if a.len() > 0 {
        lemma_scaled_diff_expansion(a.drop_last(), b.drop_last(), p, q);
        let z = scaled_diff(a, b, p, q);
        assert(z.drop_last() =~= scaled_diff(a.drop_last(), b.drop_last(), p, q));
        let x = a.last() as int;
        let y = b.last() as int;
        let ra = spec_dot(a.drop_last(), a.drop_last());
        let rd = spec_dot(a.drop_last(), b.drop_last());
        let rb = spec_dot(b.drop_last(), b.drop_last());
        assert(z.last() == p * x - q * y);
        lemma_binomial(p, q, x, y);
        lemma_mul_distrib(p * p, ra, x * x);
        lemma_mul_distrib(2 * p * q, rd, x * y);
        lemma_mul_distrib(q * q, rb, y * y);
    } else {
        assert(scaled_diff(a, b, p, q).len() == 0);
    }
}

/// The Cauchy–Schwarz inequality for integer embeddings:
/// `dot(a,b)^2 <= dot(a,a) * dot(b,b)`.
pub proof fn lemma_cauchy_schwarz(a: Seq<i32>, b: Seq<i32>)
    requires
        a.len() == b.len(),
    ensures
        spec_dot(a, b) * spec_dot(a, b) <= spec_dot(a, a) * spec_dot(b, b),
{
    let d = spec_dot(a, b);
    let na = spec_dot(a, a);
    let nb = spec_dot(b, b);
    lemma_self_dot_nonneg(a);
    lemma_self_dot_nonneg(b);
    if na == 0 {
        lemma_dot_zero_left(a, b);
        assert(d * d == 0 && na * nb == 0) by (nonlinear_arith)
            requires d == 0, na == 0;
    } else {
        lemma_scaled_diff_expansion(a, b, d, na);
        lemma_idot_self_nonneg(scaled_diff(a, b, d, na));
        assert(d * d * na - 2 * d * na * d + na * na * nb >= 0);
        assert(na * (na * nb - d * d) == d * d * na - 2 * d * na * d + na * na * nb)
            by (nonlinear_arith);
        assert(na * nb - d * d >= 0) by (nonlinear_arith)
            requires na >= 1, na * (na * nb - d * d) >= 0;
    }
}

/// Cosine similarity lies between -1 and 1.
pub proof fn lemma_cosine_bounded(a: Seq<i32>, b: Seq<i32>)
    requires
        valid_embedding(a),
        valid_embedding(b),
        a.len() == b.len(),
    ensures
        sim_le(spec_cosine(a, b), unit_similarity()),
        sim_le(neg_unit_similarity(), spec_cosine(a, b)),
{
    lemma_cosine_fields(a, b);
    lemma_cauchy_schwarz(a, b);
    let s = spec_cosine(a, b);
    let dd = spec_dot(a, b);
    let u = unit_similarity();
    let nu = neg_unit_similarity();
    assert(sim_key_dot(u) == 1 && sim_key_np(u) == 1);
    assert(sim_key_dot(nu) == -1 && sim_key_np(nu) == 1);
    if s.norm_prod == 0 {
        assert(sim_key_dot(s) == 0 && sim_key_np(s) == 1);
        assert(sim_le(s, u));
        assert(sim_le(nu, s));
    } else {
        let d = sim_key_dot(s);
        let np = sim_key_np(s);
        assert(d == dd && np == spec_dot(a, a) * spec_dot(b, b));
        assert(d * d <= np);
        assert(d * d * 1 == d * d) by (nonlinear_arith);
        assert(1 * 1 * np == np) by (nonlinear_arith);
        assert((-1) * (-1) * np == np) by (nonlinear_arith);
        if d >= 0 {
            assert(d * d * 1 <= 1 * 1 * np);
        } else {
            assert((-1) * (-1) * np >= d * d * 1);
        }
        assert(sim_le(s, u));
        assert(sim_le(nu, s));
    }
}

/// No embedding is more similar to `a` than `a` itself: against a nonzero
/// reference, self-similarity is the maximum.
pub proof fn lemma_self_similarity_maximal(a: Seq<i32>, b: Seq<i32>)
    requires
        valid_embedding(a),
        valid_embedding(b),
        a.len() == b.len(),
        nonzero_embedding(a),
    ensures
        sim_le(spec_cosine(a, b), spec_cosine(a, a)),
{
    lemma_cosine_bounded(a, b);
    lemma_cosine_self_is_unit(a);
    lemma_cosine_fields(a, b);
    lemma_cosine_fields(a, a);
    lemma_sim_le_trans(spec_cosine(a, b), unit_similarity(), spec_cosine(a, a));
}

/// The exact dot product of two valid embeddings of equal length.
pub fn dot(a: &Vec<i32>, b: &Vec<i32>) -> (r: i64)
    requires
        a@.len() == b@.len(),
        valid_embedding(a@) || !nonzero_embedding(a@),
        valid_embedding(b@) || !nonzero_embedding(b@),
        a@.len() <= MAX_DIM,
        forall|i: int| 0 <= i < a@.len() ==> -MAX_ABS_COMPONENT <= #[trigger] a@[i] <= MAX_ABS_COMPONENT,
        forall|i: int| 0 <= i < b@.len() ==> -MAX_ABS_COMPONENT <= #[trigger] b@[i] <= MAX_ABS_COMPONENT,
    ensures
        r == spec_dot(a@, b@),
        -MAX_ABS_DOT <= r <= MAX_ABS_DOT,
{
    let n = a.len();
    let mut acc: i64 = 0;
    let mut i: usize = 0;
    while i < n
        invariant
            n == a@.len() == b@.len(),
            n <= MAX_DIM,
            i <= n,
            forall|k: int| 0 <= k < n ==> -MAX_ABS_COMPONENT <= #[trigger] a@[k] <= MAX_ABS_COMPONENT,
            forall|k: int| 0 <= k < n ==> -MAX_ABS_COMPONENT <= #[trigger] b@[k] <= MAX_ABS_COMPONENT,
            acc == spec_dot(a@.take(i as int), b@.take(i as int)),
            -1_000_000 * i <= acc <= 1_000_000 * i,
        decreases n - i,
    {
        proof {
            lemma_mul_bound(a@[i as int] as int, b@[i as int] as int, 1000, 1000);
            assert(a@.take(i + 1).drop_last() =~= a@.take(i as int));
            assert(b@.take(i + 1).drop_last() =~= b@.take(i as int));
        }
        let p: i64 = (a[i] as i64) * (b[i] as i64);
        acc = acc + p;
        i += 1;
    }
    proof {
        assert(a@.take(n as int) =~= a@);
        assert(b@.take(n as int) =~= b@);
    }
    acc
}

/// The cosine similarity of two equal-length valid embeddings, in exact form.
/// Zero embeddings yield a zero norm product, which denotes similarity 0.
pub fn cosine(a: &Vec<i32>, b: &Vec<i32>) -> (r: Similarity)
    requires
        valid_embedding(a@),
        valid_embedding(b@),
        a@.len() == b@.len(),
    ensures
        r == spec_cosine(a@, b@),
        sim_wf(r),
{
    proof {
        lemma_cosine_fields(a@, b@);
    }
    let d = dot(a, b);
    let na = dot(a, a);
    let nb = dot(b, b);
    proof {
        lemma_self_dot_nonneg(a@);
        lemma_self_dot_nonneg(b@);
        lemma_mul_bound(na as int, nb as int, MAX_ABS_DOT as int, MAX_ABS_DOT as int);
    }
    Similarity { dot: d, norm_prod: na * nb }
}

/// Exact comparison of two similarity values: true when `x <= y` as reals.
pub fn sim_le_exec(x: &Similarity, y: &Similarity) -> (r: bool)
    requires
        sim_wf(*x),
        sim_wf(*y),
    ensures
        r == sim_le(*x, *y),
{
    let (dx, nx): (i64, i64) = if x.norm_prod == 0 { (0, 1) } else { (x.dot, x.norm_prod) };
    let (dy, ny): (i64, i64) = if y.norm_prod == 0 { (0, 1) } else { (y.dot, y.norm_prod) };
    if dx < 0 && dy >= 0 {
        true
    } else if dx >= 0 && dy < 0 {
        false
    } else {
        proof {
            lemma_mul_bound(dx as int, dx as int, MAX_ABS_DOT as int, MAX_ABS_DOT as int);
            lemma_mul_bound(dy as int, dy as int, MAX_ABS_DOT as int, MAX_ABS_DOT as int);
            lemma_mul_bound(
                dx as int * dx as int,
                ny as int,
                MAX_NORM_PROD as int,
                MAX_NORM_PROD as int,
            );
            lemma_mul_bound(
                dy as int * dy as int,
                nx as int,
                MAX_NORM_PROD as int,
                MAX_NORM_PROD as int,
            );
        }
        let lhs: i128 = (dx as i128) * (dx as i128) * (ny as i128);
        let rhs: i128 = (dy as i128) * (dy as i128) * (nx as i128);
        if dx >= 0 {
            lhs <= rhs
        } else {
            lhs >= rhs
        }
    }
}

/// Exact strict comparison: true when `x < y` as reals.
pub fn sim_lt_exec(x: &Similarity, y: &Similarity) -> (r: bool)
    requires
        sim_wf(*x),
        sim_wf(*y),
    ensures
        r == sim_lt(*x, *y),
{
    !sim_le_exec(y, x)
}

} // verus!

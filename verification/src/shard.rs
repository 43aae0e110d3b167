//! Partitioning of the input file list into contiguous shards, one per
//! available parallel execution unit.
//!
//! A shard is described by a half-open index range `(start, end)` into the
//! input file list, so the caller can slice its own list without copying.

use vstd::prelude::*;
use vstd::arithmetic::div_mod::{
    lemma_div_is_ordered_by_denominator, lemma_div_basics_2, lemma_div_pos_is_pos,
    lemma_fundamental_div_mod, lemma_fundamental_div_mod_converse, lemma_mod_bound,
};

verus! {

/// Mathematical ceiling of `a / b` for `b >= 1`.
pub open spec fn ceil_div_spec(a: int, b: int) -> int
    recommends
        b >= 1,
{
    (a + b - 1) / b
}

/// Ceiling division on machine integers.
pub fn ceil_div(a: usize, b: usize) -> (r: usize)
    requires
        b >= 1,
    ensures
        r == ceil_div_spec(a as int, b as int),
        r <= a,
        a >= 1 ==> r >= 1,
{
    let q = a / b;
    let m = a % b;
    proof {
        let ai = a as int;
        let bi = b as int;
        let q0 = ai / bi;
        let r0 = ai % bi;
        lemma_fundamental_div_mod(ai, bi);
        lemma_mod_bound(ai, bi);
        lemma_div_pos_is_pos(ai, bi);
        lemma_div_is_ordered_by_denominator(ai, 1, bi);
        lemma_div_basics_2(ai);
        if r0 == 0 {
            assert(ai + bi - 1 == q0 * bi + (bi - 1)) by (nonlinear_arith)
                requires
                    ai == bi * q0 + r0,
                    r0 == 0,
            ;
            lemma_fundamental_div_mod_converse(ai + bi - 1, bi, q0, bi - 1);
            assert(ai >= 1 ==> q0 >= 1) by (nonlinear_arith)
                requires
                    ai == bi * q0 + r0,
                    r0 == 0,
                    bi >= 1,
                    q0 >= 0,
            ;
        } else {
            assert(ai + bi - 1 == (q0 + 1) * bi + (r0 - 1)) by (nonlinear_arith)
                requires
                    ai == bi * q0 + r0,
            ;
            lemma_fundamental_div_mod_converse(ai + bi - 1, bi, q0 + 1, r0 - 1);
            assert(q0 + 1 <= ai) by (nonlinear_arith)
                requires
                    ai == bi * q0 + r0,
                    1 <= r0,
                    bi >= 1,
                    q0 >= 0,
            ;
        }
    }
    if m == 0 {
        q
    } else {
        q + 1
    }
}

/// Shard size used for `file_count` files over `units` parallel units.
pub open spec fn shard_size_spec(file_count: int, units: int) -> int {
    ceil_div_spec(file_count, units)
}

/// Number of shards produced for `file_count` files over `units` units.
pub open spec fn shard_count_spec(file_count: int, units: int) -> int {
    if file_count == 0 {
        0
    } else {
        ceil_div_spec(file_count, shard_size_spec(file_count, units))
    }
}

/// Partitions the index range `[0, file_count)` into contiguous shards of at
/// most `ceil(file_count / units)` indices each.
///
/// Every shard is non-empty, the shards are contiguous and in ascending
/// order, their union covers every index exactly once, and no more shards
/// are produced than there are parallel units.
pub fn shard_bounds(file_count: usize, units: usize) -> (shards: Vec<(usize, usize)>)
    requires
        units >= 1,
    ensures
        shards@.len() == shard_count_spec(file_count as int, units as int),
        shards@.len() <= units,
        forall|i: int| 0 <= i < shards@.len() ==> #[trigger] shards@[i].0 < shards@[i].1,
        forall|i: int|
            0 <= i < shards@.len() ==> #[trigger] shards@[i].1 - shards@[i].0
                <= shard_size_spec(file_count as int, units as int),
        forall|i: int|
            0 <= i < shards@.len() - 1 ==> #[trigger] shards@[i].1 == shards@[i + 1].0,
        shards@.len() > 0 ==> shards@[0].0 == 0,
        shards@.len() > 0 ==> shards@[shards@.len() - 1].1 == file_count,
{
    let mut shards: Vec<(usize, usize)> = Vec::new();
    if file_count == 0 {
        return shards;
    }
    let size = ceil_div(file_count, units);
    let ghost fc = file_count as int;
    let ghost s = size as int;
    let mut i: usize = 0;
    proof {
        assert(shards@.len() * s == 0) by (nonlinear_arith)
            requires
                shards@.len() == 0,
        ;
    }
    while i < file_count
        invariant
            1 <= s <= fc,
            fc == file_count as int,
            s == size as int,
            s == shard_size_spec(fc, units as int),
            i <= file_count,
            i < file_count ==> i as int == shards@.len() * s,
            i == file_count ==> shards@.len() == ceil_div_spec(fc, s),
            forall|k: int| 0 <= k < shards@.len() ==> #[trigger] shards@[k].0 < shards@[k].1,
            forall|k: int|
                0 <= k < shards@.len() ==> #[trigger] shards@[k].1 - shards@[k].0 <= s,
            forall|k: int|
                0 <= k < shards@.len() - 1 ==> #[trigger] shards@[k].1 == shards@[k + 1].0,
            shards@.len() > 0 ==> shards@[0].0 == 0,
            shards@.len() > 0 ==> shards@[shards@.len() - 1].1 == i,
        decreases file_count - i,
    {
        let ghost n = shards@.len() as int;
        let end = if size > file_count - i {
            file_count
        } else {
            i + size
        };
        shards.push((i, end));
        proof {
            assert(shards@[n] == (i, end));
            assert(n * s == i as int);
            assert(n == 0 ==> i as int == 0) by (nonlinear_arith)
                requires
                    i as int == n * s,
            ;
            if end < file_count {
                assert(end as int == (n + 1) * s) by (nonlinear_arith)
                    requires
                        i as int == n * s,
                        end as int == i as int + s,
                ;
            } else {
                // The loop is about to stop: the shard count is exact,
                // because fc lies in (n * s, n * s + s].
                let r = fc - n * s;
                assert(1 <= r <= s);
                assert(fc + s - 1 == (n + 1) * s + (r - 1)) by (nonlinear_arith)
                    requires
                        r == fc - n * s,
                ;
                lemma_fundamental_div_mod_converse(fc + s - 1, s, n + 1, r - 1);
            }
        }
        i = end;
    }
    proof {
        // At most `units` shards: from s == ceil(fc / units) we get
        // s * units >= fc, hence ceil(fc / s) <= units.
        let u = units as int;
        lemma_fundamental_div_mod(fc + u - 1, u);
        lemma_mod_bound(fc + u - 1, u);
        assert(u * s >= fc);
        assert(fc + s - 1 <= (s * u + s - 1)) by (nonlinear_arith)
            requires
                u * s >= fc,
        ;
        vstd::arithmetic::div_mod::lemma_div_is_ordered(fc + s - 1, s * u + s - 1, s);
        assert(s * u + s - 1 == u * s + (s - 1)) by (nonlinear_arith);
        lemma_fundamental_div_mod_converse(s * u + s - 1, s, u, s - 1);
    }
    shards
}

/// Relies on num_cpus::get: the number of logical CPUs available to this
/// process, documented to always be at least 1.
#[verifier::external_body]
fn parallelism_units() -> (n: usize)
    ensures
        n >= 1,
{
    num_cpus::get()
}

/// Partitions the index range `[0, file_count)` into contiguous non-empty
/// shards, one per parallel execution unit available on this machine.
///
/// How many units the machine offers varies, so only the unit-independent
/// properties are stated: the shards are non-empty, contiguous, in
/// ascending order, and cover every index exactly once.
pub fn shard_bounds_for_machine(file_count: usize) -> (shards: Vec<(usize, usize)>)
    ensures
        file_count == 0 ==> shards@.len() == 0,
        file_count > 0 ==> shards@.len() >= 1,
        forall|i: int| 0 <= i < shards@.len() ==> #[trigger] shards@[i].0 < shards@[i].1,
        forall|i: int|
            0 <= i < shards@.len() - 1 ==> #[trigger] shards@[i].1 == shards@[i + 1].0,
        shards@.len() > 0 ==> shards@[0].0 == 0,
        shards@.len() > 0 ==> shards@[shards@.len() - 1].1 == file_count,
{
    let units = parallelism_units();
    let shards = shard_bounds(file_count, units);
    proof {
        if file_count > 0 {
            let fc = file_count as int;
            let u = units as int;
            let s = shard_size_spec(fc, u);
            vstd::arithmetic::div_mod::lemma_div_non_zero(fc + u - 1, u);
            vstd::arithmetic::div_mod::lemma_div_non_zero(fc + s - 1, s);
        }
    }
    shards
}

} // verus!

use vstd::prelude::*;

pub use crate::rand_util::random_vec;

use crate::duration::Duration;
use crate::stats::{
    drop_outliers_of, floor_mean, distance_key, ints, lemma_key_order, lemma_survivors_count,
    nanos_seq, rank_upto, scaled_dist, sum, survivors, to_nanos,
};

verus! {

/// Drops the `outliers` durations farthest from the mean of all of `data`.
///
/// Samples are ranked by their distance from the mean of the whole input; among
/// equally distant samples the earlier one ranks farther. The `outliers` farthest are
/// removed and the rest are returned in their input order.
pub fn drop_outliers(data: &Vec<Duration>, outliers: usize) -> (r: Vec<Duration>)
    requires
        outliers <= data.len(),
    ensures
        r@ == drop_outliers_of(data@, outliers as int),
        r.len() == data.len() - outliers,
{
    let n = data.len();
    let ghost ys = nanos_seq(data@);
    proof {
        lemma_survivors_count(data@, ys, outliers as int);
    }
    if n == 0 {
        return Vec::new();
    }
    let xs = to_nanos(data);
    let (q, r) = floor_mean(&xs);
    let nn = n as u128;
    let mut keys: Vec<(u128, u128)> = Vec::new();
    let mut i: usize = 0;
    while i < n
        invariant
            0 <= i <= n,
            n == data.len(),
            nn == n,
            xs.len() == n,
            ys == ints(xs@),
            ys.len() == n,
            q * nn + r == sum(ys),
            r < nn,
            keys.len() == i,
            forall|j: int|
                0 <= j < i ==> nn * (#[trigger] keys[j]).0 + keys[j].1 == scaled_dist(ys, j)
                    && keys[j].1 < nn,
        decreases n - i,
    {
        keys.push(distance_key(xs[i], q, r, nn));
        i = i + 1;
    }
    let mut out: Vec<Duration> = Vec::new();
    let mut i: usize = 0;
    while i < n
        invariant
            0 <= i <= n,
            n == data.len(),
            nn == n,
            ys == nanos_seq(data@),
            ys.len() == n,
            outliers <= n,
            keys.len() == n,
            forall|j: int|
                0 <= j < n ==> nn * (#[trigger] keys[j]).0 + keys[j].1 == scaled_dist(ys, j)
                    && keys[j].1 < nn,
            out@ == survivors(data@, ys, outliers as int, i as int),
        decreases n - i,
    {
        let (ui, vi) = keys[i];
        let mut cnt: usize = 0;
        let mut j: usize = 0;
        while j < n
            invariant
                0 <= i < n,
                0 <= j <= n,
                nn == n,
                ys.len() == n,
                keys.len() == n,
                (ui, vi) == keys[i as int],
                forall|t: int|
                    0 <= t < n ==> nn * (#[trigger] keys[t]).0 + keys[t].1 == scaled_dist(ys, t)
                        && keys[t].1 < nn,
                cnt == rank_upto(ys, i as int, j as int),
                cnt <= j,
            decreases n - j,
        {
            let (uj, vj) = keys[j];
            proof {
                lemma_key_order(nn as int, uj as int, vj as int, ui as int, vi as int);
            }
            if uj < ui || (uj == ui && (vj < vi || (vj == vi && j > i))) {
                cnt = cnt + 1;
            }
            j = j + 1;
        }
        if cnt < n - outliers {
            out.push(data[i]);
        }
        i = i + 1;
    }
    out
}

} // verus!

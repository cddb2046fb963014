//! Comparison engine: classifies the change between two measured values of
//! one (benchmark, scenario) pair and summarizes a whole comparison.
//!
//! Measurements are nonnegative fixed-point integers in a caller-chosen unit.
//! Every classification here depends only on the ratio of the two values, so
//! the caller's scale cancels out. The significance and magnitude rules are
//! stated over the natural logarithm of that ratio; since `ln` is monotone,
//! each of them is equivalent to comparing the ratio against `e` raised to
//! the threshold, which integer cross-multiplication against a
//! fixed-precision rational bound decides exactly, with no floating point
//! anywhere.

use vstd::prelude::*;
use crate::Ord3;
use crate::db::{ArtifactId, Benchmark, Commit, Date, Profile, QueryValue, Scenario};
use crate::db::{Bound, Index, Metric, StatKey};
use crate::selector::{path_wf, GetValue, PathComponent, SeriesResponse};

verus! {

/// Denominator of the rational thresholds: they have ten decimal digits.
pub const RATIO_DEN: u64 = 10_000_000_000;

/// `e` to the 0.005, times `RATIO_DEN`, rounded to nearest.
pub const EXP_0_005: u64 = 10_050_125_209;

/// `e` to the 0.01 (the significance threshold), times `RATIO_DEN`.
pub const EXP_0_01: u64 = 10_100_501_671;

/// `e` to the 0.05, times `RATIO_DEN`.
pub const EXP_0_05: u64 = 10_512_710_964;

/// `e` to the 0.10, times `RATIO_DEN`.
pub const EXP_0_10: u64 = 11_051_709_181;

/// The direction of a performance change.
#[derive(Clone, Copy, Debug, PartialEq, Eq, Hash, Structural)]
pub enum Direction {
    Improvement,
    Regression,
    Mixed,
}

impl Direction {
    pub open spec fn spec_describe(&self) -> Seq<char> {
        match self {
            Direction::Improvement => "improvement"@,
            Direction::Regression => "regression"@,
            Direction::Mixed => "mixed"@,
        }
    }

    /// The lower-case word used in report lines.
    pub fn describe(&self) -> (r: &'static str)
        ensures
            r@ == self.spec_describe(),
    {
        match self {
            Direction::Improvement => "improvement",
            Direction::Regression => "regression",
            Direction::Mixed => "mixed",
        }
    }
}

/// The larger of the two values of a pair: the numerator of the ratio whose
/// logarithm is the magnitude of the change.
pub open spec fn rmax(a: int, b: int) -> int {
    if a < b {
        b
    } else {
        a
    }
}

/// The smaller of the two values of a pair.
pub open spec fn rmin(a: int, b: int) -> int {
    if a < b {
        a
    } else {
        b
    }
}

/// Whether `|ln(b/a)| > ln(n / RATIO_DEN)`: the magnitude of the change
/// exceeds the threshold exactly when `max(a,b) / min(a,b) > n / RATIO_DEN`.
pub open spec fn ratio_exceeds(a: int, b: int, n: int) -> bool {
    rmax(a, b) * (RATIO_DEN as int) > rmin(a, b) * n
}

/// Compares `ln(b1/a1)` with `ln(b2/a2)` for nonnegative values: since `ln`
/// and division by a positive value are monotone, `ln(b1/a1) < ln(b2/a2)`
/// exactly when `b1 * a2 < b2 * a1`. Zero values follow the extended reals
/// (a zero denominator gives an infinite ratio), and the undefined 0/0 ratio
/// compares equal to everything, the tie-break the summaries use.
pub open spec fn log_cmp(a1: int, b1: int, a2: int, b2: int) -> Ord3 {
    if b1 * a2 < b2 * a1 {
        Ord3::Lt
    } else if b2 * a1 < b1 * a2 {
        Ord3::Gt
    } else {
        Ord3::Eq
    }
}

/// Compares `|ln(b1/a1)|` with `|ln(b2/a2)|`: the magnitudes order as the
/// ratios `max/min` do.
pub open spec fn abs_log_cmp(a1: int, b1: int, a2: int, b2: int) -> Ord3 {
    log_cmp(rmin(a1, b1), rmax(a1, b1), rmin(a2, b2), rmax(a2, b2))
}

/// `(b - a) / a` in tenths of a percent, rounded to nearest, half away from
/// zero: the figure the report renders with one decimal digit.
pub open spec fn spec_percent_tenths(a: int, b: int) -> int {
    let num = (b - a) * 1000;
    if num >= 0 {
        (2 * num + a) / (2 * a)
    } else {
        -((2 * (-num) + a) / (2 * a))
    }
}

/// The product of two values bounded by `u64::MAX` fits in 128 bits.
proof fn lemma_u64_mul_fits(x: int, y: int)
    requires
        0 <= x < 0x1_0000_0000_0000_0000,
        0 <= y < 0x1_0000_0000_0000_0000,
    ensures
        x * y < 0x1_0000_0000_0000_0000_0000_0000_0000_0000,
{
    assert(x * y < 0x1_0000_0000_0000_0000_0000_0000_0000_0000) by (nonlinear_arith)
        requires
            0 <= x < 0x1_0000_0000_0000_0000,
            0 <= y < 0x1_0000_0000_0000_0000,
    ;
}

/// One benchmark/scenario pair with its two measured values `(a, b)`; all
/// other figures are functions of this pair.
#[derive(Debug)]
pub struct BenchmarkComparison {
    pub bench_name: String,
    pub cache_state: String,
    pub results: (u64, u64),
}

impl Clone for BenchmarkComparison {
    fn clone(&self) -> (r: Self)
        ensures
            r.bench_name@ == self.bench_name@,
            r.cache_state@ == self.cache_state@,
            r.results == self.results,
    {
        BenchmarkComparison {
            bench_name: self.bench_name.clone(),
            cache_state: self.cache_state.clone(),
            results: (self.results.0, self.results.1),
        }
    }
}

impl BenchmarkComparison {
    pub open spec fn a(&self) -> int {
        self.results.0 as int
    }

    pub open spec fn b(&self) -> int {
        self.results.1 as int
    }

    /// Whether the second value is larger.
    pub open spec fn spec_increase(&self) -> bool {
        self.b() > self.a()
    }

    pub fn is_increase(&self) -> (r: bool)
        ensures
            r == self.spec_increase(),
    {
        self.results.1 > self.results.0
    }

    /// The known-flaky pairing that uses the relative-change rule instead of
    /// the logarithmic one.
    pub open spec fn spec_flaky(&self) -> bool {
        &&& self.bench_name@.len() >= "coercions-debug"@.len()
        &&& self.bench_name@.subrange(0, "coercions-debug"@.len() as int) == "coercions-debug"@
        &&& self.cache_state@ == "incr-patched: println"@
    }

    /// Significance: for the flaky pairing, `|relative change| > 2`, i.e.
    /// `|b - a| > 2a`; for every other pairing, `|ln(b/a)| > 0.01`.
    pub open spec fn spec_significant(&self) -> bool {
        if self.spec_flaky() {
            (if self.a() < self.b() {
                self.b() - self.a()
            } else {
                self.a() - self.b()
            }) > 2 * self.a()
        } else {
            ratio_exceeds(self.a(), self.b(), EXP_0_01 as int)
        }
    }

    pub fn is_significant(&self) -> (r: bool)
        ensures
            r == self.spec_significant(),
    {
        proof {
            reveal_strlit("coercions-debug");
        }
        let flaky = self.bench_name.as_str().unicode_len() >= 15 && self.bench_name.as_str()
            .substring_char(0, 15).to_owned() == "coercions-debug".to_owned()
            && self.cache_state == "incr-patched: println".to_owned();
        if flaky {
            let (a, b) = self.results;
            let diff: u128 = if a < b {
                (b - a) as u128
            } else {
                (a - b) as u128
            };
            diff > 2 * (a as u128)
        } else {
            ratio_exceeds_exec(self.results.0, self.results.1, EXP_0_01)
        }
    }

    /// Regression exactly when the logarithmic change is strictly positive:
    /// for nonnegative values `ln(b/a) > 0` holds exactly when `b > a`, so
    /// equal values classify as an improvement under this strict rule.
    pub open spec fn spec_direction(&self) -> Direction {
        if self.spec_increase() {
            Direction::Regression
        } else {
            Direction::Improvement
        }
    }

    pub fn direction(&self) -> (r: Direction)
        ensures
            r == self.spec_direction(),
            (r == Direction::Regression) <==> self.b() > self.a(),
            self.a() == self.b() ==> r == Direction::Improvement,
    {
        if self.results.1 > self.results.0 {
            Direction::Regression
        } else {
            Direction::Improvement
        }
    }

    /// The magnitude word of the report, by `|ln(b/a)|`: above 0.10 "Very
    /// large", above 0.05 "Large", above 0.01 "Moderate", above 0.005
    /// "Small", otherwise "Very small".
    pub open spec fn spec_magnitude(&self) -> Seq<char> {
        if ratio_exceeds(self.a(), self.b(), EXP_0_10 as int) {
            "Very large"@
        } else if ratio_exceeds(self.a(), self.b(), EXP_0_05 as int) {
            "Large"@
        } else if ratio_exceeds(self.a(), self.b(), EXP_0_01 as int) {
            "Moderate"@
        } else if ratio_exceeds(self.a(), self.b(), EXP_0_005 as int) {
            "Small"@
        } else {
            "Very small"@
        }
    }

    pub fn magnitude(&self) -> (r: &'static str)
        ensures
            r@ == self.spec_magnitude(),
    {
        let (a, b) = self.results;
        if ratio_exceeds_exec(a, b, EXP_0_10) {
            "Very large"
        } else if ratio_exceeds_exec(a, b, EXP_0_05) {
            "Large"
        } else if ratio_exceeds_exec(a, b, EXP_0_01) {
            "Moderate"
        } else if ratio_exceeds_exec(a, b, EXP_0_005) {
            "Small"
        } else {
            "Very small"
        }
    }

    /// The relative change in tenths of a percent, rounded half away from
    /// zero.
    pub fn percent_tenths(&self) -> (r: i128)
        requires
            self.a() > 0,
        ensures
            r == spec_percent_tenths(self.a(), self.b()),
            r != i128::MIN,
    {
        let a = self.results.0;
        let b = self.results.1;
        if b >= a {
            let num: u128 = ((b - a) as u128) * 1000;
            let q: u128 = (2 * num + a as u128) / (2 * (a as u128));
            proof {
                assert(q <= 2 * num + a);
            }
            q as i128
        } else {
            let num: u128 = ((a - b) as u128) * 1000;
            let q: u128 = (2 * num + a as u128) / (2 * (a as u128));
            proof {
                assert(q <= 2 * num + a);
            }
            -(q as i128)
        }
    }

    /// Three-way comparison of this pair's logarithmic change with another's.
    pub fn log_change_cmp(&self, other: &BenchmarkComparison) -> (r: Ord3)
        ensures
            r == log_cmp(self.a(), self.b(), other.a(), other.b()),
    {
        proof {
            lemma_u64_mul_fits(self.results.1 as int, other.results.0 as int);
            lemma_u64_mul_fits(other.results.1 as int, self.results.0 as int);
        }
        let p = (self.results.1 as u128) * (other.results.0 as u128);
        let q = (other.results.1 as u128) * (self.results.0 as u128);
        if p < q {
            Ord3::Lt
        } else if q < p {
            Ord3::Gt
        } else {
            Ord3::Eq
        }
    }

    /// Three-way comparison of the magnitudes of two changes.
    pub fn abs_log_cmp(&self, other: &BenchmarkComparison) -> (r: Ord3)
        ensures
            r == abs_log_cmp(self.a(), self.b(), other.a(), other.b()),
    {
        let (a1, b1) = self.results;
        let (a2, b2) = other.results;
        let n1: u128 = if a1 < b1 {
            b1 as u128
        } else {
            a1 as u128
        };
        let d1: u128 = if a1 < b1 {
            a1 as u128
        } else {
            b1 as u128
        };
        let n2: u128 = if a2 < b2 {
            b2 as u128
        } else {
            a2 as u128
        };
        let d2: u128 = if a2 < b2 {
            a2 as u128
        } else {
            b2 as u128
        };
        proof {
            lemma_u64_mul_fits(n1 as int, d2 as int);
            lemma_u64_mul_fits(n2 as int, d1 as int);
        }
        let p = n1 * d2;
        let q = n2 * d1;
        if p < q {
            Ord3::Lt
        } else if q < p {
            Ord3::Gt
        } else {
            Ord3::Eq
        }
    }
}

/// Whether `max(a,b) * RATIO_DEN > min(a,b) * n`, in 128-bit arithmetic.
fn ratio_exceeds_exec(a: u64, b: u64, n: u64) -> (r: bool)
    ensures
        r == ratio_exceeds(a as int, b as int, n as int),
{
    let hi: u128 = if a < b {
        b as u128
    } else {
        a as u128
    };
    let lo: u128 = if a < b {
        a as u128
    } else {
        b as u128
    };
    proof {
        lemma_u64_mul_fits(hi as int, RATIO_DEN as int);
        lemma_u64_mul_fits(lo as int, n as int);
    }
    hi * (RATIO_DEN as u128) > lo * (n as u128)
}

/// For positive values the logarithmic change of `(a, b)` is exactly the
/// negation of that of `(b, a)`: the magnitude is unchanged by the swap (so
/// the magnitude word and the default significance rule agree on both), the
/// sign flips (an increase one way is a decrease the other), and comparing
/// `ln(b/a)` with any other change equals comparing that change's negation
/// with `ln(a/b)`.
pub proof fn lemma_log_change_antisymmetric(a: u64, b: u64)
    requires
        a > 0,
    ensures
        abs_log_cmp(a as int, b as int, b as int, a as int) == Ord3::Eq,
        forall|n: int|
            #[trigger] ratio_exceeds(a as int, b as int, n) == ratio_exceeds(
                b as int,
                a as int,
                n,
            ),
        (b > a) <==> (a as int) < (b as int),
        log_cmp(a as int, b as int, a as int, b as int) == Ord3::Eq,
        forall|c: int, d: int|
            #[trigger] log_cmp(a as int, b as int, c, d) == log_cmp(d, c, b as int, a as int),
{
}

/// Whether the text ends in the documentation suffix; such benchmarks are
/// known-noisy and excluded from comparison.
pub open spec fn ends_doc(s: Seq<char>) -> bool {
    s.len() >= 4 && s.subrange(s.len() - 4, s.len() as int) == "-doc"@
}

/// Whether the string ends in "-doc".
pub fn ends_with_doc(s: &String) -> (r: bool)
    ensures
        r == ends_doc(s@),
{
    proof {
        reveal_strlit("-doc");
    }
    let n = s.as_str().unicode_len();
    n >= 4 && s.as_str().substring_char(n - 4, n).to_owned() == "-doc".to_owned()
}

/// Whether the grouped per-artifact data holds value `v` for the given
/// benchmark key and scenario name.
pub open spec fn data_has(
    d: Seq<(String, Vec<(String, u64)>)>,
    key: Seq<char>,
    scen: Seq<char>,
    v: u64,
) -> bool {
    exists|i: int|
        0 <= i < d.len() && (#[trigger] d[i]).0@ == key && exists|j: int|
            0 <= j < d[i].1@.len() && (#[trigger] d[i].1@[j]).0@ == scen && d[i].1@[j].1 == v
}

/// Keys are unique within one artifact's grouped data.
pub open spec fn data_wf(d: Seq<(String, Vec<(String, u64)>)>) -> bool {
    forall|i: int, j: int| 0 <= i < j < d.len() ==> (#[trigger] d[i]).0@ != (#[trigger] d[j]).0@
}

/// The text-level view of one key's rows.
pub open spec fn rows_view(rows: Seq<(String, u64)>) -> Seq<(Seq<char>, u64)> {
    Seq::new(rows.len(), |j: int| (rows[j].0@, rows[j].1))
}

/// The text-level view of the grouped data.
pub open spec fn data_view(d: Seq<(String, Vec<(String, u64)>)>) -> Seq<
    (Seq<char>, Seq<(Seq<char>, u64)>),
> {
    Seq::new(d.len(), |i: int| (d[i].0@, rows_view(d[i].1@)))
}

/// The index of the first group with this key, searching from `k`.
pub open spec fn find_group_from(
    g: Seq<(Seq<char>, Seq<(Seq<char>, u64)>)>,
    key: Seq<char>,
    k: int,
) -> Option<int>
    decreases g.len() - k,
{
    if k < 0 || k >= g.len() {
        None
    } else if g[k].0 == key {
        Some(k)
    } else {
        find_group_from(g, key, k + 1)
    }
}

/// One step of the grouping fold: the row joins its key's group, and a new
/// key opens a new group at the end.
pub open spec fn group_insert(
    g: Seq<(Seq<char>, Seq<(Seq<char>, u64)>)>,
    key: Seq<char>,
    scen: Seq<char>,
    v: u64,
) -> Seq<(Seq<char>, Seq<(Seq<char>, u64)>)> {
    match find_group_from(g, key, 0) {
        Some(ix) => g.update(ix, (key, g[ix].1.push((scen, v)))),
        None => g.push((key, seq![(scen, v)])),
    }
}

/// The consumed data points of the responses, in response order: the
/// grouping key and scenario texts of each response whose head value is
/// present, with that value.
pub open spec fn points_of(resps: Seq<SeriesResponse<Vec<(ArtifactId, Option<u64>)>>>) -> Seq<
    (Seq<char>, Seq<char>, u64),
>
    decreases resps.len(),
{
    if resps.len() == 0 {
        Seq::empty()
    } else {
        let rest = points_of(resps.drop_last());
        let r = resps.last();
        match r.series@[0].1 {
            Some(v) => rest.push((path_key_text(r.path.path@), path_scen_text(r.path.path@), v)),
            None => rest,
        }
    }
}

/// The grouping fold of the data points, in order.
pub open spec fn group_fold(items: Seq<(Seq<char>, Seq<char>, u64)>) -> Seq<
    (Seq<char>, Seq<(Seq<char>, u64)>),
>
    decreases items.len(),
{
    if items.len() == 0 {
        Seq::empty()
    } else {
        let rest = group_fold(items.drop_last());
        group_insert(rest, items.last().0, items.last().1, items.last().2)
    }
}

/// The view-level group search agrees with the entry search.
proof fn lemma_find_group_view(d: Seq<(String, Vec<(String, u64)>)>, key: Seq<char>, k: int)
    ensures
        find_group_from(data_view(d), key, k) == find_entry_from(d, key, k),
    decreases d.len() - k,
{
    if 0 <= k < d.len() {
        assert(data_view(d)[k].0 == d[k].0@);
        if d[k].0@ != key {
            lemma_find_group_view(d, key, k + 1);
        }
    }
}

/// Adds one (scenario, value) row under the benchmark key, extending the
/// key's group or opening a new one.
fn data_insert(data: &mut Vec<(String, Vec<(String, u64)>)>, key: String, scen: String, v: u64)
    requires
        data_wf(old(data)@),
    ensures
        data_wf(final(data)@),
        data_view(final(data)@) == group_insert(data_view(old(data)@), key@, scen@, v),
        data_has(final(data)@, key@, scen@, v),
        forall|k2: Seq<char>, s2: Seq<char>, v2: u64|
            #[trigger] data_has(old(data)@, k2, s2, v2) ==> data_has(final(data)@, k2, s2, v2),
        forall|k2: Seq<char>, s2: Seq<char>, v2: u64|
            #[trigger] data_has(final(data)@, k2, s2, v2) ==> data_has(old(data)@, k2, s2, v2)
                || (k2 == key@ && s2 == scen@ && v2 == v),
{
    let at = find_entry_idx(data, &key, 0);
    proof {
        lemma_find_group_view(data@, key@, 0);
    }
    match at {
        Some(a) => {
            let ghost pre = data@;
            data[a].1.push((scen, v));
            proof {
                assert(data@[a as int].0@ == key@);
                assert(data@[a as int].1@.last() == (scen, v));
                assert(data@[a as int].1@.len() > 0);
                assert(data_has(data@, key@, scen@, v));
                assert(rows_view(data@[a as int].1@) =~= rows_view(pre[a as int].1@).push(
                    (scen@, v),
                ));
                assert(data_view(data@) =~= group_insert(data_view(pre), key@, scen@, v));
                assert forall|k2: Seq<char>, s2: Seq<char>, v2: u64|
                    #[trigger] data_has(pre, k2, s2, v2) implies data_has(data@, k2, s2, v2) by {
                    let i2 = choose|i2: int|
                        0 <= i2 < pre.len() && (#[trigger] pre[i2]).0@ == k2 && exists|j2: int|
                            0 <= j2 < pre[i2].1@.len() && (#[trigger] pre[i2].1@[j2]).0@ == s2
                                && pre[i2].1@[j2].1 == v2;
                    let j2 = choose|j2: int|
                        0 <= j2 < pre[i2].1@.len() && (#[trigger] pre[i2].1@[j2]).0@ == s2
                            && pre[i2].1@[j2].1 == v2;
                    assert(data@[i2].0@ == k2);
                    assert(data@[i2].1@[j2] == pre[i2].1@[j2]);
                }
                assert forall|k2: Seq<char>, s2: Seq<char>, v2: u64|
                    #[trigger] data_has(data@, k2, s2, v2) implies data_has(pre, k2, s2, v2) || (
                k2 == key@ && s2 == scen@ && v2 == v) by {
                    let i2 = choose|i2: int|
                        0 <= i2 < data@.len() && (#[trigger] data@[i2]).0@ == k2 && exists|j2: int|
                            0 <= j2 < data@[i2].1@.len() && (#[trigger] data@[i2].1@[j2]).0@ == s2
                                && data@[i2].1@[j2].1 == v2;
                    let j2 = choose|j2: int|
                        0 <= j2 < data@[i2].1@.len() && (#[trigger] data@[i2].1@[j2]).0@ == s2
                            && data@[i2].1@[j2].1 == v2;
                    if i2 == a && j2 == data@[i2].1@.len() - 1 {
                    } else {
                        assert(pre[i2].0@ == k2);
                        assert(pre[i2].1@[j2] == data@[i2].1@[j2]);
                    }
                }
            }
        },
        None => {
            let ghost pre = data@;
            let mut rows: Vec<(String, u64)> = Vec::new();
            rows.push((scen, v));
            data.push((key, rows));
            proof {
                let last = data@.len() - 1;
                assert(data@[last].1@.len() == 1);
                assert(data@[last].1@[0].0@ == scen@ && data@[last].1@[0].1 == v);
                assert(data_has(data@, key@, scen@, v));
                assert(rows_view(data@[last].1@) =~= seq![(scen@, v)]);
                assert(data_view(data@) =~= group_insert(data_view(pre), key@, scen@, v));
                assert forall|k2: Seq<char>, s2: Seq<char>, v2: u64|
                    #[trigger] data_has(pre, k2, s2, v2) implies data_has(data@, k2, s2, v2) by {
                    let i2 = choose|i2: int|
                        0 <= i2 < pre.len() && (#[trigger] pre[i2]).0@ == k2 && exists|j2: int|
                            0 <= j2 < pre[i2].1@.len() && (#[trigger] pre[i2].1@[j2]).0@ == s2
                                && pre[i2].1@[j2].1 == v2;
                    assert(data@[i2] == pre[i2]);
                }
                assert forall|k2: Seq<char>, s2: Seq<char>, v2: u64|
                    #[trigger] data_has(data@, k2, s2, v2) implies data_has(pre, k2, s2, v2) || (
                k2 == key@ && s2 == scen@ && v2 == v) by {
                    let i2 = choose|i2: int|
                        0 <= i2 < data@.len() && (#[trigger] data@[i2]).0@ == k2 && exists|j2: int|
                            0 <= j2 < data@[i2].1@.len() && (#[trigger] data@[i2].1@[j2]).0@ == s2
                                && data@[i2].1@[j2].1 == v2;
                    let j2 = choose|j2: int|
                        0 <= j2 < data@[i2].1@.len() && (#[trigger] data@[i2].1@[j2]).0@ == s2
                            && data@[i2].1@[j2].1 == v2;
                    if i2 == data@.len() - 1 {
                    } else {
                        assert(pre[i2] == data@[i2]);
                    }
                }
            }
        },
    }
}

/// The bootstrap entries kept: benchmarks whose measured duration is at
/// least one second (in nanoseconds); shorter ones are discarded as noise.
pub open spec fn keep_bootstrap(s: Seq<(String, Option<u64>)>) -> Seq<(String, u64)>
    decreases s.len(),
{
    if s.len() == 0 {
        Seq::empty()
    } else {
        let rest = keep_bootstrap(s.drop_last());
        match s.last().1 {
            Some(v) => if v >= 1_000_000_000 {
                rest.push((s.last().0, v))
            } else {
                rest
            },
            None => rest,
        }
    }
}

/// The change-request number of the first chain commit with this hash, or
/// the fallback the storage layer supplied.
pub open spec fn master_pr_from(
    ms: Seq<Commit>,
    sha: Seq<char>,
    fallback: Option<u32>,
    k: int,
) -> Option<u32>
    decreases ms.len() - k,
{
    if k < 0 || k >= ms.len() {
        fallback
    } else if ms[k].sha@ == sha {
        ms[k].pr
    } else {
        master_pr_from(ms, sha, fallback, k + 1)
    }
}

/// The first chain commit with this hash.
pub open spec fn find_by_sha_from(ms: Seq<Commit>, sha: Seq<char>, k: int) -> Option<Commit>
    decreases ms.len() - k,
{
    if k < 0 || k >= ms.len() {
        None
    } else if ms[k].sha@ == sha {
        Some(ms[k])
    } else {
        find_by_sha_from(ms, sha, k + 1)
    }
}

/// The first chain commit whose parent has this hash.
pub open spec fn find_by_parent_from(ms: Seq<Commit>, sha: Seq<char>, k: int) -> Option<Commit>
    decreases ms.len() - k,
{
    if k < 0 || k >= ms.len() {
        None
    } else if ms[k].parent_sha@ == sha {
        Some(ms[k])
    } else {
        find_by_parent_from(ms, sha, k + 1)
    }
}

/// Per-artifact aggregate: the artifact's date (commits only), its
/// change-request number when known, its identifier text, the measured
/// values grouped by "benchmark-profile" key and scenario, and per-benchmark
/// bootstrap durations in nanoseconds.
#[derive(Debug)]
pub struct DateData {
    pub date: Option<Date>,
    pub pr: Option<u32>,
    pub commit: String,
    pub data: Vec<(String, Vec<(String, u64)>)>,
    pub bootstrap: Vec<(String, u64)>,
}

/// A path carries a unique component readable as `V`.
pub open spec fn path_has_value<V: GetValue>(s: Seq<PathComponent>) -> bool {
    exists|i: int| 0 <= i < s.len() && (#[trigger] V::spec_value(s[i])) is Some
}

/// The canonical text of the unique component readable as `V`.
pub open spec fn path_value_text<V: GetValue + QueryValue>(s: Seq<PathComponent>) -> Seq<char> {
    let i = choose|i: int| 0 <= i < s.len() && (#[trigger] V::spec_value(s[i])) is Some;
    V::spec_value(s[i])->Some_0.spec_render()
}

/// The "benchmark-profile" grouping key of a resolved path.
pub open spec fn path_key_text(s: Seq<PathComponent>) -> Seq<char> {
    path_value_text::<Benchmark>(s) + "-"@ + path_value_text::<Profile>(s)
}

/// The scenario name of a resolved path.
pub open spec fn path_scen_text(s: Seq<PathComponent>) -> Seq<char> {
    path_value_text::<Scenario>(s)
}

impl DateData {
    /// Folds one artifact's worth of every response series into a per-date
    /// aggregate: pops the head element of each series (which must belong to
    /// this artifact), groups the present values by benchmark-profile key and
    /// scenario, resolves the change-request number through the commit chain
    /// with the storage answer as fallback, and keeps the bootstrap timings
    /// of at least one second.
    pub fn consume_one(
        commit: &ArtifactId,
        responses: &mut Vec<SeriesResponse<Vec<(ArtifactId, Option<u64>)>>>,
        master_commits: &Vec<Commit>,
        bootstrap_raw: Vec<(String, Option<u64>)>,
        pr_fallback: Option<u32>,
    ) -> (r: DateData)
        requires
            forall|i: int|
                0 <= i < old(responses)@.len() ==> {
                    let resp = #[trigger] old(responses)@[i];
                    &&& resp.series@.len() > 0
                    &&& resp.series@[0].0.spec_eq(commit)
                    &&& path_wf(resp.path.path@)
                    &&& path_has_value::<Benchmark>(resp.path.path@)
                    &&& path_has_value::<Profile>(resp.path.path@)
                    &&& path_has_value::<Scenario>(resp.path.path@)
                },
        ensures
            final(responses)@.len() == old(responses)@.len(),
            forall|i: int|
                0 <= i < old(responses)@.len() ==> (#[trigger] final(responses)@[i]).path
                    == old(responses)@[i].path && final(responses)@[i].series@
                    == old(responses)@[i].series@.skip(1),
            r.date == match commit {
                ArtifactId::Commit(c) => Some(c.date),
                ArtifactId::Tag(_) => None,
            },
            r.commit@ == match commit {
                ArtifactId::Commit(c) => c.sha@,
                ArtifactId::Tag(t) => t@,
            },
            r.pr == match commit {
                ArtifactId::Commit(c) => master_pr_from(master_commits@, c.sha@, pr_fallback, 0),
                ArtifactId::Tag(_) => None::<u32>,
            },
            r.bootstrap@ == keep_bootstrap(bootstrap_raw@),
            data_wf(r.data@),
            data_view(r.data@) == group_fold(points_of(old(responses)@)),
            forall|i: int|
                0 <= i < old(responses)@.len() ==> match (#[trigger] old(
                    responses,
                )@[i]).series@[0].1 {
                    Some(v) => data_has(
                        r.data@,
                        path_key_text(old(responses)@[i].path.path@),
                        path_scen_text(old(responses)@[i].path.path@),
                        v,
                    ),
                    None => true,
                },
            forall|k2: Seq<char>, s2: Seq<char>, v2: u64|
                #[trigger] data_has(r.data@, k2, s2, v2) ==> exists|i: int|
                    0 <= i < old(responses)@.len() && (#[trigger] old(
                        responses,
                    )@[i]).series@[0].1 == Some(v2) && path_key_text(old(responses)@[i].path.path@)
                        == k2 && path_scen_text(old(responses)@[i].path.path@) == s2,
    {
        let mut data: Vec<(String, Vec<(String, u64)>)> = Vec::new();
        proof {
            assert(old(responses)@.take(0) =~= Seq::<
                SeriesResponse<Vec<(ArtifactId, Option<u64>)>>,
            >::empty());
            assert(data_view(data@) =~= group_fold(points_of(old(responses)@.take(0))));
        }
        let n = responses.len();
        let mut i: usize = 0;
        while i < n
            invariant
                n == responses@.len(),
                i <= n,
                responses@.len() == old(responses)@.len(),
                forall|j: int|
                    0 <= j < old(responses)@.len() ==> {
                        let resp = #[trigger] old(responses)@[j];
                        &&& resp.series@.len() > 0
                        &&& resp.series@[0].0.spec_eq(commit)
                        &&& path_wf(resp.path.path@)
                        &&& path_has_value::<Benchmark>(resp.path.path@)
                        &&& path_has_value::<Profile>(resp.path.path@)
                        &&& path_has_value::<Scenario>(resp.path.path@)
                    },
                forall|j: int|
                    i <= j < n ==> #[trigger] responses@[j] == old(responses)@[j],
                forall|j: int|
                    0 <= j < i ==> (#[trigger] responses@[j]).path == old(responses)@[j].path
                        && responses@[j].series@ == old(responses)@[j].series@.skip(1),
                data_wf(data@),
                data_view(data@) == group_fold(points_of(old(responses)@.take(i as int))),
                forall|j: int|
                    0 <= j < i ==> match (#[trigger] old(responses)@[j]).series@[0].1 {
                        Some(v) => data_has(
                            data@,
                            path_key_text(old(responses)@[j].path.path@),
                            path_scen_text(old(responses)@[j].path.path@),
                            v,
                        ),
                        None => true,
                    },
                forall|k2: Seq<char>, s2: Seq<char>, v2: u64|
                    #[trigger] data_has(data@, k2, s2, v2) ==> exists|j: int|
                        0 <= j < i && (#[trigger] old(responses)@[j]).series@[0].1 == Some(v2)
                            && path_key_text(old(responses)@[j].path.path@) == k2
                            && path_scen_text(old(responses)@[j].path.path@) == s2,
            decreases n - i,
        {
            let (id, point) = responses[i].series.remove(0);
            proof {
                assert(old(responses)@[i as int].series@[0] == (id, point));
                assert(responses@[i as int].series@ =~= old(responses)@[i as int].series@.skip(1));
                assert(responses@[i as int].path == old(responses)@[i as int].path);
                assert(old(responses)@.take(i + 1).drop_last() =~= old(responses)@.take(i as int));
                assert(old(responses)@.take(i + 1).last() == old(responses)@[i as int]);
            }
            match point {
                Some(pt) => {
                    let bench = match responses[i].path.get::<Benchmark>() {
                        Ok(v) => v,
                        Err(_) => unreached(),
                    };
                    let profile = match responses[i].path.get::<Profile>() {
                        Ok(v) => v,
                        Err(_) => unreached(),
                    };
                    let cache = match responses[i].path.get::<Scenario>() {
                        Ok(v) => v,
                        Err(_) => unreached(),
                    };
                    let key = bench.0.clone().concat("-").concat(profile.render().as_str());
                    let scen = cache.render();
                    proof {
                        lemma_path_value_text::<Benchmark>(responses@[i as int].path.path@, *bench);
                        lemma_path_value_text::<Profile>(responses@[i as int].path.path@, *profile);
                        lemma_path_value_text::<Scenario>(responses@[i as int].path.path@, *cache);
                        assert(key@ == path_key_text(old(responses)@[i as int].path.path@));
                        assert(scen@ == path_scen_text(old(responses)@[i as int].path.path@));
                    }
                    let ghost prev = data@;
                    let ghost gkey = key@;
                    let ghost gscen = scen@;
                    data_insert(&mut data, key, scen, pt);
                    proof {
                        let pts = points_of(old(responses)@.take(i + 1));
                        assert(pts.drop_last() =~= points_of(old(responses)@.take(i as int)));
                        assert(pts.last() == (
                            path_key_text(old(responses)@[i as int].path.path@),
                            path_scen_text(old(responses)@[i as int].path.path@),
                            pt,
                        ));
                        assert(data_view(data@) == group_insert(
                            data_view(prev),
                            gkey,
                            gscen,
                            pt,
                        ));
                        assert(data_view(data@) == group_fold(pts));
                    }
                },
                None => {
                    proof {
                        assert(points_of(old(responses)@.take(i + 1)) =~= points_of(
                            old(responses)@.take(i as int),
                        ));
                    }
                },
            }
            i += 1;
        }
        proof {
            assert(old(responses)@.take(n as int) =~= old(responses)@);
        }
        let mut bootstrap: Vec<(String, u64)> = Vec::new();
        let ghost braw = bootstrap_raw@;
        let mut bootstrap_raw = bootstrap_raw;
        let m = bootstrap_raw.len();
        let mut k: usize = 0;
        while k < m
            invariant
                m == braw.len(),
                k <= m,
                bootstrap_raw@ == braw,
                bootstrap@ == keep_bootstrap(braw.take(k as int)),
            decreases m - k,
        {
            proof {
                assert(braw.take(k + 1).drop_last() =~= braw.take(k as int));
                assert(braw.take(k + 1).last() == braw[k as int]);
            }
            let (name, dur) = (bootstrap_raw[k].0.clone(), bootstrap_raw[k].1);
            proof {
                assert(name@ == braw[k as int].0@);
            }
            match dur {
                Some(v) => {
                    if v >= 1_000_000_000 {
                        bootstrap.push((name, v));
                        proof {
                            assert(bootstrap@ =~= keep_bootstrap(braw.take(k + 1)));
                        }
                    }
                },
                None => {},
            }
            k += 1;
        }
        proof {
            assert(braw.take(m as int) =~= braw);
        }
        let (date, pr, commit_text) = match commit {
            ArtifactId::Commit(c) => {
                let mut pr: Option<u32> = pr_fallback;
                let mut found = false;
                let q = master_commits.len();
                let mut t: usize = 0;
                while t < q
                    invariant
                        q == master_commits@.len(),
                        t <= q,
                        !found ==> pr == pr_fallback && master_pr_from(
                            master_commits@,
                            c.sha@,
                            pr_fallback,
                            0,
                        ) == master_pr_from(master_commits@, c.sha@, pr_fallback, t as int),
                        found ==> pr == master_pr_from(master_commits@, c.sha@, pr_fallback, 0),
                    decreases q - t,
                {
                    if !found && master_commits[t].sha == c.sha {
                        pr = master_commits[t].pr;
                        found = true;
                    }
                    t += 1;
                }
                (Some(c.date), pr, c.sha.clone())
            },
            ArtifactId::Tag(t) => (None, None, t.clone()),
        };
        DateData { date, pr, commit: commit_text, data, bootstrap }
    }
}

/// In a well-formed path the component readable as `V` is unique, so the
/// value `Path::get` finds renders as the path's canonical text for `V`.
proof fn lemma_path_value_text<V: GetValue + QueryValue>(s: Seq<PathComponent>, v: V)
    requires
        path_wf(s),
        exists|i: int| 0 <= i < s.len() && (#[trigger] V::spec_value(s[i])) == Some(v),
    ensures
        path_value_text::<V>(s) == v.spec_render(),
{
    let i = choose|i: int| 0 <= i < s.len() && (#[trigger] V::spec_value(s[i])) == Some(v);
    let j = choose|j: int| 0 <= j < s.len() && (#[trigger] V::spec_value(s[j])) is Some;
    V::value_tag_law(s[i]);
    V::value_tag_law(s[j]);
    if i != j {
        assert(s[i].spec_tag() == s[j].spec_tag());
        assert(false);
    }
}

/// Ratio order is transitive over positive values (non-strict).
proof fn lemma_ratio_le_trans(a1: int, b1: int, a2: int, b2: int, a3: int, b3: int)
    requires
        a1 > 0,
        b1 > 0,
        a2 > 0,
        b2 > 0,
        a3 > 0,
        b3 > 0,
        b1 * a2 <= b2 * a1,
        b2 * a3 <= b3 * a2,
    ensures
        b1 * a3 <= b3 * a1,
{
    assert(b1 * a3 <= b3 * a1) by (nonlinear_arith)
        requires
            a1 > 0,
            b1 > 0,
            a2 > 0,
            b2 > 0,
            a3 > 0,
            b3 > 0,
            b1 * a2 <= b2 * a1,
            b2 * a3 <= b3 * a2,
    ;
}

/// Ratio order is transitive over positive values (strict through non-strict).
proof fn lemma_ratio_lt_le_trans(a1: int, b1: int, a2: int, b2: int, a3: int, b3: int)
    requires
        a1 > 0,
        b1 > 0,
        a2 > 0,
        b2 > 0,
        a3 > 0,
        b3 > 0,
        b1 * a2 < b2 * a1,
        b2 * a3 <= b3 * a2,
    ensures
        b1 * a3 < b3 * a1,
{
    assert(b1 * a3 < b3 * a1) by (nonlinear_arith)
        requires
            a1 > 0,
            b1 > 0,
            a2 > 0,
            b2 > 0,
            a3 > 0,
            b3 > 0,
            b1 * a2 < b2 * a1,
            b2 * a3 <= b3 * a2,
    ;
}

/// Position of the first comparison with the smallest logarithmic change.
pub open spec fn first_min_at(s: Seq<BenchmarkComparison>, i: int) -> bool {
    &&& 0 <= i < s.len()
    &&& forall|j: int|
        0 <= j < s.len() ==> log_cmp(s[i].a(), s[i].b(), (#[trigger] s[j]).a(), s[j].b())
            != Ord3::Gt
    &&& forall|j: int|
        0 <= j < i ==> log_cmp((#[trigger] s[j]).a(), s[j].b(), s[i].a(), s[i].b()) == Ord3::Gt
}

/// Position of the last comparison with the largest logarithmic change.
pub open spec fn last_max_at(s: Seq<BenchmarkComparison>, i: int) -> bool {
    &&& 0 <= i < s.len()
    &&& forall|j: int|
        0 <= j < s.len() ==> log_cmp(s[i].a(), s[i].b(), (#[trigger] s[j]).a(), s[j].b())
            != Ord3::Lt
    &&& forall|j: int|
        i < j < s.len() ==> log_cmp((#[trigger] s[j]).a(), s[j].b(), s[i].a(), s[i].b())
            == Ord3::Lt
}

proof fn lemma_first_min_unique(s: Seq<BenchmarkComparison>, i: int, j: int)
    requires
        first_min_at(s, i),
        first_min_at(s, j),
    ensures
        i == j,
{
}

proof fn lemma_last_max_unique(s: Seq<BenchmarkComparison>, i: int, j: int)
    requires
        last_max_at(s, i),
        last_max_at(s, j),
    ensures
        i == j,
{
}

/// The most significant improvement: the first minimum by logarithmic
/// change, taken only when it is significant and not an increase.
pub open spec fn lo_pick(s: Seq<BenchmarkComparison>, i: int) -> bool {
    first_min_at(s, i) && s[i].spec_significant() && !s[i].spec_increase()
}

/// The most significant regression: the last maximum by logarithmic change,
/// taken only when it is significant and an increase.
pub open spec fn hi_pick(s: Seq<BenchmarkComparison>, i: int) -> bool {
    last_max_at(s, i) && s[i].spec_significant() && s[i].spec_increase()
}

/// Whether `hi` is the selected regression of the sequence.
pub open spec fn hi_selected(s: Seq<BenchmarkComparison>, hi: Option<BenchmarkComparison>) -> bool {
    if exists|i: int| hi_pick(s, i) {
        hi == Some(s[choose|i: int| hi_pick(s, i)])
    } else {
        hi is None
    }
}

/// Whether the summary holds exactly the selected improvement and, from the
/// remaining comparisons, the selected regression.
pub open spec fn summary_selected(s: Seq<BenchmarkComparison>, summary: ComparisonSummary) -> bool {
    if exists|i: int| lo_pick(s, i) {
        let i = choose|i: int| lo_pick(s, i);
        summary.lo == Some(s[i]) && hi_selected(s.remove(i), summary.hi)
    } else {
        summary.lo is None && hi_selected(s, summary.hi)
    }
}

/// The most significant regression and improvement of one comparison step.
#[derive(Debug)]
pub struct ComparisonSummary {
    pub hi: Option<BenchmarkComparison>,
    pub lo: Option<BenchmarkComparison>,
}

impl ComparisonSummary {
    /// The combined direction of the changes: the direction of the only
    /// change, their common direction when they agree, and Mixed otherwise.
    pub open spec fn spec_direction(&self) -> Option<Direction> {
        match (self.hi, self.lo) {
            (None, None) => None,
            (Some(b), None) => Some(b.spec_direction()),
            (None, Some(b)) => Some(b.spec_direction()),
            (Some(a), Some(b)) => if a.spec_increase() == b.spec_increase() {
                Some(a.spec_direction())
            } else {
                Some(Direction::Mixed)
            },
        }
    }

    pub fn direction(&self) -> (r: Option<Direction>)
        ensures
            r == self.spec_direction(),
    {
        match (&self.hi, &self.lo) {
            (None, None) => None,
            (Some(b), None) => Some(b.direction()),
            (None, Some(b)) => Some(b.direction()),
            (Some(a), Some(b)) => {
                if a.is_increase() == b.is_increase() {
                    Some(a.direction())
                } else {
                    Some(Direction::Mixed)
                }
            },
        }
    }

    /// The changes ordered by descending magnitude of logarithmic change.
    pub fn ordered_changes(&self) -> (r: Vec<&BenchmarkComparison>)
        ensures
            match (self.hi, self.lo) {
                (None, None) => r@.len() == 0,
                (Some(_), None) => r@.len() == 1 && r@[0] == &self.hi->Some_0,
                (None, Some(_)) => r@.len() == 1 && r@[0] == &self.lo->Some_0,
                (Some(a), Some(b)) => r@.len() == 2 && (if abs_log_cmp(b.a(), b.b(), a.a(), a.b())
                    == Ord3::Gt {
                    r@[0] == &self.lo->Some_0 && r@[1] == &self.hi->Some_0
                } else {
                    r@[0] == &self.hi->Some_0 && r@[1] == &self.lo->Some_0
                }),
            },
    {
        match (&self.hi, &self.lo) {
            (None, None) => Vec::new(),
            (Some(b), None) => {
                let mut v: Vec<&BenchmarkComparison> = Vec::new();
                v.push(b);
                v
            },
            (None, Some(b)) => {
                let mut v: Vec<&BenchmarkComparison> = Vec::new();
                v.push(b);
                v
            },
            (Some(a), Some(b)) => {
                let mut v: Vec<&BenchmarkComparison> = Vec::new();
                if b.abs_log_cmp(a) == Ord3::Gt {
                    v.push(b);
                    v.push(a);
                } else {
                    v.push(a);
                    v.push(b);
                }
                v
            },
        }
    }
}

/// Picks the most significant improvement and regression out of one step's
/// benchmark comparisons: the first minimum and last maximum by logarithmic
/// change, each kept only if significant and of the expected sign; an empty
/// step summarizes to nothing.
pub fn summarize_benchmarks(benchmarks: Vec<BenchmarkComparison>) -> (r: Option<ComparisonSummary>)
    requires
        forall|i: int|
            0 <= i < benchmarks@.len() ==> (#[trigger] benchmarks@[i]).results.0 > 0
                && benchmarks@[i].results.1 > 0,
    ensures
        match r {
            None => benchmarks@.len() == 0,
            Some(s) => benchmarks@.len() > 0 && summary_selected(benchmarks@, s),
        },
{
    let ghost orig = benchmarks@;
    let mut benchmarks = benchmarks;
    if benchmarks.is_empty() {
        return None;
    }
    let lo_i = find_first_min(&benchmarks);
    let lo: Option<BenchmarkComparison> = if benchmarks[lo_i].is_significant()
        && !benchmarks[lo_i].is_increase() {
        proof {
            assert(lo_pick(orig, lo_i as int));
        }
        let c = benchmarks.remove(lo_i);
        proof {
            let w = choose|i: int| lo_pick(orig, i);
            lemma_first_min_unique(orig, w, lo_i as int);
        }
        Some(c)
    } else {
        proof {
            assert forall|i: int| !lo_pick(orig, i) by {
                if lo_pick(orig, i) {
                    lemma_first_min_unique(orig, i, lo_i as int);
                }
            }
        }
        None
    };
    let ghost rest = benchmarks@;
    let hi: Option<BenchmarkComparison> = if benchmarks.is_empty() {
        proof {
            assert forall|i: int| !hi_pick(rest, i) by {}
        }
        None
    } else {
        let hi_i = find_last_max(&benchmarks);
        if benchmarks[hi_i].is_significant() && benchmarks[hi_i].is_increase() {
            proof {
                assert(hi_pick(rest, hi_i as int));
            }
            let c = benchmarks.remove(hi_i);
            proof {
                let w = choose|i: int| hi_pick(rest, i);
                lemma_last_max_unique(rest, w, hi_i as int);
            }
            Some(c)
        } else {
            proof {
                assert forall|i: int| !hi_pick(rest, i) by {
                    if hi_pick(rest, i) {
                        lemma_last_max_unique(rest, i, hi_i as int);
                    }
                }
            }
            None
        }
    };
    Some(ComparisonSummary { hi, lo })
}

/// The index of the first comparison with the smallest logarithmic change.
fn find_first_min(s: &Vec<BenchmarkComparison>) -> (r: usize)
    requires
        s@.len() > 0,
        forall|i: int|
            0 <= i < s@.len() ==> (#[trigger] s@[i]).results.0 > 0 && s@[i].results.1 > 0,
    ensures
        r < s@.len(),
        first_min_at(s@, r as int),
{
    let n = s.len();
    let mut best: usize = 0;
    let mut i: usize = 1;
    while i < n
        invariant
            n == s@.len(),
            forall|k: int|
                0 <= k < s@.len() ==> (#[trigger] s@[k]).results.0 > 0 && s@[k].results.1 > 0,
            best < i <= n,
            forall|j: int|
                0 <= j < i ==> log_cmp(s@[best as int].a(), s@[best as int].b(), (
                #[trigger] s@[j]).a(), s@[j].b()) != Ord3::Gt,
            forall|j: int|
                0 <= j < best ==> log_cmp((#[trigger] s@[j]).a(), s@[j].b(), s@[best as int].a(),
                    s@[best as int].b()) == Ord3::Gt,
        decreases n - i,
    {
        let c = s[i].log_change_cmp(&s[best]);
        if c == Ord3::Lt {
            proof {
                let bi = best as int;
                let ii = i as int;
                assert forall|j: int|
                    0 <= j < ii implies log_cmp((#[trigger] s@[j]).a(), s@[j].b(), s@[ii].a(),
                    s@[ii].b()) == Ord3::Gt by {
                    lemma_ratio_lt_le_trans(
                        s@[ii].a(),
                        s@[ii].b(),
                        s@[bi].a(),
                        s@[bi].b(),
                        s@[j].a(),
                        s@[j].b(),
                    );
                }
            }
            best = i;
        } else {
            proof {
                let bi = best as int;
                let ii = i as int;
                assert(log_cmp(s@[bi].a(), s@[bi].b(), s@[ii].a(), s@[ii].b()) != Ord3::Gt);
            }
        }
        i += 1;
    }
    best
}

/// The index of the last comparison with the largest logarithmic change.
fn find_last_max(s: &Vec<BenchmarkComparison>) -> (r: usize)
    requires
        s@.len() > 0,
        forall|i: int|
            0 <= i < s@.len() ==> (#[trigger] s@[i]).results.0 > 0 && s@[i].results.1 > 0,
    ensures
        r < s@.len(),
        last_max_at(s@, r as int),
{
    let n = s.len();
    let mut best: usize = 0;
    let mut i: usize = 1;
    while i < n
        invariant
            n == s@.len(),
            forall|k: int|
                0 <= k < s@.len() ==> (#[trigger] s@[k]).results.0 > 0 && s@[k].results.1 > 0,
            best < i <= n,
            forall|j: int|
                0 <= j < i ==> log_cmp(s@[best as int].a(), s@[best as int].b(), (
                #[trigger] s@[j]).a(), s@[j].b()) != Ord3::Lt,
            forall|j: int|
                best < j < i ==> log_cmp((#[trigger] s@[j]).a(), s@[j].b(), s@[best as int].a(),
                    s@[best as int].b()) == Ord3::Lt,
        decreases n - i,
    {
        let c = s[i].log_change_cmp(&s[best]);
        if !(c == Ord3::Lt) {
            proof {
                let bi = best as int;
                let ii = i as int;
                assert forall|j: int|
                    0 <= j < ii + 1 implies log_cmp(s@[ii].a(), s@[ii].b(), (#[trigger] s@[j]).a(),
                    s@[j].b()) != Ord3::Lt by {
                    if j < ii {
                        lemma_ratio_le_trans(
                            s@[j].a(),
                            s@[j].b(),
                            s@[bi].a(),
                            s@[bi].b(),
                            s@[ii].a(),
                            s@[ii].b(),
                        );
                    }
                }
            }
            best = i;
        }
        i += 1;
    }
    best
}

/// Whether `r` is the summary of the benchmarks the two sides' data join
/// to: nothing for an empty join, the selected improvement and regression
/// otherwise.
pub open spec fn spec_summarized(
    a: Seq<(String, Vec<(String, u64)>)>,
    b: Seq<(String, Vec<(String, u64)>)>,
    r: Option<ComparisonSummary>,
) -> bool {
    match r {
        None => exists|bs: Seq<BenchmarkComparison>|
            #[trigger] joined_benchmarks(a, b, bs) && bs.len() == 0,
        Some(s) => exists|bs: Seq<BenchmarkComparison>|
            #[trigger] joined_benchmarks(a, b, bs) && bs.len() > 0 && summary_selected(bs, s),
    }
}

/// A comparison of two artifacts' data.
#[derive(Debug)]
pub struct Comparison {
    pub a_id: ArtifactId,
    pub a: DateData,
    pub b_id: ArtifactId,
    pub b: DateData,
}

/// The index of the first chain commit with this hash, searching from `k`.
fn find_idx_by_sha(ms: &Vec<Commit>, sha: &String, k: usize) -> (r: Option<usize>)
    requires
        k <= ms@.len(),
    ensures
        match r {
            Some(i) => k <= i < ms@.len() && find_by_sha_from(ms@, sha@, k as int) == Some(
                ms@[i as int],
            ) && ms@[i as int].sha@ == sha@,
            None => find_by_sha_from(ms@, sha@, k as int) is None,
        },
    decreases ms@.len() - k,
{
    if k >= ms.len() {
        None
    } else if ms[k].sha == *sha {
        Some(k)
    } else {
        find_idx_by_sha(ms, sha, k + 1)
    }
}

/// The index of the first chain commit whose parent has this hash.
fn find_idx_by_parent(ms: &Vec<Commit>, sha: &String, k: usize) -> (r: Option<usize>)
    requires
        k <= ms@.len(),
    ensures
        match r {
            Some(i) => k <= i < ms@.len() && find_by_parent_from(ms@, sha@, k as int) == Some(
                ms@[i as int],
            ) && ms@[i as int].parent_sha@ == sha@,
            None => find_by_parent_from(ms@, sha@, k as int) is None,
        },
    decreases ms@.len() - k,
{
    if k >= ms.len() {
        None
    } else if ms[k].parent_sha == *sha {
        Some(k)
    } else {
        find_idx_by_parent(ms, sha, k + 1)
    }
}

/// The index of the first entry of the grouped data with this key, searching
/// from `k`.
pub open spec fn find_entry_from(
    d: Seq<(String, Vec<(String, u64)>)>,
    key: Seq<char>,
    k: int,
) -> Option<int>
    decreases d.len() - k,
{
    if k < 0 || k >= d.len() {
        None
    } else if d[k].0@ == key {
        Some(k)
    } else {
        find_entry_from(d, key, k + 1)
    }
}

/// The value of the first row with this scenario name, searching from `k`.
pub open spec fn first_scen_value_from(
    rows: Seq<(String, u64)>,
    scen: Seq<char>,
    k: int,
) -> Option<u64>
    decreases rows.len() - k,
{
    if k < 0 || k >= rows.len() {
        None
    } else if rows[k].0@ == scen {
        Some(rows[k].1)
    } else {
        first_scen_value_from(rows, scen, k + 1)
    }
}

/// The index of the first entry with this key.
fn find_entry_idx(d: &Vec<(String, Vec<(String, u64)>)>, key: &String, k: usize) -> (r: Option<
    usize,
>)
    requires
        k <= d@.len(),
    ensures
        match r {
            Some(x) => k <= x < d@.len() && d@[x as int].0@ == key@ && find_entry_from(
                d@,
                key@,
                k as int,
            ) == Some(x as int),
            None => find_entry_from(d@, key@, k as int) is None && forall|j: int|
                k <= j < d@.len() ==> (#[trigger] d@[j]).0@ != key@,
        },
    decreases d@.len() - k,
{
    if k >= d.len() {
        None
    } else if d[k].0 == *key {
        Some(k)
    } else {
        find_entry_idx(d, key, k + 1)
    }
}

/// The value of the first row with this scenario name.
fn first_scen_from(rows: &Vec<(String, u64)>, scen: &String, k: usize) -> (r: Option<u64>)
    requires
        k <= rows@.len(),
    ensures
        r == first_scen_value_from(rows@, scen@, k as int),
        match r {
            Some(v) => exists|u: int|
                k <= u < rows@.len() && (#[trigger] rows@[u]).0@ == scen@ && rows@[u].1 == v,
            None => forall|u: int| k <= u < rows@.len() ==> (#[trigger] rows@[u]).0@ != scen@,
        },
    decreases rows@.len() - k,
{
    if k >= rows.len() {
        None
    } else if rows[k].0 == *scen {
        Some(rows[k].1)
    } else {
        first_scen_from(rows, scen, k + 1)
    }
}

/// The comparisons of one benchmark key's rows against the other side's rows
/// for that key: one comparison per row whose scenario has a (first) match
/// on the other side, in row order.
pub open spec fn joined_rows(
    key: String,
    rows: Seq<(String, u64)>,
    brows: Seq<(String, u64)>,
) -> Seq<BenchmarkComparison>
    decreases rows.len(),
{
    if rows.len() == 0 {
        Seq::empty()
    } else {
        let rest = joined_rows(key, rows.drop_last(), brows);
        match first_scen_value_from(brows, rows.last().0@, 0) {
            Some(bv) => rest.push(
                BenchmarkComparison {
                    bench_name: key,
                    cache_state: rows.last().0,
                    results: (rows.last().1, bv),
                },
            ),
            None => rest,
        }
    }
}

/// The whole join, as the exact fold the comparison performs: one group of
/// comparisons per first-side entry, in entry order, each group one
/// comparison per row (in row order) whose scenario the second side's entry
/// for that key also carries, paired with the second side's first such
/// value; documentation-suffix keys and keys absent from the second side
/// contribute nothing.
pub open spec fn joined_of(
    a: Seq<(String, Vec<(String, u64)>)>,
    b: Seq<(String, Vec<(String, u64)>)>,
) -> Seq<BenchmarkComparison>
    decreases a.len(),
{
    if a.len() == 0 {
        Seq::empty()
    } else {
        let rest = joined_of(a.drop_last(), b);
        let e = a.last();
        if !ends_doc(e.0@) {
            match find_entry_from(b, e.0@, 0) {
                Some(bx) => rest + joined_rows(e.0, e.1@, b[bx].1@),
                None => rest,
            }
        } else {
            rest
        }
    }
}

/// Equality of comparisons up to string contents.
pub open spec fn bc_eq(x: BenchmarkComparison, y: BenchmarkComparison) -> bool {
    x.bench_name@ == y.bench_name@ && x.cache_state@ == y.cache_state@ && x.results == y.results
}

/// Element-wise equality of comparison sequences up to string contents.
pub open spec fn bc_seq_eq(x: Seq<BenchmarkComparison>, y: Seq<BenchmarkComparison>) -> bool {
    x.len() == y.len() && forall|k: int| 0 <= k < x.len() ==> bc_eq(#[trigger] x[k], y[k])
}

/// Every benchmark comparison the two sides share: for each key/scenario row
/// present on both sides, the pair of values; keys ending in the
/// documentation suffix never appear.
pub open spec fn joined_benchmarks(
    a: Seq<(String, Vec<(String, u64)>)>,
    b: Seq<(String, Vec<(String, u64)>)>,
    result: Seq<BenchmarkComparison>,
) -> bool {
    &&& forall|k: int|
        0 <= k < result.len() ==> {
            let c = #[trigger] result[k];
            &&& !ends_doc(c.bench_name@)
            &&& data_has(a, c.bench_name@, c.cache_state@, c.results.0)
            &&& data_has(b, c.bench_name@, c.cache_state@, c.results.1)
        }
    &&& forall|k2: Seq<char>, s2: Seq<char>, va: u64|
        #[trigger] data_has(a, k2, s2, va) && !ends_doc(k2) && (exists|vb: u64|
            data_has(b, k2, s2, vb)) ==> exists|k: int|
            0 <= k < result.len() && (#[trigger] result[k]).bench_name@ == k2
                && result[k].cache_state@ == s2 && result[k].results.0 == va
}

impl Comparison {
    /// The hash of the parent of commit `a`, read from the commit chain.
    pub fn prev(&self, master_commits: &Vec<Commit>) -> (r: Option<String>)
        ensures
            match &self.a_id {
                ArtifactId::Commit(a) => match find_by_sha_from(master_commits@, a.sha@, 0) {
                    Some(c) => r matches Some(p) && p@ == c.parent_sha@,
                    None => r is None,
                },
                ArtifactId::Tag(_) => r is None,
            },
    {
        match &self.a_id {
            ArtifactId::Commit(a) => match find_idx_by_sha(master_commits, &a.sha, 0) {
                Some(i) => Some(master_commits[i].parent_sha.clone()),
                None => None,
            },
            ArtifactId::Tag(_) => None,
        }
    }

    /// The hash of the next commit after `b`: the first chain commit whose
    /// parent is `b`.
    pub fn next(&self, master_commits: &Vec<Commit>) -> (r: Option<String>)
        ensures
            match &self.b_id {
                ArtifactId::Commit(b) => match find_by_parent_from(master_commits@, b.sha@, 0) {
                    Some(c) => r matches Some(p) && p@ == c.sha@,
                    None => r is None,
                },
                ArtifactId::Tag(_) => r is None,
            },
    {
        match &self.b_id {
            ArtifactId::Commit(b) => match find_idx_by_parent(master_commits, &b.sha, 0) {
                Some(i) => Some(master_commits[i].sha.clone()),
                None => None,
            },
            ArtifactId::Tag(_) => None,
        }
    }

    /// Whether `a` is the direct parent of `b`, read from the commit chain
    /// and falling back to the storage layer's parent answer (`db_parent`)
    /// when `b` is not in the chain.
    pub fn is_contiguous(&self, master_commits: &Vec<Commit>, db_parent: &Option<String>) -> (r:
        bool)
        ensures
            r == match (&self.a_id, &self.b_id) {
                (ArtifactId::Commit(a), ArtifactId::Commit(b)) => match find_by_sha_from(
                    master_commits@,
                    b.sha@,
                    0,
                ) {
                    Some(c) => c.parent_sha@ == a.sha@,
                    None => match db_parent {
                        Some(p) => p@ == a.sha@,
                        None => false,
                    },
                },
                _ => false,
            },
    {
        match (&self.a_id, &self.b_id) {
            (ArtifactId::Commit(a), ArtifactId::Commit(b)) => {
                match find_idx_by_sha(master_commits, &b.sha, 0) {
                    Some(i) => master_commits[i].parent_sha == a.sha,
                    None => match db_parent {
                        Some(p) => *p == a.sha,
                        None => false,
                    },
                }
            },
            _ => false,
        }
    }

    /// Joins the two sides' data on (benchmark key, scenario), excluding keys
    /// that end in the documentation suffix: exactly one comparison per
    /// first-side row whose key and scenario the second side also carries,
    /// in first-side order, paired with the second side's first value for
    /// that scenario.
    pub fn get_benchmarks(&self) -> (r: Vec<BenchmarkComparison>)
        requires
            data_wf(self.a.data@),
            data_wf(self.b.data@),
        ensures
            joined_benchmarks(self.a.data@, self.b.data@, r@),
            bc_seq_eq(r@, joined_of(self.a.data@, self.b.data@)),
    {
        let mut result: Vec<BenchmarkComparison> = Vec::new();
        let n = self.a.data.len();
        let mut i: usize = 0;
        while i < n
            invariant
                n == self.a.data@.len(),
                i <= n,
                data_wf(self.a.data@),
                data_wf(self.b.data@),
                bc_seq_eq(result@, joined_of(self.a.data@.take(i as int), self.b.data@)),
                forall|k: int|
                    0 <= k < result@.len() ==> {
                        let c = #[trigger] result@[k];
                        &&& !ends_doc(c.bench_name@)
                        &&& data_has(self.a.data@, c.bench_name@, c.cache_state@, c.results.0)
                        &&& data_has(self.b.data@, c.bench_name@, c.cache_state@, c.results.1)
                    },
                forall|i2: int, j2: int|
                    0 <= i2 < i && 0 <= j2 < (#[trigger] self.a.data@[i2]).1@.len() && !ends_doc(
                        self.a.data@[i2].0@,
                    ) && (exists|vb: u64|
                        data_has(
                            self.b.data@,
                            self.a.data@[i2].0@,
                            (#[trigger] self.a.data@[i2].1@[j2]).0@,
                            vb,
                        )) ==> exists|k: int|
                        0 <= k < result@.len() && (#[trigger] result@[k]).bench_name@
                            == self.a.data@[i2].0@ && result@[k].cache_state@
                            == self.a.data@[i2].1@[j2].0@ && result@[k].results.0
                            == self.a.data@[i2].1@[j2].1,
            decreases n - i,
        {
            let ghost prefix = joined_of(self.a.data@.take(i as int), self.b.data@);
            proof {
                assert(self.a.data@.take(i + 1).drop_last() =~= self.a.data@.take(i as int));
                assert(self.a.data@.take(i + 1).last() == self.a.data@[i as int]);
            }
            if !ends_with_doc(&self.a.data[i].0) {
                // the matching entry on side b, unique by data_wf
                match find_entry_idx(&self.b.data, &self.a.data[i].0, 0) {
                    Some(bx) => {
                        let rows = self.a.data[i].1.len();
                        let mut j: usize = 0;
                        proof {
                            assert(joined_rows(
                                self.a.data@[i as int].0,
                                self.a.data@[i as int].1@.take(0),
                                self.b.data@[bx as int].1@,
                            ) =~= Seq::<BenchmarkComparison>::empty());
                            assert(prefix + joined_rows(
                                self.a.data@[i as int].0,
                                self.a.data@[i as int].1@.take(0),
                                self.b.data@[bx as int].1@,
                            ) =~= prefix);
                        }
                        while j < rows
                            invariant
                                i < n == self.a.data@.len(),
                                rows == self.a.data@[i as int].1@.len(),
                                j <= rows,
                                bx < self.b.data@.len(),
                                self.b.data@[bx as int].0@ == self.a.data@[i as int].0@,
                                data_wf(self.a.data@),
                                data_wf(self.b.data@),
                                !ends_doc(self.a.data@[i as int].0@),
                                prefix == joined_of(
                                    self.a.data@.take(i as int),
                                    self.b.data@,
                                ),
                                bc_seq_eq(
                                    result@,
                                    prefix + joined_rows(
                                        self.a.data@[i as int].0,
                                        self.a.data@[i as int].1@.take(j as int),
                                        self.b.data@[bx as int].1@,
                                    ),
                                ),
                                forall|k: int|
                                    0 <= k < result@.len() ==> {
                                        let c = #[trigger] result@[k];
                                        &&& !ends_doc(c.bench_name@)
                                        &&& data_has(
                                            self.a.data@,
                                            c.bench_name@,
                                            c.cache_state@,
                                            c.results.0,
                                        )
                                        &&& data_has(
                                            self.b.data@,
                                            c.bench_name@,
                                            c.cache_state@,
                                            c.results.1,
                                        )
                                    },
                                forall|i2: int, j2: int|
                                    0 <= i2 < i && 0 <= j2 < (
                                    #[trigger] self.a.data@[i2]).1@.len() && !ends_doc(
                                        self.a.data@[i2].0@,
                                    ) && (exists|vb: u64|
                                        data_has(
                                            self.b.data@,
                                            self.a.data@[i2].0@,
                                            (#[trigger] self.a.data@[i2].1@[j2]).0@,
                                            vb,
                                        )) ==> exists|k: int|
                                        0 <= k < result@.len() && (
                                        #[trigger] result@[k]).bench_name@ == self.a.data@[i2].0@
                                            && result@[k].cache_state@
                                            == self.a.data@[i2].1@[j2].0@ && result@[k].results.0
                                            == self.a.data@[i2].1@[j2].1,
                                forall|j2: int|
                                    0 <= j2 < j && (exists|vb: u64|
                                        data_has(
                                            self.b.data@,
                                            self.a.data@[i as int].0@,
                                            (#[trigger] self.a.data@[i as int].1@[j2]).0@,
                                            vb,
                                        )) ==> exists|k: int|
                                        0 <= k < result@.len() && (
                                        #[trigger] result@[k]).bench_name@
                                            == self.a.data@[i as int].0@ && result@[k].cache_state@
                                            == self.a.data@[i as int].1@[j2].0@
                                            && result@[k].results.0
                                            == self.a.data@[i as int].1@[j2].1,
                            decreases rows - j,
                        {
                            let ghost arows = self.a.data@[i as int].1@;
                            let ghost bseq = self.b.data@[bx as int].1@;
                            let ghost gold = joined_rows(
                                self.a.data@[i as int].0,
                                arows.take(j as int),
                                bseq,
                            );
                            proof {
                                assert(arows.take(j + 1).drop_last() =~= arows.take(j as int));
                                assert(arows.take(j + 1).last() == arows[j as int]);
                            }
                            let scen = &self.a.data[i].1[j].0;
                            let av = self.a.data[i].1[j].1;
                            // the first row of b's entry with this scenario
                            match first_scen_from(&self.b.data[bx].1, scen, 0) {
                                Some(v) => {
                                    let c = BenchmarkComparison {
                                        bench_name: self.a.data[i].0.clone(),
                                        cache_state: scen.clone(),
                                        results: (av, v),
                                    };
                                    proof {
                                        assert(data_has(
                                            self.a.data@,
                                            c.bench_name@,
                                            c.cache_state@,
                                            av,
                                        ));
                                        assert(data_has(
                                            self.b.data@,
                                            c.bench_name@,
                                            c.cache_state@,
                                            v,
                                        ));
                                    }
                                    let ghost pre = result@;
                                    result.push(c);
                                    proof {
                                        assert forall|k: int|
                                            0 <= k < pre.len() implies result@[k] == pre[k] by {}
                                        assert(result@[pre.len() as int].bench_name@
                                            == self.a.data@[i as int].0@);
                                        assert(result@[pre.len() as int].cache_state@
                                            == self.a.data@[i as int].1@[j as int].0@);
                                        assert(result@[pre.len() as int].results.0
                                            == self.a.data@[i as int].1@[j as int].1);
                                        let w = BenchmarkComparison {
                                            bench_name: self.a.data@[i as int].0,
                                            cache_state: arows[j as int].0,
                                            results: (av, v),
                                        };
                                        let gnew = joined_rows(
                                            self.a.data@[i as int].0,
                                            arows.take(j + 1),
                                            bseq,
                                        );
                                        assert(gnew =~= gold.push(w));
                                        assert(prefix + gnew =~= (prefix + gold).push(w));
                                        assert(bc_eq(c, w));
                                        assert forall|k: int|
                                            0 <= k < result@.len() implies bc_eq(
                                            #[trigger] result@[k],
                                            (prefix + gnew)[k],
                                        ) by {
                                            if k < pre.len() {
                                                assert(result@[k] == pre[k]);
                                                assert((prefix + gnew)[k] == (prefix + gold)[k]);
                                            } else {
                                                assert(result@[k] == c);
                                                assert((prefix + gnew)[k] == w);
                                            }
                                        }
                                    }
                                },
                                None => {
                                    proof {
                                        let gnew = joined_rows(
                                            self.a.data@[i as int].0,
                                            arows.take(j + 1),
                                            bseq,
                                        );
                                        assert(gnew =~= gold);
                                        assert forall|vb: u64|
                                            !data_has(
                                                self.b.data@,
                                                self.a.data@[i as int].0@,
                                                self.a.data@[i as int].1@[j as int].0@,
                                                vb,
                                            ) by {
                                            if data_has(
                                                self.b.data@,
                                                self.a.data@[i as int].0@,
                                                self.a.data@[i as int].1@[j as int].0@,
                                                vb,
                                            ) {
                                                let i2 = choose|i2: int|
                                                    0 <= i2 < self.b.data@.len() && (
                                                    #[trigger] self.b.data@[i2]).0@
                                                        == self.a.data@[i as int].0@ && exists|
                                                        j2: int,
                                                    |
                                                        0 <= j2 < self.b.data@[i2].1@.len() && (
                                                        #[trigger] self.b.data@[i2].1@[j2]).0@
                                                            == self.a.data@[i as int].1@[j as int].0@
                                                            && self.b.data@[i2].1@[j2].1 == vb;
                                                if i2 < bx {
                                                    assert(self.b.data@[i2].0@
                                                        != self.b.data@[bx as int].0@);
                                                } else if bx < i2 {
                                                    assert(self.b.data@[bx as int].0@
                                                        != self.b.data@[i2].0@);
                                                }
                                            }
                                        }
                                    }
                                },
                            }
                            j += 1;
                        }
                        proof {
                            assert(self.a.data@[i as int].1@.take(rows as int)
                                =~= self.a.data@[i as int].1@);
                            assert(bc_seq_eq(
                                result@,
                                joined_of(self.a.data@.take(i + 1), self.b.data@),
                            ));
                        }
                    },
                    None => {
                        proof {
                            assert(joined_of(self.a.data@.take(i + 1), self.b.data@) =~= prefix);
                            assert forall|j2: int, vb: u64|
                                !(#[trigger] data_has(
                                    self.b.data@,
                                    self.a.data@[i as int].0@,
                                    (#[trigger] self.a.data@[i as int].1@[j2]).0@,
                                    vb,
                                )) by {
                                if data_has(
                                    self.b.data@,
                                    self.a.data@[i as int].0@,
                                    self.a.data@[i as int].1@[j2].0@,
                                    vb,
                                ) {
                                }
                            }
                        }
                    },
                }
            } else {
                proof {
                    assert(joined_of(self.a.data@.take(i + 1), self.b.data@) =~= prefix);
                }
            }
            i += 1;
        }
        proof {
            assert(self.a.data@.take(n as int) =~= self.a.data@);
            assert forall|k2: Seq<char>, s2: Seq<char>, va: u64|
                #[trigger] data_has(self.a.data@, k2, s2, va) && !ends_doc(k2) && (exists|vb: u64|
                    data_has(self.b.data@, k2, s2, vb)) implies exists|k: int|
                0 <= k < result@.len() && (#[trigger] result@[k]).bench_name@ == k2
                    && result@[k].cache_state@ == s2 && result@[k].results.0 == va by {
                let i2 = choose|i2: int|
                    0 <= i2 < self.a.data@.len() && (#[trigger] self.a.data@[i2]).0@ == k2
                        && exists|j2: int|
                        0 <= j2 < self.a.data@[i2].1@.len() && (
                        #[trigger] self.a.data@[i2].1@[j2]).0@ == s2
                            && self.a.data@[i2].1@[j2].1 == va;
                let j2 = choose|j2: int|
                    0 <= j2 < self.a.data@[i2].1@.len() && (#[trigger] self.a.data@[i2].1@[j2]).0@
                        == s2 && self.a.data@[i2].1@[j2].1 == va;
                assert(0 <= i2 < i as int && 0 <= j2 < self.a.data@[i2].1@.len());
            }
        }
        result
    }

    /// Summarizes this comparison's joined benchmarks.
    pub fn summarize_comparison(&self) -> (r: Option<ComparisonSummary>)
        requires
            data_wf(self.a.data@),
            data_wf(self.b.data@),
            forall|i: int, j: int|
                0 <= i < self.a.data@.len() && 0 <= j < (#[trigger] self.a.data@[i]).1@.len()
                    ==> (#[trigger] self.a.data@[i].1@[j]).1 > 0,
            forall|i: int, j: int|
                0 <= i < self.b.data@.len() && 0 <= j < (#[trigger] self.b.data@[i]).1@.len()
                    ==> (#[trigger] self.b.data@[i].1@[j]).1 > 0,
        ensures
            spec_summarized(self.a.data@, self.b.data@, r),
    {
        let benchmarks = self.get_benchmarks();
        let ghost bs = benchmarks@;
        proof {
            assert forall|i: int|
                0 <= i < bs.len() implies (#[trigger] bs[i]).results.0 > 0 && bs[i].results.1
                > 0 by {
                assert(data_has(self.a.data@, bs[i].bench_name@, bs[i].cache_state@,
                    bs[i].results.0));
                assert(data_has(self.b.data@, bs[i].bench_name@, bs[i].cache_state@,
                    bs[i].results.1));
            }
        }
        summarize_benchmarks(benchmarks)
    }
}

/// A component carrying a benchmark pins the path's benchmark text.
proof fn lemma_key_text_benchmark(s: Seq<PathComponent>, b: Benchmark)
    requires
        path_wf(s),
        crate::selector::has_pc(s, PathComponent::Crate(b)),
    ensures
        path_has_value::<Benchmark>(s),
        path_value_text::<Benchmark>(s) == b.0@,
{
    let j = choose|j: int|
        0 <= j < s.len() && crate::selector::pc_eq(#[trigger] s[j], PathComponent::Crate(b));
    match s[j] {
        PathComponent::Crate(v) => {
            assert(Benchmark::spec_value(s[j]) == Some(v));
            assert(v.spec_render() == b.0@);
            lemma_path_value_text::<Benchmark>(s, v);
        },
        _ => {
            assert(false);
        },
    }
}

/// A component carrying a profile pins the path's profile text.
proof fn lemma_key_text_profile(s: Seq<PathComponent>, p: Profile)
    requires
        path_wf(s),
        crate::selector::has_pc(s, PathComponent::Profile(p)),
    ensures
        path_has_value::<Profile>(s),
        path_value_text::<Profile>(s) == p.spec_render(),
{
    let j = choose|j: int|
        0 <= j < s.len() && crate::selector::pc_eq(#[trigger] s[j], PathComponent::Profile(p));
    match s[j] {
        PathComponent::Profile(v) => {
            assert(Profile::spec_value(s[j]) == Some(v));
            assert(v.spec_render() == p.spec_render());
            lemma_path_value_text::<Profile>(s, v);
        },
        _ => {
            assert(false);
        },
    }
}

/// A component carrying a scenario pins the path's scenario text.
proof fn lemma_key_text_scenario(s: Seq<PathComponent>, c: Scenario)
    requires
        path_wf(s),
        crate::selector::has_pc(s, PathComponent::Cache(c)),
    ensures
        path_has_value::<Scenario>(s),
        path_value_text::<Scenario>(s) == c.spec_render(),
{
    let j = choose|j: int|
        0 <= j < s.len() && crate::selector::pc_eq(#[trigger] s[j], PathComponent::Cache(c));
    match s[j] {
        PathComponent::Cache(v) => {
            assert(Scenario::spec_value(s[j]) == Some(v));
            assert(v.spec_render() == c.spec_render());
            lemma_path_value_text::<Scenario>(s, v);
        },
        _ => {
            assert(false);
        },
    }
}

/// Two components of one well-formed query that carry the same tag carry
/// the same selector contents.
proof fn lemma_unique_component(
    q: Seq<crate::selector::QueryComponent>,
    qc1: crate::selector::QueryComponent,
    qc2: crate::selector::QueryComponent,
)
    requires
        crate::selector::components_wf(q),
        crate::selector::has_component(q, qc1),
        crate::selector::has_component(q, qc2),
        qc1.tag == qc2.tag,
    ensures
        crate::selector::sel_str_eq(qc1.raw, qc2.raw),
{
    let w1 = choose|w: int|
        0 <= w < q.len() && crate::selector::qc_eq(#[trigger] q[w], qc1);
    let w2 = choose|w: int|
        0 <= w < q.len() && crate::selector::qc_eq(#[trigger] q[w], qc2);
    if w1 != w2 {
        assert(q[w1].tag != q[w2].tag);
    }
    crate::providers::lemma_sel_str_eq_sym(q[w1].raw, qc1.raw);
    crate::providers::lemma_sel_str_eq_trans(qc1.raw, q[w1].raw, qc2.raw);
}

/// Comparing two bounds failed before any data was read.
#[derive(Debug)]
pub enum CompareError {
    /// The bound resolved to no artifact of the index.
    BoundNotFound { bound: Bound, is_start: bool },
    /// The built query was not accepted (an internal fault: the comparison
    /// query always carries the raw-statistic shape).
    Dispatch(crate::selector::DispatchError),
}

/// Resolves the two bounds against the index and plans the one selector
/// query of a comparison: every benchmark, every profile, every scenario,
/// exactly the requested statistic. Returns the resolved artifacts and the
/// series keys whose values the storage layer must fetch.
pub fn compare_request(index: &Index, start: &Bound, end: &Bound, stat: &Metric) -> (r: Result<
    (ArtifactId, ArtifactId, Vec<StatKey>),
    CompareError,
>)
    requires
        index.wf(),
    ensures
        match r {
            Ok(triple) => {
                &&& crate::db::resolves_to(
                    index.commits@,
                    index.artifacts@,
                    *start,
                    true,
                    triple.0,
                )
                &&& crate::db::resolves_to(index.commits@, index.artifacts@, *end, false, triple.1)
                &&& exists|msel: crate::selector::Selector<Metric>|
                    ({
                        let sel = #[trigger] crate::providers::selected_stat_keys(
                            index.pstat_series@,
                            crate::selector::Selector::All,
                            crate::selector::Selector::All,
                            crate::selector::Selector::All,
                            msel,
                        );
                        &&& (msel matches crate::selector::Selector::One(m) && m.0@ == stat.0@)
                        &&& triple.2@.len() == sel.len()
                        &&& forall|i: int|
                            0 <= i < sel.len() ==> (#[trigger] triple.2@[i]).spec_eq(&sel[i])
                    })
            },
            Err(CompareError::BoundNotFound { bound, is_start }) => if is_start {
                bound.spec_eq(start) && crate::db::unresolvable(
                    index.commits@,
                    index.artifacts@,
                    *start,
                )
            } else {
                bound.spec_eq(end) && crate::db::unresolvable(
                    index.commits@,
                    index.artifacts@,
                    *end,
                )
            },
            Err(CompareError::Dispatch(_)) => false,
        },
{
    let a = match crate::db::artifact_id_for_bound(index, start, true) {
        Some(a) => a,
        None => {
            return Err(CompareError::BoundNotFound { bound: start.clone(), is_start: true });
        },
    };
    let b = match crate::db::artifact_id_for_bound(index, end, false) {
        Some(b) => b,
        None => {
            return Err(CompareError::BoundNotFound { bound: end.clone(), is_start: false });
        },
    };
    let q0 = crate::selector::Query::new();
    let q1 = q0.set(crate::selector::Tag::Benchmark, crate::selector::Selector::All);
    let ghost g1 = q1.path@;
    let q2 = q1.set(crate::selector::Tag::Profile, crate::selector::Selector::All);
    let ghost g2 = q2.path@;
    let q3 = q2.set(crate::selector::Tag::Scenario, crate::selector::Selector::All);
    let ghost g3 = q3.path@;
    let cl = stat.0.clone();
    let ghost gcl = cl;
    let query = q3.set(crate::selector::Tag::Metric, crate::selector::Selector::One(cl));
    let ghost knb = crate::selector::QueryComponent {
        tag: crate::selector::Tag::Benchmark,
        raw: crate::selector::Selector::All,
    };
    let ghost knp = crate::selector::QueryComponent {
        tag: crate::selector::Tag::Profile,
        raw: crate::selector::Selector::All,
    };
    let ghost kns = crate::selector::QueryComponent {
        tag: crate::selector::Tag::Scenario,
        raw: crate::selector::Selector::All,
    };
    let ghost knm = crate::selector::QueryComponent {
        tag: crate::selector::Tag::Metric,
        raw: crate::selector::Selector::One(gcl),
    };
    proof {
        crate::providers::lemma_qc_survives(g1, g2, knb, crate::selector::Tag::Profile);
        crate::providers::lemma_qc_survives(g2, g3, knb, crate::selector::Tag::Scenario);
        crate::providers::lemma_qc_survives(g3, query.path@, knb, crate::selector::Tag::Metric);
        crate::providers::lemma_qc_survives(g2, g3, knp, crate::selector::Tag::Scenario);
        crate::providers::lemma_qc_survives(g3, query.path@, knp, crate::selector::Tag::Metric);
        crate::providers::lemma_qc_survives(g3, query.path@, kns, crate::selector::Tag::Metric);
    }
    match crate::providers::plan_scalar_query(index, &query) {
        Ok(crate::providers::ScalarPlan::ProcessStatistic(keys)) => {
            proof {
                let (bsel, psel, ssel, msel) = choose|
                    bsel: crate::selector::Selector<String>,
                    psel: crate::selector::Selector<Profile>,
                    ssel: crate::selector::Selector<Scenario>,
                    msel: crate::selector::Selector<Metric>,
                |
                    {
                        &&& #[trigger] crate::providers::extracted_from::<String>(
                            query.path@,
                            crate::selector::Tag::Benchmark,
                            bsel,
                        )
                        &&& #[trigger] crate::providers::extracted_from::<Profile>(
                            query.path@,
                            crate::selector::Tag::Profile,
                            psel,
                        )
                        &&& #[trigger] crate::providers::extracted_from::<Scenario>(
                            query.path@,
                            crate::selector::Tag::Scenario,
                            ssel,
                        )
                        &&& #[trigger] crate::providers::extracted_from::<Metric>(
                            query.path@,
                            crate::selector::Tag::Metric,
                            msel,
                        )
                        &&& ({
                            let sel = crate::providers::selected_stat_keys(
                                index.pstat_series@,
                                bsel,
                                psel,
                                ssel,
                                msel,
                            );
                            keys@.len() == sel.len() && forall|i: int|
                                0 <= i < sel.len() ==> (#[trigger] keys@[i]).spec_eq(&sel[i])
                        })
                    };
                let qcb = choose|qc: crate::selector::QueryComponent|
                    #[trigger] crate::selector::has_component(query.path@, qc) && qc.tag
                        == crate::selector::Tag::Benchmark && crate::selector::sel_parses::<
                        String,
                    >(qc.raw, bsel);
                lemma_unique_component(query.path@, qcb, knb);
                assert(bsel is All);
                let qcp = choose|qc: crate::selector::QueryComponent|
                    #[trigger] crate::selector::has_component(query.path@, qc) && qc.tag
                        == crate::selector::Tag::Profile && crate::selector::sel_parses::<
                        Profile,
                    >(qc.raw, psel);
                lemma_unique_component(query.path@, qcp, knp);
                assert(psel is All);
                let qcs = choose|qc: crate::selector::QueryComponent|
                    #[trigger] crate::selector::has_component(query.path@, qc) && qc.tag
                        == crate::selector::Tag::Scenario && crate::selector::sel_parses::<
                        Scenario,
                    >(qc.raw, ssel);
                lemma_unique_component(query.path@, qcs, kns);
                assert(ssel is All);
                let qcm = choose|qc: crate::selector::QueryComponent|
                    #[trigger] crate::selector::has_component(query.path@, qc) && qc.tag
                        == crate::selector::Tag::Metric && crate::selector::sel_parses::<
                        Metric,
                    >(qc.raw, msel);
                lemma_unique_component(query.path@, qcm, knm);
                assert(qcm.raw matches crate::selector::Selector::One(sv) && sv@ == stat.0@);
                assert(msel matches crate::selector::Selector::One(m) && m.0@ == stat.0@);
                assert(bsel == crate::selector::Selector::<String>::All);
                assert(psel == crate::selector::Selector::<Profile>::All);
                assert(ssel == crate::selector::Selector::<Scenario>::All);
            }
            Ok((a, b, keys))
        },
        Ok(crate::providers::ScalarPlan::SelfProfileQueryTime(_)) => Err(
            CompareError::Dispatch(crate::selector::DispatchError::Ambiguous),
        ),
        Err(e) => Err(CompareError::Dispatch(e)),
    }
}

/// Folds the fetched values of a comparison's request into the comparison:
/// wraps them as artifact-aligned responses for exactly the two resolved
/// artifacts and consumes one per-date aggregate for each side. Fails, with
/// the length-mismatch fault, exactly when the fetched values do not carry
/// one row per key with one value per artifact (here: two).
pub fn compare_finish(
    a_id: ArtifactId,
    b_id: ArtifactId,
    keys: Vec<StatKey>,
    values: Vec<Vec<Option<u64>>>,
    bootstrap_a: Vec<(String, Option<u64>)>,
    bootstrap_b: Vec<(String, Option<u64>)>,
    pr_a: Option<u32>,
    pr_b: Option<u32>,
    master_commits: &Vec<Commit>,
) -> (r: Result<Comparison, crate::providers::ProviderError>)
    ensures
        match r {
            Ok(c) => {
                &&& c.a_id == a_id
                &&& c.b_id == b_id
                &&& values@.len() == keys@.len()
                &&& data_wf(c.a.data@)
                &&& data_wf(c.b.data@)
                &&& c.a.date == (match a_id {
                    ArtifactId::Commit(ac) => Some(ac.date),
                    ArtifactId::Tag(_) => None::<crate::db::Date>,
                })
                &&& c.a.commit@ == (match a_id {
                    ArtifactId::Commit(ac) => ac.sha@,
                    ArtifactId::Tag(t) => t@,
                })
                &&& c.a.pr == (match a_id {
                    ArtifactId::Commit(ac) => master_pr_from(master_commits@, ac.sha@, pr_a, 0),
                    ArtifactId::Tag(_) => None::<u32>,
                })
                &&& c.a.bootstrap@ == keep_bootstrap(bootstrap_a@)
                &&& c.b.date == (match b_id {
                    ArtifactId::Commit(bc) => Some(bc.date),
                    ArtifactId::Tag(_) => None::<crate::db::Date>,
                })
                &&& c.b.commit@ == (match b_id {
                    ArtifactId::Commit(bc) => bc.sha@,
                    ArtifactId::Tag(t) => t@,
                })
                &&& c.b.pr == (match b_id {
                    ArtifactId::Commit(bc) => master_pr_from(master_commits@, bc.sha@, pr_b, 0),
                    ArtifactId::Tag(_) => None::<u32>,
                })
                &&& c.b.bootstrap@ == keep_bootstrap(bootstrap_b@)
                &&& forall|i: int|
                    0 <= i < keys@.len() ==> match crate::providers::normalized(
                        (#[trigger] keys@[i]).metric.0@,
                        values@[i]@[0],
                    ) {
                        Some(v) => data_has(
                            c.a.data@,
                            keys@[i].benchmark.0@ + "-"@ + keys@[i].profile.spec_render(),
                            keys@[i].scenario.spec_render(),
                            v,
                        ),
                        None => true,
                    }
                &&& forall|i: int|
                    0 <= i < keys@.len() ==> match crate::providers::normalized(
                        (#[trigger] keys@[i]).metric.0@,
                        values@[i]@[1],
                    ) {
                        Some(v) => data_has(
                            c.b.data@,
                            keys@[i].benchmark.0@ + "-"@ + keys@[i].profile.spec_render(),
                            keys@[i].scenario.spec_render(),
                            v,
                        ),
                        None => true,
                    }
            },
            Err(e) => e is LengthMismatch,
        },
        r is Err <==> (values@.len() != keys@.len() || exists|i: int|
            0 <= i < values@.len() && (#[trigger] values@[i])@.len() != 2),
{
    let mut aids: Vec<ArtifactId> = Vec::new();
    aids.push(a_id.clone());
    aids.push(b_id.clone());
    let ghost gkeys = keys@;
    let ghost gvalues = values@;
    let mut responses = match crate::providers::build_stat_responses(keys, &aids, values) {
        Ok(resps) => resps,
        Err(e) => {
            return Err(e);
        },
    };
    proof {
        assert forall|i: int| 0 <= i < gvalues.len() implies (#[trigger] gvalues[i])@.len()
            == 2 by {
            let resp = responses@[i];
            assert(resp.series@.len() == aids@.len());
        }
        assert(aids@.len() == 2);
        assert(aids@[0].spec_eq(&a_id) && aids@[1].spec_eq(&b_id));
        assert forall|i: int| 0 <= i < responses@.len() implies {
            let resp = #[trigger] responses@[i];
            &&& resp.series@.len() == 2
            &&& resp.series@[0].0.spec_eq(&a_id)
            &&& resp.series@[1].0.spec_eq(&b_id)
            &&& path_wf(resp.path.path@)
            &&& path_has_value::<Benchmark>(resp.path.path@)
            &&& path_has_value::<Profile>(resp.path.path@)
            &&& path_has_value::<Scenario>(resp.path.path@)
            &&& path_key_text(resp.path.path@) == gkeys[i].benchmark.0@ + "-"@
                + gkeys[i].profile.spec_render()
            &&& path_scen_text(resp.path.path@) == gkeys[i].scenario.spec_render()
            &&& resp.series@[0].1 == crate::providers::normalized(
                gkeys[i].metric.0@,
                gvalues[i]@[0],
            )
            &&& resp.series@[1].1 == crate::providers::normalized(
                gkeys[i].metric.0@,
                gvalues[i]@[1],
            )
        } by {
            lemma_key_text_benchmark(responses@[i].path.path@, gkeys[i].benchmark);
            lemma_key_text_profile(responses@[i].path.path@, gkeys[i].profile);
            lemma_key_text_scenario(responses@[i].path.path@, gkeys[i].scenario);
        }
    }
    let ghost resp0 = responses@;
    let a = DateData::consume_one(&a_id, &mut responses, master_commits, bootstrap_a, pr_a);
    proof {
        assert forall|i: int| 0 <= i < responses@.len() implies {
            let resp = #[trigger] responses@[i];
            &&& resp.series@.len() > 0
            &&& resp.series@[0].0.spec_eq(&b_id)
            &&& path_wf(resp.path.path@)
            &&& path_has_value::<Benchmark>(resp.path.path@)
            &&& path_has_value::<Profile>(resp.path.path@)
            &&& path_has_value::<Scenario>(resp.path.path@)
        } by {
            assert(responses@[i].series@ == resp0[i].series@.skip(1));
            assert(responses@[i].series@[0] == resp0[i].series@[1]);
            assert(responses@[i].path == resp0[i].path);
        }
    }
    let ghost resp1 = responses@;
    let b = DateData::consume_one(&b_id, &mut responses, master_commits, bootstrap_b, pr_b);
    proof {
        assert forall|i: int|
            0 <= i < gkeys.len() implies match crate::providers::normalized(
            (#[trigger] gkeys[i]).metric.0@,
            gvalues[i]@[0],
        ) {
            Some(v) => data_has(
                a.data@,
                gkeys[i].benchmark.0@ + "-"@ + gkeys[i].profile.spec_render(),
                gkeys[i].scenario.spec_render(),
                v,
            ),
            None => true,
        } by {
            assert(resp0[i].series@[0].1 == crate::providers::normalized(
                gkeys[i].metric.0@,
                gvalues[i]@[0],
            ));
        }
        assert forall|i: int|
            0 <= i < gkeys.len() implies match crate::providers::normalized(
            (#[trigger] gkeys[i]).metric.0@,
            gvalues[i]@[1],
        ) {
            Some(v) => data_has(
                b.data@,
                gkeys[i].benchmark.0@ + "-"@ + gkeys[i].profile.spec_render(),
                gkeys[i].scenario.spec_render(),
                v,
            ),
            None => true,
        } by {
            assert(resp1[i].path == resp0[i].path);
            assert(resp1[i].series@ == resp0[i].series@.skip(1));
            assert(resp1[i].series@[0] == resp0[i].series@[1]);
            assert(path_key_text(resp1[i].path.path@) == gkeys[i].benchmark.0@ + "-"@
                + gkeys[i].profile.spec_render());
            assert(path_scen_text(resp1[i].path.path@) == gkeys[i].scenario.spec_render());
        }
    }
    Ok(Comparison { a_id, a, b_id, b })
}

} // verus!

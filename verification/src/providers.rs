//! Series providers: each resolves a query against the index snapshot into
//! the series keys it selects, and folds values fetched from storage into
//! artifact-aligned series responses. A provider owns a fixed subset of the
//! tags; it consumes exactly those and rejects a query of any other shape.

use vstd::prelude::*;
use crate::db::{Benchmark, Index, Metric, Profile, QueryKey, QueryValue, Scenario, StatKey};
use crate::db::QueryLabel;
use crate::selector::{components_wf, has_component, has_tag, qc_eq, sel_all_parse, sel_has_string,
    sel_parses, sel_str_eq, Path, PathComponent, Query, QueryComponent, QueryError, Selector,
    Series, SeriesResponse, Tag};

verus! {

/// Contents equality of string selectors is transitive.
pub proof fn lemma_sel_str_eq_trans(x: Selector<String>, y: Selector<String>, z: Selector<String>)
    requires
        sel_str_eq(x, y),
        sel_str_eq(y, z),
    ensures
        sel_str_eq(x, z),
{
    match (x, z) {
        (Selector::Subset(xs), Selector::Subset(zs)) => {
            assert forall|i: int| 0 <= i < xs@.len() implies xs@[i]@ == (#[trigger] zs@[i])@ by {
                assert(y matches Selector::Subset(ys) && xs@[i]@ == ys@[i]@ && ys@[i]@ == zs@[i]@);
            }
        },
        _ => {},
    }
}

/// Contents equality of string selectors is symmetric.
pub proof fn lemma_sel_str_eq_sym(x: Selector<String>, y: Selector<String>)
    requires
        sel_str_eq(x, y),
    ensures
        sel_str_eq(y, x),
{
    match (y, x) {
        (Selector::Subset(ys), Selector::Subset(xs)) => {
            assert forall|i: int| 0 <= i < ys@.len() implies ys@[i]@ == (#[trigger] xs@[i])@ by {
                assert(xs@[i]@ == ys@[i]@);
            }
        },
        _ => {},
    }
}

/// A query component of another tag survives setting that tag.
pub proof fn lemma_qc_survives(a: Seq<QueryComponent>, b: Seq<QueryComponent>, qc: QueryComponent, removed: Tag)
    requires
        qc.tag != removed,
        has_component(a, qc),
        forall|i: int|
            0 <= i < a.len() && (#[trigger] a[i]).tag != removed ==> has_component(b, a[i]),
    ensures
        has_component(b, qc),
{
    let w = choose|w: int| 0 <= w < a.len() && qc_eq(#[trigger] a[w], qc);
    assert(has_component(b, a[w]));
    let k = choose|k: int| 0 <= k < b.len() && qc_eq(#[trigger] b[k], a[w]);
    lemma_sel_str_eq_trans(b[k].raw, a[w].raw, qc.raw);
    assert(qc_eq(b[k], qc));
}

/// An extraction's provenance carries to any query whose components the
/// first one's descend to.
proof fn lemma_extracted_transfer<T: QueryValue>(
    a: Seq<QueryComponent>,
    b: Seq<QueryComponent>,
    t: Tag,
    sel: Selector<T>,
)
    requires
        forall|i: int| 0 <= i < a.len() ==> has_component(b, #[trigger] a[i]),
        extracted_from::<T>(a, t, sel),
    ensures
        extracted_from::<T>(b, t, sel),
{
    let qc = choose|qc: QueryComponent|
        #[trigger] has_component(a, qc) && qc.tag == t && sel_parses::<T>(qc.raw, sel);
    lemma_component_descends(b, a, qc);
}

/// A component of `b` descends to `a` when every component of `b` does.
proof fn lemma_component_descends(a: Seq<QueryComponent>, b: Seq<QueryComponent>, qc: QueryComponent)
    requires
        forall|i: int| 0 <= i < b.len() ==> has_component(a, #[trigger] b[i]),
        has_component(b, qc),
    ensures
        has_component(a, qc),
{
    let j = choose|j: int| 0 <= j < b.len() && qc_eq(#[trigger] b[j], qc);
    let k = choose|k: int| 0 <= k < a.len() && qc_eq(#[trigger] a[k], b[j]);
    lemma_sel_str_eq_trans(a[k].raw, b[j].raw, qc.raw);
    assert(qc_eq(a[k], qc));
}

/// A carried tag survives an extraction of a different tag.
proof fn lemma_tag_survives(a: Seq<QueryComponent>, b: Seq<QueryComponent>, t: Tag, removed: Tag)
    requires
        t != removed,
        has_tag(a, t),
        forall|i: int|
            0 <= i < a.len() && (#[trigger] a[i]).tag != removed ==> has_component(b, a[i]),
    ensures
        has_tag(b, t),
{
    let i = choose|i: int| 0 <= i < a.len() && (#[trigger] a[i]).tag == t;
    assert(has_component(b, a[i]));
    let j = choose|j: int| 0 <= j < b.len() && qc_eq(#[trigger] b[j], a[i]);
    assert(b[j].tag == t);
}

/// Whether every string carried under the tag parses in `T`'s domain.
pub open spec fn tag_values_parse<T: QueryValue>(q: Seq<QueryComponent>, t: Tag) -> bool {
    forall|i: int| 0 <= i < q.len() && (#[trigger] q[i]).tag == t ==> sel_all_parse::<T>(q[i].raw)
}

/// An unparseable string carried under a tag refutes `tag_values_parse`.
proof fn lemma_parse_error_refutes<T: QueryValue>(
    orig: Seq<QueryComponent>,
    state: Seq<QueryComponent>,
    qc: QueryComponent,
    v: Seq<char>,
)
    requires
        forall|i: int| 0 <= i < state.len() ==> has_component(orig, #[trigger] state[i]),
        has_component(state, qc),
        sel_has_string(qc.raw, v),
        !T::parse_ok(v),
    ensures
        !tag_values_parse::<T>(orig, qc.tag),
{
    lemma_component_descends(orig, state, qc);
    let k = choose|k: int| 0 <= k < orig.len() && qc_eq(#[trigger] orig[k], qc);
    if tag_values_parse::<T>(orig, qc.tag) {
        assert(sel_all_parse::<T>(orig[k].raw));
        match qc.raw {
            Selector::One(s) => {
                assert(orig[k].raw matches Selector::One(s2) && s2@ == s@);
            },
            Selector::Subset(ss) => {
                let i = choose|i: int| 0 <= i < ss@.len() && (#[trigger] ss@[i])@ == v;
                assert(orig[k].raw matches Selector::Subset(ss2) && ss2@[i]@ == ss@[i]@);
            },
            Selector::All => {},
        }
    }
}

/// A successfully parsed extraction shows that the tag's values parse in the
/// query as it stood before any extraction.
proof fn lemma_parse_ok_establishes<T: QueryValue>(
    orig: Seq<QueryComponent>,
    state: Seq<QueryComponent>,
    qc: QueryComponent,
    sel: Selector<T>,
)
    requires
        components_wf(orig),
        forall|i: int| 0 <= i < state.len() ==> has_component(orig, #[trigger] state[i]),
        has_component(state, qc),
        sel_parses::<T>(qc.raw, sel),
    ensures
        tag_values_parse::<T>(orig, qc.tag),
        has_tag(orig, qc.tag),
{
    lemma_component_descends(orig, state, qc);
    let k = choose|k: int| 0 <= k < orig.len() && qc_eq(#[trigger] orig[k], qc);
    assert(has_tag(orig, qc.tag));
    assert forall|i: int|
        0 <= i < orig.len() && (#[trigger] orig[i]).tag == qc.tag implies sel_all_parse::<T>(
        orig[i].raw,
    ) by {
        if i != k {
            assert(orig[i].tag != orig[k].tag);
        } else {
            match orig[k].raw {
                Selector::Subset(ss2) => {
                    assert forall|j: int|
                        0 <= j < ss2@.len() implies T::parse_ok((#[trigger] ss2@[j])@) by {
                        let ss = qc.raw->Subset_0;
                        assert(ss@[j]@ == ss2@[j]@);
                        assert(T::parse_ok(ss@[j]@));
                    }
                },
                _ => {},
            }
        }
    }
}

/// Whether a key of the raw statistic series passes all four selectors.
pub open spec fn stat_matches(
    key: StatKey,
    bsel: Selector<String>,
    psel: Selector<Profile>,
    ssel: Selector<Scenario>,
    msel: Selector<Metric>,
) -> bool {
    &&& bsel.spec_matches(&key.benchmark.0)
    &&& psel.spec_matches(&key.profile)
    &&& ssel.spec_matches(&key.scenario)
    &&& msel.spec_matches(&key.metric)
}

/// The statistic keys that pass the selectors, in snapshot order.
pub open spec fn selected_stat_keys(
    keys: Seq<StatKey>,
    bsel: Selector<String>,
    psel: Selector<Profile>,
    ssel: Selector<Scenario>,
    msel: Selector<Metric>,
) -> Seq<StatKey>
    decreases keys.len(),
{
    if keys.len() == 0 {
        Seq::empty()
    } else {
        let rest = selected_stat_keys(keys.drop_last(), bsel, psel, ssel, msel);
        if stat_matches(keys.last(), bsel, psel, ssel, msel) {
            rest.push(keys.last())
        } else {
            rest
        }
    }
}

/// A query the raw-statistic provider accepts: exactly the benchmark,
/// profile, scenario and metric tags, every carried value parseable.
pub open spec fn stat_query_ok(q: Seq<QueryComponent>) -> bool {
    &&& q.len() == 4
    &&& has_tag(q, Tag::Benchmark)
    &&& has_tag(q, Tag::Profile)
    &&& has_tag(q, Tag::Scenario)
    &&& has_tag(q, Tag::Metric)
    &&& tag_values_parse::<Profile>(q, Tag::Profile)
    &&& tag_values_parse::<Scenario>(q, Tag::Scenario)
}

/// The provenance of one typed selector: some component of the query carries
/// the tag and parses element-wise to the selector.
pub open spec fn extracted_from<T: QueryValue>(
    q: Seq<QueryComponent>,
    t: Tag,
    sel: Selector<T>,
) -> bool {
    exists|qc: QueryComponent|
        #[trigger] has_component(q, qc) && qc.tag == t && sel_parses::<T>(qc.raw, sel)
}

/// The raw per-process statistic series: one scalar per artifact per key.
#[derive(Debug)]
pub struct ProcessStatisticSeries;

impl Series for ProcessStatisticSeries {
    type Element = Option<u64>;
}

impl ProcessStatisticSeries {
    /// The statistic keys passing the four typed selectors, in snapshot
    /// order.
    pub fn select_keys(
        index: &Index,
        bsel: &Selector<String>,
        psel: &Selector<Profile>,
        ssel: &Selector<Scenario>,
        msel: &Selector<Metric>,
    ) -> (r: Vec<StatKey>)
        requires
            crate::db::pstat_sorted(index.pstat_series@),
        ensures
            ({
                let sel = selected_stat_keys(index.pstat_series@, *bsel, *psel, *ssel, *msel);
                &&& crate::db::pstat_sorted(sel)
                &&& r@.len() == sel.len()
                &&& forall|i: int| 0 <= i < sel.len() ==> (#[trigger] r@[i]).spec_eq(&sel[i])
            }),
    {
        proof {
            lemma_selected_stat_keys_sorted(index.pstat_series@, *bsel, *psel, *ssel, *msel);
        }
        let n = index.pstat_series.len();
        let mut out: Vec<StatKey> = Vec::new();
        let mut i: usize = 0;
        while i < n
            invariant
                n == index.pstat_series@.len(),
                i <= n,
                ({
                    let sel = selected_stat_keys(
                        index.pstat_series@.take(i as int),
                        *bsel,
                        *psel,
                        *ssel,
                        *msel,
                    );
                    out@.len() == sel.len() && forall|j: int|
                        0 <= j < sel.len() ==> (#[trigger] out@[j]).spec_eq(&sel[j])
                }),
            decreases n - i,
        {
            proof {
                assert(index.pstat_series@.take(i + 1).drop_last() =~= index.pstat_series@.take(
                    i as int,
                ));
                assert(index.pstat_series@.take(i + 1).last() == index.pstat_series@[i as int]);
            }
            let key = &index.pstat_series[i];
            if bsel.matches(&key.benchmark.0) && psel.matches(&key.profile) && ssel.matches(
                &key.scenario,
            ) && msel.matches(&key.metric) {
                out.push(key.clone());
            }
            i += 1;
        }
        proof {
            assert(index.pstat_series@.take(n as int) =~= index.pstat_series@);
        }
        out
    }

    /// Destructively resolves a query: succeeds exactly when the query
    /// carries this provider's four tags, and nothing else, with parseable
    /// values, and then selects the matching keys of the snapshot.
    pub fn expand_query(index: &Index, query: Query) -> (r: Result<Vec<StatKey>, QueryError>)
        requires
            components_wf(query.path@),
            crate::db::pstat_sorted(index.pstat_series@),
        ensures
            r is Ok <==> stat_query_ok(query.path@),
            match r {
                Ok(keys) => exists|
                    bsel: Selector<String>,
                    psel: Selector<Profile>,
                    ssel: Selector<Scenario>,
                    msel: Selector<Metric>,
                |
                    {
                        &&& #[trigger] extracted_from::<String>(query.path@, Tag::Benchmark, bsel)
                        &&& #[trigger] extracted_from::<Profile>(query.path@, Tag::Profile, psel)
                        &&& #[trigger] extracted_from::<Scenario>(query.path@, Tag::Scenario, ssel)
                        &&& #[trigger] extracted_from::<Metric>(query.path@, Tag::Metric, msel)
                        &&& ({
                            let sel = selected_stat_keys(
                                index.pstat_series@,
                                bsel,
                                psel,
                                ssel,
                                msel,
                            );
                            keys@.len() == sel.len() && forall|i: int|
                                0 <= i < sel.len() ==> (#[trigger] keys@[i]).spec_eq(&sel[i])
                        })
                    },
                Err(_) => true,
            },
    {
        let ghost orig = query.path@;
        let mut query = query;
        let bsel = match query.extract_as::<String>(Tag::Benchmark) {
            Ok(s) => s,
            Err(e) => {
                return Err(e);
            },
        };
        let ghost st1 = query.path@;
        let psel = match query.extract_as::<Profile>(Tag::Profile) {
            Ok(s) => s,
            Err(e) => {
                proof {
                    if stat_query_ok(orig) {
                        match &e {
                            QueryError::MissingTag { .. } => {
                                lemma_tag_survives(orig, st1, Tag::Profile, Tag::Benchmark);
                            },
                            QueryError::Parse { tag: _, value } => {
                                let qc = choose|qc: QueryComponent|
                                    #[trigger] has_component(st1, qc) && qc.tag == Tag::Profile
                                        && sel_has_string(qc.raw, value@);
                                lemma_parse_error_refutes::<Profile>(orig, st1, qc, value@);
                            },
                            QueryError::Unconsumed { .. } => {},
                        }
                    }
                }
                return Err(e);
            },
        };
        let ghost st2 = query.path@;
        proof {
            assert forall|i: int| 0 <= i < st2.len() implies has_component(
                orig,
                #[trigger] st2[i],
            ) by {
                lemma_component_descends(orig, st1, st2[i]);
            }
        }
        let ssel = match query.extract_as::<Scenario>(Tag::Scenario) {
            Ok(s) => s,
            Err(e) => {
                proof {
                    if stat_query_ok(orig) {
                        match &e {
                            QueryError::MissingTag { .. } => {
                                lemma_tag_survives(orig, st1, Tag::Scenario, Tag::Benchmark);
                                lemma_tag_survives(st1, st2, Tag::Scenario, Tag::Profile);
                            },
                            QueryError::Parse { tag: _, value } => {
                                let qc = choose|qc: QueryComponent|
                                    #[trigger] has_component(st2, qc) && qc.tag == Tag::Scenario
                                        && sel_has_string(qc.raw, value@);
                                lemma_parse_error_refutes::<Scenario>(orig, st2, qc, value@);
                            },
                            QueryError::Unconsumed { .. } => {},
                        }
                    }
                }
                return Err(e);
            },
        };
        let ghost st3 = query.path@;
        proof {
            assert forall|i: int| 0 <= i < st3.len() implies has_component(
                orig,
                #[trigger] st3[i],
            ) by {
                lemma_component_descends(orig, st2, st3[i]);
            }
        }
        let msel = match query.extract_as::<Metric>(Tag::Metric) {
            Ok(s) => s,
            Err(e) => {
                proof {
                    if stat_query_ok(orig) {
                        match &e {
                            QueryError::MissingTag { .. } => {
                                lemma_tag_survives(orig, st1, Tag::Metric, Tag::Benchmark);
                                lemma_tag_survives(st1, st2, Tag::Metric, Tag::Profile);
                                lemma_tag_survives(st2, st3, Tag::Metric, Tag::Scenario);
                            },
                            QueryError::Parse { tag: _, value } => {
                                assert(Metric::parse_ok(value@));
                            },
                            QueryError::Unconsumed { .. } => {},
                        }
                    }
                }
                return Err(e);
            },
        };
        let ghost st4 = query.path@;
        proof {
            assert forall|i: int| 0 <= i < st4.len() implies has_component(
                orig,
                #[trigger] st4[i],
            ) by {
                lemma_component_descends(orig, st3, st4[i]);
            }
        }
        match query.assert_empty() {
            Ok(()) => {},
            Err(e) => {
                proof {
                    assert(st4.len() == orig.len() - 4);
                    if stat_query_ok(orig) {
                        assert(false);
                    }
                }
                return Err(e);
            },
        }
        let keys = Self::select_keys(index, &bsel, &psel, &ssel, &msel);
        proof {
            // success establishes the provider's query shape
            let bqc = choose|qc: QueryComponent|
                #[trigger] has_component(orig, qc) && qc.tag == Tag::Benchmark && sel_parses::<
                    String,
                >(qc.raw, bsel);
            let pqc = choose|qc: QueryComponent|
                #[trigger] has_component(st1, qc) && qc.tag == Tag::Profile && sel_parses::<
                    Profile,
                >(qc.raw, psel);
            let sqc = choose|qc: QueryComponent|
                #[trigger] has_component(st2, qc) && qc.tag == Tag::Scenario && sel_parses::<
                    Scenario,
                >(qc.raw, ssel);
            let mqc = choose|qc: QueryComponent|
                #[trigger] has_component(st3, qc) && qc.tag == Tag::Metric && sel_parses::<
                    Metric,
                >(qc.raw, msel);
            lemma_parse_ok_establishes::<String>(orig, orig, bqc, bsel);
            lemma_parse_ok_establishes::<Profile>(orig, st1, pqc, psel);
            lemma_parse_ok_establishes::<Scenario>(orig, st2, sqc, ssel);
            lemma_parse_ok_establishes::<Metric>(orig, st3, mqc, msel);
            assert(orig.len() == 4);
            assert(stat_query_ok(orig));
            lemma_component_descends(orig, st1, pqc);
            lemma_component_descends(orig, st2, sqc);
            lemma_component_descends(orig, st3, mqc);
            assert(extracted_from::<String>(orig, Tag::Benchmark, bsel));
            assert(extracted_from::<Profile>(orig, Tag::Profile, psel));
            assert(extracted_from::<Scenario>(orig, Tag::Scenario, ssel));
            assert(extracted_from::<Metric>(orig, Tag::Metric, msel));
        }
        Ok(keys)
    }
}

/// A query the self-profile sub-query-time provider accepts: exactly the
/// benchmark, profile, scenario and query-label tags, values parseable.
pub open spec fn spq_query_ok(q: Seq<QueryComponent>) -> bool {
    &&& q.len() == 4
    &&& has_tag(q, Tag::Benchmark)
    &&& has_tag(q, Tag::Profile)
    &&& has_tag(q, Tag::Scenario)
    &&& has_tag(q, Tag::QueryLabel)
    &&& tag_values_parse::<Profile>(q, Tag::Profile)
    &&& tag_values_parse::<Scenario>(q, Tag::Scenario)
}

/// A query the aggregated self-profile provider accepts: exactly the
/// benchmark, profile and scenario tags, values parseable.
pub open spec fn sp_query_ok(q: Seq<QueryComponent>) -> bool {
    &&& q.len() == 3
    &&& has_tag(q, Tag::Benchmark)
    &&& has_tag(q, Tag::Profile)
    &&& has_tag(q, Tag::Scenario)
    &&& tag_values_parse::<Profile>(q, Tag::Profile)
    &&& tag_values_parse::<Scenario>(q, Tag::Scenario)
}

/// Whether a self-profile series key passes the four selectors.
pub open spec fn query_key_matches(
    key: QueryKey,
    bsel: Selector<String>,
    psel: Selector<Profile>,
    ssel: Selector<Scenario>,
    lsel: Selector<QueryLabel>,
) -> bool {
    &&& bsel.spec_matches(&key.benchmark.0)
    &&& psel.spec_matches(&key.profile)
    &&& ssel.spec_matches(&key.scenario)
    &&& lsel.spec_matches(&key.label)
}

/// The self-profile keys that pass the four selectors, in snapshot order.
pub open spec fn selected_query_keys(
    keys: Seq<QueryKey>,
    bsel: Selector<String>,
    psel: Selector<Profile>,
    ssel: Selector<Scenario>,
    lsel: Selector<QueryLabel>,
) -> Seq<QueryKey>
    decreases keys.len(),
{
    if keys.len() == 0 {
        Seq::empty()
    } else {
        let rest = selected_query_keys(keys.drop_last(), bsel, psel, ssel, lsel);
        if query_key_matches(keys.last(), bsel, psel, ssel, lsel) {
            rest.push(keys.last())
        } else {
            rest
        }
    }
}

/// Whether a self-profile key passes the three aggregate selectors (the
/// label is not filtered).
pub open spec fn sp_key_matches(
    key: QueryKey,
    bsel: Selector<String>,
    psel: Selector<Profile>,
    ssel: Selector<Scenario>,
) -> bool {
    &&& bsel.spec_matches(&key.benchmark.0)
    &&& psel.spec_matches(&key.profile)
    &&& ssel.spec_matches(&key.scenario)
}

/// A key of the aggregated self-profile series: the per-label dimension is
/// collapsed away.
#[derive(Debug)]
pub struct SelfProfileKey {
    pub benchmark: Benchmark,
    pub profile: Profile,
    pub scenario: Scenario,
}

impl SelfProfileKey {
    /// Equality up to the canonical texts of the fields.
    pub open spec fn spec_eq(&self, other: &SelfProfileKey) -> bool {
        &&& self.benchmark.0@ == other.benchmark.0@
        &&& self.profile == other.profile
        &&& self.scenario.spec_render() == other.scenario.spec_render()
    }

    pub fn same(&self, other: &SelfProfileKey) -> (r: bool)
        ensures
            r == self.spec_eq(other),
    {
        self.benchmark.0 == other.benchmark.0 && self.profile == other.profile
            && self.scenario.same(&other.scenario)
    }
}

impl Clone for SelfProfileKey {
    fn clone(&self) -> (r: Self)
        ensures
            r.spec_eq(self),
    {
        SelfProfileKey {
            benchmark: self.benchmark.clone(),
            profile: self.profile,
            scenario: self.scenario.clone(),
        }
    }
}

/// The projections of the matching self-profile keys, in snapshot order,
/// duplicates still present.
pub open spec fn projected_sp_keys(
    keys: Seq<QueryKey>,
    bsel: Selector<String>,
    psel: Selector<Profile>,
    ssel: Selector<Scenario>,
) -> Seq<SelfProfileKey>
    decreases keys.len(),
{
    if keys.len() == 0 {
        Seq::empty()
    } else {
        let rest = projected_sp_keys(keys.drop_last(), bsel, psel, ssel);
        if sp_key_matches(keys.last(), bsel, psel, ssel) {
            rest.push(
                SelfProfileKey {
                    benchmark: keys.last().benchmark,
                    profile: keys.last().profile,
                    scenario: keys.last().scenario,
                },
            )
        } else {
            rest
        }
    }
}

/// Whether the sequence holds a key with these contents.
pub open spec fn has_sp_key(s: Seq<SelfProfileKey>, k: SelfProfileKey) -> bool {
    exists|i: int| 0 <= i < s.len() && (#[trigger] s[i]).spec_eq(&k)
}

/// The self-profile sub-query time series: one scalar per artifact for one
/// specific sub-query label.
#[derive(Debug)]
pub struct SelfProfileQueryTime;

impl Series for SelfProfileQueryTime {
    type Element = Option<u64>;
}

impl SelfProfileQueryTime {
    /// The self-profile keys passing the four typed selectors, in snapshot
    /// order.
    pub fn select_keys(
        index: &Index,
        bsel: &Selector<String>,
        psel: &Selector<Profile>,
        ssel: &Selector<Scenario>,
        lsel: &Selector<QueryLabel>,
    ) -> (r: Vec<QueryKey>)
        requires
            crate::db::qseries_sorted(index.query_series@),
        ensures
            ({
                let sel = selected_query_keys(index.query_series@, *bsel, *psel, *ssel, *lsel);
                &&& crate::db::qseries_sorted(sel)
                &&& r@.len() == sel.len()
                &&& forall|i: int| 0 <= i < sel.len() ==> (#[trigger] r@[i]).spec_eq(&sel[i])
            }),
    {
        proof {
            lemma_selected_query_keys_sorted(index.query_series@, *bsel, *psel, *ssel, *lsel);
        }
        let n = index.query_series.len();
        let mut out: Vec<QueryKey> = Vec::new();
        let mut i: usize = 0;
        while i < n
            invariant
                n == index.query_series@.len(),
                i <= n,
                ({
                    let sel = selected_query_keys(
                        index.query_series@.take(i as int),
                        *bsel,
                        *psel,
                        *ssel,
                        *lsel,
                    );
                    out@.len() == sel.len() && forall|j: int|
                        0 <= j < sel.len() ==> (#[trigger] out@[j]).spec_eq(&sel[j])
                }),
            decreases n - i,
        {
            proof {
                assert(index.query_series@.take(i + 1).drop_last() =~= index.query_series@.take(
                    i as int,
                ));
                assert(index.query_series@.take(i + 1).last() == index.query_series@[i as int]);
            }
            let key = &index.query_series[i];
            if bsel.matches(&key.benchmark.0) && psel.matches(&key.profile) && ssel.matches(
                &key.scenario,
            ) && lsel.matches(&key.label) {
                out.push(key.clone());
            }
            i += 1;
        }
        proof {
            assert(index.query_series@.take(n as int) =~= index.query_series@);
        }
        out
    }

    /// Destructively resolves a query: succeeds exactly when the query
    /// carries this provider's four tags, and nothing else, with parseable
    /// values, and then selects the matching keys of the snapshot.
    pub fn expand_query(index: &Index, query: Query) -> (r: Result<Vec<QueryKey>, QueryError>)
        requires
            components_wf(query.path@),
            crate::db::qseries_sorted(index.query_series@),
        ensures
            r is Ok <==> spq_query_ok(query.path@),
            match r {
                Ok(keys) => exists|
                    bsel: Selector<String>,
                    psel: Selector<Profile>,
                    ssel: Selector<Scenario>,
                    lsel: Selector<QueryLabel>,
                |
                    {
                        &&& #[trigger] extracted_from::<String>(query.path@, Tag::Benchmark, bsel)
                        &&& #[trigger] extracted_from::<Profile>(query.path@, Tag::Profile, psel)
                        &&& #[trigger] extracted_from::<Scenario>(query.path@, Tag::Scenario, ssel)
                        &&& #[trigger] extracted_from::<QueryLabel>(
                            query.path@,
                            Tag::QueryLabel,
                            lsel,
                        )
                        &&& ({
                            let sel = selected_query_keys(
                                index.query_series@,
                                bsel,
                                psel,
                                ssel,
                                lsel,
                            );
                            keys@.len() == sel.len() && forall|i: int|
                                0 <= i < sel.len() ==> (#[trigger] keys@[i]).spec_eq(&sel[i])
                        })
                    },
                Err(_) => true,
            },
    {
        let ghost orig = query.path@;
        let mut query = query;
        let bsel = match query.extract_as::<String>(Tag::Benchmark) {
            Ok(s) => s,
            Err(e) => {
                return Err(e);
            },
        };
        let ghost st1 = query.path@;
        let psel = match query.extract_as::<Profile>(Tag::Profile) {
            Ok(s) => s,
            Err(e) => {
                proof {
                    if spq_query_ok(orig) {
                        match &e {
                            QueryError::MissingTag { .. } => {
                                lemma_tag_survives(orig, st1, Tag::Profile, Tag::Benchmark);
                            },
                            QueryError::Parse { tag: _, value } => {
                                let qc = choose|qc: QueryComponent|
                                    #[trigger] has_component(st1, qc) && qc.tag == Tag::Profile
                                        && sel_has_string(qc.raw, value@);
                                lemma_parse_error_refutes::<Profile>(orig, st1, qc, value@);
                            },
                            QueryError::Unconsumed { .. } => {},
                        }
                    }
                }
                return Err(e);
            },
        };
        let ghost st2 = query.path@;
        proof {
            assert forall|i: int| 0 <= i < st2.len() implies has_component(
                orig,
                #[trigger] st2[i],
            ) by {
                lemma_component_descends(orig, st1, st2[i]);
            }
        }
        let ssel = match query.extract_as::<Scenario>(Tag::Scenario) {
            Ok(s) => s,
            Err(e) => {
                proof {
                    if spq_query_ok(orig) {
                        match &e {
                            QueryError::MissingTag { .. } => {
                                lemma_tag_survives(orig, st1, Tag::Scenario, Tag::Benchmark);
                                lemma_tag_survives(st1, st2, Tag::Scenario, Tag::Profile);
                            },
                            QueryError::Parse { tag: _, value } => {
                                let qc = choose|qc: QueryComponent|
                                    #[trigger] has_component(st2, qc) && qc.tag == Tag::Scenario
                                        && sel_has_string(qc.raw, value@);
                                lemma_parse_error_refutes::<Scenario>(orig, st2, qc, value@);
                            },
                            QueryError::Unconsumed { .. } => {},
                        }
                    }
                }
                return Err(e);
            },
        };
        let ghost st3 = query.path@;
        proof {
            assert forall|i: int| 0 <= i < st3.len() implies has_component(
                orig,
                #[trigger] st3[i],
            ) by {
                lemma_component_descends(orig, st2, st3[i]);
            }
        }
        let lsel = match query.extract_as::<QueryLabel>(Tag::QueryLabel) {
            Ok(s) => s,
            Err(e) => {
                proof {
                    if spq_query_ok(orig) {
                        match &e {
                            QueryError::MissingTag { .. } => {
                                lemma_tag_survives(orig, st1, Tag::QueryLabel, Tag::Benchmark);
                                lemma_tag_survives(st1, st2, Tag::QueryLabel, Tag::Profile);
                                lemma_tag_survives(st2, st3, Tag::QueryLabel, Tag::Scenario);
                            },
                            QueryError::Parse { tag: _, value } => {
                                assert(QueryLabel::parse_ok(value@));
                            },
                            QueryError::Unconsumed { .. } => {},
                        }
                    }
                }
                return Err(e);
            },
        };
        let ghost st4 = query.path@;
        proof {
            assert forall|i: int| 0 <= i < st4.len() implies has_component(
                orig,
                #[trigger] st4[i],
            ) by {
                lemma_component_descends(orig, st3, st4[i]);
            }
        }
        match query.assert_empty() {
            Ok(()) => {},
            Err(e) => {
                proof {
                    assert(st4.len() == orig.len() - 4);
                    if spq_query_ok(orig) {
                        assert(false);
                    }
                }
                return Err(e);
            },
        }
        let keys = Self::select_keys(index, &bsel, &psel, &ssel, &lsel);
        proof {
            let bqc = choose|qc: QueryComponent|
                #[trigger] has_component(orig, qc) && qc.tag == Tag::Benchmark && sel_parses::<
                    String,
                >(qc.raw, bsel);
            let pqc = choose|qc: QueryComponent|
                #[trigger] has_component(st1, qc) && qc.tag == Tag::Profile && sel_parses::<
                    Profile,
                >(qc.raw, psel);
            let sqc = choose|qc: QueryComponent|
                #[trigger] has_component(st2, qc) && qc.tag == Tag::Scenario && sel_parses::<
                    Scenario,
                >(qc.raw, ssel);
            let lqc = choose|qc: QueryComponent|
                #[trigger] has_component(st3, qc) && qc.tag == Tag::QueryLabel && sel_parses::<
                    QueryLabel,
                >(qc.raw, lsel);
            lemma_parse_ok_establishes::<String>(orig, orig, bqc, bsel);
            lemma_parse_ok_establishes::<Profile>(orig, st1, pqc, psel);
            lemma_parse_ok_establishes::<Scenario>(orig, st2, sqc, ssel);
            lemma_parse_ok_establishes::<QueryLabel>(orig, st3, lqc, lsel);
            assert(orig.len() == 4);
            assert(spq_query_ok(orig));
            lemma_component_descends(orig, st1, pqc);
            lemma_component_descends(orig, st2, sqc);
            lemma_component_descends(orig, st3, lqc);
            assert(extracted_from::<String>(orig, Tag::Benchmark, bsel));
            assert(extracted_from::<Profile>(orig, Tag::Profile, psel));
            assert(extracted_from::<Scenario>(orig, Tag::Scenario, ssel));
            assert(extracted_from::<QueryLabel>(orig, Tag::QueryLabel, lsel));
        }
        Ok(keys)
    }
}

/// One aggregated self-profile record of one sub-query label, times in
/// nanoseconds.
#[derive(Debug)]
pub struct QueryData {
    pub label: QueryLabel,
    pub self_time: u64,
    pub number_of_cache_hits: u32,
    pub invocation_count: u32,
    pub blocked_time: u64,
    pub incremental_load_time: u64,
}

impl QueryData {
    /// A record never counts more cache hits than invocations.
    pub open spec fn wf(&self) -> bool {
        self.number_of_cache_hits <= self.invocation_count
    }

    /// The sub-queries not answered from cache.
    pub fn number_of_cache_misses(&self) -> (r: u32)
        requires
            self.wf(),
        ensures
            r == self.invocation_count - self.number_of_cache_hits,
    {
        self.invocation_count - self.number_of_cache_hits
    }
}

impl Clone for QueryData {
    fn clone(&self) -> (r: Self)
        ensures
            r.label.0@ == self.label.0@,
            r.self_time == self.self_time,
            r.number_of_cache_hits == self.number_of_cache_hits,
            r.invocation_count == self.invocation_count,
            r.blocked_time == self.blocked_time,
            r.incremental_load_time == self.incremental_load_time,
    {
        QueryData {
            label: self.label.clone(),
            self_time: self.self_time,
            number_of_cache_hits: self.number_of_cache_hits,
            invocation_count: self.invocation_count,
            blocked_time: self.blocked_time,
            incremental_load_time: self.incremental_load_time,
        }
    }
}

/// One artifact's aggregated self-profile: a record per sub-query label.
#[derive(Debug)]
pub struct SelfProfileData {
    pub query_data: Vec<QueryData>,
}

/// The aggregated self-profile series: a list of per-sub-query records per
/// artifact.
#[derive(Debug)]
pub struct SelfProfile;

impl Series for SelfProfile {
    type Element = Option<SelfProfileData>;
}

impl SelfProfile {
    /// The distinct (benchmark, profile, scenario) projections of the
    /// matching self-profile keys, each kept at its first appearance.
    pub fn select_keys(
        index: &Index,
        bsel: &Selector<String>,
        psel: &Selector<Profile>,
        ssel: &Selector<Scenario>,
    ) -> (r: Vec<SelfProfileKey>)
        requires
            crate::db::qseries_sorted(index.query_series@),
        ensures
            ({
                let proj = projected_sp_keys(index.query_series@, *bsel, *psel, *ssel);
                &&& forall|i: int, j: int|
                    0 <= i < j < r@.len() ==> !(#[trigger] r@[i]).spec_eq(#[trigger] &r@[j])
                &&& forall|i: int| 0 <= i < r@.len() ==> has_sp_key(proj, #[trigger] r@[i])
                &&& forall|i: int| 0 <= i < proj.len() ==> has_sp_key(r@, #[trigger] proj[i])
            }),
    {
        let n = index.query_series.len();
        let mut out: Vec<SelfProfileKey> = Vec::new();
        let mut i: usize = 0;
        while i < n
            invariant
                n == index.query_series@.len(),
                i <= n,
                ({
                    let proj = projected_sp_keys(
                        index.query_series@.take(i as int),
                        *bsel,
                        *psel,
                        *ssel,
                    );
                    &&& forall|a: int, b: int|
                        0 <= a < b < out@.len() ==> !(#[trigger] out@[a]).spec_eq(#[trigger] &out@[b])
                    &&& forall|a: int| 0 <= a < out@.len() ==> has_sp_key(proj, #[trigger] out@[a])
                    &&& forall|a: int| 0 <= a < proj.len() ==> has_sp_key(out@, #[trigger] proj[a])
                }),
            decreases n - i,
        {
            proof {
                assert(index.query_series@.take(i + 1).drop_last() =~= index.query_series@.take(
                    i as int,
                ));
                assert(index.query_series@.take(i + 1).last() == index.query_series@[i as int]);
            }
            let ghost preproj = projected_sp_keys(
                index.query_series@.take(i as int),
                *bsel,
                *psel,
                *ssel,
            );
            let key = &index.query_series[i];
            if bsel.matches(&key.benchmark.0) && psel.matches(&key.profile) && ssel.matches(
                &key.scenario,
            ) {
                let candidate = SelfProfileKey {
                    benchmark: key.benchmark.clone(),
                    profile: key.profile,
                    scenario: key.scenario.clone(),
                };
                let m = out.len();
                let mut k: usize = 0;
                let mut present = false;
                while k < m
                    invariant
                        m == out@.len(),
                        k <= m,
                        present == exists|a: int|
                            0 <= a < k && (#[trigger] out@[a]).spec_eq(&candidate),
                    decreases m - k,
                {
                    if out[k].same(&candidate) {
                        present = true;
                    }
                    k += 1;
                }
                let ghost pl = SelfProfileKey {
                    benchmark: index.query_series@[i as int].benchmark,
                    profile: index.query_series@[i as int].profile,
                    scenario: index.query_series@[i as int].scenario,
                };
                let ghost newproj = projected_sp_keys(
                    index.query_series@.take(i + 1),
                    *bsel,
                    *psel,
                    *ssel,
                );
                proof {
                    assert(newproj =~= preproj.push(pl));
                    assert(candidate.spec_eq(&pl));
                }
                if !present {
                    let ghost pre = out@;
                    out.push(candidate);
                    proof {
                        assert forall|a: int| 0 <= a < out@.len() implies has_sp_key(
                            newproj,
                            #[trigger] out@[a],
                        ) by {
                            if a < pre.len() {
                                let w = choose|w: int|
                                    0 <= w < preproj.len() && (#[trigger] preproj[w]).spec_eq(
                                        &pre[a],
                                    );
                                assert(newproj[w] == preproj[w]);
                            } else {
                                assert(out@[a] == candidate);
                                assert(newproj[newproj.len() - 1] == pl);
                                assert(pl.spec_eq(&candidate));
                            }
                        }
                        assert forall|a: int| 0 <= a < newproj.len() implies has_sp_key(
                            out@,
                            #[trigger] newproj[a],
                        ) by {
                            if a < preproj.len() {
                                assert(newproj[a] == preproj[a]);
                                let w = choose|w: int|
                                    0 <= w < pre.len() && (#[trigger] pre[w]).spec_eq(&preproj[a]);
                                assert(out@[w] == pre[w]);
                            } else {
                                assert(newproj[a] == pl);
                                assert(out@[out@.len() - 1].spec_eq(&pl));
                            }
                        }
                    }
                } else {
                    proof {
                        let b = choose|b: int|
                            0 <= b < out@.len() && (#[trigger] out@[b]).spec_eq(&candidate);
                        assert forall|a: int| 0 <= a < newproj.len() implies has_sp_key(
                            out@,
                            #[trigger] newproj[a],
                        ) by {
                            if a < preproj.len() {
                                assert(newproj[a] == preproj[a]);
                            } else {
                                assert(newproj[a] == pl);
                                assert(out@[b].spec_eq(&pl));
                            }
                        }
                        assert forall|a: int| 0 <= a < out@.len() implies has_sp_key(
                            newproj,
                            #[trigger] out@[a],
                        ) by {
                            let w = choose|w: int|
                                0 <= w < preproj.len() && (#[trigger] preproj[w]).spec_eq(
                                    &out@[a],
                                );
                            assert(newproj[w] == preproj[w]);
                        }
                    }
                }
            } else {
                proof {
                    assert(projected_sp_keys(
                        index.query_series@.take(i + 1),
                        *bsel,
                        *psel,
                        *ssel,
                    ) =~= projected_sp_keys(
                        index.query_series@.take(i as int),
                        *bsel,
                        *psel,
                        *ssel,
                    ));
                }
            }
            i += 1;
        }
        proof {
            assert(index.query_series@.take(n as int) =~= index.query_series@);
        }
        out
    }

    /// Destructively resolves a query: succeeds exactly when the query
    /// carries this provider's three tags, and nothing else, with parseable
    /// values, and then selects the distinct collapsed keys of the snapshot.
    pub fn expand_query(index: &Index, query: Query) -> (r: Result<Vec<SelfProfileKey>, QueryError>)
        requires
            components_wf(query.path@),
            crate::db::qseries_sorted(index.query_series@),
        ensures
            r is Ok <==> sp_query_ok(query.path@),
            match r {
                Ok(keys) => exists|
                    bsel: Selector<String>,
                    psel: Selector<Profile>,
                    ssel: Selector<Scenario>,
                |
                    {
                        &&& #[trigger] extracted_from::<String>(query.path@, Tag::Benchmark, bsel)
                        &&& #[trigger] extracted_from::<Profile>(query.path@, Tag::Profile, psel)
                        &&& #[trigger] extracted_from::<Scenario>(query.path@, Tag::Scenario, ssel)
                        &&& ({
                            let proj = projected_sp_keys(index.query_series@, bsel, psel, ssel);
                            &&& forall|i: int, j: int|
                                0 <= i < j < keys@.len() ==> !(#[trigger] keys@[i]).spec_eq(
                                    #[trigger] &keys@[j],
                                )
                            &&& forall|i: int|
                                0 <= i < keys@.len() ==> has_sp_key(proj, #[trigger] keys@[i])
                            &&& forall|i: int|
                                0 <= i < proj.len() ==> has_sp_key(keys@, #[trigger] proj[i])
                        })
                    },
                Err(_) => true,
            },
    {
        let ghost orig = query.path@;
        let mut query = query;
        let bsel = match query.extract_as::<String>(Tag::Benchmark) {
            Ok(s) => s,
            Err(e) => {
                return Err(e);
            },
        };
        let ghost st1 = query.path@;
        let psel = match query.extract_as::<Profile>(Tag::Profile) {
            Ok(s) => s,
            Err(e) => {
                proof {
                    if sp_query_ok(orig) {
                        match &e {
                            QueryError::MissingTag { .. } => {
                                lemma_tag_survives(orig, st1, Tag::Profile, Tag::Benchmark);
                            },
                            QueryError::Parse { tag: _, value } => {
                                let qc = choose|qc: QueryComponent|
                                    #[trigger] has_component(st1, qc) && qc.tag == Tag::Profile
                                        && sel_has_string(qc.raw, value@);
                                lemma_parse_error_refutes::<Profile>(orig, st1, qc, value@);
                            },
                            QueryError::Unconsumed { .. } => {},
                        }
                    }
                }
                return Err(e);
            },
        };
        let ghost st2 = query.path@;
        proof {
            assert forall|i: int| 0 <= i < st2.len() implies has_component(
                orig,
                #[trigger] st2[i],
            ) by {
                lemma_component_descends(orig, st1, st2[i]);
            }
        }
        let ssel = match query.extract_as::<Scenario>(Tag::Scenario) {
            Ok(s) => s,
            Err(e) => {
                proof {
                    if sp_query_ok(orig) {
                        match &e {
                            QueryError::MissingTag { .. } => {
                                lemma_tag_survives(orig, st1, Tag::Scenario, Tag::Benchmark);
                                lemma_tag_survives(st1, st2, Tag::Scenario, Tag::Profile);
                            },
                            QueryError::Parse { tag: _, value } => {
                                let qc = choose|qc: QueryComponent|
                                    #[trigger] has_component(st2, qc) && qc.tag == Tag::Scenario
                                        && sel_has_string(qc.raw, value@);
                                lemma_parse_error_refutes::<Scenario>(orig, st2, qc, value@);
                            },
                            QueryError::Unconsumed { .. } => {},
                        }
                    }
                }
                return Err(e);
            },
        };
        let ghost st3 = query.path@;
        proof {
            assert forall|i: int| 0 <= i < st3.len() implies has_component(
                orig,
                #[trigger] st3[i],
            ) by {
                lemma_component_descends(orig, st2, st3[i]);
            }
        }
        match query.assert_empty() {
            Ok(()) => {},
            Err(e) => {
                proof {
                    assert(st3.len() == orig.len() - 3);
                    if sp_query_ok(orig) {
                        assert(false);
                    }
                }
                return Err(e);
            },
        }
        let keys = Self::select_keys(index, &bsel, &psel, &ssel);
        proof {
            let bqc = choose|qc: QueryComponent|
                #[trigger] has_component(orig, qc) && qc.tag == Tag::Benchmark && sel_parses::<
                    String,
                >(qc.raw, bsel);
            let pqc = choose|qc: QueryComponent|
                #[trigger] has_component(st1, qc) && qc.tag == Tag::Profile && sel_parses::<
                    Profile,
                >(qc.raw, psel);
            let sqc = choose|qc: QueryComponent|
                #[trigger] has_component(st2, qc) && qc.tag == Tag::Scenario && sel_parses::<
                    Scenario,
                >(qc.raw, ssel);
            lemma_parse_ok_establishes::<String>(orig, orig, bqc, bsel);
            lemma_parse_ok_establishes::<Profile>(orig, st1, pqc, psel);
            lemma_parse_ok_establishes::<Scenario>(orig, st2, sqc, ssel);
            assert(orig.len() == 3);
            assert(sp_query_ok(orig));
            lemma_component_descends(orig, st1, pqc);
            lemma_component_descends(orig, st2, sqc);
            assert(extracted_from::<String>(orig, Tag::Benchmark, bsel));
            assert(extracted_from::<Profile>(orig, Tag::Profile, psel));
            assert(extracted_from::<Scenario>(orig, Tag::Scenario, ssel));
        }
        Ok(keys)
    }

    /// Folds per-artifact fetched records into the aggregated series: an
    /// artifact with no row in storage, or an empty record list, yields no
    /// data point.
    pub fn assemble(
        artifact_ids: &Vec<crate::db::ArtifactId>,
        fetched: Vec<Option<Vec<QueryData>>>,
    ) -> (r: Result<Vec<(crate::db::ArtifactId, Option<SelfProfileData>)>, ProviderError>)
        ensures
            match r {
                Ok(series) => {
                    &&& fetched@.len() == artifact_ids@.len()
                    &&& series@.len() == artifact_ids@.len()
                    &&& forall|i: int|
                        0 <= i < series@.len() ==> (#[trigger] series@[i]).0.spec_eq(
                            &artifact_ids@[i],
                        ) && match fetched@[i] {
                            Some(rows) => if rows@.len() == 0 {
                                series@[i].1 is None
                            } else {
                                series@[i].1 matches Some(d) && d.query_data@ == rows@
                            },
                            None => series@[i].1 is None,
                        }
                },
                Err(ProviderError::LengthMismatch) => fetched@.len() != artifact_ids@.len(),
            },
    {
        if fetched.len() != artifact_ids.len() {
            return Err(ProviderError::LengthMismatch);
        }
        let ghost forig = fetched@;
        let mut fetched = fetched;
        let mut series: Vec<(crate::db::ArtifactId, Option<SelfProfileData>)> = Vec::new();
        let n = artifact_ids.len();
        let mut i: usize = 0;
        while i < n
            invariant
                n == artifact_ids@.len(),
                i <= n,
                forig.len() == n,
                fetched@ == forig.skip(i as int),
                series@.len() == i,
                forall|j: int|
                    0 <= j < i ==> (#[trigger] series@[j]).0.spec_eq(&artifact_ids@[j]) && match
                        forig[j] {
                        Some(rows) => if rows@.len() == 0 {
                            series@[j].1 is None
                        } else {
                            series@[j].1 matches Some(d) && d.query_data@ == rows@
                        },
                        None => series@[j].1 is None,
                    },
            decreases n - i,
        {
            let row = fetched.remove(0);
            proof {
                assert(row == forig[i as int]);
                assert(fetched@ =~= forig.skip(i + 1));
            }
            let point = match row {
                Some(rows) => {
                    if rows.is_empty() {
                        None
                    } else {
                        Some(SelfProfileData { query_data: rows })
                    }
                },
                None => None,
            };
            series.push((artifact_ids[i].clone(), point));
            i += 1;
        }
        Ok(series)
    }
}

/// A provider contract violation: the storage layer returned a different
/// number of rows or values than requested.
#[derive(Clone, Copy, Debug, PartialEq, Eq, Structural)]
pub enum ProviderError {
    LengthMismatch,
}

/// The unit normalization of the raw-statistic provider: the "cpu-clock"
/// metric is reported in milliseconds and is converted to seconds, rounding
/// down in the caller's fixed-point unit; other metrics pass through.
pub open spec fn normalized(metric: Seq<char>, v: Option<u64>) -> Option<u64> {
    if metric == "cpu-clock"@ {
        match v {
            Some(x) => Some((x / 1000) as u64),
            None => None,
        }
    } else {
        v
    }
}

/// The resolved path of one raw-statistic key: its four components, one per
/// tag.
#[verifier::spinoff_prover]
#[verifier::rlimit(100)]
pub fn stat_key_path(key: StatKey) -> (p: Path)
    ensures
        crate::selector::path_wf(p.path@),
        p.path@.len() == 4,
        crate::selector::has_pc(p.path@, PathComponent::Crate(key.benchmark)),
        crate::selector::has_pc(p.path@, PathComponent::Profile(key.profile)),
        crate::selector::has_pc(p.path@, PathComponent::Cache(key.scenario)),
        crate::selector::has_pc(p.path@, PathComponent::ProcessStatistic(key.metric)),
{
    let ghost gkey = key;
    let StatKey { benchmark, profile, scenario, metric } = key;
    let p0 = Path::new();
    let p1 = p0.set(PathComponent::Crate(benchmark));
    let ghost s1 = p1.path@;
    let p2 = p1.set(PathComponent::Profile(profile));
    let ghost s2 = p2.path@;
    let p3 = p2.set(PathComponent::Cache(scenario));
    let ghost s3 = p3.path@;
    let p4 = p3.set(PathComponent::ProcessStatistic(metric));
    proof {
        lemma_pc_survives(s1, s2, PathComponent::Crate(gkey.benchmark), Tag::Profile);
        lemma_pc_survives(s2, s3, PathComponent::Crate(gkey.benchmark), Tag::Scenario);
        lemma_pc_survives(s3, p4.path@, PathComponent::Crate(gkey.benchmark), Tag::Metric);
        lemma_pc_survives(s2, s3, PathComponent::Profile(gkey.profile), Tag::Scenario);
        lemma_pc_survives(s3, p4.path@, PathComponent::Profile(gkey.profile), Tag::Metric);
        lemma_pc_survives(s3, p4.path@, PathComponent::Cache(gkey.scenario), Tag::Metric);
    }
    p4
}

/// A path component of another tag survives setting that tag.
proof fn lemma_pc_survives(
    a: Seq<PathComponent>,
    b: Seq<PathComponent>,
    c: PathComponent,
    set_tag: Tag,
)
    requires
        c.spec_tag() != set_tag,
        crate::selector::has_pc(a, c),
        forall|i: int|
            0 <= i < a.len() && (#[trigger] a[i]).spec_tag() != set_tag
                ==> crate::selector::has_pc(b, a[i]),
    ensures
        crate::selector::has_pc(b, c),
{
    let j = choose|j: int| 0 <= j < a.len() && crate::selector::pc_eq(#[trigger] a[j], c);
    assert(crate::selector::has_pc(b, a[j]));
    let k = choose|k: int| 0 <= k < b.len() && crate::selector::pc_eq(#[trigger] b[k], a[j]);
    assert(crate::selector::pc_eq(b[k], c));
}

/// Wraps per-key, per-artifact fetched values as series responses: one
/// response per key, its path the resolved key, its series carrying exactly
/// one value per requested artifact, in request order, with the raw
/// statistic unit normalization applied.
#[verifier::spinoff_prover]
#[verifier::rlimit(100)]
pub fn build_stat_responses(
    keys: Vec<StatKey>,
    artifact_ids: &Vec<crate::db::ArtifactId>,
    values: Vec<Vec<Option<u64>>>,
) -> (r: Result<
    Vec<SeriesResponse<Vec<(crate::db::ArtifactId, Option<u64>)>>>,
    ProviderError,
>)
    ensures
        match r {
            Ok(resps) => {
                &&& values@.len() == keys@.len()
                &&& resps@.len() == keys@.len()
                &&& forall|i: int|
                    0 <= i < resps@.len() ==> {
                        let resp = #[trigger] resps@[i];
                        &&& crate::selector::path_wf(resp.path.path@)
                        &&& resp.path.path@.len() == 4
                        &&& crate::selector::has_pc(
                            resp.path.path@,
                            PathComponent::Crate(keys@[i].benchmark),
                        )
                        &&& crate::selector::has_pc(
                            resp.path.path@,
                            PathComponent::Profile(keys@[i].profile),
                        )
                        &&& crate::selector::has_pc(
                            resp.path.path@,
                            PathComponent::Cache(keys@[i].scenario),
                        )
                        &&& crate::selector::has_pc(
                            resp.path.path@,
                            PathComponent::ProcessStatistic(keys@[i].metric),
                        )
                        &&& resp.series@.len() == artifact_ids@.len()
                        &&& values@[i]@.len() == artifact_ids@.len()
                        &&& forall|j: int|
                            0 <= j < artifact_ids@.len() ==> (#[trigger] resp.series@[j]).0.spec_eq(
                                &artifact_ids@[j],
                            ) && resp.series@[j].1 == normalized(
                                keys@[i].metric.0@,
                                values@[i]@[j],
                            )
                    }
            },
            Err(ProviderError::LengthMismatch) => values@.len() != keys@.len() || exists|i: int|
                0 <= i < values@.len() && (#[trigger] values@[i])@.len() != artifact_ids@.len(),
        },
{
    proof {
        reveal_strlit("cpu-clock");
    }
    if values.len() != keys.len() {
        return Err(ProviderError::LengthMismatch);
    }
    let ghost korig = keys@;
    let ghost vorig = values@;
    let mut keys_left = keys;
    let mut values_left = values;
    let mut resps: Vec<SeriesResponse<Vec<(crate::db::ArtifactId, Option<u64>)>>> = Vec::new();
    let n = keys_left.len();
    let mut i: usize = 0;
    while i < n
        invariant
            n == korig.len(),
            vorig.len() == n,
            i <= n,
            korig == keys@,
            vorig == values@,
            keys_left@ == korig.skip(i as int),
            values_left@ == vorig.skip(i as int),
            resps@.len() == i,
            forall|k: int|
                0 <= k < i ==> {
                    let resp = #[trigger] resps@[k];
                    &&& crate::selector::path_wf(resp.path.path@)
                    &&& resp.path.path@.len() == 4
                    &&& crate::selector::has_pc(
                        resp.path.path@,
                        PathComponent::Crate(korig[k].benchmark),
                    )
                    &&& crate::selector::has_pc(
                        resp.path.path@,
                        PathComponent::Profile(korig[k].profile),
                    )
                    &&& crate::selector::has_pc(
                        resp.path.path@,
                        PathComponent::Cache(korig[k].scenario),
                    )
                    &&& crate::selector::has_pc(
                        resp.path.path@,
                        PathComponent::ProcessStatistic(korig[k].metric),
                    )
                    &&& resp.series@.len() == artifact_ids@.len()
                    &&& vorig[k]@.len() == artifact_ids@.len()
                    &&& forall|j: int|
                        0 <= j < artifact_ids@.len() ==> (#[trigger] resp.series@[j]).0.spec_eq(
                            &artifact_ids@[j],
                        ) && resp.series@[j].1 == normalized(korig[k].metric.0@, vorig[k]@[j])
                },
        decreases n - i,
    {
        let key = keys_left.remove(0);
        let row = values_left.remove(0);
        proof {
            assert(key == korig[i as int]);
            assert(row == vorig[i as int]);
            assert(keys_left@ =~= korig.skip(i + 1));
            assert(values_left@ =~= vorig.skip(i + 1));
        }
        if row.len() != artifact_ids.len() {
            proof {
                assert(0 <= i < vorig.len() && vorig[i as int]@.len() != artifact_ids@.len());
            }
            return Err(ProviderError::LengthMismatch);
        }
        let is_cpu_clock = key.metric.0 == "cpu-clock".to_owned();
        let ghost rorig = row@;
        let ghost gkey = key;
        let mut row = row;
        let mut series: Vec<(crate::db::ArtifactId, Option<u64>)> = Vec::new();
        let m = artifact_ids.len();
        let mut j: usize = 0;
        while j < m
            invariant
                m == artifact_ids@.len(),
                j <= m,
                rorig.len() == m,
                row@ == rorig.skip(j as int),
                is_cpu_clock == (gkey.metric.0@ == "cpu-clock"@),
                series@.len() == j,
                forall|t: int|
                    0 <= t < j ==> (#[trigger] series@[t]).0.spec_eq(&artifact_ids@[t])
                        && series@[t].1 == normalized(gkey.metric.0@, rorig[t]),
            decreases m - j,
        {
            let v = row.remove(0);
            proof {
                assert(v == rorig[j as int]);
                assert(row@ =~= rorig.skip(j + 1));
            }
            let point = if is_cpu_clock {
                match v {
                    Some(x) => Some(x / 1000),
                    None => None,
                }
            } else {
                v
            };
            series.push((artifact_ids[j].clone(), point));
            j += 1;
        }
        let path = stat_key_path(key);
        let ghost pre = resps@;
        resps.push(SeriesResponse { path, series });
        proof {
            assert forall|k: int| 0 <= k < pre.len() implies resps@[k] == pre[k] by {}
        }
        i += 1;
    }
    Ok(resps)
}

/// The accepted resolution of a scalar-element query: the provider that
/// consumed it, with its selected keys.
#[derive(Debug)]
pub enum ScalarPlan {
    ProcessStatistic(Vec<StatKey>),
    SelfProfileQueryTime(Vec<QueryKey>),
}

/// Tries every provider of scalar series elements on the query, in a fixed
/// order, and accepts exactly one success: the raw-statistic provider and
/// the self-profile sub-query-time provider own disjoint tag shapes, so two
/// successes are impossible and the ambiguity fault of the combinator is
/// proved unreachable here.
pub fn plan_scalar_query(index: &Index, query: &Query) -> (r: Result<
    ScalarPlan,
    crate::selector::DispatchError,
>)
    requires
        components_wf(query.path@),
        index.wf(),
    ensures
        match r {
            Ok(ScalarPlan::ProcessStatistic(keys)) => stat_query_ok(query.path@) && exists|
                bsel: Selector<String>,
                psel: Selector<Profile>,
                ssel: Selector<Scenario>,
                msel: Selector<Metric>,
            |
                {
                    &&& #[trigger] extracted_from::<String>(query.path@, Tag::Benchmark, bsel)
                    &&& #[trigger] extracted_from::<Profile>(query.path@, Tag::Profile, psel)
                    &&& #[trigger] extracted_from::<Scenario>(query.path@, Tag::Scenario, ssel)
                    &&& #[trigger] extracted_from::<Metric>(query.path@, Tag::Metric, msel)
                    &&& ({
                        let sel = selected_stat_keys(index.pstat_series@, bsel, psel, ssel, msel);
                        keys@.len() == sel.len() && forall|i: int|
                            0 <= i < sel.len() ==> (#[trigger] keys@[i]).spec_eq(&sel[i])
                    })
                },
            Ok(ScalarPlan::SelfProfileQueryTime(keys)) => spq_query_ok(query.path@) && exists|
                bsel: Selector<String>,
                psel: Selector<Profile>,
                ssel: Selector<Scenario>,
                lsel: Selector<QueryLabel>,
            |
                {
                    &&& #[trigger] extracted_from::<String>(query.path@, Tag::Benchmark, bsel)
                    &&& #[trigger] extracted_from::<Profile>(query.path@, Tag::Profile, psel)
                    &&& #[trigger] extracted_from::<Scenario>(query.path@, Tag::Scenario, ssel)
                    &&& #[trigger] extracted_from::<QueryLabel>(query.path@, Tag::QueryLabel, lsel)
                    &&& ({
                        let sel = selected_query_keys(index.query_series@, bsel, psel, ssel, lsel);
                        keys@.len() == sel.len() && forall|i: int|
                            0 <= i < sel.len() ==> (#[trigger] keys@[i]).spec_eq(&sel[i])
                    })
                },
            Err(crate::selector::DispatchError::NoneMatched { .. }) => !stat_query_ok(query.path@)
                && !spq_query_ok(query.path@),
            Err(crate::selector::DispatchError::Ambiguous) => false,
        },
{
    let q1 = query.clone();
    let q2 = query.clone();
    let ghost q1v = q1.path@;
    let ghost q2v = q2.path@;
    proof {
        lemma_clone_query_equiv(query.path@, q1.path@);
        lemma_clone_query_equiv(query.path@, q2.path@);
        assert forall|i: int| 0 <= i < q1v.len() implies has_component(
            query.path@,
            #[trigger] q1v[i],
        ) by {
            assert(qc_eq(q1v[i], query.path@[i]));
            lemma_sel_str_eq_sym(q1v[i].raw, query.path@[i].raw);
            assert(qc_eq(query.path@[i], q1v[i]));
        }
        assert forall|i: int| 0 <= i < q2v.len() implies has_component(
            query.path@,
            #[trigger] q2v[i],
        ) by {
            assert(qc_eq(q2v[i], query.path@[i]));
            lemma_sel_str_eq_sym(q2v[i].raw, query.path@[i].raw);
            assert(qc_eq(query.path@[i], q2v[i]));
        }
    }
    let r1 = ProcessStatisticSeries::expand_query(index, q1);
    let r2 = SelfProfileQueryTime::expand_query(index, q2);
    let mut results: Vec<Result<ScalarPlan, String>> = Vec::new();
    let ghost ok1 = r1 is Ok;
    let ghost ok2 = r2 is Ok;
    results.push(
        match r1 {
            Ok(keys) => Ok(ScalarPlan::ProcessStatistic(keys)),
            Err(e) => Err(e.message()),
        },
    );
    results.push(
        match r2 {
            Ok(keys) => Ok(ScalarPlan::SelfProfileQueryTime(keys)),
            Err(e) => Err(e.message()),
        },
    );
    let ghost rs = results@;
    proof {
        assert(rs.len() == 2);
        assert(rs.drop_last().drop_last() =~= Seq::<Result<ScalarPlan, String>>::empty());
        assert(rs.drop_last().last() == rs[0]);
        assert(crate::selector::ok_count(Seq::<Result<ScalarPlan, String>>::empty()) == 0);
        assert(crate::selector::ok_count(rs.drop_last()) == (if rs[0] is Ok {
            1nat
        } else {
            0nat
        }));
        assert(crate::selector::ok_count(rs) == crate::selector::ok_count(rs.drop_last()) + (
        if rs.last() is Ok {
            1nat
        } else {
            0nat
        }));
        assert(rs[0] is Ok <==> ok1);
        assert(rs[1] is Ok <==> ok2);
        lemma_shapes_disjoint(query.path@);
    }
    match crate::selector::handle_results(results) {
        Ok(plan) => {
            proof {
                assert(crate::selector::ok_count(rs) == 1);
                match plan {
                    ScalarPlan::ProcessStatistic(_) => {
                        if !ok1 {
                            let i = choose|i: int|
                                0 <= i < rs.len() && #[trigger] rs[i] == Ok::<
                                    ScalarPlan,
                                    String,
                                >(plan);
                            assert(rs[0] is Err);
                            assert(i == 1);
                            assert(false);
                        }
                    },
                    ScalarPlan::SelfProfileQueryTime(_) => {
                        if !ok2 {
                            let i = choose|i: int|
                                0 <= i < rs.len() && #[trigger] rs[i] == Ok::<
                                    ScalarPlan,
                                    String,
                                >(plan);
                            assert(rs[1] is Err);
                            assert(i == 0);
                            assert(false);
                        }
                    },
                }
            }
            proof {
                if plan is ProcessStatistic {
                    let (bsel, psel, ssel, msel) = choose|
                        bsel: Selector<String>,
                        psel: Selector<Profile>,
                        ssel: Selector<Scenario>,
                        msel: Selector<Metric>,
                    |
                        {
                            &&& #[trigger] extracted_from::<String>(q1v, Tag::Benchmark, bsel)
                            &&& #[trigger] extracted_from::<Profile>(q1v, Tag::Profile, psel)
                            &&& #[trigger] extracted_from::<Scenario>(q1v, Tag::Scenario, ssel)
                            &&& #[trigger] extracted_from::<Metric>(q1v, Tag::Metric, msel)
                            &&& ({
                                let sel = selected_stat_keys(
                                    index.pstat_series@,
                                    bsel,
                                    psel,
                                    ssel,
                                    msel,
                                );
                                plan->ProcessStatistic_0@.len() == sel.len() && forall|i: int|
                                    0 <= i < sel.len() ==> (
                                    #[trigger] plan->ProcessStatistic_0@[i]).spec_eq(&sel[i])
                            })
                        };
                    lemma_extracted_transfer::<String>(q1v, query.path@, Tag::Benchmark, bsel);
                    lemma_extracted_transfer::<Profile>(q1v, query.path@, Tag::Profile, psel);
                    lemma_extracted_transfer::<Scenario>(q1v, query.path@, Tag::Scenario, ssel);
                    lemma_extracted_transfer::<Metric>(q1v, query.path@, Tag::Metric, msel);
                }
                if plan is SelfProfileQueryTime {
                    let (bsel, psel, ssel, lsel) = choose|
                        bsel: Selector<String>,
                        psel: Selector<Profile>,
                        ssel: Selector<Scenario>,
                        lsel: Selector<QueryLabel>,
                    |
                        {
                            &&& #[trigger] extracted_from::<String>(q2v, Tag::Benchmark, bsel)
                            &&& #[trigger] extracted_from::<Profile>(q2v, Tag::Profile, psel)
                            &&& #[trigger] extracted_from::<Scenario>(q2v, Tag::Scenario, ssel)
                            &&& #[trigger] extracted_from::<QueryLabel>(
                                q2v,
                                Tag::QueryLabel,
                                lsel,
                            )
                            &&& ({
                                let sel = selected_query_keys(
                                    index.query_series@,
                                    bsel,
                                    psel,
                                    ssel,
                                    lsel,
                                );
                                plan->SelfProfileQueryTime_0@.len() == sel.len() && forall|i: int|
                                    0 <= i < sel.len() ==> (
                                    #[trigger] plan->SelfProfileQueryTime_0@[i]).spec_eq(&sel[i])
                            })
                        };
                    lemma_extracted_transfer::<String>(q2v, query.path@, Tag::Benchmark, bsel);
                    lemma_extracted_transfer::<Profile>(q2v, query.path@, Tag::Profile, psel);
                    lemma_extracted_transfer::<Scenario>(q2v, query.path@, Tag::Scenario, ssel);
                    lemma_extracted_transfer::<QueryLabel>(q2v, query.path@, Tag::QueryLabel, lsel);
                }
            }
            Ok(plan)
        },
        Err(e) => {
            proof {
                match &e {
                    crate::selector::DispatchError::Ambiguous => {
                        assert(crate::selector::ok_count(rs) >= 2);
                        assert(ok1 && ok2);
                        lemma_shapes_disjoint(query.path@);
                    },
                    crate::selector::DispatchError::NoneMatched { .. } => {
                        assert(crate::selector::ok_count(rs) == 0);
                        assert(!ok1 && !ok2);
                    },
                }
            }
            Err(e)
        },
    }
}

/// A clone of a query has the same tags, texts and shape.
proof fn lemma_clone_query_equiv(q1: Seq<QueryComponent>, q2: Seq<QueryComponent>)
    requires
        q1.len() == q2.len(),
        forall|i: int| 0 <= i < q1.len() ==> qc_eq(#[trigger] q2[i], q1[i]),
    ensures
        components_wf(q1) == components_wf(q2),
        stat_query_ok(q1) == stat_query_ok(q2),
        spq_query_ok(q1) == spq_query_ok(q2),
        sp_query_ok(q1) == sp_query_ok(q2),
{
    assert forall|t: Tag| has_tag(q1, t) == has_tag(q2, t) by {
        if has_tag(q1, t) {
            let i = choose|i: int| 0 <= i < q1.len() && (#[trigger] q1[i]).tag == t;
            assert(q2[i].tag == t);
        }
        if has_tag(q2, t) {
            let i = choose|i: int| 0 <= i < q2.len() && (#[trigger] q2[i]).tag == t;
            assert(q1[i].tag == t);
        }
    }
    assert forall|i: int| 0 <= i < q1.len() implies (#[trigger] q1[i]).tag == q2[i].tag by {}
    lemma_tag_values_equiv::<Profile>(q1, q2, Tag::Profile);
    lemma_tag_values_equiv::<Scenario>(q1, q2, Tag::Scenario);
}

/// Element-wise parseability carries across contents-equal queries.
proof fn lemma_tag_values_equiv<T: QueryValue>(
    q1: Seq<QueryComponent>,
    q2: Seq<QueryComponent>,
    t: Tag,
)
    requires
        q1.len() == q2.len(),
        forall|i: int| 0 <= i < q1.len() ==> qc_eq(#[trigger] q2[i], q1[i]),
    ensures
        tag_values_parse::<T>(q1, t) == tag_values_parse::<T>(q2, t),
{
    if tag_values_parse::<T>(q1, t) {
        assert forall|i: int|
            0 <= i < q2.len() && (#[trigger] q2[i]).tag == t implies sel_all_parse::<T>(
            q2[i].raw,
        ) by {
            assert(q1[i].tag == t);
            lemma_sel_all_parse_eq_dir::<T>(q1[i].raw, q2[i].raw);
        }
    }
    if tag_values_parse::<T>(q2, t) {
        assert forall|i: int|
            0 <= i < q1.len() && (#[trigger] q1[i]).tag == t implies sel_all_parse::<T>(
            q1[i].raw,
        ) by {
            assert(q2[i].tag == t);
            lemma_sel_all_parse_eq_rev::<T>(q2[i].raw, q1[i].raw);
        }
    }
}

proof fn lemma_sel_all_parse_eq_dir<T: QueryValue>(raw1: Selector<String>, raw2: Selector<String>)
    requires
        sel_str_eq(raw2, raw1),
        sel_all_parse::<T>(raw1),
    ensures
        sel_all_parse::<T>(raw2),
{
    match raw2 {
        Selector::Subset(ss2) => {
            assert forall|i: int| 0 <= i < ss2@.len() implies T::parse_ok((#[trigger] ss2@[i])@) by {
                assert(raw1 matches Selector::Subset(ss1) && ss2@[i]@ == ss1@[i]@);
            }
        },
        _ => {},
    }
}

proof fn lemma_sel_all_parse_eq_rev<T: QueryValue>(raw1: Selector<String>, raw2: Selector<String>)
    requires
        sel_str_eq(raw1, raw2),
        sel_all_parse::<T>(raw1),
    ensures
        sel_all_parse::<T>(raw2),
{
    match raw2 {
        Selector::Subset(ss2) => {
            assert forall|i: int| 0 <= i < ss2@.len() implies T::parse_ok((#[trigger] ss2@[i])@) by {
                assert(raw1 matches Selector::Subset(ss1) && ss1@[i]@ == ss2@[i]@);
            }
        },
        _ => {},
    }
}

/// No query satisfies both scalar providers: the first requires a metric
/// component, the second a query-label component, and a four-component query
/// cannot carry five distinct tags.
proof fn lemma_shapes_disjoint(q: Seq<QueryComponent>)
    requires
        components_wf(q),
    ensures
        !(stat_query_ok(q) && spq_query_ok(q)),
{
    if stat_query_ok(q) && spq_query_ok(q) {
        let i1 = choose|i: int| 0 <= i < q.len() && (#[trigger] q[i]).tag == Tag::Benchmark;
        let i2 = choose|i: int| 0 <= i < q.len() && (#[trigger] q[i]).tag == Tag::Profile;
        let i3 = choose|i: int| 0 <= i < q.len() && (#[trigger] q[i]).tag == Tag::Scenario;
        let i4 = choose|i: int| 0 <= i < q.len() && (#[trigger] q[i]).tag == Tag::Metric;
        let i5 = choose|i: int| 0 <= i < q.len() && (#[trigger] q[i]).tag == Tag::QueryLabel;
        assert(i1 != i2 && i1 != i3 && i1 != i4 && i1 != i5 && i2 != i3 && i2 != i4 && i2 != i5
            && i3 != i4 && i3 != i5 && i4 != i5);
    }
}

pub assume_specification[ core::time::Duration::from_nanos ](nanos: u64) -> core::time::Duration;

impl QueryData {
    /// The time spent in the sub-query itself; the value is the
    /// `self_time` field's nanoseconds, opaque to the verifier.
    pub fn self_time(&self) -> core::time::Duration {
        core::time::Duration::from_nanos(self.self_time)
    }

    /// The time the sub-query spent blocked.
    pub fn blocked_time(&self) -> core::time::Duration {
        core::time::Duration::from_nanos(self.blocked_time)
    }

    /// The time spent loading the sub-query's incremental result.
    pub fn incremental_load_time(&self) -> core::time::Duration {
        core::time::Duration::from_nanos(self.incremental_load_time)
    }
}

/// The resolved path of one self-profile sub-query-time key: its four
/// components, one per tag.
#[verifier::spinoff_prover]
#[verifier::rlimit(100)]
pub fn query_key_path(key: QueryKey) -> (p: Path)
    ensures
        crate::selector::path_wf(p.path@),
        p.path@.len() == 4,
        crate::selector::has_pc(p.path@, PathComponent::Crate(key.benchmark)),
        crate::selector::has_pc(p.path@, PathComponent::Profile(key.profile)),
        crate::selector::has_pc(p.path@, PathComponent::Cache(key.scenario)),
        crate::selector::has_pc(p.path@, PathComponent::QueryLabel(key.label)),
{
    let ghost gkey = key;
    let QueryKey { benchmark, profile, scenario, label } = key;
    let p0 = Path::new();
    let p1 = p0.set(PathComponent::Crate(benchmark));
    let ghost s1 = p1.path@;
    let p2 = p1.set(PathComponent::Profile(profile));
    let ghost s2 = p2.path@;
    let p3 = p2.set(PathComponent::Cache(scenario));
    let ghost s3 = p3.path@;
    let p4 = p3.set(PathComponent::QueryLabel(label));
    proof {
        lemma_pc_survives(s1, s2, PathComponent::Crate(gkey.benchmark), Tag::Profile);
        lemma_pc_survives(s2, s3, PathComponent::Crate(gkey.benchmark), Tag::Scenario);
        lemma_pc_survives(s3, p4.path@, PathComponent::Crate(gkey.benchmark), Tag::QueryLabel);
        lemma_pc_survives(s2, s3, PathComponent::Profile(gkey.profile), Tag::Scenario);
        lemma_pc_survives(s3, p4.path@, PathComponent::Profile(gkey.profile), Tag::QueryLabel);
        lemma_pc_survives(s3, p4.path@, PathComponent::Cache(gkey.scenario), Tag::QueryLabel);
    }
    p4
}

/// Wraps per-key, per-artifact fetched sub-query times as series responses:
/// one response per key, one value per requested artifact, request order
/// kept; the values are already in the caller's fixed-point unit.
#[verifier::spinoff_prover]
#[verifier::rlimit(100)]
pub fn build_query_time_responses(
    keys: Vec<QueryKey>,
    artifact_ids: &Vec<crate::db::ArtifactId>,
    values: Vec<Vec<Option<u64>>>,
) -> (r: Result<
    Vec<SeriesResponse<Vec<(crate::db::ArtifactId, Option<u64>)>>>,
    ProviderError,
>)
    ensures
        match r {
            Ok(resps) => {
                &&& values@.len() == keys@.len()
                &&& resps@.len() == keys@.len()
                &&& forall|i: int|
                    0 <= i < resps@.len() ==> {
                        let resp = #[trigger] resps@[i];
                        &&& crate::selector::path_wf(resp.path.path@)
                        &&& resp.path.path@.len() == 4
                        &&& crate::selector::has_pc(
                            resp.path.path@,
                            PathComponent::Crate(keys@[i].benchmark),
                        )
                        &&& crate::selector::has_pc(
                            resp.path.path@,
                            PathComponent::Profile(keys@[i].profile),
                        )
                        &&& crate::selector::has_pc(
                            resp.path.path@,
                            PathComponent::Cache(keys@[i].scenario),
                        )
                        &&& crate::selector::has_pc(
                            resp.path.path@,
                            PathComponent::QueryLabel(keys@[i].label),
                        )
                        &&& resp.series@.len() == artifact_ids@.len()
                        &&& values@[i]@.len() == artifact_ids@.len()
                        &&& forall|j: int|
                            0 <= j < artifact_ids@.len() ==> (#[trigger] resp.series@[j]).0.spec_eq(
                                &artifact_ids@[j],
                            ) && resp.series@[j].1 == values@[i]@[j]
                    }
            },
            Err(ProviderError::LengthMismatch) => values@.len() != keys@.len() || exists|i: int|
                0 <= i < values@.len() && (#[trigger] values@[i])@.len() != artifact_ids@.len(),
        },
{
    if values.len() != keys.len() {
        return Err(ProviderError::LengthMismatch);
    }
    let ghost korig = keys@;
    let ghost vorig = values@;
    let mut keys_left = keys;
    let mut values_left = values;
    let mut resps: Vec<SeriesResponse<Vec<(crate::db::ArtifactId, Option<u64>)>>> = Vec::new();
    let n = keys_left.len();
    let mut i: usize = 0;
    while i < n
        invariant
            n == korig.len(),
            vorig.len() == n,
            i <= n,
            korig == keys@,
            vorig == values@,
            keys_left@ == korig.skip(i as int),
            values_left@ == vorig.skip(i as int),
            resps@.len() == i,
            forall|k: int|
                0 <= k < i ==> {
                    let resp = #[trigger] resps@[k];
                    &&& crate::selector::path_wf(resp.path.path@)
                    &&& resp.path.path@.len() == 4
                    &&& crate::selector::has_pc(
                        resp.path.path@,
                        PathComponent::Crate(korig[k].benchmark),
                    )
                    &&& crate::selector::has_pc(
                        resp.path.path@,
                        PathComponent::Profile(korig[k].profile),
                    )
                    &&& crate::selector::has_pc(
                        resp.path.path@,
                        PathComponent::Cache(korig[k].scenario),
                    )
                    &&& crate::selector::has_pc(
                        resp.path.path@,
                        PathComponent::QueryLabel(korig[k].label),
                    )
                    &&& resp.series@.len() == artifact_ids@.len()
                    &&& vorig[k]@.len() == artifact_ids@.len()
                    &&& forall|j: int|
                        0 <= j < artifact_ids@.len() ==> (#[trigger] resp.series@[j]).0.spec_eq(
                            &artifact_ids@[j],
                        ) && resp.series@[j].1 == vorig[k]@[j]
                },
        decreases n - i,
    {
        let key = keys_left.remove(0);
        let row = values_left.remove(0);
        proof {
            assert(key == korig[i as int]);
            assert(row == vorig[i as int]);
            assert(keys_left@ =~= korig.skip(i + 1));
            assert(values_left@ =~= vorig.skip(i + 1));
        }
        if row.len() != artifact_ids.len() {
            proof {
                assert(0 <= i < vorig.len() && vorig[i as int]@.len() != artifact_ids@.len());
            }
            return Err(ProviderError::LengthMismatch);
        }
        let ghost rorig = row@;
        let mut row = row;
        let mut series: Vec<(crate::db::ArtifactId, Option<u64>)> = Vec::new();
        let m = artifact_ids.len();
        let mut j: usize = 0;
        while j < m
            invariant
                m == artifact_ids@.len(),
                j <= m,
                rorig.len() == m,
                row@ == rorig.skip(j as int),
                series@.len() == j,
                forall|t: int|
                    0 <= t < j ==> (#[trigger] series@[t]).0.spec_eq(&artifact_ids@[t])
                        && series@[t].1 == rorig[t],
            decreases m - j,
        {
            let v = row.remove(0);
            proof {
                assert(v == rorig[j as int]);
                assert(row@ =~= rorig.skip(j + 1));
            }
            series.push((artifact_ids[j].clone(), v));
            j += 1;
        }
        let path = query_key_path(key);
        let ghost pre = resps@;
        resps.push(SeriesResponse { path, series });
        proof {
            assert forall|k: int| 0 <= k < pre.len() implies resps@[k] == pre[k] by {}
        }
        i += 1;
    }
    Ok(resps)
}

/// Every selected key is a key of the snapshot.
proof fn lemma_selected_stat_keys_members(
    keys: Seq<StatKey>,
    bsel: Selector<String>,
    psel: Selector<Profile>,
    ssel: Selector<Scenario>,
    msel: Selector<Metric>,
)
    ensures
        ({
            let sel = selected_stat_keys(keys, bsel, psel, ssel, msel);
            forall|i: int|
                0 <= i < sel.len() ==> exists|j: int| 0 <= j < keys.len() && keys[j] == #[trigger] sel[i]
        }),
    decreases keys.len(),
{
    if keys.len() > 0 {
        lemma_selected_stat_keys_members(keys.drop_last(), bsel, psel, ssel, msel);
        let rest = selected_stat_keys(keys.drop_last(), bsel, psel, ssel, msel);
        let sel = selected_stat_keys(keys, bsel, psel, ssel, msel);
        assert forall|i: int|
            0 <= i < sel.len() implies exists|j: int|
            0 <= j < keys.len() && keys[j] == #[trigger] sel[i] by {
            if i < rest.len() {
                let j = choose|j: int| 0 <= j < keys.drop_last().len() && keys.drop_last()[j] == rest[i];
                assert(keys[j] == sel[i]);
            } else {
                assert(sel[i] == keys.last());
                assert(keys[keys.len() - 1] == sel[i]);
            }
        }
    }
}

/// Every selected self-profile key is a key of the snapshot.
proof fn lemma_selected_query_keys_members(
    keys: Seq<QueryKey>,
    bsel: Selector<String>,
    psel: Selector<Profile>,
    ssel: Selector<Scenario>,
    lsel: Selector<QueryLabel>,
)
    ensures
        ({
            let sel = selected_query_keys(keys, bsel, psel, ssel, lsel);
            forall|i: int|
                0 <= i < sel.len() ==> exists|j: int| 0 <= j < keys.len() && keys[j] == #[trigger] sel[i]
        }),
    decreases keys.len(),
{
    if keys.len() > 0 {
        lemma_selected_query_keys_members(keys.drop_last(), bsel, psel, ssel, lsel);
        let rest = selected_query_keys(keys.drop_last(), bsel, psel, ssel, lsel);
        let sel = selected_query_keys(keys, bsel, psel, ssel, lsel);
        assert forall|i: int|
            0 <= i < sel.len() implies exists|j: int|
            0 <= j < keys.len() && keys[j] == #[trigger] sel[i] by {
            if i < rest.len() {
                let j = choose|j: int| 0 <= j < keys.drop_last().len() && keys.drop_last()[j] == rest[i];
                assert(keys[j] == sel[i]);
            } else {
                assert(sel[i] == keys.last());
                assert(keys[keys.len() - 1] == sel[i]);
            }
        }
    }
}

/// Selection preserves a sorted snapshot order for the self-profile keys.
pub proof fn lemma_selected_query_keys_sorted(
    keys: Seq<QueryKey>,
    bsel: Selector<String>,
    psel: Selector<Profile>,
    ssel: Selector<Scenario>,
    lsel: Selector<QueryLabel>,
)
    requires
        crate::db::qseries_sorted(keys),
    ensures
        crate::db::qseries_sorted(selected_query_keys(keys, bsel, psel, ssel, lsel)),
    decreases keys.len(),
{
    if keys.len() > 0 {
        assert forall|i: int, j: int|
            0 <= i < j < keys.drop_last().len() implies crate::db::query_key_le(
            #[trigger] keys.drop_last()[i],
            #[trigger] keys.drop_last()[j],
        ) by {
            assert(crate::db::query_key_le(keys[i], keys[j]));
        }
        lemma_selected_query_keys_sorted(keys.drop_last(), bsel, psel, ssel, lsel);
        lemma_selected_query_keys_members(keys.drop_last(), bsel, psel, ssel, lsel);
        let rest = selected_query_keys(keys.drop_last(), bsel, psel, ssel, lsel);
        let sel = selected_query_keys(keys, bsel, psel, ssel, lsel);
        if query_key_matches(keys.last(), bsel, psel, ssel, lsel) {
            assert forall|i: int, j: int|
                0 <= i < j < sel.len() implies crate::db::query_key_le(
                #[trigger] sel[i],
                #[trigger] sel[j],
            ) by {
                if j < rest.len() {
                    assert(crate::db::query_key_le(rest[i], rest[j]));
                } else {
                    assert(sel[j] == keys.last());
                    let w = choose|w: int|
                        0 <= w < keys.drop_last().len() && keys.drop_last()[w] == rest[i];
                    assert(crate::db::query_key_le(keys[w], keys[keys.len() - 1]));
                }
            }
        }
    }
}

/// Selection preserves a sorted snapshot order: the surviving keys of a
/// lexicographically sorted snapshot come out in lexicographic order, so the
/// provider's key list is deterministic.
pub proof fn lemma_selected_stat_keys_sorted(
    keys: Seq<StatKey>,
    bsel: Selector<String>,
    psel: Selector<Profile>,
    ssel: Selector<Scenario>,
    msel: Selector<Metric>,
)
    requires
        crate::db::pstat_sorted(keys),
    ensures
        crate::db::pstat_sorted(selected_stat_keys(keys, bsel, psel, ssel, msel)),
    decreases keys.len(),
{
    if keys.len() > 0 {
        assert forall|i: int, j: int|
            0 <= i < j < keys.drop_last().len() implies crate::db::stat_key_le(
            #[trigger] keys.drop_last()[i],
            #[trigger] keys.drop_last()[j],
        ) by {
            assert(crate::db::stat_key_le(keys[i], keys[j]));
        }
        lemma_selected_stat_keys_sorted(keys.drop_last(), bsel, psel, ssel, msel);
        lemma_selected_stat_keys_members(keys.drop_last(), bsel, psel, ssel, msel);
        let rest = selected_stat_keys(keys.drop_last(), bsel, psel, ssel, msel);
        let sel = selected_stat_keys(keys, bsel, psel, ssel, msel);
        if stat_matches(keys.last(), bsel, psel, ssel, msel) {
            assert forall|i: int, j: int|
                0 <= i < j < sel.len() implies crate::db::stat_key_le(
                #[trigger] sel[i],
                #[trigger] sel[j],
            ) by {
                if j < rest.len() {
                    assert(crate::db::stat_key_le(rest[i], rest[j]));
                } else {
                    assert(sel[j] == keys.last());
                    let w = choose|w: int|
                        0 <= w < keys.drop_last().len() && keys.drop_last()[w] == rest[i];
                    assert(crate::db::stat_key_le(keys[w], keys[keys.len() - 1]));
                }
            }
        }
    }
}

} // verus!

use site::cli::BenchmarkArgs;
use site::comparison::{
    compare_finish, compare_request, summarize_benchmarks, BenchmarkComparison, Comparison,
    ComparisonSummary, DateData, Direction,
};
use site::db::{
    artifact_id_for_bound, range_subset, ArtifactId, Benchmark, Bound, Commit, Date, Index, Metric,
    Profile, QueryLabel, QueryValue, Scenario,
};
use site::providers::{
    build_stat_responses, plan_scalar_query, ProcessStatisticSeries, ScalarPlan, SelfProfile,
    SelfProfileQueryTime,
};
use site::report::{
    compare_link, current_date, date_string, generate_report, percent_string, populate_report,
    title_from_payload, triage_next, u64_to_string, Report,
};
use site::selector::{
    handle_results, DispatchError, Path, PathComponent, Query, QueryError, Selector, SeriesResponse,
    Tag,
};

fn commit(sha: &str, parent: &str, pr: Option<u32>, day: u32) -> Commit {
    Commit {
        sha: sha.to_owned(),
        parent_sha: parent.to_owned(),
        pr,
        date: Date { year: 2026, month: 1, day },
    }
}

fn small_index() -> Index {
    Index {
        commits: vec![
            commit("c1", "c0", Some(11), 1),
            commit("c2", "c1", Some(22), 2),
            commit("c3", "c2", None, 3),
        ],
        artifacts: vec!["v1.0".to_owned()],
        pstat_series: vec![site::db::StatKey {
            benchmark: Benchmark("crateA".to_owned()),
            profile: Profile::Debug,
            scenario: Scenario::Empty,
            metric: Metric("instructions:u".to_owned()),
        }],
        query_series: vec![],
    }
}

// A path keeps exactly one component per tag: setting the same tag twice
// keeps only the later value.
#[test]
fn path_set_twice_keeps_later_value() {
    let p = site::selector::Path::new()
        .set(PathComponent::Crate(Benchmark("a".to_owned())))
        .set(PathComponent::Crate(Benchmark("b".to_owned())));
    assert_eq!(p.path.len(), 1);
    match &p.path[0] {
        PathComponent::Crate(b) => assert_eq!(b.0, "b"),
        _ => panic!("wrong component"),
    }
}

#[test]
fn query_set_replaces_same_tag() {
    let q = Query::new()
        .set(Tag::Benchmark, Selector::One("x".to_owned()))
        .set(Tag::Benchmark, Selector::One("y".to_owned()));
    assert_eq!(q.path.len(), 1);
    match &q.path[0].raw {
        Selector::One(s) => assert_eq!(s, "y"),
        _ => panic!("wrong selector"),
    }
}

// assert_empty fails exactly when a component remains.
#[test]
fn assert_empty_iff_unconsumed() {
    let q = Query::new();
    assert!(q.assert_empty().is_ok());
    let q = Query::new().set(Tag::Profile, Selector::All);
    match q.assert_empty() {
        Err(QueryError::Unconsumed { tags }) => assert_eq!(tags, vec![Tag::Profile]),
        _ => panic!("expected unconsumed error"),
    }
}

#[test]
fn extract_as_errors() {
    let mut q = Query::new().set(Tag::Profile, Selector::One("NoSuchProfile".to_owned()));
    match q.extract_as::<Profile>(Tag::Profile) {
        Err(QueryError::Parse { tag, value }) => {
            assert_eq!(tag, Tag::Profile);
            assert_eq!(value, "NoSuchProfile");
        }
        _ => panic!("expected parse error"),
    }
    let mut q = Query::new();
    match q.extract_as::<Profile>(Tag::Profile) {
        Err(QueryError::MissingTag { tag }) => assert_eq!(tag, Tag::Profile),
        _ => panic!("expected missing tag"),
    }
}

#[test]
fn selector_matches() {
    let all: Selector<String> = Selector::All;
    assert!(all.matches(&"anything".to_owned()));
    let one = Selector::One("a".to_owned());
    assert!(one.matches(&"a".to_owned()));
    assert!(!one.matches(&"b".to_owned()));
    let sub = Selector::Subset(vec!["a".to_owned(), "b".to_owned()]);
    assert!(sub.matches(&"b".to_owned()));
    assert!(!sub.matches(&"c".to_owned()));
    assert_eq!(one.assert_one(), &"a".to_owned());
}

#[test]
fn selector_map_and_try_map() {
    let sub = Selector::Subset(vec![1u32, 2, 3]);
    match sub.map(|x: u32| x + 1) {
        Selector::Subset(v) => assert_eq!(v, vec![2u32, 3, 4]),
        _ => panic!("wrong shape"),
    }
    let sub = Selector::Subset(vec![1u32, 2, 3]);
    let r: Result<Selector<u32>, &'static str> =
        sub.try_map(|x: u32| if x == 2 { Err("bad") } else { Ok(x) });
    assert_eq!(r.unwrap_err(), "bad");
}

// The dispatch combinator accepts exactly one success; several successes are
// the internal-consistency fault.
#[test]
fn handle_results_outcomes() {
    let r: Result<u32, DispatchError> = handle_results(vec![Err("a".to_owned()), Ok(7)]);
    assert!(matches!(r, Ok(7)));
    let r: Result<u32, DispatchError> =
        handle_results(vec![Err("a".to_owned()), Err("b".to_owned())]);
    match r {
        Err(DispatchError::NoneMatched { message }) => {
            assert_eq!(message, "Failed to process query; fix one of these errors: a; or b");
        }
        _ => panic!("expected aggregation"),
    }
    let r: Result<u32, DispatchError> = handle_results(vec![Ok(1), Ok(2)]);
    assert!(matches!(r, Err(DispatchError::Ambiguous)));
}

fn cmp(name: &str, scen: &str, a: u64, b: u64) -> BenchmarkComparison {
    BenchmarkComparison {
        bench_name: name.to_owned(),
        cache_state: scen.to_owned(),
        results: (a, b),
    }
}

// The logarithmic change of (a, b) is the negation of that of (b, a):
// direction flips, magnitude and default significance agree.
#[test]
fn log_change_antisymmetry_on_values() {
    let c = cmp("x", "full", 100, 110);
    let d = cmp("x", "full", 110, 100);
    assert_eq!(c.magnitude(), d.magnitude());
    assert_eq!(c.is_significant(), d.is_significant());
    assert_eq!(c.direction(), Direction::Regression);
    assert_eq!(d.direction(), Direction::Improvement);
}

// direction is Regression exactly when the log change is strictly positive;
// equal values classify as Improvement.
#[test]
fn direction_strict_rule() {
    assert_eq!(cmp("x", "full", 100, 110).direction(), Direction::Regression);
    assert_eq!(cmp("x", "full", 110, 100).direction(), Direction::Improvement);
    assert_eq!(cmp("x", "full", 5, 5).direction(), Direction::Improvement);
}

// The relative-change override fires only for the exact flaky pairing.
#[test]
fn significance_override_path() {
    // (1, 4): relative change 3 > 2, significant under the override.
    assert!(cmp("coercions-debug-foo", "incr-patched: println", 1, 4).is_significant());
    // Same values under the default rule: |ln 4| > 0.01, also significant.
    assert!(cmp("coercions-debug-foo", "full", 1, 4).is_significant());
    // (1, 2) separates the two rules: |ln 2| > 0.01 but relative change 1 <= 2.
    assert!(!cmp("coercions-debug-foo", "incr-patched: println", 1, 2).is_significant());
    assert!(cmp("coercions-debug-foo", "full", 1, 2).is_significant());
    assert!(cmp("other-bench", "incr-patched: println", 1, 2).is_significant());
}

// End-to-end classification of a=100.0, b=110.0 at fixed point scale 1:
// significant, an increase, a regression, "Large", rendered as 10.0%.
#[test]
fn end_to_end_classification() {
    let c = cmp("crateA-Debug", "full", 100, 110);
    assert!(c.is_significant());
    assert!(c.is_increase());
    assert_eq!(c.direction(), Direction::Regression);
    assert_eq!(c.magnitude(), "Large");
    assert_eq!(c.percent_tenths(), 100);
    assert_eq!(
        c.summary_line("LINK"),
        "Large regression in [instruction counts](LINK) (up to 10.0% on `full` builds of `crateA-Debug`)\n"
    );
}

#[test]
fn percent_rendering() {
    assert_eq!(percent_string(100), "10.0");
    assert_eq!(percent_string(-123), "-12.3");
    assert_eq!(percent_string(5), "0.5");
    assert_eq!(u64_to_string(0), "0");
    assert_eq!(u64_to_string(90210), "90210");
    assert_eq!(
        date_string(&Date { year: 2026, month: 1, day: 3 }),
        "2026-01-03"
    );
}

#[test]
fn compare_link_text() {
    assert_eq!(
        compare_link("aaa", "bbb"),
        "https://perf.rust-lang.org/compare.html?start=aaa&end=bbb&stat=instructions:u"
    );
}

// Benchmarks whose key ends in the documentation suffix never appear in the
// joined comparisons, even when present on both sides.
#[test]
fn doc_suffix_excluded() {
    let a = DateData {
        date: None,
        pr: None,
        commit: "c1".to_owned(),
        data: vec![
            ("x-doc".to_owned(), vec![("full".to_owned(), 10u64)]),
            ("y-Debug".to_owned(), vec![("full".to_owned(), 100u64)]),
        ],
        bootstrap: vec![],
    };
    let b = DateData {
        date: None,
        pr: None,
        commit: "c2".to_owned(),
        data: vec![
            ("x-doc".to_owned(), vec![("full".to_owned(), 20u64)]),
            ("y-Debug".to_owned(), vec![("full".to_owned(), 110u64)]),
        ],
        bootstrap: vec![],
    };
    let c = Comparison {
        a_id: ArtifactId::Tag("t1".to_owned()),
        a,
        b_id: ArtifactId::Tag("t2".to_owned()),
        b,
    };
    let benches = c.get_benchmarks();
    assert_eq!(benches.len(), 1);
    assert_eq!(benches[0].bench_name, "y-Debug");
    assert_eq!(benches[0].results, (100, 110));
}

#[test]
fn summarize_picks_extremes() {
    let benches = vec![
        cmp("a-Debug", "full", 100, 90),   // improvement
        cmp("b-Debug", "full", 100, 130),  // regression
        cmp("c-Debug", "full", 100, 101),  // not significant
    ];
    let s = summarize_benchmarks(benches).unwrap();
    assert_eq!(s.lo.as_ref().unwrap().bench_name, "a-Debug");
    assert_eq!(s.hi.as_ref().unwrap().bench_name, "b-Debug");
    assert_eq!(s.direction(), Some(Direction::Mixed));
    assert!(summarize_benchmarks(vec![]).is_none());
    // one-sided summaries take that side's direction
    let s = summarize_benchmarks(vec![cmp("a-Debug", "full", 100, 130)]).unwrap();
    assert_eq!(s.direction(), Some(Direction::Regression));
}

#[test]
fn scenario_round_trip() {
    for (text, want) in [
        ("full", Scenario::Empty),
        ("incr-full", Scenario::IncrementalEmpty),
        ("incr-unchanged", Scenario::IncrementalFresh),
        (
            "incr-patched: println",
            Scenario::IncrementalPatch("println".to_owned()),
        ),
    ] {
        let parsed = Scenario::parse_from(text).unwrap();
        assert!(parsed.same(&want));
        assert_eq!(parsed.render(), text);
    }
    assert!(Scenario::parse_from("nope").is_none());
    assert!(Profile::parse_from("Debug").unwrap().same(&Profile::Debug));
    assert!(Profile::parse_from("debugx").is_none());
}

#[test]
fn bound_resolution() {
    let index = small_index();
    match artifact_id_for_bound(&index, &Bound::Commit("c2".to_owned()), true) {
        Some(ArtifactId::Commit(c)) => assert_eq!(c.sha, "c2"),
        _ => panic!("expected commit"),
    }
    match artifact_id_for_bound(&index, &Bound::Commit("v1.0".to_owned()), true) {
        Some(ArtifactId::Tag(t)) => assert_eq!(t, "v1.0"),
        _ => panic!("expected tag artifact"),
    }
    match artifact_id_for_bound(&index, &Bound::Dynamic, false) {
        Some(ArtifactId::Commit(c)) => assert_eq!(c.sha, "c3"),
        _ => panic!("expected last commit"),
    }
    let subset = range_subset(
        &index.commits,
        &Bound::Commit("c1".to_owned()),
        &Bound::Commit("c2".to_owned()),
    );
    assert_eq!(subset.len(), 2);
    assert_eq!(subset[0].sha, "c1");
    assert_eq!(subset[1].sha, "c2");
}

#[test]
fn provider_planning() {
    let index = small_index();
    let q = Query::new()
        .set(Tag::Benchmark, Selector::All)
        .set(Tag::Profile, Selector::All)
        .set(Tag::Scenario, Selector::All)
        .set(Tag::Metric, Selector::One("instructions:u".to_owned()));
    match plan_scalar_query(&index, &q) {
        Ok(ScalarPlan::ProcessStatistic(keys)) => {
            assert_eq!(keys.len(), 1);
            assert_eq!(keys[0].benchmark.0, "crateA");
        }
        _ => panic!("expected the raw-statistic provider"),
    }
    // a query with only a benchmark tag matches no provider
    let q = Query::new().set(Tag::Benchmark, Selector::All);
    match plan_scalar_query(&index, &q) {
        Err(DispatchError::NoneMatched { message }) => {
            assert!(message.starts_with("Failed to process query; fix one of these errors: "));
        }
        _ => panic!("expected no provider"),
    }
    // filtering: a metric selector that matches nothing selects no keys
    let r = ProcessStatisticSeries::expand_query(
        &index,
        Query::new()
            .set(Tag::Benchmark, Selector::All)
            .set(Tag::Profile, Selector::All)
            .set(Tag::Scenario, Selector::All)
            .set(Tag::Metric, Selector::One("walltime".to_owned())),
    );
    assert_eq!(r.unwrap().len(), 0);
}

#[test]
fn cpu_clock_normalization() {
    let keys = vec![site::db::StatKey {
        benchmark: Benchmark("crateA".to_owned()),
        profile: Profile::Debug,
        scenario: Scenario::Empty,
        metric: Metric("cpu-clock".to_owned()),
    }];
    let aids = vec![ArtifactId::Tag("t".to_owned())];
    let resps = build_stat_responses(keys, &aids, vec![vec![Some(5000)]]).unwrap();
    assert_eq!(resps[0].series[0].1, Some(5));
}

// The triage walk over a three-commit chain starting at the first commit,
// with no end bound, visits (c1, c2) then (c2, c3) and stops; the report
// counts exactly the summaries that were appended.
#[test]
fn triage_walk_three_commits() {
    let index = small_index();
    let master = index.commits.clone();
    let stat = Metric("instructions:u".to_owned());
    let start = Bound::Commit("c1".to_owned());

    // compare start against itself to find the first step
    let (a, b, keys) = compare_request(&index, &start, &start, &stat).unwrap();
    let comparison =
        compare_finish(a, b, keys, vec![vec![Some(100), Some(100)]], vec![], vec![], None, None, &master)
            .unwrap();
    let next = comparison.next(&master).unwrap();
    assert_eq!(next, "c2");

    let mut report = Report::new();
    let mut visited: Vec<(String, String)> = Vec::new();
    let mut before = start;
    let mut after = Bound::Commit(next);
    let values = [
        vec![vec![Some(100u64), Some(110u64)]], // c1 -> c2: regression
        vec![vec![Some(110u64), Some(110u64)]], // c2 -> c3: no change
    ];
    let mut step = 0;
    loop {
        let (a, b, keys) = compare_request(&index, &before, &after, &stat).unwrap();
        let comparison =
            compare_finish(a, b, keys, values[step].clone(), vec![], vec![], None, None, &master)
                .unwrap();
        visited.push((comparison.a.commit.clone(), comparison.b.commit.clone()));
        populate_report(&comparison, &None, &mut report);
        match triage_next(&after, &None, &comparison, &master) {
            Some((new_before, new_after)) => {
                before = new_before;
                after = new_after;
            }
            None => break,
        }
        step += 1;
    }
    assert_eq!(
        visited,
        vec![
            ("c1".to_owned(), "c2".to_owned()),
            ("c2".to_owned(), "c3".to_owned())
        ]
    );
    // only the (c1, c2) step contributed a summary
    assert_eq!(report.regressions.len(), 1);
    assert_eq!(report.improvements.len(), 0);
    assert_eq!(report.mixed.len(), 0);
    assert!(report.regressions[0].contains("crateA-Debug"));
    // the heading uses the change-request number of c2 from the chain
    assert!(report.regressions[0].starts_with("<UNKNOWN> [#22]"));

    let today = Date { year: 2026, month: 10, day: 12 };
    let text = generate_report(
        &Bound::Commit("c1".to_owned()),
        &after,
        &report,
        &today,
    );
    assert!(text.starts_with("# 2026-10-12 Triage Log\n\n"));
    assert!(text.contains("1 Regressions, 0 Improvements, 0 Mixed"));
    assert!(text.contains("#### Regressions"));
    assert!(text.contains("Revision range: [c1..c3]"));
}

// An end bound given as a date compares structurally against the walk's
// commit-typed position, so it never stops the walk early.
#[test]
fn triage_date_end_never_matches() {
    let index = small_index();
    let master = index.commits.clone();
    let stat = Metric("instructions:u".to_owned());
    let (a, b, keys) = compare_request(
        &index,
        &Bound::Commit("c1".to_owned()),
        &Bound::Commit("c2".to_owned()),
        &stat,
    )
    .unwrap();
    let comparison =
        compare_finish(a, b, keys, vec![vec![Some(100), Some(110)]], vec![], vec![], None, None, &master)
            .unwrap();
    let date_end = Some(Bound::Date(Date { year: 2026, month: 1, day: 2 }));
    // c2 is the date's commit, but the structural comparison does not see it
    let r = triage_next(&Bound::Commit("c2".to_owned()), &date_end, &comparison, &master);
    assert!(r.is_some());
    let commit_end = Some(Bound::Commit("c2".to_owned()));
    let r = triage_next(&Bound::Commit("c2".to_owned()), &commit_end, &comparison, &master);
    assert!(r.is_none());
}

#[test]
fn consume_one_details() {
    let master = vec![commit("c9", "c8", Some(77), 9)];
    let aid = ArtifactId::Commit(commit("c9", "c8", None, 9));
    let mut responses = Vec::new();
    let dd = DateData::consume_one(
        &aid,
        &mut responses,
        &master,
        vec![
            ("fast".to_owned(), Some(999_999_999)),
            ("slow".to_owned(), Some(2_000_000_000)),
            ("none".to_owned(), None),
        ],
        Some(5),
    );
    // the chain's change-request number wins over the storage fallback
    assert_eq!(dd.pr, Some(77));
    assert_eq!(dd.commit, "c9");
    assert_eq!(dd.date, Some(Date { year: 2026, month: 1, day: 9 }));
    // bootstrap timings under one second are discarded
    assert_eq!(dd.bootstrap, vec![("slow".to_owned(), 2_000_000_000)]);
    // a commit outside the chain falls back to the storage answer
    let aid2 = ArtifactId::Commit(commit("cX", "c8", None, 9));
    let mut responses = Vec::new();
    let dd = DateData::consume_one(&aid2, &mut responses, &master, vec![], Some(5));
    assert_eq!(dd.pr, Some(5));
}

#[test]
fn comparison_chain_functions() {
    let master = vec![
        commit("c1", "c0", None, 1),
        commit("c2", "c1", None, 2),
    ];
    let c = Comparison {
        a_id: ArtifactId::Commit(commit("c1", "c0", None, 1)),
        a: DateData {
            date: None,
            pr: None,
            commit: "c1".to_owned(),
            data: vec![],
            bootstrap: vec![],
        },
        b_id: ArtifactId::Commit(commit("c2", "c1", None, 2)),
        b: DateData {
            date: None,
            pr: None,
            commit: "c2".to_owned(),
            data: vec![],
            bootstrap: vec![],
        },
    };
    assert_eq!(c.prev(&master), Some("c0".to_owned()));
    assert_eq!(c.next(&master), None);
    assert!(c.is_contiguous(&master, &None));
    // when b is not in the chain, the storage's parent answer decides
    let master2 = vec![commit("c1", "c0", None, 1)];
    assert!(!c.is_contiguous(&master2, &None));
    assert!(c.is_contiguous(&master2, &Some("c1".to_owned())));
}

#[test]
fn self_profile_provider() {
    let mk = |label: &str| site::db::QueryKey {
        benchmark: Benchmark("crateA".to_owned()),
        profile: Profile::Debug,
        scenario: Scenario::Empty,
        label: QueryLabel(label.to_owned()),
    };
    let index = Index {
        commits: vec![],
        artifacts: vec![],
        pstat_series: vec![],
        query_series: vec![mk("q1"), mk("q2")],
    };
    // the aggregate provider collapses the per-label rows
    let q = Query::new()
        .set(Tag::Benchmark, Selector::All)
        .set(Tag::Profile, Selector::All)
        .set(Tag::Scenario, Selector::All);
    let keys = SelfProfile::expand_query(&index, q).unwrap();
    assert_eq!(keys.len(), 1);
    assert_eq!(keys[0].benchmark.0, "crateA");
    // the sub-query-time provider keys on the label as well
    let q = Query::new()
        .set(Tag::Benchmark, Selector::All)
        .set(Tag::Profile, Selector::All)
        .set(Tag::Scenario, Selector::All)
        .set(Tag::QueryLabel, Selector::One("q2".to_owned()));
    let keys = SelfProfileQueryTime::expand_query(&index, q).unwrap();
    assert_eq!(keys.len(), 1);
    assert_eq!(keys[0].label.0, "q2");
    // assembling artifact rows: absent or empty rows yield no data point
    let aids = vec![ArtifactId::Tag("t1".to_owned()), ArtifactId::Tag("t2".to_owned())];
    let rows = vec![
        None,
        Some(vec![site::providers::QueryData {
            label: QueryLabel("q1".to_owned()),
            self_time: 10,
            number_of_cache_hits: 3,
            invocation_count: 5,
            blocked_time: 0,
            incremental_load_time: 0,
        }]),
    ];
    let series = SelfProfile::assemble(&aids, rows).unwrap();
    assert!(series[0].1.is_none());
    let data = series[1].1.as_ref().unwrap();
    assert_eq!(data.query_data[0].number_of_cache_misses(), 2);
}

#[test]
fn title_extraction() {
    let payload: serde_json::Value = serde_json::from_str(r#"{"title": "Fix the bug"}"#).unwrap();
    assert_eq!(title_from_payload(&payload), Some("Fix the bug".to_owned()));
    let payload: serde_json::Value = serde_json::from_str(r#"{"other": 1}"#).unwrap();
    assert_eq!(title_from_payload(&payload), None);
    let payload: serde_json::Value = serde_json::from_str(r#"{"title": 3}"#).unwrap();
    assert_eq!(title_from_payload(&payload), None);
}

#[test]
fn current_date_in_range() {
    let d = current_date();
    assert!((1..=12).contains(&d.month));
    assert!((1..=31).contains(&d.day));
    assert!(d.year <= 9999);
}

#[test]
fn summary_write_headings() {
    let c = Comparison {
        a_id: ArtifactId::Tag("t1".to_owned()),
        a: DateData {
            date: None,
            pr: None,
            commit: "aaa".to_owned(),
            data: vec![],
            bootstrap: vec![],
        },
        b_id: ArtifactId::Tag("t2".to_owned()),
        b: DateData {
            date: None,
            pr: Some(42),
            commit: "bbb".to_owned(),
            data: vec![],
            bootstrap: vec![],
        },
    };
    let s = ComparisonSummary { hi: Some(cmp("x-Debug", "full", 100, 120)), lo: None };
    let text = s.write(&c, &Some("A title".to_owned()));
    assert!(text.starts_with("A title [#42](https://github.com/rust-lang/rust/issues/42)\n"));
    assert!(text.contains("- Very large regression in [instruction counts]"));
    let text = s.write(&c, &None);
    assert!(text.starts_with("<UNKNOWN> [#42]"));
}

#[test]
fn default_iterations() {
    assert_eq!(BenchmarkArgs::default_iterations(), 5);
    let args = BenchmarkArgs { iterations: 7 };
    assert_eq!(args.iterations, 7);
}

#[test]
fn query_error_messages() {
    let e = QueryError::MissingTag { tag: Tag::Metric };
    assert_eq!(e.message(), "query must have Metric selector");
    let e = QueryError::Parse { tag: Tag::Profile, value: "bogus".to_owned() };
    assert_eq!(e.message(), "failed to parse query tag Profile: bogus");
    let e = QueryError::Unconsumed { tags: vec![Tag::Benchmark, Tag::Scenario] };
    assert_eq!(e.message(), "extra components: Benchmark, Scenario");
}

#[test]
fn query_data_durations() {
    let qd = site::providers::QueryData {
        label: QueryLabel("q".to_owned()),
        self_time: 1_500_000_000,
        number_of_cache_hits: 1,
        invocation_count: 4,
        blocked_time: 250,
        incremental_load_time: 0,
    };
    assert_eq!(qd.self_time(), std::time::Duration::from_nanos(1_500_000_000));
    assert_eq!(qd.blocked_time(), std::time::Duration::from_nanos(250));
    assert_eq!(qd.incremental_load_time(), std::time::Duration::from_nanos(0));
    assert_eq!(qd.number_of_cache_misses(), 3);
}

#[test]
fn query_time_responses() {
    let keys = vec![site::db::QueryKey {
        benchmark: Benchmark("crateA".to_owned()),
        profile: Profile::Check,
        scenario: Scenario::IncrementalFresh,
        label: QueryLabel("q1".to_owned()),
    }];
    let aids = vec![ArtifactId::Tag("t".to_owned()), ArtifactId::Tag("u".to_owned())];
    let resps =
        site::providers::build_query_time_responses(keys, &aids, vec![vec![Some(9), None]])
            .unwrap();
    assert_eq!(resps[0].series.len(), 2);
    assert_eq!(resps[0].series[0].1, Some(9));
    assert_eq!(resps[0].series[1].1, None);
    // a row of the wrong width is a provider contract violation
    let keys = vec![site::db::QueryKey {
        benchmark: Benchmark("crateA".to_owned()),
        profile: Profile::Check,
        scenario: Scenario::IncrementalFresh,
        label: QueryLabel("q1".to_owned()),
    }];
    assert!(site::providers::build_query_time_responses(keys, &aids, vec![vec![Some(9)]]).is_err());
}

// The join emits one comparison per first-side row, in first-side order,
// and pairs it with the second side's FIRST value for that scenario.
#[test]
fn join_order_and_first_b_row() {
    let a = DateData {
        date: None,
        pr: None,
        commit: "c1".to_owned(),
        data: vec![
            (
                "x-Debug".to_owned(),
                vec![("full".to_owned(), 10u64), ("incr-full".to_owned(), 20u64)],
            ),
            ("y-Debug".to_owned(), vec![("full".to_owned(), 30u64)]),
        ],
        bootstrap: vec![],
    };
    let b = DateData {
        date: None,
        pr: None,
        commit: "c2".to_owned(),
        data: vec![
            (
                "x-Debug".to_owned(),
                // a duplicated scenario: the first row must win
                vec![
                    ("full".to_owned(), 11u64),
                    ("full".to_owned(), 99u64),
                    ("incr-full".to_owned(), 22u64),
                ],
            ),
            ("y-Debug".to_owned(), vec![("full".to_owned(), 33u64)]),
        ],
        bootstrap: vec![],
    };
    let c = Comparison {
        a_id: ArtifactId::Tag("t1".to_owned()),
        a,
        b_id: ArtifactId::Tag("t2".to_owned()),
        b,
    };
    let benches = c.get_benchmarks();
    assert_eq!(benches.len(), 3);
    assert_eq!(benches[0].bench_name, "x-Debug");
    assert_eq!(benches[0].cache_state, "full");
    assert_eq!(benches[0].results, (10, 11));
    assert_eq!(benches[1].cache_state, "incr-full");
    assert_eq!(benches[1].results, (20, 22));
    assert_eq!(benches[2].bench_name, "y-Debug");
    assert_eq!(benches[2].results, (30, 33));
}

// consume_one groups the responses' values by key in response order,
// appending rows to an existing group and opening no empty groups.
#[test]
fn consume_one_grouping_order() {
    let mk_resp = |bench: &str, scen: Scenario, point: Option<u64>| SeriesResponse {
        path: Path::new()
            .set(PathComponent::Crate(Benchmark(bench.to_owned())))
            .set(PathComponent::Profile(Profile::Debug))
            .set(PathComponent::Cache(scen)),
        series: vec![(ArtifactId::Tag("t".to_owned()), point)],
    };
    let mut responses = vec![
        mk_resp("x", Scenario::Empty, Some(1)),
        mk_resp("y", Scenario::Empty, Some(2)),
        mk_resp("x", Scenario::IncrementalEmpty, Some(3)),
        mk_resp("z", Scenario::Empty, None),
    ];
    let dd = DateData::consume_one(
        &ArtifactId::Tag("t".to_owned()),
        &mut responses,
        &vec![],
        vec![],
        None,
    );
    // "x-Debug" opened first and gathered both its rows in response order;
    // the response with no value opened no group
    assert_eq!(dd.data.len(), 2);
    assert_eq!(dd.data[0].0, "x-Debug");
    assert_eq!(
        dd.data[0].1,
        vec![("full".to_owned(), 1u64), ("incr-full".to_owned(), 3u64)]
    );
    assert_eq!(dd.data[1].0, "y-Debug");
    assert_eq!(dd.data[1].1, vec![("full".to_owned(), 2u64)]);
    // every consumed series lost exactly its head element
    assert!(responses.iter().all(|r| r.series.is_empty()));
}

// compare_finish fails exactly when the fetched values do not carry one row
// per key with one value per artifact.
#[test]
fn compare_finish_length_mismatch() {
    let key = || site::db::StatKey {
        benchmark: Benchmark("crateA".to_owned()),
        profile: Profile::Debug,
        scenario: Scenario::Empty,
        metric: Metric("instructions:u".to_owned()),
    };
    let aid = || ArtifactId::Tag("t".to_owned());
    // a row of width one instead of two
    let r = compare_finish(
        aid(),
        aid(),
        vec![key()],
        vec![vec![Some(1)]],
        vec![],
        vec![],
        None,
        None,
        &vec![],
    );
    assert!(r.is_err());
    // no row at all for the one key
    let r = compare_finish(aid(), aid(), vec![key()], vec![], vec![], vec![], None, None, &vec![]);
    assert!(r.is_err());
    // the well-formed shape succeeds
    let r = compare_finish(
        aid(),
        aid(),
        vec![key()],
        vec![vec![Some(1), Some(2)]],
        vec![],
        vec![],
        None,
        None,
        &vec![],
    );
    assert!(r.is_ok());
}

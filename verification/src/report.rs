//! Report formatting: decimal rendering, the per-change summary lines, the
//! per-step summary block, and the fixed-template triage report, plus the
//! triage walk's advance decision.

use vstd::prelude::*;
use crate::comparison::{spec_percent_tenths, abs_log_cmp, BenchmarkComparison, Comparison,
    ComparisonSummary, Direction, find_by_parent_from};
use crate::db::{Bound, Commit, Date};
use crate::Ord3;

verus! {

/// The decimal digit character of a value below ten.
pub open spec fn digit_char(d: nat) -> char {
    if d == 0 {
        '0'
    } else if d == 1 {
        '1'
    } else if d == 2 {
        '2'
    } else if d == 3 {
        '3'
    } else if d == 4 {
        '4'
    } else if d == 5 {
        '5'
    } else if d == 6 {
        '6'
    } else if d == 7 {
        '7'
    } else if d == 8 {
        '8'
    } else {
        '9'
    }
}

/// The decimal text of a nonnegative value, no leading zeros.
pub open spec fn dec_rep(n: nat) -> Seq<char>
    decreases n,
{
    if n < 10 {
        seq![digit_char(n)]
    } else {
        dec_rep(n / 10).push(digit_char(n % 10))
    }
}

/// The decimal digit string of a value below ten.
fn digit_str(d: u64) -> (r: &'static str)
    requires
        d < 10,
    ensures
        r@ == seq![digit_char(d as nat)],
{
    proof {
        reveal_strlit("0");
        reveal_strlit("1");
        reveal_strlit("2");
        reveal_strlit("3");
        reveal_strlit("4");
        reveal_strlit("5");
        reveal_strlit("6");
        reveal_strlit("7");
        reveal_strlit("8");
        reveal_strlit("9");
    }
    let r = if d == 0 {
        "0"
    } else if d == 1 {
        "1"
    } else if d == 2 {
        "2"
    } else if d == 3 {
        "3"
    } else if d == 4 {
        "4"
    } else if d == 5 {
        "5"
    } else if d == 6 {
        "6"
    } else if d == 7 {
        "7"
    } else if d == 8 {
        "8"
    } else {
        "9"
    };
    proof {
        assert(r@ =~= seq![digit_char(d as nat)]);
    }
    r
}

/// Renders a nonnegative value in decimal.
pub fn u128_to_string(n: u128) -> (r: String)
    ensures
        r@ == dec_rep(n as nat),
    decreases n,
{
    if n < 10 {
        digit_str(n as u64).to_owned()
    } else {
        let rest = u128_to_string(n / 10);
        let r = rest.concat(digit_str((n % 10) as u64));
        proof {
            assert(r@ =~= dec_rep((n / 10) as nat).push(digit_char((n % 10) as nat)));
        }
        r
    }
}

/// Renders a nonnegative value in decimal.
pub fn u64_to_string(n: u64) -> (r: String)
    ensures
        r@ == dec_rep(n as nat),
{
    u128_to_string(n as u128)
}

/// The percentage text with one decimal digit, from a figure in tenths of a
/// percent: a minus sign for negative figures, then whole percents, a dot,
/// and the tenths digit.
pub open spec fn percent_text(t: int) -> Seq<char> {
    if t < 0 {
        seq!['-'] + dec_rep(((-t) / 10) as nat) + seq!['.', digit_char(((-t) % 10) as nat)]
    } else {
        dec_rep((t / 10) as nat) + seq!['.', digit_char((t % 10) as nat)]
    }
}

/// Renders a figure in tenths of a percent with one decimal digit.
pub fn percent_string(t: i128) -> (r: String)
    requires
        t != i128::MIN,
    ensures
        r@ == percent_text(t as int),
{
    proof {
        reveal_strlit(".");
        reveal_strlit("-");
    }
    if t < 0 {
        let m = (-t) as u128;
        let r = "-".to_owned().concat(u128_to_string(m / 10).as_str()).concat(".").concat(
            digit_str((m % 10) as u64),
        );
        proof {
            assert(r@ =~= percent_text(t as int));
        }
        r
    } else {
        let m = t as u128;
        let r = u128_to_string(m / 10).concat(".").concat(digit_str((m % 10) as u64));
        proof {
            assert(r@ =~= percent_text(t as int));
        }
        r
    }
}

/// The decimal text padded with zeros to at least four digits.
pub open spec fn pad4(n: nat) -> Seq<char> {
    if n < 10 {
        seq!['0', '0', '0'] + dec_rep(n)
    } else if n < 100 {
        seq!['0', '0'] + dec_rep(n)
    } else if n < 1000 {
        seq!['0'] + dec_rep(n)
    } else {
        dec_rep(n)
    }
}

/// The decimal text padded with zeros to at least two digits.
pub open spec fn pad2(n: nat) -> Seq<char> {
    if n < 10 {
        seq!['0'] + dec_rep(n)
    } else {
        dec_rep(n)
    }
}

/// The "year-month-day" text of a date, fields zero-padded.
pub open spec fn date_text(d: Date) -> Seq<char> {
    pad4(d.year as nat) + seq!['-'] + pad2(d.month as nat) + seq!['-'] + pad2(d.day as nat)
}

/// Renders a date as "year-month-day" with zero-padded fields.
pub fn date_string(d: &Date) -> (r: String)
    ensures
        r@ == date_text(*d),
{
    proof {
        reveal_strlit("-");
        reveal_strlit("0");
        reveal_strlit("00");
        reveal_strlit("000");
        reveal_strlit("");
    }
    let year = if d.year < 10 {
        "000".to_owned().concat(u64_to_string(d.year as u64).as_str())
    } else if d.year < 100 {
        "00".to_owned().concat(u64_to_string(d.year as u64).as_str())
    } else if d.year < 1000 {
        "0".to_owned().concat(u64_to_string(d.year as u64).as_str())
    } else {
        u64_to_string(d.year as u64)
    };
    let month = if d.month < 10 {
        "0".to_owned().concat(u64_to_string(d.month as u64).as_str())
    } else {
        u64_to_string(d.month as u64)
    };
    let day = if d.day < 10 {
        "0".to_owned().concat(u64_to_string(d.day as u64).as_str())
    } else {
        u64_to_string(d.day as u64)
    };
    let r = year.concat("-").concat(month.as_str()).concat("-").concat(day.as_str());
    proof {
        assert(year@ =~= pad4(d.year as nat));
        assert(month@ =~= pad2(d.month as nat));
        assert(day@ =~= pad2(d.day as nat));
        assert(r@ =~= date_text(*d));
    }
    r
}

/// The comparison-view link for two artifact identifiers.
pub open spec fn spec_compare_link(start: Seq<char>, end: Seq<char>) -> Seq<char> {
    "https://perf.rust-lang.org/compare.html?start="@ + start + "&end="@ + end
        + "&stat=instructions:u"@
}

/// The link to the comparison view of the two artifacts.
pub fn compare_link(start: &str, end: &str) -> (r: String)
    ensures
        r@ == spec_compare_link(start@, end@),
{
    "https://perf.rust-lang.org/compare.html?start=".to_owned().concat(start).concat("&end=")
        .concat(end).concat("&stat=instructions:u")
}

/// The report line of one benchmark change: its magnitude word, direction,
/// the comparison link, and the percentage with scenario and benchmark names.
pub open spec fn spec_summary_line(c: BenchmarkComparison, link: Seq<char>) -> Seq<char> {
    c.spec_magnitude() + " "@ + c.spec_direction().spec_describe() + " in [instruction counts]("@
        + link + ") (up to "@ + percent_text(spec_percent_tenths(c.a(), c.b())) + "% on `"@
        + c.cache_state@ + "` builds of `"@ + c.bench_name@ + "`)\n"@
}

impl BenchmarkComparison {
    /// Renders this change's report line.
    pub fn summary_line(&self, link: &str) -> (r: String)
        requires
            self.a() > 0,
        ensures
            r@ == spec_summary_line(*self, link@),
    {
        let tenths = self.percent_tenths();
        let r = self.magnitude().to_owned().concat(" ").concat(self.direction().describe()).concat(
            " in [instruction counts](",
        ).concat(link).concat(") (up to ").concat(percent_string(tenths).as_str()).concat(
            "% on `",
        ).concat(self.cache_state.as_str()).concat("` builds of `").concat(
            self.bench_name.as_str(),
        ).concat("`)\n");
        proof {
            assert(r@ =~= spec_summary_line(*self, link@));
        }
        r
    }
}

/// The heading of one step's summary: the change-request title and link when
/// a change-request number is known (a missing title renders the fetch-failed
/// placeholder), and a fixed placeholder line otherwise.
pub open spec fn spec_heading(pr: Option<u32>, title: Option<String>) -> Seq<char> {
    match pr {
        Some(n) => (match title {
            Some(t) => t@,
            None => "<UNKNOWN>"@,
        }) + " [#"@ + dec_rep(n as nat) + "](https://github.com/rust-lang/rust/issues/"@ + dec_rep(
            n as nat,
        ) + ")\n"@,
        None => "<Unknown Change>\n"@,
    }
}

/// The whole text of one step's summary: the heading, then one bulleted line
/// per change, ordered by descending magnitude.
pub open spec fn spec_write(s: ComparisonSummary, c: Comparison, title: Option<String>) -> Seq<
    char,
> {
    let link = spec_compare_link(c.a.commit@, c.b.commit@);
    spec_heading(c.b.pr, title) + (match (s.hi, s.lo) {
        (None, None) => Seq::<char>::empty(),
        (Some(hi), None) => "- "@ + spec_summary_line(hi, link),
        (None, Some(lo)) => "- "@ + spec_summary_line(lo, link),
        (Some(hi), Some(lo)) => if abs_log_cmp(lo.a(), lo.b(), hi.a(), hi.b()) == Ord3::Gt {
            "- "@ + spec_summary_line(lo, link) + "- "@ + spec_summary_line(hi, link)
        } else {
            "- "@ + spec_summary_line(hi, link) + "- "@ + spec_summary_line(lo, link)
        },
    })
}

impl ComparisonSummary {
    /// Renders this step's summary: the heading for the second artifact's
    /// change request (`pr_title` is the fetched title, absent on a fetch
    /// failure), then the changes, most significant first.
    #[verifier::spinoff_prover]
    #[verifier::rlimit(100)]
    pub fn write(&self, comparison: &Comparison, pr_title: &Option<String>) -> (r: String)
        requires
            self.hi matches Some(c) ==> c.a() > 0,
            self.lo matches Some(c) ==> c.a() > 0,
        ensures
            r@ == spec_write(*self, *comparison, *pr_title),
    {
        let mut result: String = match &comparison.b.pr {
            Some(n) => {
                let title: String = match pr_title {
                    Some(t) => t.clone(),
                    None => "<UNKNOWN>".to_owned(),
                };
                title.concat(" [#").concat(u64_to_string(*n as u64).as_str()).concat(
                    "](https://github.com/rust-lang/rust/issues/",
                ).concat(u64_to_string(*n as u64).as_str()).concat(")\n")
            },
            None => "<Unknown Change>\n".to_owned(),
        };
        proof {
            assert(result@ =~= spec_heading(comparison.b.pr, *pr_title));
        }
        let link = compare_link(comparison.a.commit.as_str(), comparison.b.commit.as_str());
        match (&self.hi, &self.lo) {
            (None, None) => {},
            (Some(hi), None) => {
                result.append("- ");
                result.append(hi.summary_line(link.as_str()).as_str());
            },
            (None, Some(lo)) => {
                result.append("- ");
                result.append(lo.summary_line(link.as_str()).as_str());
            },
            (Some(hi), Some(lo)) => {
                if lo.abs_log_cmp(hi) == Ord3::Gt {
                    result.append("- ");
                    result.append(lo.summary_line(link.as_str()).as_str());
                    result.append("- ");
                    result.append(hi.summary_line(link.as_str()).as_str());
                } else {
                    result.append("- ");
                    result.append(hi.summary_line(link.as_str()).as_str());
                    result.append("- ");
                    result.append(lo.summary_line(link.as_str()).as_str());
                }
            },
        }
        proof {
            assert(result@ =~= spec_write(*self, *comparison, *pr_title));
        }
        result
    }
}

/// The accumulated triage report: the rendered per-step summaries, grouped
/// by the step's combined direction.
#[derive(Debug)]
pub struct Report {
    pub regressions: Vec<String>,
    pub improvements: Vec<String>,
    pub mixed: Vec<String>,
}

impl Report {
    pub fn new() -> (r: Report)
        ensures
            r.regressions@.len() == 0,
            r.improvements@.len() == 0,
            r.mixed@.len() == 0,
    {
        Report { regressions: Vec::new(), improvements: Vec::new(), mixed: Vec::new() }
    }
}

/// The report after appending one summary text under one direction, the
/// other groups untouched.
pub open spec fn report_extended(o: Report, n: Report, d: Direction, line: Seq<char>) -> bool {
    match d {
        Direction::Regression => {
            &&& n.regressions@.len() == o.regressions@.len() + 1
            &&& forall|i: int|
                0 <= i < o.regressions@.len() ==> n.regressions@[i] == o.regressions@[i]
            &&& n.regressions@.last()@ == line
            &&& n.improvements@ == o.improvements@
            &&& n.mixed@ == o.mixed@
        },
        Direction::Improvement => {
            &&& n.improvements@.len() == o.improvements@.len() + 1
            &&& forall|i: int|
                0 <= i < o.improvements@.len() ==> n.improvements@[i] == o.improvements@[i]
            &&& n.improvements@.last()@ == line
            &&& n.regressions@ == o.regressions@
            &&& n.mixed@ == o.mixed@
        },
        Direction::Mixed => {
            &&& n.mixed@.len() == o.mixed@.len() + 1
            &&& forall|i: int| 0 <= i < o.mixed@.len() ==> n.mixed@[i] == o.mixed@[i]
            &&& n.mixed@.last()@ == line
            &&& n.regressions@ == o.regressions@
            &&& n.improvements@ == o.improvements@
        },
    }
}

/// The report is unchanged.
pub open spec fn report_unchanged(o: Report, n: Report) -> bool {
    n.regressions@ == o.regressions@ && n.improvements@ == o.improvements@ && n.mixed@ == o.mixed@
}

/// Summarizes one comparison step and, when it has significant changes,
/// appends the rendered summary under the step's direction; a step with no
/// benchmarks or no significant change leaves the report as it was.
pub fn populate_report(comparison: &Comparison, pr_title: &Option<String>, report: &mut Report)
    requires
        crate::comparison::data_wf(comparison.a.data@),
        crate::comparison::data_wf(comparison.b.data@),
        forall|i: int, j: int|
            0 <= i < comparison.a.data@.len() && 0 <= j < (
            #[trigger] comparison.a.data@[i]).1@.len() ==> (
            #[trigger] comparison.a.data@[i].1@[j]).1 > 0,
        forall|i: int, j: int|
            0 <= i < comparison.b.data@.len() && 0 <= j < (
            #[trigger] comparison.b.data@[i]).1@.len() ==> (
            #[trigger] comparison.b.data@[i].1@[j]).1 > 0,
    ensures
        exists|s: Option<ComparisonSummary>|
            {
                &&& #[trigger] crate::comparison::spec_summarized(
                    comparison.a.data@,
                    comparison.b.data@,
                    s,
                )
                &&& match s {
                    None => report_unchanged(*old(report), *final(report)),
                    Some(sum) => match sum.spec_direction() {
                        None => report_unchanged(*old(report), *final(report)),
                        Some(d) => report_extended(
                            *old(report),
                            *final(report),
                            d,
                            spec_write(sum, *comparison, *pr_title),
                        ),
                    },
                }
            },
{
    let summary = comparison.summarize_comparison();
    match summary {
        Some(sum) => {
            match sum.direction() {
                Some(d) => {
                    proof {
                        assert(data_values_positive(comparison.a.data@) && data_values_positive(
                            comparison.b.data@,
                        ));
                        lemma_summary_values_positive(
                            comparison.a.data@,
                            comparison.b.data@,
                            sum,
                        );
                    }
                    let line = sum.write(comparison, pr_title);
                    match d {
                        Direction::Regression => report.regressions.push(line),
                        Direction::Improvement => report.improvements.push(line),
                        Direction::Mixed => report.mixed.push(line),
                    }
                    proof {
                        assert(crate::comparison::spec_summarized(
                            comparison.a.data@,
                            comparison.b.data@,
                            Some(sum),
                        ));
                    }
                },
                None => {
                    proof {
                        assert(crate::comparison::spec_summarized(
                            comparison.a.data@,
                            comparison.b.data@,
                            Some(sum),
                        ));
                    }
                },
            }
        },
        None => {
            proof {
                assert(crate::comparison::spec_summarized(
                    comparison.a.data@,
                    comparison.b.data@,
                    None::<ComparisonSummary>,
                ));
            }
        },
    }
}

/// Every measured value in grouped data is positive.
pub open spec fn data_values_positive(d: Seq<(String, Vec<(String, u64)>)>) -> bool {
    forall|i: int, j: int|
        0 <= i < d.len() && 0 <= j < (#[trigger] d[i]).1@.len() ==> (#[trigger] d[i].1@[j]).1 > 0
}

/// A summary selected out of positive data carries positive values.
proof fn lemma_summary_values_positive(
    a: Seq<(String, Vec<(String, u64)>)>,
    b: Seq<(String, Vec<(String, u64)>)>,
    sum: ComparisonSummary,
)
    requires
        data_values_positive(a),
        data_values_positive(b),
        crate::comparison::spec_summarized(a, b, Some(sum)),
    ensures
        sum.hi matches Some(c) ==> c.a() > 0,
        sum.lo matches Some(c) ==> c.a() > 0,
{
    let bs = choose|bs: Seq<BenchmarkComparison>|
        #[trigger] crate::comparison::joined_benchmarks(a, b, bs) && bs.len() > 0
            && crate::comparison::summary_selected(bs, sum);
    if crate::comparison::summary_selected(bs, sum) {
        if exists|i: int| crate::comparison::lo_pick(bs, i) {
            let i = choose|i: int| crate::comparison::lo_pick(bs, i);
            assert(crate::comparison::data_has(
                a,
                bs[i].bench_name@,
                bs[i].cache_state@,
                bs[i].results.0,
            ));
            let rest = bs.remove(i);
            if exists|k: int| crate::comparison::hi_pick(rest, k) {
                let k = choose|k: int| crate::comparison::hi_pick(rest, k);
                assert(rest[k] == if k < i {
                    bs[k]
                } else {
                    bs[k + 1]
                });
                assert(crate::comparison::data_has(
                    a,
                    rest[k].bench_name@,
                    rest[k].cache_state@,
                    rest[k].results.0,
                ));
            }
        } else {
            if exists|k: int| crate::comparison::hi_pick(bs, k) {
                let k = choose|k: int| crate::comparison::hi_pick(bs, k);
                assert(crate::comparison::data_has(
                    a,
                    bs[k].bench_name@,
                    bs[k].cache_state@,
                    bs[k].results.0,
                ));
            }
        }
    }
}

/// The triage walk's advance decision: continue with `(after, next)` when
/// the chain holds a commit after `after`'s comparison and the caller's end
/// bound has not been reached, stop otherwise. The reached-check compares
/// bounds structurally; since the walk always carries a commit bound, an end
/// bound given as a date never stops the walk early and the walk runs to the
/// end of the chain.
pub fn triage_next(after: &Bound, end: &Option<Bound>, comparison: &Comparison, master_commits: &Vec<
    Commit,
>) -> (r: Option<(Bound, Bound)>)
    ensures
        match r {
            Some(pair) => {
                &&& match &comparison.b_id {
                    crate::db::ArtifactId::Commit(b) => find_by_parent_from(
                        master_commits@,
                        b.sha@,
                        0,
                    ) matches Some(c) && (pair.1 matches Bound::Commit(s) && s@ == c.sha@),
                    crate::db::ArtifactId::Tag(_) => false,
                }
                &&& pair.0.spec_eq(after)
                &&& !(end matches Some(e) && e.spec_eq(after))
            },
            None => {
                ||| (match &comparison.b_id {
                    crate::db::ArtifactId::Commit(b) => find_by_parent_from(
                        master_commits@,
                        b.sha@,
                        0,
                    ) is None,
                    crate::db::ArtifactId::Tag(_) => true,
                })
                ||| (end matches Some(e) && e.spec_eq(after))
            },
        },
{
    match comparison.next(master_commits) {
        Some(next_sha) => {
            let reached_end = match end {
                Some(e) => e.same(after),
                None => false,
            };
            if !reached_end {
                Some((after.clone(), Bound::Commit(next_sha)))
            } else {
                None
            }
        },
        None => None,
    }
}

/// The texts joined in order with the separator between each two parts.
pub open spec fn spec_joined(parts: Seq<String>, sep: Seq<char>) -> Seq<char>
    decreases parts.len(),
{
    if parts.len() == 0 {
        Seq::empty()
    } else if parts.len() == 1 {
        parts[0]@
    } else {
        spec_joined(parts.drop_last(), sep) + sep + parts.last()@
    }
}

/// Joins the texts with the separator.
pub fn join_parts(parts: &Vec<String>, sep: &str) -> (r: String)
    ensures
        r@ == spec_joined(parts@, sep@),
{
    if parts.is_empty() {
        proof {
            reveal_strlit("");
        }
        let r = "".to_owned();
        proof {
            assert(r@ =~= spec_joined(parts@, sep@));
        }
        return r;
    }
    let n = parts.len();
    let mut acc = parts[0].clone();
    proof {
        assert(parts@.take(1).len() == 1);
        assert(parts@.take(1)[0] == parts@[0]);
        assert(acc@ =~= spec_joined(parts@.take(1), sep@));
    }
    let mut k: usize = 1;
    while k < n
        invariant
            n == parts@.len(),
            1 <= k <= n,
            acc@ == spec_joined(parts@.take(k as int), sep@),
        decreases n - k,
    {
        proof {
            assert(parts@.take(k + 1).drop_last() =~= parts@.take(k as int));
            assert(parts@.take(k + 1).last() == parts@[k as int]);
        }
        acc.append(sep);
        acc.append(parts[k].as_str());
        k += 1;
    }
    proof {
        assert(parts@.take(n as int) =~= parts@);
    }
    acc
}

/// The locator text of a bound in the report heading: the commit hash, the
/// date, or a placeholder for a dynamic bound.
pub open spec fn spec_fmt_bound(b: Bound) -> Seq<char> {
    match b {
        Bound::Commit(s) => s@,
        Bound::Date(d) => date_text(d),
        Bound::Dynamic => "???"@,
    }
}

/// Renders a bound for the report heading.
pub fn fmt_bound(b: &Bound) -> (r: String)
    ensures
        r@ == spec_fmt_bound(*b),
{
    match b {
        Bound::Commit(s) => s.clone(),
        Bound::Date(d) => date_string(d),
        Bound::Dynamic => "???".to_owned(),
    }
}

/// The whole triage report: a dated heading, the revision-range link, the
/// counts of regressions, improvements and mixed steps, then the three
/// labeled sections with each group's summaries joined by blank lines.
pub open spec fn spec_generate_report(start: Bound, end: Bound, report: Report, today: Date) -> Seq<
    char,
> {
    "# "@ + date_text(today) + " Triage Log\n\nRevision range: ["@ + spec_fmt_bound(start) + ".."@
        + spec_fmt_bound(end) + "](https://perf.rust-lang.org/?start="@ + spec_fmt_bound(start)
        + "&end="@ + spec_fmt_bound(end) + "&absolute=false&stat=instructions%3Au)\n\n"@ + dec_rep(
        report.regressions@.len(),
    ) + " Regressions, "@ + dec_rep(report.improvements@.len()) + " Improvements, "@ + dec_rep(
        report.mixed@.len(),
    ) + " Mixed\n\n#### Regressions\n\n"@ + spec_joined(report.regressions@, "\n\n"@)
        + "\n\n#### Improvements\n\n"@ + spec_joined(report.improvements@, "\n\n"@)
        + "\n\n#### Mixed\n\n"@ + spec_joined(report.mixed@, "\n\n"@) + "\n"@
}

/// Renders the triage report for the walked range as of the given date.
pub fn generate_report(start: &Bound, end: &Bound, report: &Report, today: &Date) -> (r: String)
    ensures
        r@ == spec_generate_report(*start, *end, *report, *today),
{
    let first = fmt_bound(start);
    let last = fmt_bound(end);
    let r = "# ".to_owned().concat(date_string(today).as_str()).concat(
        " Triage Log\n\nRevision range: [",
    ).concat(first.as_str()).concat("..").concat(last.as_str()).concat(
        "](https://perf.rust-lang.org/?start=",
    ).concat(first.as_str()).concat("&end=").concat(last.as_str()).concat(
        "&absolute=false&stat=instructions%3Au)\n\n",
    ).concat(u64_to_string(report.regressions.len() as u64).as_str()).concat(
        " Regressions, ",
    ).concat(u64_to_string(report.improvements.len() as u64).as_str()).concat(
        " Improvements, ",
    ).concat(u64_to_string(report.mixed.len() as u64).as_str()).concat(
        " Mixed\n\n#### Regressions\n\n",
    ).concat(join_parts(&report.regressions, "\n\n").as_str()).concat(
        "\n\n#### Improvements\n\n",
    ).concat(join_parts(&report.improvements, "\n\n").as_str()).concat(
        "\n\n#### Mixed\n\n",
    ).concat(join_parts(&report.mixed, "\n\n").as_str()).concat("\n");
    proof {
        assert(r@ =~= spec_generate_report(*start, *end, *report, *today));
    }
    r
}

/// Relies on chrono's `Utc::now` and the `Datelike` accessors: the current
/// UTC calendar date; chrono documents months in 1 to 12 and days in 1 to 31.
#[verifier::external_body]
fn utc_today_raw() -> (r: (i32, u32, u32))
    ensures
        1 <= r.1 <= 12,
        1 <= r.2 <= 31,
{
    let d = chrono::Utc::now().date_naive();
    (
        chrono::Datelike::year(&d),
        chrono::Datelike::month(&d),
        chrono::Datelike::day(&d),
    )
}

/// Pins a calendar year into the range the report renderer pads to four
/// digits.
fn clamp_year(y: i32) -> (r: u32)
    ensures
        r <= 9999,
        0 <= y <= 9999 ==> r == y,
{
    if y < 0 {
        0
    } else if y > 9999 {
        9999
    } else {
        y as u32
    }
}

/// The current UTC date, for the report heading.
pub fn current_date() -> (d: Date)
    ensures
        d.wf(),
{
    let (y, m, dy) = utc_today_raw();
    let year = clamp_year(y);
    Date { year, month: m, day: dy }
}

/// Declares the JSON value type of the metadata payloads.
#[verifier::external_type_specification]
#[verifier::external_body]
pub struct ExValue(serde_json::Value);

/// Relies on serde_json's `Value::get`: the value of a field of a JSON
/// object, or nothing when the value is not an object or lacks the field.
#[verifier::external_body]
fn json_get<'a>(v: &'a serde_json::Value, key: &str) -> (r: Option<&'a serde_json::Value>) {
    v.get(key)
}

/// Relies on serde_json's `Value::as_str`: the text of a JSON string value,
/// or nothing for any other kind of value.
#[verifier::external_body]
fn json_str(v: &serde_json::Value) -> (r: Option<String>) {
    v.as_str().map(|s| s.to_owned())
}

/// The change-request title carried by a metadata payload: the text of its
/// "title" field. The payload is opaque to the library, so a malformed
/// payload simply yields nothing and the caller degrades to the placeholder
/// heading.
pub fn title_from_payload(payload: &serde_json::Value) -> Option<String> {
    match json_get(payload, "title") {
        Some(v) => json_str(v),
        None => None,
    }
}

} // verus!

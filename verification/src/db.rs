//! Data model of the time-series store: calendar dates, commits, artifact
//! identifiers, user-facing bounds, the dimension types of a series key, and
//! the in-memory index snapshot that query resolution reads.

use vstd::prelude::*;

verus! {

/// A calendar date, kept as plain year/month/day numbers.
#[derive(Clone, Copy, Debug, PartialEq, Eq, Structural)]
pub struct Date {
    pub year: u32,
    pub month: u32,
    pub day: u32,
}

impl Date {
    /// A date the report renderer can format with fixed-width fields.
    pub open spec fn wf(&self) -> bool {
        self.year <= 9999 && 1 <= self.month <= 12 && 1 <= self.day <= 31
    }

    /// Chronological order on dates: lexicographic on (year, month, day).
    pub open spec fn spec_le(&self, other: &Date) -> bool {
        if self.year != other.year {
            self.year < other.year
        } else if self.month != other.month {
            self.month < other.month
        } else {
            self.day <= other.day
        }
    }

    pub fn le(&self, other: &Date) -> (r: bool)
        ensures
            r == self.spec_le(other),
    {
        if self.year != other.year {
            self.year < other.year
        } else if self.month != other.month {
            self.month < other.month
        } else {
            self.day <= other.day
        }
    }
}

/// A commit of the tracked project: its hash, its parent's hash, the
/// associated change-request number when one is known, and its date.
#[derive(Debug)]
pub struct Commit {
    pub sha: String,
    pub parent_sha: String,
    pub pr: Option<u32>,
    pub date: Date,
}

impl Commit {
    /// Field-wise equality up to string contents.
    pub open spec fn spec_eq(&self, other: &Commit) -> bool {
        &&& self.sha@ == other.sha@
        &&& self.parent_sha@ == other.parent_sha@
        &&& self.pr == other.pr
        &&& self.date == other.date
    }
}

impl Clone for Commit {
    fn clone(&self) -> (r: Self)
        ensures
            r.spec_eq(self),
    {
        Commit {
            sha: self.sha.clone(),
            parent_sha: self.parent_sha.clone(),
            pr: self.pr,
            date: self.date,
        }
    }
}

/// Identifies one measured artifact: either a commit of the tracked project
/// or a named non-commit artifact such as a release.
#[derive(Debug)]
pub enum ArtifactId {
    Commit(Commit),
    Tag(String),
}

impl ArtifactId {
    /// Identity of artifacts: by commit sha, or by tag name.
    pub open spec fn spec_eq(&self, other: &ArtifactId) -> bool {
        match (self, other) {
            (ArtifactId::Commit(a), ArtifactId::Commit(b)) => a.sha@ == b.sha@,
            (ArtifactId::Tag(a), ArtifactId::Tag(b)) => a@ == b@,
            _ => false,
        }
    }

    pub fn same(&self, other: &ArtifactId) -> (r: bool)
        ensures
            r == self.spec_eq(other),
    {
        match (self, other) {
            (ArtifactId::Commit(a), ArtifactId::Commit(b)) => a.sha == b.sha,
            (ArtifactId::Tag(a), ArtifactId::Tag(b)) => *a == *b,
            _ => false,
        }
    }
}

impl Clone for ArtifactId {
    fn clone(&self) -> (r: Self)
        ensures
            match (&r, self) {
                (ArtifactId::Commit(a), ArtifactId::Commit(b)) => a.spec_eq(b),
                (ArtifactId::Tag(a), ArtifactId::Tag(b)) => a@ == b@,
                _ => false,
            },
    {
        match self {
            ArtifactId::Commit(c) => ArtifactId::Commit(c.clone()),
            ArtifactId::Tag(t) => ArtifactId::Tag(t.clone()),
        }
    }
}

/// A user-facing locator for a point in history: an exact commit, a date, or
/// a dynamically resolved bound.
#[derive(Debug)]
pub enum Bound {
    /// An exact commit hash.
    Commit(String),
    /// Matches the commits at or before the date.
    Date(Date),
    /// Resolved dynamically: matches every commit, so a leftmost search picks
    /// the first commit and a rightmost search the last.
    Dynamic,
}

impl Bound {
    /// Structural equality of bounds (commit hashes by contents).
    pub open spec fn spec_eq(&self, other: &Bound) -> bool {
        match (self, other) {
            (Bound::Commit(a), Bound::Commit(b)) => a@ == b@,
            (Bound::Date(a), Bound::Date(b)) => a == b,
            (Bound::Dynamic, Bound::Dynamic) => true,
            _ => false,
        }
    }

    pub fn same(&self, other: &Bound) -> (r: bool)
        ensures
            r == self.spec_eq(other),
    {
        match (self, other) {
            (Bound::Commit(a), Bound::Commit(b)) => *a == *b,
            (Bound::Date(a), Bound::Date(b)) => *a == *b,
            (Bound::Dynamic, Bound::Dynamic) => true,
            _ => false,
        }
    }

    /// Whether this bound matches the given commit: an exact hash match, a
    /// commit dated at or before the bound's date, or (for a dynamic bound)
    /// any commit at all.
    pub open spec fn spec_left_match(&self, commit: &Commit) -> bool {
        match self {
            Bound::Commit(sha) => sha@ == commit.sha@,
            Bound::Date(d) => commit.date.spec_le(d),
            Bound::Dynamic => true,
        }
    }

    pub fn left_match(&self, commit: &Commit) -> (r: bool)
        ensures
            r == self.spec_left_match(commit),
    {
        match self {
            Bound::Commit(sha) => *sha == commit.sha,
            Bound::Date(d) => commit.date.le(d),
            Bound::Dynamic => true,
        }
    }
}

impl Clone for Bound {
    fn clone(&self) -> (r: Self)
        ensures
            r.spec_eq(self),
    {
        match self {
            Bound::Commit(s) => Bound::Commit(s.clone()),
            Bound::Date(d) => Bound::Date(*d),
            Bound::Dynamic => Bound::Dynamic,
        }
    }
}

/// The position of the first commit the bound matches.
pub open spec fn first_match(cs: Seq<Commit>, b: Bound, i: int) -> bool {
    &&& 0 <= i < cs.len()
    &&& b.spec_left_match(&cs[i])
    &&& forall|j: int| 0 <= j < i ==> !b.spec_left_match(&cs[j])
}

/// The position of the last commit the bound matches.
pub open spec fn last_match(cs: Seq<Commit>, b: Bound, i: int) -> bool {
    &&& 0 <= i < cs.len()
    &&& b.spec_left_match(&cs[i])
    &&& forall|j: int| i < j < cs.len() ==> !b.spec_left_match(&cs[j])
}

/// The position of the first (for a lower edge) or last (for an upper edge)
/// commit the bound matches.
pub open spec fn edge_match(cs: Seq<Commit>, b: Bound, i: int, is_left: bool) -> bool {
    if is_left {
        first_match(cs, b, i)
    } else {
        last_match(cs, b, i)
    }
}

/// A value of one dimension of a series key. Parsing is the exact inverse of
/// the canonical rendering: a string parses only to the value that renders
/// back to it.
pub trait QueryValue: Sized {
    /// The canonical text of the value; equality of values is equality of
    /// their canonical texts.
    spec fn spec_render(&self) -> Seq<char>;

    /// Whether the text is the canonical rendering of some value.
    spec fn parse_ok(s: Seq<char>) -> bool;

    fn parse_from(s: &str) -> (r: Option<Self>)
        ensures
            match r {
                Some(v) => Self::parse_ok(s@) && v.spec_render() == s@,
                None => !Self::parse_ok(s@),
            };

    fn same(&self, other: &Self) -> (r: bool)
        ensures
            r == (self.spec_render() == other.spec_render()),
    ;
}

impl QueryValue for String {
    open spec fn spec_render(&self) -> Seq<char> {
        self@
    }

    open spec fn parse_ok(s: Seq<char>) -> bool {
        true
    }

    fn parse_from(s: &str) -> (r: Option<Self>) {
        Some(s.to_owned())
    }

    fn same(&self, other: &Self) -> (r: bool) {
        *self == *other
    }
}

/// The name of a benchmark crate.
#[derive(Debug)]
pub struct Benchmark(pub String);

impl Clone for Benchmark {
    fn clone(&self) -> (r: Self)
        ensures
            r.0@ == self.0@,
    {
        Benchmark(self.0.clone())
    }
}

impl QueryValue for Benchmark {
    open spec fn spec_render(&self) -> Seq<char> {
        self.0@
    }

    open spec fn parse_ok(s: Seq<char>) -> bool {
        true
    }

    fn parse_from(s: &str) -> (r: Option<Self>) {
        Some(Benchmark(s.to_owned()))
    }

    fn same(&self, other: &Self) -> (r: bool) {
        self.0 == other.0
    }
}

/// A named process-level statistic, e.g. an instruction count.
#[derive(Debug)]
pub struct Metric(pub String);

impl Clone for Metric {
    fn clone(&self) -> (r: Self)
        ensures
            r.0@ == self.0@,
    {
        Metric(self.0.clone())
    }
}

impl QueryValue for Metric {
    open spec fn spec_render(&self) -> Seq<char> {
        self.0@
    }

    open spec fn parse_ok(s: Seq<char>) -> bool {
        true
    }

    fn parse_from(s: &str) -> (r: Option<Self>) {
        Some(Metric(s.to_owned()))
    }

    fn same(&self, other: &Self) -> (r: bool) {
        self.0 == other.0
    }
}

/// The label of a self-profile sub-query.
#[derive(Debug)]
pub struct QueryLabel(pub String);

impl Clone for QueryLabel {
    fn clone(&self) -> (r: Self)
        ensures
            r.0@ == self.0@,
    {
        QueryLabel(self.0.clone())
    }
}

impl QueryValue for QueryLabel {
    open spec fn spec_render(&self) -> Seq<char> {
        self.0@
    }

    open spec fn parse_ok(s: Seq<char>) -> bool {
        true
    }

    fn parse_from(s: &str) -> (r: Option<Self>) {
        Some(QueryLabel(s.to_owned()))
    }

    fn same(&self, other: &Self) -> (r: bool) {
        self.0 == other.0
    }
}

/// The compiler build mode under which a benchmark ran.
#[derive(Clone, Copy, Debug, PartialEq, Eq, Structural)]
pub enum Profile {
    Check,
    Debug,
    Opt,
}

impl Profile {
    pub fn render(&self) -> (r: String)
        ensures
            r@ == self.spec_render(),
    {
        match self {
            Profile::Check => "Check".to_owned(),
            Profile::Debug => "Debug".to_owned(),
            Profile::Opt => "Opt".to_owned(),
        }
    }
}

impl QueryValue for Profile {
    open spec fn spec_render(&self) -> Seq<char> {
        match self {
            Profile::Check => "Check"@,
            Profile::Debug => "Debug"@,
            Profile::Opt => "Opt"@,
        }
    }

    open spec fn parse_ok(s: Seq<char>) -> bool {
        s == "Check"@ || s == "Debug"@ || s == "Opt"@
    }

    fn parse_from(s: &str) -> (r: Option<Self>) {
        let t = s.to_owned();
        if t == "Check".to_owned() {
            Some(Profile::Check)
        } else if t == "Debug".to_owned() {
            Some(Profile::Debug)
        } else if t == "Opt".to_owned() {
            Some(Profile::Opt)
        } else {
            None
        }
    }

    fn same(&self, other: &Self) -> (r: bool) {
        self.render() == other.render()
    }
}

/// The build-cache condition under which a benchmark ran.
#[derive(Debug)]
pub enum Scenario {
    /// A full build from an empty cache; renders as "full".
    Empty,
    /// An incremental build from an empty cache; renders as "incr-full".
    IncrementalEmpty,
    /// An incremental rebuild with no changes; renders as "incr-unchanged".
    IncrementalFresh,
    /// An incremental rebuild after the named patch; renders as
    /// "incr-patched: " followed by the patch name.
    IncrementalPatch(String),
}

impl Scenario {
    pub fn render(&self) -> (r: String)
        ensures
            r@ == self.spec_render(),
    {
        match self {
            Scenario::Empty => "full".to_owned(),
            Scenario::IncrementalEmpty => "incr-full".to_owned(),
            Scenario::IncrementalFresh => "incr-unchanged".to_owned(),
            Scenario::IncrementalPatch(p) => "incr-patched: ".to_owned().concat(p.as_str()),
        }
    }
}

impl Clone for Scenario {
    fn clone(&self) -> (r: Self)
        ensures
            r.spec_render() == self.spec_render(),
    {
        match self {
            Scenario::Empty => Scenario::Empty,
            Scenario::IncrementalEmpty => Scenario::IncrementalEmpty,
            Scenario::IncrementalFresh => Scenario::IncrementalFresh,
            Scenario::IncrementalPatch(p) => Scenario::IncrementalPatch(p.clone()),
        }
    }
}

impl QueryValue for Scenario {
    open spec fn spec_render(&self) -> Seq<char> {
        match self {
            Scenario::Empty => "full"@,
            Scenario::IncrementalEmpty => "incr-full"@,
            Scenario::IncrementalFresh => "incr-unchanged"@,
            Scenario::IncrementalPatch(p) => "incr-patched: "@ + p@,
        }
    }

    open spec fn parse_ok(s: Seq<char>) -> bool {
        ||| s == "full"@
        ||| s == "incr-full"@
        ||| s == "incr-unchanged"@
        ||| (s.len() >= "incr-patched: "@.len() && s.subrange(
            0,
            "incr-patched: "@.len() as int,
        ) == "incr-patched: "@)
    }

    fn parse_from(s: &str) -> (r: Option<Self>) {
        proof {
            reveal_strlit("incr-patched: ");
        }
        let t = s.to_owned();
        if t == "full".to_owned() {
            Some(Scenario::Empty)
        } else if t == "incr-full".to_owned() {
            Some(Scenario::IncrementalEmpty)
        } else if t == "incr-unchanged".to_owned() {
            Some(Scenario::IncrementalFresh)
        } else if s.unicode_len() >= 14 && s.substring_char(0, 14).to_owned() == "incr-patched: ".to_owned() {
            let p = s.substring_char(14, s.unicode_len()).to_owned();
            let result = Scenario::IncrementalPatch(p);
            proof {
                assert(result.spec_render() =~= s@);
            }
            Some(result)
        } else {
            None
        }
    }

    fn same(&self, other: &Self) -> (r: bool) {
        self.render() == other.render()
    }
}

/// A key of the raw per-process statistic series.
#[derive(Debug)]
pub struct StatKey {
    pub benchmark: Benchmark,
    pub profile: Profile,
    pub scenario: Scenario,
    pub metric: Metric,
}

impl StatKey {
    /// Equality up to the canonical texts of the fields.
    pub open spec fn spec_eq(&self, other: &StatKey) -> bool {
        &&& self.benchmark.0@ == other.benchmark.0@
        &&& self.profile == other.profile
        &&& self.scenario.spec_render() == other.scenario.spec_render()
        &&& self.metric.0@ == other.metric.0@
    }
}

impl Clone for StatKey {
    fn clone(&self) -> (r: Self)
        ensures
            r.spec_eq(self),
    {
        StatKey {
            benchmark: self.benchmark.clone(),
            profile: self.profile,
            scenario: self.scenario.clone(),
            metric: self.metric.clone(),
        }
    }
}

/// A key of the self-profile series: the statistic key dimensions plus the
/// sub-query label.
#[derive(Debug)]
pub struct QueryKey {
    pub benchmark: Benchmark,
    pub profile: Profile,
    pub scenario: Scenario,
    pub label: QueryLabel,
}

impl QueryKey {
    /// Equality up to the canonical texts of the fields.
    pub open spec fn spec_eq(&self, other: &QueryKey) -> bool {
        &&& self.benchmark.0@ == other.benchmark.0@
        &&& self.profile == other.profile
        &&& self.scenario.spec_render() == other.scenario.spec_render()
        &&& self.label.0@ == other.label.0@
    }
}

impl Clone for QueryKey {
    fn clone(&self) -> (r: Self)
        ensures
            r.spec_eq(self),
    {
        QueryKey {
            benchmark: self.benchmark.clone(),
            profile: self.profile,
            scenario: self.scenario.clone(),
            label: self.label.clone(),
        }
    }
}

/// An immutable snapshot of the in-memory index: the known commits in
/// chronological order, the named non-commit artifacts, and every known
/// series key of either kind, conventionally held in lexicographic order of
/// the keys' canonical texts so that selections come out deterministically
/// ordered. A query resolution reads one snapshot; a refresh publishes a new
/// snapshot instead of mutating one in place.
#[derive(Debug)]
pub struct Index {
    pub commits: Vec<Commit>,
    pub artifacts: Vec<String>,
    pub pstat_series: Vec<StatKey>,
    pub query_series: Vec<QueryKey>,
}

impl Index {
    /// The snapshot's key lists stand in lexicographic order of the keys'
    /// canonical texts, so the providers' selections come out sorted.
    pub open spec fn wf(&self) -> bool {
        pstat_sorted(self.pstat_series@) && qseries_sorted(self.query_series@)
    }
}

/// Whether the artifact id is what the bound resolves to in the index: the
/// first (for a lower edge) or last (for an upper edge) matching commit, and
/// otherwise the named artifact whose name is the bound's commit text.
pub open spec fn resolves_to(
    commits: Seq<Commit>,
    artifacts: Seq<String>,
    bound: Bound,
    is_left: bool,
    aid: ArtifactId,
) -> bool {
    match aid {
        ArtifactId::Commit(c) => exists|i: int|
            #[trigger] edge_match(commits, bound, i, is_left) && c.spec_eq(&commits[i]),
        ArtifactId::Tag(name) => {
            &&& forall|i: int| 0 <= i < commits.len() ==> !bound.spec_left_match(&commits[i])
            &&& exists|i: int| 0 <= i < artifacts.len() && artifacts[i]@ == name@
            &&& bound matches Bound::Commit(s) && s@ == name@
        },
    }
}

/// Whether the bound resolves to nothing in the index.
pub open spec fn unresolvable(commits: Seq<Commit>, artifacts: Seq<String>, bound: Bound) -> bool {
    &&& forall|i: int| 0 <= i < commits.len() ==> !bound.spec_left_match(&commits[i])
    &&& match bound {
        Bound::Commit(s) => forall|i: int| 0 <= i < artifacts.len() ==> artifacts[i]@ != s@,
        _ => true,
    }
}

/// Finds the most appropriate artifact id for a bound: the first (leftmost)
/// or last (rightmost) matching commit of the index, and otherwise the named
/// artifact whose name is the bound's commit text, if any.
pub fn artifact_id_for_bound(data: &Index, bound: &Bound, is_left: bool) -> (r: Option<
    ArtifactId,
>)
    ensures
        match r {
            Some(aid) => resolves_to(data.commits@, data.artifacts@, *bound, is_left, aid),
            None => unresolvable(data.commits@, data.artifacts@, *bound),
        },
{
    let n = data.commits.len();
    let mut found: Option<usize> = None;
    if is_left {
        let mut i: usize = 0;
        while i < n
            invariant
                n == data.commits@.len(),
                i <= n,
                match found {
                    Some(f) => f < i && first_match(data.commits@, *bound, f as int),
                    None => forall|j: int|
                        0 <= j < i ==> !bound.spec_left_match(&data.commits@[j]),
                },
            decreases n - i,
        {
            if found.is_none() && bound.left_match(&data.commits[i]) {
                found = Some(i);
            }
            i += 1;
        }
    } else {
        let mut i: usize = 0;
        while i < n
            invariant
                n == data.commits@.len(),
                i <= n,
                match found {
                    Some(f) => f < i && bound.spec_left_match(&data.commits@[f as int]) && forall|
                        j: int,
                    | f < j < i ==> !bound.spec_left_match(&data.commits@[j]),
                    None => forall|j: int|
                        0 <= j < i ==> !bound.spec_left_match(&data.commits@[j]),
                },
            decreases n - i,
        {
            if bound.left_match(&data.commits[i]) {
                found = Some(i);
            }
            i += 1;
        }
    }
    match found {
        Some(i) => {
            let c = data.commits[i].clone();
            proof {
                assert(edge_match(data.commits@, *bound, i as int, is_left));
            }
            Some(ArtifactId::Commit(c))
        },
        None => {
            match bound {
                Bound::Commit(c) => {
                    let m = data.artifacts.len();
                    let mut k: usize = 0;
                    let mut hit: Option<usize> = None;
                    while k < m
                        invariant
                            m == data.artifacts@.len(),
                            k <= m,
                            match hit {
                                Some(h) => h < m && data.artifacts@[h as int]@ == c@,
                                None => forall|j: int| 0 <= j < k ==> data.artifacts@[j]@ != c@,
                            },
                        decreases m - k,
                    {
                        if hit.is_none() && data.artifacts[k] == *c {
                            hit = Some(k);
                        }
                        k += 1;
                    }
                    match hit {
                        Some(h) => Some(ArtifactId::Tag(data.artifacts[h].clone())),
                        None => None,
                    }
                },
                _ => None,
            }
        },
    }
}

/// The contiguous run of commits between the first commit matching the lower
/// bound and the last commit matching the upper bound; empty when either edge
/// is unmatched or the edges cross.
pub fn range_subset(data: &Vec<Commit>, a: &Bound, b: &Bound) -> (r: Vec<Commit>)
    ensures
        forall|l: int, rr: int|
            #[trigger] first_match(data@, *a, l) && #[trigger] last_match(data@, *b, rr) ==> (if l
                <= rr {
                r@.len() == rr - l + 1 && forall|k: int|
                    0 <= k < r@.len() ==> r@[k].spec_eq(&data@[l + k])
            } else {
                r@.len() == 0
            }),
        ((forall|i: int| 0 <= i < data@.len() ==> !a.spec_left_match(&data@[i])) || (forall|i: int|
            0 <= i < data@.len() ==> !b.spec_left_match(&data@[i]))) ==> r@.len() == 0,
{
    let n = data.len();
    let mut left_idx: Option<usize> = None;
    let mut i: usize = 0;
    while i < n
        invariant
            n == data@.len(),
            i <= n,
            match left_idx {
                Some(f) => f < i && first_match(data@, *a, f as int),
                None => forall|j: int| 0 <= j < i ==> !a.spec_left_match(&data@[j]),
            },
        decreases n - i,
    {
        if left_idx.is_none() && a.left_match(&data[i]) {
            left_idx = Some(i);
        }
        i += 1;
    }
    let mut right_idx: Option<usize> = None;
    let mut k: usize = 0;
    while k < n
        invariant
            n == data@.len(),
            k <= n,
            match right_idx {
                Some(f) => f < k && b.spec_left_match(&data@[f as int]) && forall|j: int|
                    f < j < k ==> !b.spec_left_match(&data@[j]),
                None => forall|j: int| 0 <= j < k ==> !b.spec_left_match(&data@[j]),
            },
        decreases n - k,
    {
        if b.left_match(&data[k]) {
            right_idx = Some(k);
        }
        k += 1;
    }
    match (left_idx, right_idx) {
        (Some(l), Some(rr)) => {
            proof {
                assert(first_match(data@, *a, l as int));
                assert(last_match(data@, *b, rr as int));
            }
            if l <= rr {
                let mut out: Vec<Commit> = Vec::new();
                let mut p: usize = l;
                while p <= rr
                    invariant
                        n == data@.len(),
                        l <= p <= rr + 1,
                        rr < n,
                        out@.len() == p - l,
                        forall|q: int| 0 <= q < out@.len() ==> out@[q].spec_eq(&data@[l + q]),
                    decreases rr + 1 - p,
                {
                    out.push(data[p].clone());
                    p += 1;
                }
                out
            } else {
                Vec::new()
            }
        },
        _ => Vec::new(),
    }
}

/// Lexicographic order on texts, by code point.
pub open spec fn chars_le(a: Seq<char>, b: Seq<char>) -> bool
    decreases a.len(),
{
    if a.len() == 0 {
        true
    } else if b.len() == 0 {
        false
    } else if (a[0] as u32) < (b[0] as u32) {
        true
    } else if (b[0] as u32) < (a[0] as u32) {
        false
    } else {
        chars_le(a.skip(1), b.skip(1))
    }
}

/// Lexicographic order on statistic keys: by benchmark, then profile, then
/// scenario, then metric, each compared by canonical text.
pub open spec fn stat_key_le(x: StatKey, y: StatKey) -> bool {
    if x.benchmark.0@ != y.benchmark.0@ {
        chars_le(x.benchmark.0@, y.benchmark.0@)
    } else if x.profile.spec_render() != y.profile.spec_render() {
        chars_le(x.profile.spec_render(), y.profile.spec_render())
    } else if x.scenario.spec_render() != y.scenario.spec_render() {
        chars_le(x.scenario.spec_render(), y.scenario.spec_render())
    } else {
        chars_le(x.metric.0@, y.metric.0@)
    }
}

/// A snapshot whose statistic keys stand in lexicographic order.
pub open spec fn pstat_sorted(keys: Seq<StatKey>) -> bool {
    forall|i: int, j: int| 0 <= i < j < keys.len() ==> stat_key_le(#[trigger] keys[i], #[trigger] keys[j])
}

/// Lexicographic order on self-profile keys: by benchmark, then profile,
/// then scenario, then sub-query label, each compared by canonical text.
pub open spec fn query_key_le(x: QueryKey, y: QueryKey) -> bool {
    if x.benchmark.0@ != y.benchmark.0@ {
        chars_le(x.benchmark.0@, y.benchmark.0@)
    } else if x.profile.spec_render() != y.profile.spec_render() {
        chars_le(x.profile.spec_render(), y.profile.spec_render())
    } else if x.scenario.spec_render() != y.scenario.spec_render() {
        chars_le(x.scenario.spec_render(), y.scenario.spec_render())
    } else {
        chars_le(x.label.0@, y.label.0@)
    }
}

/// A snapshot whose self-profile keys stand in lexicographic order.
pub open spec fn qseries_sorted(keys: Seq<QueryKey>) -> bool {
    forall|i: int, j: int|
        0 <= i < j < keys.len() ==> query_key_le(#[trigger] keys[i], #[trigger] keys[j])
}

} // verus!

//! Selector algebra: the typed tag/value/selector primitives used both to
//! describe a request (`Query`) and to label a response (`Path`), plus the
//! dispatch combinator that accepts exactly one provider's answer.

use vstd::prelude::*;
use crate::db::{Benchmark, Metric, Profile, QueryLabel, QueryValue, Scenario};

verus! {

/// The dimensions of a series key.
#[derive(Clone, Copy, Debug, PartialEq, Eq, Hash, Structural)]
pub enum Tag {
    Benchmark,
    Profile,
    Scenario,
    Metric,
    QueryLabel,
}

/// A malformed query: a required tag is missing, a value does not parse, or
/// components are left over after the provider extracted everything it needs.
#[derive(Debug)]
pub enum QueryError {
    /// The query has no component for the required tag.
    MissingTag { tag: Tag },
    /// A value of the tagged selector failed to parse.
    Parse { tag: Tag, value: String },
    /// Components remain after extraction; lists their tags in query order.
    Unconsumed { tags: Vec<Tag> },
}

impl Tag {
    pub open spec fn spec_name(&self) -> Seq<char> {
        match self {
            Tag::Benchmark => "Benchmark"@,
            Tag::Profile => "Profile"@,
            Tag::Scenario => "Scenario"@,
            Tag::Metric => "Metric"@,
            Tag::QueryLabel => "QueryLabel"@,
        }
    }

    /// The tag's name, as the error messages spell it.
    pub fn name(&self) -> (r: &'static str)
        ensures
            r@ == self.spec_name(),
    {
        match self {
            Tag::Benchmark => "Benchmark",
            Tag::Profile => "Profile",
            Tag::Scenario => "Scenario",
            Tag::Metric => "Metric",
            Tag::QueryLabel => "QueryLabel",
        }
    }
}

/// The tag names joined with ", ".
pub open spec fn spec_tag_list(tags: Seq<Tag>) -> Seq<char>
    decreases tags.len(),
{
    if tags.len() == 0 {
        Seq::empty()
    } else if tags.len() == 1 {
        tags[0].spec_name()
    } else {
        spec_tag_list(tags.drop_last()) + ", "@ + tags.last().spec_name()
    }
}

impl QueryError {
    /// The human-readable cause of the error.
    pub open spec fn spec_message(&self) -> Seq<char> {
        match self {
            QueryError::MissingTag { tag } => "query must have "@ + tag.spec_name() + " selector"@,
            QueryError::Parse { tag, value } => "failed to parse query tag "@ + tag.spec_name()
                + ": "@ + value@,
            QueryError::Unconsumed { tags } => "extra components: "@ + spec_tag_list(tags@),
        }
    }

    pub fn message(&self) -> (r: String)
        ensures
            r@ == self.spec_message(),
    {
        match self {
            QueryError::MissingTag { tag } => "query must have ".to_owned().concat(
                tag.name(),
            ).concat(" selector"),
            QueryError::Parse { tag, value } => "failed to parse query tag ".to_owned().concat(
                tag.name(),
            ).concat(": ").concat(value.as_str()),
            QueryError::Unconsumed { tags } => {
                let n = tags.len();
                let mut acc: String = "".to_owned();
                proof {
                    reveal_strlit("");
                    assert(acc@ =~= spec_tag_list(tags@.take(0)));
                }
                let mut k: usize = 0;
                while k < n
                    invariant
                        n == tags@.len(),
                        k <= n,
                        acc@ == spec_tag_list(tags@.take(k as int)),
                    decreases n - k,
                {
                    proof {
                        assert(tags@.take(k + 1).drop_last() =~= tags@.take(k as int));
                        assert(tags@.take(k + 1).last() == tags@[k as int]);
                    }
                    if k > 0 {
                        acc.append(", ");
                    }
                    acc.append(tags[k].name());
                    proof {
                        assert(acc@ =~= spec_tag_list(tags@.take(k + 1)));
                    }
                    k += 1;
                }
                proof {
                    assert(tags@.take(n as int) =~= tags@);
                }
                "extra components: ".to_owned().concat(acc.as_str())
            },
        }
    }
}

/// A resolved path lacks a component of the expected kind.
#[derive(Debug)]
pub struct MissingSelectorError {
    pub tag: Tag,
}

/// Requests values of one dimension: everything, any of a list, or exactly one.
#[derive(Debug)]
pub enum Selector<T> {
    All,
    Subset(Vec<T>),
    One(T),
}

impl<T: QueryValue> Selector<T> {
    /// Membership: `All` matches everything, `One` exactly its value,
    /// `Subset` any of its values; values compare by canonical text.
    pub open spec fn spec_matches(&self, other: &T) -> bool {
        match self {
            Selector::One(c) => other.spec_render() == c.spec_render(),
            Selector::Subset(subset) => exists|i: int|
                0 <= i < subset@.len() && other.spec_render() == (
                #[trigger] subset@[i]).spec_render(),
            Selector::All => true,
        }
    }

    pub fn matches(&self, other: &T) -> (r: bool)
        ensures
            r == self.spec_matches(other),
    {
        match self {
            Selector::One(c) => other.same(c),
            Selector::Subset(subset) => {
                let n = subset.len();
                let mut i: usize = 0;
                let mut found = false;
                while i < n
                    invariant
                        n == subset@.len(),
                        i <= n,
                        found == exists|j: int|
                            0 <= j < i && other.spec_render() == (
                            #[trigger] subset@[j]).spec_render(),
                    decreases n - i,
                {
                    if other.same(&subset[i]) {
                        found = true;
                    }
                    i += 1;
                }
                found
            },
            Selector::All => true,
        }
    }
}

impl<T> Selector<T> {
    /// The value of a selector known to request exactly one.
    pub fn assert_one(&self) -> (r: &T)
        requires
            self is One,
        ensures
            match self {
                Selector::One(v) => r == v,
                _ => false,
            },
    {
        match self {
            Selector::One(one) => one,
            _ => unreached(),
        }
    }

    /// Applies a function to every contained value, keeping the shape.
    pub fn map<U, F: Fn(T) -> U>(self, f: F) -> (r: Selector<U>)
        requires
            forall|t: T| #[trigger] f.requires((t,)),
        ensures
            match self {
                Selector::All => r is All,
                Selector::One(t) => match r {
                    Selector::One(u) => f.ensures((t,), u),
                    _ => false,
                },
                Selector::Subset(ts) => match r {
                    Selector::Subset(us) => us@.len() == ts@.len() && forall|i: int|
                        0 <= i < ts@.len() ==> f.ensures((ts@[i],), #[trigger] us@[i]),
                    _ => false,
                },
            },
    {
        match self {
            Selector::All => Selector::All,
            Selector::One(t) => Selector::One(f(t)),
            Selector::Subset(ts) => {
                let ghost orig = ts@;
                let mut ts = ts;
                let mut us: Vec<U> = Vec::new();
                while ts.len() > 0
                    invariant
                        forall|t: T| #[trigger] f.requires((t,)),
                        us@.len() + ts@.len() == orig.len(),
                        ts@ == orig.skip(us@.len() as int),
                        forall|i: int|
                            0 <= i < us@.len() ==> f.ensures((orig[i],), #[trigger] us@[i]),
                    decreases ts@.len(),
                {
                    let ghost k = us@.len() as int;
                    let t = ts.remove(0);
                    proof {
                        assert(t == orig[k]);
                        assert(ts@ =~= orig.skip(k + 1));
                    }
                    us.push(f(t));
                }
                Selector::Subset(us)
            },
        }
    }

    /// Applies a fallible function to every contained value: the mapped
    /// selector if every application succeeds, the first error otherwise.
    #[verifier::spinoff_prover]
    #[verifier::rlimit(60)]
    pub fn try_map<U, E, F: Fn(T) -> Result<U, E>>(self, f: F) -> (r: Result<Selector<U>, E>)
        requires
            forall|t: T| #[trigger] f.requires((t,)),
        ensures
            match r {
                Ok(sel) => match self {
                    Selector::All => sel is All,
                    Selector::One(t) => match sel {
                        Selector::One(u) => f.ensures((t,), Ok(u)),
                        _ => false,
                    },
                    Selector::Subset(ts) => match sel {
                        Selector::Subset(us) => maps_to_ok(f, ts@, us@),
                        _ => false,
                    },
                },
                Err(e) => match self {
                    Selector::All => false,
                    Selector::One(t) => f.ensures((t,), Err(e)),
                    Selector::Subset(ts) => maps_to_err(f, ts@, e),
                },
            },
    {
        match self {
            Selector::All => Ok(Selector::All),
            Selector::One(t) => match f(t) {
                Ok(u) => Ok(Selector::One(u)),
                Err(e) => Err(e),
            },
            Selector::Subset(ts) => {
                let ghost orig = ts@;
                let mut ts = ts;
                let mut us: Vec<U> = Vec::new();
                let mut err: Option<E> = None;
                while ts.len() > 0
                    invariant
                        forall|t: T| #[trigger] f.requires((t,)),
                        ts@.len() <= orig.len(),
                        ts@ == orig.skip((orig.len() - ts@.len()) as int),
                        match err {
                            None => us@.len() + ts@.len() == orig.len() && forall|i: int|
                                0 <= i < us@.len() ==> #[trigger] call_ensures(
                                    f,
                                    (orig[i],),
                                    Ok(us@[i]),
                                ),
                            Some(e) => maps_to_err(f, orig, e),
                        },
                    decreases ts@.len(),
                {
                    let ghost k = (orig.len() - ts@.len()) as int;
                    let t = ts.remove(0);
                    proof {
                        assert(t == orig[k]);
                        assert(ts@ =~= orig.skip(k + 1));
                    }
                    if err.is_none() {
                        match f(t) {
                            Ok(u) => us.push(u),
                            Err(e) => {
                                proof {
                                    assert(0 <= k < orig.len() && call_ensures(
                                        f,
                                        (orig[k],),
                                        Err::<U, E>(e),
                                    ));
                                }
                                err = Some(e);
                            },
                        }
                    }
                }
                match err {
                    Some(e) => {
                        proof {
                            assert(maps_to_err(f, orig, e));
                        }
                        Err(e)
                    },
                    None => {
                        proof {
                            assert(maps_to_ok(f, orig, us@));
                        }
                        Ok(Selector::Subset(us))
                    },
                }
            },
        }
    }
}


/// Every output value is a possible result of the function on the
/// corresponding input value.
pub open spec fn maps_to_ok<T, U, E, F: Fn(T) -> Result<U, E>>(f: F, ts: Seq<T>, us: Seq<U>) -> bool {
    us.len() == ts.len() && forall|i: int|
        0 <= i < ts.len() ==> #[trigger] call_ensures(f, (ts[i],), Ok(us[i]))
}

/// Some input value can produce this error.
pub open spec fn maps_to_err<T, U, E, F: Fn(T) -> Result<U, E>>(f: F, ts: Seq<T>, e: E) -> bool {
    exists|i: int| 0 <= i < ts.len() && #[trigger] call_ensures(f, (ts[i],), Err(e))
}

/// Shape-and-contents equality of string selectors.
pub open spec fn sel_str_eq(a: Selector<String>, b: Selector<String>) -> bool {
    match (a, b) {
        (Selector::All, Selector::All) => true,
        (Selector::One(x), Selector::One(y)) => x@ == y@,
        (Selector::Subset(xs), Selector::Subset(ys)) => xs@.len() == ys@.len() && forall|i: int|
            0 <= i < xs@.len() ==> xs@[i]@ == #[trigger] ys@[i]@,
        _ => false,
    }
}

impl Clone for Selector<String> {
    fn clone(&self) -> (r: Self)
        ensures
            sel_str_eq(r, *self),
    {
        match self {
            Selector::All => Selector::All,
            Selector::One(s) => Selector::One(s.clone()),
            Selector::Subset(ss) => {
                let n = ss.len();
                let mut out: Vec<String> = Vec::new();
                let mut i: usize = 0;
                while i < n
                    invariant
                        n == ss@.len(),
                        i <= n,
                        out@.len() == i,
                        forall|j: int| 0 <= j < i ==> out@[j]@ == #[trigger] ss@[j]@,
                    decreases n - i,
                {
                    out.push(ss[i].clone());
                    i += 1;
                }
                Selector::Subset(out)
            },
        }
    }
}

/// One dimension of a request: a tag with its raw, unparsed selector.
#[derive(Debug)]
pub struct QueryComponent {
    pub tag: Tag,
    pub raw: Selector<String>,
}

/// Contents equality of query components.
pub open spec fn qc_eq(a: QueryComponent, b: QueryComponent) -> bool {
    a.tag == b.tag && sel_str_eq(a.raw, b.raw)
}

impl Clone for QueryComponent {
    fn clone(&self) -> (r: Self)
        ensures
            qc_eq(r, *self),
    {
        QueryComponent { tag: self.tag, raw: self.raw.clone() }
    }
}

/// Whether some component of the sequence carries the tag.
pub open spec fn has_tag(s: Seq<QueryComponent>, t: Tag) -> bool {
    exists|i: int| 0 <= i < s.len() && (#[trigger] s[i]).tag == t
}

/// Whether the sequence holds a component with the given contents.
pub open spec fn has_component(s: Seq<QueryComponent>, qc: QueryComponent) -> bool {
    exists|i: int| 0 <= i < s.len() && qc_eq(#[trigger] s[i], qc)
}

/// At most one component per tag.
pub open spec fn components_wf(s: Seq<QueryComponent>) -> bool {
    forall|i: int, j: int| 0 <= i < j < s.len() ==> (#[trigger] s[i]).tag != (#[trigger] s[j]).tag
}

/// A partially-specified, multi-dimensional request: an unparsed selector per
/// tag, with at most one component per tag. Providers destructively extract
/// the tags they require and must leave nothing behind.
#[derive(Debug)]
pub struct Query {
    pub path: Vec<QueryComponent>,
}

impl Clone for Query {
    fn clone(&self) -> (r: Self)
        ensures
            r.path@.len() == self.path@.len(),
            forall|i: int| 0 <= i < self.path@.len() ==> qc_eq(#[trigger] r.path@[i], self.path@[i]),
    {
        let n = self.path.len();
        let mut out: Vec<QueryComponent> = Vec::new();
        let mut i: usize = 0;
        while i < n
            invariant
                n == self.path@.len(),
                i <= n,
                out@.len() == i,
                forall|j: int| 0 <= j < i ==> qc_eq(#[trigger] out@[j], self.path@[j]),
            decreases n - i,
        {
            out.push(self.path[i].clone());
            i += 1;
        }
        Query { path: out }
    }
}

impl Query {
    pub fn new() -> (r: Self)
        ensures
            r.path@.len() == 0,
    {
        Query { path: Vec::new() }
    }

    /// Sets the selector for a tag, replacing any existing component for that
    /// tag, so that exactly one component carries it afterwards.
    pub fn set(self, tag: Tag, selector: Selector<String>) -> (r: Self)
        requires
            components_wf(self.path@),
        ensures
            components_wf(r.path@),
            has_component(r.path@, QueryComponent { tag, raw: selector }),
            forall|i: int|
                0 <= i < self.path@.len() && (#[trigger] self.path@[i]).tag != tag
                    ==> has_component(r.path@, self.path@[i]),
            forall|i: int|
                0 <= i < r.path@.len() && (#[trigger] r.path@[i]).tag != tag ==> has_component(
                    self.path@,
                    r.path@[i],
                ),
            r.path@.len() == if has_tag(self.path@, tag) {
                self.path@.len()
            } else {
                self.path@.len() + 1
            },
    {
        let mut q = self;
        let n = q.path.len();
        let mut i: usize = 0;
        let mut at: Option<usize> = None;
        while i < n
            invariant
                n == q.path@.len(),
                i <= n,
                match at {
                    Some(a) => a < i && q.path@[a as int].tag == tag,
                    None => forall|j: int| 0 <= j < i ==> (#[trigger] q.path@[j]).tag != tag,
                },
            decreases n - i,
        {
            if at.is_none() && q.path[i].tag == tag {
                at = Some(i);
            }
            i += 1;
        }
        match at {
            Some(a) => {
                let ghost pre = q.path@;
                q.path[a].raw = selector;
                proof {
                    assert(qc_eq(q.path@[a as int], QueryComponent { tag, raw: selector }));
                    assert forall|i: int|
                        0 <= i < pre.len() && (#[trigger] pre[i]).tag != tag implies has_component(
                        q.path@,
                        pre[i],
                    ) by {
                        assert(qc_eq(q.path@[i], pre[i]));
                    }
                    assert forall|i: int|
                        0 <= i < q.path@.len() && (#[trigger] q.path@[i]).tag != tag
                        implies has_component(pre, q.path@[i]) by {
                        assert(qc_eq(pre[i], q.path@[i]));
                    }
                }
                q
            },
            None => {
                let ghost pre = q.path@;
                q.path.push(QueryComponent { tag, raw: selector });
                proof {
                    assert(qc_eq(
                        q.path@[q.path@.len() - 1],
                        QueryComponent { tag, raw: selector },
                    ));
                    assert forall|i: int|
                        0 <= i < pre.len() && (#[trigger] pre[i]).tag != tag implies has_component(
                        q.path@,
                        pre[i],
                    ) by {
                        assert(qc_eq(q.path@[i], pre[i]));
                    }
                    assert forall|i: int|
                        0 <= i < q.path@.len() && (#[trigger] q.path@[i]).tag != tag
                        implies has_component(pre, q.path@[i]) by {
                        assert(i < pre.len());
                        assert(qc_eq(pre[i], q.path@[i]));
                    }
                }
                q
            },
        }
    }

    /// The component for a tag, if the query carries one.
    pub fn get(&self, tag: Tag) -> (r: Result<&QueryComponent, QueryError>)
        ensures
            match r {
                Ok(qc) => qc.tag == tag && exists|i: int|
                    0 <= i < self.path@.len() && #[trigger] self.path@[i] == *qc,
                Err(e) => !has_tag(self.path@, tag) && (e matches QueryError::MissingTag {
                    tag: t,
                } && t == tag),
            },
    {
        let n = self.path.len();
        let mut i: usize = 0;
        while i < n
            invariant
                n == self.path@.len(),
                i <= n,
                forall|j: int| 0 <= j < i ==> (#[trigger] self.path@[j]).tag != tag,
            decreases n - i,
        {
            if self.path[i].tag == tag {
                return Ok(&self.path[i]);
            }
            i += 1;
        }
        Err(QueryError::MissingTag { tag })
    }

    /// Removes and returns the component for a tag. The query keeps every
    /// other component (order may change) and afterwards carries nothing for
    /// the tag.
    pub fn extract(&mut self, tag: Tag) -> (r: Result<QueryComponent, QueryError>)
        requires
            components_wf(old(self).path@),
        ensures
            components_wf(final(self).path@),
            match r {
                Ok(qc) => {
                    &&& qc.tag == tag
                    &&& has_component(old(self).path@, qc)
                    &&& !has_tag(final(self).path@, tag)
                    &&& final(self).path@.len() == old(self).path@.len() - 1
                    &&& forall|i: int|
                        0 <= i < final(self).path@.len() ==> has_component(
                            old(self).path@,
                            #[trigger] final(self).path@[i],
                        )
                    &&& forall|i: int|
                        0 <= i < old(self).path@.len() && (#[trigger] old(self).path@[i]).tag
                            != tag ==> has_component(final(self).path@, old(self).path@[i])
                },
                Err(e) => {
                    &&& !has_tag(old(self).path@, tag)
                    &&& final(self).path@ == old(self).path@
                    &&& e matches QueryError::MissingTag { tag: t } && t == tag
                },
            },
    {
        let n = self.path.len();
        let mut i: usize = 0;
        let mut at: Option<usize> = None;
        while i < n
            invariant
                n == self.path@.len(),
                i <= n,
                match at {
                    Some(a) => a < i && self.path@[a as int].tag == tag,
                    None => forall|j: int| 0 <= j < i ==> (#[trigger] self.path@[j]).tag != tag,
                },
            decreases n - i,
        {
            if at.is_none() && self.path[i].tag == tag {
                at = Some(i);
            }
            i += 1;
        }
        match at {
            Some(a) => {
                let ghost pre = self.path@;
                let qc = self.path.swap_remove(a);
                proof {
                    let post = self.path@;
                    assert(post == pre.update(a as int, pre.last()).drop_last());
                    assert forall|i: int| 0 <= i < post.len() implies has_component(
                        pre,
                        #[trigger] post[i],
                    ) by {
                        if i == a {
                            assert(post[i] == pre[pre.len() - 1]);
                            assert(qc_eq(pre[pre.len() - 1], post[i]));
                        } else {
                            assert(post[i] == pre[i]);
                            assert(qc_eq(pre[i], post[i]));
                        }
                    }
                    assert forall|i: int|
                        0 <= i < pre.len() && (#[trigger] pre[i]).tag != tag implies has_component(
                        post,
                        pre[i],
                    ) by {
                        if i == pre.len() - 1 {
                            if a < post.len() {
                                assert(qc_eq(post[a as int], pre[i]));
                            } else {
                                assert(false);
                            }
                        } else {
                            assert(qc_eq(post[i], pre[i]));
                        }
                    }
                    assert forall|i: int| 0 <= i < post.len() implies (#[trigger] post[i]).tag
                        != tag by {
                        if i != a {
                            assert(post[i] == pre[i]);
                        } else if a < pre.len() - 1 {
                            assert(post[i] == pre[pre.len() - 1]);
                        }
                    }
                }
                Ok(qc)
            },
            None => Err(QueryError::MissingTag { tag }),
        }
    }

    /// Removes the component for a tag and parses its selector values into
    /// the typed domain, reporting the first value that fails to parse.
    pub fn extract_as<T: QueryValue>(&mut self, tag: Tag) -> (r: Result<Selector<T>, QueryError>)
        requires
            components_wf(old(self).path@),
        ensures
            components_wf(final(self).path@),
            match r {
                Ok(sel) => {
                    &&& exists|qc: QueryComponent|
                        #[trigger] has_component(old(self).path@, qc) && qc.tag == tag
                            && sel_parses::<T>(qc.raw, sel)
                    &&& !has_tag(final(self).path@, tag)
                    &&& final(self).path@.len() == old(self).path@.len() - 1
                    &&& forall|i: int|
                        0 <= i < final(self).path@.len() ==> has_component(
                            old(self).path@,
                            #[trigger] final(self).path@[i],
                        )
                    &&& forall|i: int|
                        0 <= i < old(self).path@.len() && (#[trigger] old(self).path@[i]).tag
                            != tag ==> has_component(final(self).path@, old(self).path@[i])
                },
                Err(QueryError::MissingTag { tag: t }) => {
                    &&& t == tag
                    &&& !has_tag(old(self).path@, tag)
                    &&& final(self).path@ == old(self).path@
                },
                Err(QueryError::Parse { tag: t, value }) => {
                    &&& t == tag
                    &&& !T::parse_ok(value@)
                    &&& exists|qc: QueryComponent|
                        #[trigger] has_component(old(self).path@, qc) && qc.tag == tag
                            && sel_has_string(qc.raw, value@)
                    &&& has_tag(old(self).path@, tag)
                    &&& !has_tag(final(self).path@, tag)
                },
                Err(QueryError::Unconsumed { .. }) => false,
            },
    {
        let qc = match self.extract(tag) {
            Ok(qc) => qc,
            Err(e) => {
                return Err(e);
            },
        };
        let ghost gqc = qc;
        match qc.raw {
            Selector::All => {
                proof {
                    assert(has_component(old(self).path@, gqc) && gqc.tag == tag && sel_parses::<
                        T,
                    >(gqc.raw, Selector::<T>::All));
                }
                Ok(Selector::All)
            },
            Selector::One(s) => {
                match T::parse_from(s.as_str()) {
                    Some(v) => {
                        proof {
                            assert(has_component(old(self).path@, gqc) && gqc.tag == tag
                                && sel_parses::<T>(gqc.raw, Selector::One(v)));
                        }
                        Ok(Selector::One(v))
                    },
                    None => {
                        proof {
                            assert(has_component(old(self).path@, gqc) && gqc.tag == tag
                                && sel_has_string(gqc.raw, s@));
                        }
                        Err(QueryError::Parse { tag, value: s })
                    },
                }
            },
            Selector::Subset(ss) => {
                let ghost orig = ss@;
                let mut ss = ss;
                let mut vs: Vec<T> = Vec::new();
                while ss.len() > 0
                    invariant
                        vs@.len() + ss@.len() == orig.len(),
                        ss@ == orig.skip(vs@.len() as int),
                        forall|i: int|
                            0 <= i < vs@.len() ==> T::parse_ok(#[trigger] orig[i]@)
                                && vs@[i].spec_render() == orig[i]@,
                        components_wf(self.path@),
                        !has_tag(self.path@, tag),
                        has_tag(old(self).path@, tag),
                        self.path@.len() == old(self).path@.len() - 1,
                        forall|i: int|
                            0 <= i < self.path@.len() ==> has_component(
                                old(self).path@,
                                #[trigger] self.path@[i],
                            ),
                        forall|i: int|
                            0 <= i < old(self).path@.len() && (#[trigger] old(self).path@[i]).tag
                                != tag ==> has_component(self.path@, old(self).path@[i]),
                        gqc.tag == tag,
                        has_component(old(self).path@, gqc),
                        gqc.raw matches Selector::Subset(o) && o@ == orig,
                    decreases ss@.len(),
                {
                    let ghost k = vs@.len() as int;
                    let s = ss.remove(0);
                    proof {
                        assert(s == orig[k]);
                        assert(ss@ =~= orig.skip(k + 1));
                    }
                    match T::parse_from(s.as_str()) {
                        Some(v) => vs.push(v),
                        None => {
                            proof {
                                assert(gqc.raw matches Selector::Subset(o) && 0 <= k < o@.len()
                                    && o@[k]@ == s@);
                                assert(has_component(old(self).path@, gqc) && gqc.tag == tag
                                    && sel_has_string(gqc.raw, s@));
                            }
                            return Err(QueryError::Parse { tag, value: s });
                        },
                    }
                }
                let sel = Selector::Subset(vs);
                proof {
                    assert(gqc.raw matches Selector::Subset(o) && o@ == orig);
                    assert(sel_parses::<T>(gqc.raw, sel));
                    assert(has_component(old(self).path@, gqc) && gqc.tag == tag);
                }
                Ok(sel)
            },
        }
    }

    /// Succeeds exactly when no component remains; otherwise reports the
    /// remaining tags in query order.
    pub fn assert_empty(&self) -> (r: Result<(), QueryError>)
        ensures
            match r {
                Ok(()) => self.path@.len() == 0,
                Err(e) => self.path@.len() > 0 && (e matches QueryError::Unconsumed { tags }
                    && tags@.len() == self.path@.len() && forall|i: int|
                    0 <= i < tags@.len() ==> tags@[i] == (#[trigger] self.path@[i]).tag),
            },
    {
        if self.path.is_empty() {
            Ok(())
        } else {
            let n = self.path.len();
            let mut tags: Vec<Tag> = Vec::new();
            let mut i: usize = 0;
            while i < n
                invariant
                    n == self.path@.len(),
                    i <= n,
                    tags@.len() == i,
                    forall|j: int| 0 <= j < i ==> tags@[j] == (#[trigger] self.path@[j]).tag,
                decreases n - i,
            {
                tags.push(self.path[i].tag);
                i += 1;
            }
            Err(QueryError::Unconsumed { tags })
        }
    }
}

/// Whether the raw selector holds the given string among its values.
pub open spec fn sel_has_string(raw: Selector<String>, v: Seq<char>) -> bool {
    match raw {
        Selector::All => false,
        Selector::One(s) => s@ == v,
        Selector::Subset(ss) => exists|i: int| 0 <= i < ss@.len() && (#[trigger] ss@[i])@ == v,
    }
}

/// Whether every value of the raw selector parses in `T`'s domain.
pub open spec fn sel_all_parse<T: QueryValue>(raw: Selector<String>) -> bool {
    match raw {
        Selector::All => true,
        Selector::One(s) => T::parse_ok(s@),
        Selector::Subset(ss) => forall|i: int|
            0 <= i < ss@.len() ==> T::parse_ok((#[trigger] ss@[i])@),
    }
}

/// Whether the typed selector is the element-wise parse of the raw one.
pub open spec fn sel_parses<T: QueryValue>(raw: Selector<String>, sel: Selector<T>) -> bool {
    match (raw, sel) {
        (Selector::All, Selector::All) => true,
        (Selector::One(s), Selector::One(v)) => T::parse_ok(s@) && v.spec_render() == s@,
        (Selector::Subset(ss), Selector::Subset(vs)) => ss@.len() == vs@.len() && forall|i: int|
            0 <= i < ss@.len() ==> T::parse_ok((#[trigger] ss@[i])@) && vs@[i].spec_render()
                == ss@[i]@,
        _ => false,
    }
}

/// One concrete dimension value of a resolved series key.
#[derive(Debug)]
pub enum PathComponent {
    Crate(Benchmark),
    Profile(Profile),
    Cache(Scenario),
    QueryLabel(QueryLabel),
    ProcessStatistic(Metric),
}

impl PathComponent {
    /// The dimension this component fills.
    pub open spec fn spec_tag(&self) -> Tag {
        match self {
            PathComponent::Crate(_) => Tag::Benchmark,
            PathComponent::Profile(_) => Tag::Profile,
            PathComponent::Cache(_) => Tag::Scenario,
            PathComponent::ProcessStatistic(_) => Tag::Metric,
            PathComponent::QueryLabel(_) => Tag::QueryLabel,
        }
    }

    pub fn as_tag(&self) -> (t: Tag)
        ensures
            t == self.spec_tag(),
    {
        match self {
            PathComponent::Crate(_) => Tag::Benchmark,
            PathComponent::Profile(_) => Tag::Profile,
            PathComponent::Cache(_) => Tag::Scenario,
            PathComponent::ProcessStatistic(_) => Tag::Metric,
            PathComponent::QueryLabel(_) => Tag::QueryLabel,
        }
    }

    /// The canonical text of the contained value.
    pub open spec fn spec_text(&self) -> Seq<char> {
        match self {
            PathComponent::Crate(v) => v.spec_render(),
            PathComponent::Profile(v) => v.spec_render(),
            PathComponent::Cache(v) => v.spec_render(),
            PathComponent::ProcessStatistic(v) => v.spec_render(),
            PathComponent::QueryLabel(v) => v.spec_render(),
        }
    }
}

/// Contents equality of path components: same dimension, same text.
pub open spec fn pc_eq(a: PathComponent, b: PathComponent) -> bool {
    a.spec_tag() == b.spec_tag() && a.spec_text() == b.spec_text()
}

impl Clone for PathComponent {
    fn clone(&self) -> (r: Self)
        ensures
            pc_eq(r, *self),
    {
        match self {
            PathComponent::Crate(v) => PathComponent::Crate(v.clone()),
            PathComponent::Profile(v) => PathComponent::Profile(*v),
            PathComponent::Cache(v) => PathComponent::Cache(v.clone()),
            PathComponent::ProcessStatistic(v) => PathComponent::ProcessStatistic(v.clone()),
            PathComponent::QueryLabel(v) => PathComponent::QueryLabel(v.clone()),
        }
    }
}

/// Whether some component of the sequence fills the tag.
pub open spec fn has_pc_tag(s: Seq<PathComponent>, t: Tag) -> bool {
    exists|i: int| 0 <= i < s.len() && (#[trigger] s[i]).spec_tag() == t
}

/// Whether the sequence holds a component with the given contents.
pub open spec fn has_pc(s: Seq<PathComponent>, c: PathComponent) -> bool {
    exists|i: int| 0 <= i < s.len() && pc_eq(#[trigger] s[i], c)
}

/// At most one component per tag.
pub open spec fn path_wf(s: Seq<PathComponent>) -> bool {
    forall|i: int, j: int|
        0 <= i < j < s.len() ==> (#[trigger] s[i]).spec_tag() != (#[trigger] s[j]).spec_tag()
}

/// In a well-formed path, every component filling a tag carried by `c` has
/// `c`'s contents: a path holds exactly one value per dimension, so setting a
/// tag twice leaves one component, the later value.
pub proof fn lemma_path_tag_unique(s: Seq<PathComponent>, c: PathComponent)
    requires
        path_wf(s),
        has_pc(s, c),
    ensures
        forall|i: int|
            0 <= i < s.len() && (#[trigger] s[i]).spec_tag() == c.spec_tag() ==> pc_eq(s[i], c),
{
    let j = choose|j: int| 0 <= j < s.len() && pc_eq(#[trigger] s[j], c);
    assert forall|i: int|
        0 <= i < s.len() && (#[trigger] s[i]).spec_tag() == c.spec_tag() implies pc_eq(
        s[i],
        c,
    ) by {
        if i < j {
            assert(s[i].spec_tag() != s[j].spec_tag());
        } else if j < i {
            assert(s[j].spec_tag() != s[i].spec_tag());
        }
    }
}

/// The concrete key that matched a query: an ordered set of components with
/// at most one per tag; re-setting a tag replaces the previous value.
#[derive(Debug)]
pub struct Path {
    pub path: Vec<PathComponent>,
}

impl Clone for Path {
    fn clone(&self) -> (r: Self)
        ensures
            r.path@.len() == self.path@.len(),
            forall|i: int| 0 <= i < self.path@.len() ==> pc_eq(#[trigger] r.path@[i], self.path@[i]),
    {
        let n = self.path.len();
        let mut out: Vec<PathComponent> = Vec::new();
        let mut i: usize = 0;
        while i < n
            invariant
                n == self.path@.len(),
                i <= n,
                out@.len() == i,
                forall|j: int| 0 <= j < i ==> pc_eq(#[trigger] out@[j], self.path@[j]),
            decreases n - i,
        {
            out.push(self.path[i].clone());
            i += 1;
        }
        Path { path: out }
    }
}

impl Path {
    pub fn new() -> (r: Self)
        ensures
            r.path@.len() == 0,
    {
        Path { path: Vec::new() }
    }

    /// Adds a component, replacing any existing component for the same tag,
    /// so that exactly one component carries that tag afterwards.
    pub fn set(self, component: PathComponent) -> (r: Self)
        requires
            path_wf(self.path@),
        ensures
            path_wf(r.path@),
            has_pc(r.path@, component),
            forall|i: int|
                0 <= i < self.path@.len() && (#[trigger] self.path@[i]).spec_tag()
                    != component.spec_tag() ==> has_pc(r.path@, self.path@[i]),
            forall|i: int|
                0 <= i < r.path@.len() && (#[trigger] r.path@[i]).spec_tag()
                    != component.spec_tag() ==> has_pc(self.path@, r.path@[i]),
            r.path@.len() == if has_pc_tag(self.path@, component.spec_tag()) {
                self.path@.len()
            } else {
                self.path@.len() + 1
            },
    {
        let mut p = self;
        let ghost ctag = component.spec_tag();
        let n = p.path.len();
        let mut i: usize = 0;
        let mut at: Option<usize> = None;
        let tag = component.as_tag();
        while i < n
            invariant
                n == p.path@.len(),
                i <= n,
                tag == ctag,
                match at {
                    Some(a) => a < i && p.path@[a as int].spec_tag() == ctag,
                    None => forall|j: int| 0 <= j < i ==> (#[trigger] p.path@[j]).spec_tag() != ctag,
                },
            decreases n - i,
        {
            if at.is_none() && p.path[i].as_tag() == tag {
                at = Some(i);
            }
            i += 1;
        }
        match at {
            Some(a) => {
                let ghost pre = p.path@;
                p.path[a] = component;
                proof {
                    assert(pc_eq(p.path@[a as int], component));
                    assert forall|i: int|
                        0 <= i < pre.len() && (#[trigger] pre[i]).spec_tag() != ctag
                        implies has_pc(p.path@, pre[i]) by {
                        assert(pc_eq(p.path@[i], pre[i]));
                    }
                    assert forall|i: int|
                        0 <= i < p.path@.len() && (#[trigger] p.path@[i]).spec_tag() != ctag
                        implies has_pc(pre, p.path@[i]) by {
                        assert(pc_eq(pre[i], p.path@[i]));
                    }
                }
                p
            },
            None => {
                let ghost pre = p.path@;
                p.path.push(component);
                proof {
                    assert(pc_eq(p.path@[p.path@.len() - 1], component));
                    assert forall|i: int|
                        0 <= i < pre.len() && (#[trigger] pre[i]).spec_tag() != ctag
                        implies has_pc(p.path@, pre[i]) by {
                        assert(pc_eq(p.path@[i], pre[i]));
                    }
                    assert forall|i: int|
                        0 <= i < p.path@.len() && (#[trigger] p.path@[i]).spec_tag() != ctag
                        implies has_pc(pre, p.path@[i]) by {
                        assert(i < pre.len());
                        assert(pc_eq(pre[i], p.path@[i]));
                    }
                }
                p
            },
        }
    }

    /// The unique component of the kind `V` reads, failing with the expected
    /// tag when the path carries none.
    pub fn get<V: GetValue>(&self) -> (r: Result<&V, MissingSelectorError>)
        ensures
            match r {
                Ok(v) => exists|i: int|
                    0 <= i < self.path@.len() && (#[trigger] V::spec_value(self.path@[i]))
                        == Some(*v),
                Err(e) => (forall|i: int|
                    0 <= i < self.path@.len() ==> (#[trigger] V::spec_value(self.path@[i]))
                        is None) && e.tag == V::spec_tag(),
            },
    {
        let n = self.path.len();
        let mut i: usize = 0;
        while i < n
            invariant
                n == self.path@.len(),
                i <= n,
                forall|j: int| 0 <= j < i ==> (#[trigger] V::spec_value(self.path@[j])) is None,
            decreases n - i,
        {
            match V::value(&self.path[i]) {
                Some(v) => {
                    return Ok(v);
                },
                None => {},
            }
            i += 1;
        }
        Err(MissingSelectorError { tag: V::expected_tag() })
    }
}

/// Reads the value of one dimension out of a path component.
pub trait GetValue: Sized {
    /// The tag this kind of value fills.
    spec fn spec_tag() -> Tag;

    /// The value the component carries, when it is of this kind.
    spec fn spec_value(component: PathComponent) -> Option<Self>;

    fn value(component: &PathComponent) -> (r: Option<&Self>)
        ensures
            match r {
                Some(v) => Self::spec_value(*component) == Some(*v),
                None => Self::spec_value(*component) is None,
            };

    fn expected_tag() -> (t: Tag)
        ensures
            t == Self::spec_tag(),
    ;

    /// A component readable as this kind fills this kind's tag.
    proof fn value_tag_law(component: PathComponent)
        ensures
            Self::spec_value(component) is Some ==> component.spec_tag() == Self::spec_tag(),
    ;
}

impl GetValue for Benchmark {
    open spec fn spec_tag() -> Tag {
        Tag::Benchmark
    }

    open spec fn spec_value(component: PathComponent) -> Option<Self> {
        match component {
            PathComponent::Crate(v) => Some(v),
            _ => None,
        }
    }

    fn value(component: &PathComponent) -> (r: Option<&Self>) {
        match component {
            PathComponent::Crate(v) => Some(v),
            _ => None,
        }
    }

    fn expected_tag() -> (t: Tag) {
        Tag::Benchmark
    }

    proof fn value_tag_law(component: PathComponent) {
    }
}

impl GetValue for Profile {
    open spec fn spec_tag() -> Tag {
        Tag::Profile
    }

    open spec fn spec_value(component: PathComponent) -> Option<Self> {
        match component {
            PathComponent::Profile(v) => Some(v),
            _ => None,
        }
    }

    fn value(component: &PathComponent) -> (r: Option<&Self>) {
        match component {
            PathComponent::Profile(v) => Some(v),
            _ => None,
        }
    }

    fn expected_tag() -> (t: Tag) {
        Tag::Profile
    }

    proof fn value_tag_law(component: PathComponent) {
    }
}

impl GetValue for Scenario {
    open spec fn spec_tag() -> Tag {
        Tag::Scenario
    }

    open spec fn spec_value(component: PathComponent) -> Option<Self> {
        match component {
            PathComponent::Cache(v) => Some(v),
            _ => None,
        }
    }

    fn value(component: &PathComponent) -> (r: Option<&Self>) {
        match component {
            PathComponent::Cache(v) => Some(v),
            _ => None,
        }
    }

    fn expected_tag() -> (t: Tag) {
        Tag::Scenario
    }

    proof fn value_tag_law(component: PathComponent) {
    }
}

impl GetValue for Metric {
    open spec fn spec_tag() -> Tag {
        Tag::Metric
    }

    open spec fn spec_value(component: PathComponent) -> Option<Self> {
        match component {
            PathComponent::ProcessStatistic(v) => Some(v),
            _ => None,
        }
    }

    fn value(component: &PathComponent) -> (r: Option<&Self>) {
        match component {
            PathComponent::ProcessStatistic(v) => Some(v),
            _ => None,
        }
    }

    fn expected_tag() -> (t: Tag) {
        Tag::Metric
    }

    proof fn value_tag_law(component: PathComponent) {
    }
}

impl GetValue for QueryLabel {
    open spec fn spec_tag() -> Tag {
        Tag::QueryLabel
    }

    open spec fn spec_value(component: PathComponent) -> Option<Self> {
        match component {
            PathComponent::QueryLabel(v) => Some(v),
            _ => None,
        }
    }

    fn value(component: &PathComponent) -> (r: Option<&Self>) {
        match component {
            PathComponent::QueryLabel(v) => Some(v),
            _ => None,
        }
    }

    fn expected_tag() -> (t: Tag) {
        Tag::QueryLabel
    }

    proof fn value_tag_law(component: PathComponent) {
    }
}

/// Pairs the resolved path that matched a query with the series of values
/// fetched for it.
#[derive(Debug)]
pub struct SeriesResponse<T> {
    pub path: Path,
    pub series: T,
}

impl<T> SeriesResponse<T> {
    /// Rewraps the series, keeping the resolved path.
    pub fn map<U, F: FnOnce(T) -> U>(self, m: F) -> (r: SeriesResponse<U>)
        requires
            m.requires((self.series,)),
        ensures
            r.path == self.path,
            m.ensures((self.series,), r.series),
    {
        SeriesResponse { path: self.path, series: m(self.series) }
    }
}

/// A provider's series: a value per artifact of one resolved key.
pub trait Series {
    type Element;
}

/// Exactly one provider accepted the query; otherwise the aggregation of
/// every provider's rejection, or an internal-consistency fault when two
/// providers both claimed the same query.
#[derive(Debug)]
pub enum DispatchError {
    /// No provider matched; the rejection reasons joined with "; or ".
    NoneMatched { message: String },
    /// More than one provider succeeded on the same query: an internal
    /// invariant violation, detected rather than silently resolved.
    Ambiguous,
}

/// How many outcomes succeeded.
pub open spec fn ok_count<T>(s: Seq<Result<T, String>>) -> nat
    decreases s.len(),
{
    if s.len() == 0 {
        0
    } else {
        ok_count(s.drop_last()) + if s.last() is Ok {
            1nat
        } else {
            0nat
        }
    }
}

/// The error texts joined in order with "; or ", skipping the separator
/// while the accumulated text is still empty.
pub open spec fn err_join<T>(s: Seq<Result<T, String>>) -> Seq<char>
    decreases s.len(),
{
    if s.len() == 0 {
        Seq::empty()
    } else {
        let prev = err_join(s.drop_last());
        match s.last() {
            Err(e) => if prev.len() == 0 {
                e@
            } else {
                prev + "; or "@ + e@
            },
            Ok(_) => prev,
        }
    }
}

/// Collects the outcomes of every provider on one query: the single success
/// if exactly one provider succeeded, the joined rejections if none did, and
/// the ambiguity fault if several did.
pub fn handle_results<T>(results: Vec<Result<T, String>>) -> (r: Result<T, DispatchError>)
    ensures
        match r {
            Ok(v) => ok_count(results@) == 1 && exists|i: int|
                0 <= i < results@.len() && #[trigger] results@[i] == Ok::<T, String>(v),
            Err(DispatchError::Ambiguous) => ok_count(results@) >= 2,
            Err(DispatchError::NoneMatched { message }) => ok_count(results@) == 0 && message@
                == "Failed to process query; fix one of these errors: "@ + err_join(results@),
        },
{
    let ghost orig = results@;
    let mut results = results;
    let mut ok: Option<T> = None;
    let mut two = false;
    let mut joined = String::new();
    while results.len() > 0
        invariant
            results@.len() <= orig.len(),
            results@ == orig.skip((orig.len() - results@.len()) as int),
            ({
                let k = (orig.len() - results@.len()) as int;
                &&& match ok {
                    None => !two && ok_count(orig.take(k)) == 0,
                    Some(v) => if two {
                        ok_count(orig.take(k)) >= 2
                    } else {
                        ok_count(orig.take(k)) == 1 && exists|i: int|
                            0 <= i < k && #[trigger] orig[i] == Ok::<T, String>(v)
                    },
                }
                &&& joined@ == err_join(orig.take(k))
            }),
        decreases results@.len(),
    {
        let ghost k = (orig.len() - results@.len()) as int;
        let x = results.remove(0);
        proof {
            assert(x == orig[k]);
            assert(results@ =~= orig.skip(k + 1));
            assert(orig.take(k + 1).drop_last() =~= orig.take(k));
            assert(orig.take(k + 1).last() == orig[k]);
        }
        match x {
            Ok(v) => {
                if ok.is_none() {
                    ok = Some(v);
                } else {
                    two = true;
                }
            },
            Err(e) => {
                if joined.as_str().is_empty() {
                    joined = e;
                } else {
                    joined.append("; or ");
                    joined.append(e.as_str());
                }
            },
        }
    }
    proof {
        assert(orig.take(orig.len() as int) =~= orig);
    }
    if two {
        Err(DispatchError::Ambiguous)
    } else {
        match ok {
            Some(v) => Ok(v),
            None => {
                let message = "Failed to process query; fix one of these errors: ".to_owned()
                    .concat(joined.as_str());
                Err(DispatchError::NoneMatched { message })
            },
        }
    }
}

} // verus!

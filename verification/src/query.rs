//! The recursive query combinator and how a request value is read as one.
//!
//! `bool` is the only recursive case; every other variant names a field and
//! a literal. A query shape that the engine does not recognize becomes
//! [`Query::NoMatch`], which scores zero against every document.

use vstd::prelude::*;

use crate::value::{ValV, Val};

verus! {

broadcast use vstd::std_specs::vec::group_vec_axioms;

/// A search query.
pub enum Query {
    /// Case-insensitive text match against one field (`_all` and `*` search
    /// every leaf of the document).
    Match { field: String, text: String },
    /// Like `Match`, but a multi-word phrase must occur in order for a full
    /// score.
    MatchPhrase { field: String, text: String },
    /// The best `Match` score over several fields.
    MultiMatch { fields: Vec<String>, text: String },
    /// Structural equality of the resolved field value and a literal.
    Term { field: String, value: Val },
    /// Structural equality against any of the listed literals.
    Terms { field: String, values: Vec<Val> },
    /// Case-insensitive prefix test on the field's string rendering.
    Prefix { field: String, text: String },
    /// Anchored glob over the field's string value.
    Wildcard { field: String, pattern: String },
    /// Numeric bounds on the field value (a number, or a numeric string).
    Range {
        field: String,
        gte: Option<i64>,
        gt: Option<i64>,
        lte: Option<i64>,
        lt: Option<i64>,
    },
    /// The boolean combinator.
    Bool {
        must: Vec<Query>,
        should: Vec<Query>,
        must_not: Vec<Query>,
        filter: Vec<Query>,
    },
    /// Matches every document.
    MatchAll,
    /// An unrecognized query: matches nothing.
    NoMatch,
}

/// The mathematical model of a [`Query`].
pub ghost enum QueryV {
    Match { field: Seq<char>, text: Seq<char> },
    MatchPhrase { field: Seq<char>, text: Seq<char> },
    MultiMatch { fields: Seq<Seq<char>>, text: Seq<char> },
    Term { field: Seq<char>, value: ValV },
    Terms { field: Seq<char>, values: Seq<ValV> },
    Prefix { field: Seq<char>, text: Seq<char> },
    Wildcard { field: Seq<char>, pattern: Seq<char> },
    Range {
        field: Seq<char>,
        gte: Option<int>,
        gt: Option<int>,
        lte: Option<int>,
        lt: Option<int>,
    },
    Bool {
        must: Seq<QueryV>,
        should: Seq<QueryV>,
        must_not: Seq<QueryV>,
        filter: Seq<QueryV>,
    },
    MatchAll,
    NoMatch,
}

pub open spec fn bound_view(b: Option<i64>) -> Option<int> {
    match b {
        Option::Some(x) => Option::Some(x as int),
        Option::None => Option::None,
    }
}

pub open spec fn query_list_view(qs: Seq<Query>) -> Seq<QueryV> {
    Seq::new(
        qs.len(),
        |i: int|
            if 0 <= i < qs.len() {
                query_view(qs[i])
            } else {
                QueryV::NoMatch
            },
    )
}

pub open spec fn string_list_view(ss: Seq<String>) -> Seq<Seq<char>> {
    Seq::new(
        ss.len(),
        |i: int|
            if 0 <= i < ss.len() {
                ss[i]@
            } else {
                Seq::empty()
            },
    )
}

pub open spec fn value_list_view(vs: Seq<Val>) -> Seq<ValV> {
    Seq::new(
        vs.len(),
        |i: int|
            if 0 <= i < vs.len() {
                vs[i]@
            } else {
                ValV::Null
            },
    )
}

pub open spec fn query_view(q: Query) -> QueryV
    decreases q,
{
    match q {
        Query::Match { field, text } => QueryV::Match { field: field@, text: text@ },
        Query::MatchPhrase { field, text } => QueryV::MatchPhrase { field: field@, text: text@ },
        Query::MultiMatch { fields, text } => QueryV::MultiMatch {
            fields: string_list_view(fields@),
            text: text@,
        },
        Query::Term { field, value } => QueryV::Term { field: field@, value: value@ },
        Query::Terms { field, values } => QueryV::Terms {
            field: field@,
            values: value_list_view(values@),
        },
        Query::Prefix { field, text } => QueryV::Prefix { field: field@, text: text@ },
        Query::Wildcard { field, pattern } => QueryV::Wildcard {
            field: field@,
            pattern: pattern@,
        },
        Query::Range { field, gte, gt, lte, lt } => QueryV::Range {
            field: field@,
            gte: bound_view(gte),
            gt: bound_view(gt),
            lte: bound_view(lte),
            lt: bound_view(lt),
        },
        Query::Bool { must, should, must_not, filter } => QueryV::Bool {
            must: Seq::new(
                must@.len(),
                |i: int|
                    if 0 <= i < must@.len() {
                        query_view(must@[i])
                    } else {
                        QueryV::NoMatch
                    },
            ),
            should: Seq::new(
                should@.len(),
                |i: int|
                    if 0 <= i < should@.len() {
                        query_view(should@[i])
                    } else {
                        QueryV::NoMatch
                    },
            ),
            must_not: Seq::new(
                must_not@.len(),
                |i: int|
                    if 0 <= i < must_not@.len() {
                        query_view(must_not@[i])
                    } else {
                        QueryV::NoMatch
                    },
            ),
            filter: Seq::new(
                filter@.len(),
                |i: int|
                    if 0 <= i < filter@.len() {
                        query_view(filter@[i])
                    } else {
                        QueryV::NoMatch
                    },
            ),
        },
        Query::MatchAll => QueryV::MatchAll,
        Query::NoMatch => QueryV::NoMatch,
    }
}

impl View for Query {
    type V = QueryV;

    open spec fn view(&self) -> QueryV {
        query_view(*self)
    }
}

} // verus!

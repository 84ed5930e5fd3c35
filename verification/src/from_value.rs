//! Reading search requests out of document values: the query combinator,
//! the sort specification, the source filter and the highlight
//! configuration. Unrecognized shapes become queries that match nothing,
//! mirroring how the engine treats them.

use vstd::prelude::*;

use crate::bulk::{spec_as_str, spec_value_get, value_get};
use crate::highlight::HighlightConfig;
use crate::query::{Query, QueryV};
use crate::results::SortDir;
use crate::source_filter::SourceFilter;
use crate::text::str_chars;
use crate::value::{spec_obj_get, view_fields, ValV, Val};

verus! {

broadcast use vstd::std_specs::vec::group_vec_axioms;

/// The query text of a `match`-like clause value: the string itself, or an
/// object's `query` field, else empty.
pub open spec fn spec_clause_text(v: ValV) -> Seq<char> {
    match v {
        ValV::Str(s) => s,
        ValV::Obj(_) => match spec_as_str(spec_value_get(v, "query"@)) {
            Option::Some(s) => s,
            Option::None => Seq::empty(),
        },
        _ => Seq::empty(),
    }
}

/// The pattern of a `prefix`/`wildcard` clause value: the string itself, or
/// an object's `value` field, else empty.
pub open spec fn spec_clause_value_text(v: ValV) -> Seq<char> {
    match v {
        ValV::Str(s) => s,
        ValV::Obj(_) => match spec_as_str(spec_value_get(v, "value"@)) {
            Option::Some(s) => s,
            Option::None => Seq::empty(),
        },
        _ => Seq::empty(),
    }
}

/// A numeric range bound, taken only from a number.
pub open spec fn spec_bound(v: Option<ValV>) -> Option<int> {
    match v {
        Option::Some(x) => match x {
            ValV::Int(n) => Option::Some(n),
            _ => Option::None,
        },
        Option::None => Option::None,
    }
}

/// The string entries of a value list, in order.
pub open spec fn spec_string_items(items: Seq<ValV>, i: int) -> Seq<Seq<char>>
    decreases i,
{
    if i <= 0 || i > items.len() {
        Seq::empty()
    } else {
        spec_string_items(items, i - 1) + (match items[i - 1] {
            ValV::Str(s) => seq![s],
            _ => Seq::empty(),
        })
    }
}

/// Position of the first binding of `key`, `-1` when absent.
pub open spec fn spec_obj_index_of(fields: Seq<(Seq<char>, ValV)>, key: Seq<char>) -> int
    decreases fields.len(),
{
    if fields.len() == 0 {
        -1
    } else if fields[0].0 == key {
        0
    } else {
        let r = spec_obj_index_of(fields.skip(1), key);
        if r < 0 {
            -1
        } else {
            r + 1
        }
    }
}

pub proof fn lemma_obj_index_of(fields: Seq<(Seq<char>, ValV)>, key: Seq<char>)
    ensures
        spec_obj_index_of(fields, key) >= 0 ==> spec_obj_index_of(fields, key) < fields.len()
            && fields[spec_obj_index_of(fields, key)].0 == key && spec_obj_get(fields, key)
            == Option::Some(fields[spec_obj_index_of(fields, key)].1),
        spec_obj_index_of(fields, key) < 0 ==> spec_obj_get(fields, key) is None,
    decreases fields.len(),
{
    if fields.len() > 0 && fields[0].0 != key {
        lemma_obj_index_of(fields.skip(1), key);
    }
}

/// The clause list stored under `key` inside the `bool` object that is the
/// value of `fields[bi]`: an array's entries read as queries, anything else
/// an empty list.
pub open spec fn spec_bool_clauses(
    fields: Seq<(Seq<char>, ValV)>,
    bi: int,
    key: Seq<char>,
) -> Seq<QueryV>
    decreases fields, 2int, 0int,
{
    if 0 <= bi < fields.len() {
        match fields[bi].1 {
            ValV::Obj(bf) => {
                let ci = spec_obj_index_of(bf, key);
                if 0 <= ci < bf.len() {
                    match bf[ci].1 {
                        ValV::Arr(items) => spec_bool_items(
                            fields,
                            bi,
                            ci,
                            items.len() as int,
                        ),
                        _ => Seq::empty(),
                    }
                } else {
                    Seq::empty()
                }
            },
            _ => Seq::empty(),
        }
    } else {
        Seq::empty()
    }
}

/// The first `k` entries of that clause array, read as queries.
pub open spec fn spec_bool_items(
    fields: Seq<(Seq<char>, ValV)>,
    bi: int,
    ci: int,
    k: int,
) -> Seq<QueryV>
    decreases fields, 1int, k,
{
    if !(0 <= bi < fields.len()) || k <= 0 {
        Seq::empty()
    } else {
        match fields[bi].1 {
            ValV::Obj(bf) => {
                if 0 <= ci < bf.len() {
                    match bf[ci].1 {
                        ValV::Arr(items) => {
                            if k <= items.len() {
                                spec_bool_items(fields, bi, ci, k - 1) + seq![
                                    spec_query_from_value(items[k - 1]),
                                ]
                            } else {
                                Seq::empty()
                            }
                        },
                        _ => Seq::empty(),
                    }
                } else {
                    Seq::empty()
                }
            },
            _ => Seq::empty(),
        }
    }
}

/// The query a request value denotes. The clause kinds are tried in a fixed
/// order; a shape that fits none of them matches nothing, and an empty
/// object matches everything.
pub open spec fn spec_query_from_value(v: ValV) -> QueryV
    decreases v, 3int, 0int,
{
    match v {
        ValV::Obj(fields) => {
            if fields.len() == 0 {
                QueryV::MatchAll
            } else {
                let m = spec_value_get(v, "match"@);
                let mp = spec_value_get(v, "match_phrase"@);
                let mm = spec_value_get(v, "multi_match"@);
                let rg = spec_value_get(v, "range"@);
                let tm = spec_value_get(v, "term"@);
                let tms = spec_value_get(v, "terms"@);
                let pf = spec_value_get(v, "prefix"@);
                let wc = spec_value_get(v, "wildcard"@);
                let bl = spec_value_get(v, "bool"@);
                if m is Some && m->Some_0 is Obj && m->Some_0->Obj_0.len() > 0 {
                    let mf = m->Some_0->Obj_0;
                    QueryV::Match { field: mf[0].0, text: spec_clause_text(mf[0].1) }
                } else if mp is Some && mp->Some_0 is Obj && mp->Some_0->Obj_0.len() > 0 {
                    let mf = mp->Some_0->Obj_0;
                    QueryV::MatchPhrase { field: mf[0].0, text: spec_clause_text(mf[0].1) }
                } else if mm is Some && mm->Some_0 is Obj {
                    let q = mm->Some_0;
                    let text = match spec_as_str(spec_value_get(q, "query"@)) {
                        Option::Some(s) => s,
                        Option::None => Seq::empty(),
                    };
                    let flds = match spec_value_get(q, "fields"@) {
                        Option::Some(fv) => match fv {
                            ValV::Arr(items) => spec_string_items(items, items.len() as int),
                            ValV::Str(s) => seq![s],
                            _ => seq!["_all"@],
                        },
                        Option::None => seq!["_all"@],
                    };
                    QueryV::MultiMatch { fields: flds, text: text }
                } else if rg is Some && rg->Some_0 is Obj && rg->Some_0->Obj_0.len() > 0 && rg
                    ->Some_0->Obj_0[0].1 is Obj {
                    let rf = rg->Some_0->Obj_0;
                    let params = rf[0].1;
                    QueryV::Range {
                        field: rf[0].0,
                        gte: spec_bound(spec_value_get(params, "gte"@)),
                        gt: spec_bound(spec_value_get(params, "gt"@)),
                        lte: spec_bound(spec_value_get(params, "lte"@)),
                        lt: spec_bound(spec_value_get(params, "lt"@)),
                    }
                } else if tm is Some && tm->Some_0 is Obj && tm->Some_0->Obj_0.len() > 0 {
                    let tf = tm->Some_0->Obj_0;
                    QueryV::Term { field: tf[0].0, value: tf[0].1 }
                } else if tms is Some && tms->Some_0 is Obj && tms->Some_0->Obj_0.len() > 0 && tms
                    ->Some_0->Obj_0[0].1 is Arr {
                    let tf = tms->Some_0->Obj_0;
                    QueryV::Terms { field: tf[0].0, values: tf[0].1->Arr_0 }
                } else if pf is Some && pf->Some_0 is Obj && pf->Some_0->Obj_0.len() > 0 {
                    let ff = pf->Some_0->Obj_0;
                    QueryV::Prefix { field: ff[0].0, text: spec_clause_value_text(ff[0].1) }
                } else if wc is Some && wc->Some_0 is Obj && wc->Some_0->Obj_0.len() > 0 {
                    let ff = wc->Some_0->Obj_0;
                    QueryV::Wildcard { field: ff[0].0, pattern: spec_clause_value_text(ff[0].1) }
                } else if bl is Some {
                    if bl->Some_0 is Obj {
                        let bi = spec_obj_index_of(fields, "bool"@);
                        QueryV::Bool {
                            must: spec_bool_clauses(fields, bi, "must"@),
                            should: spec_bool_clauses(fields, bi, "should"@),
                            must_not: spec_bool_clauses(fields, bi, "must_not"@),
                            filter: spec_bool_clauses(fields, bi, "filter"@),
                        }
                    } else {
                        QueryV::NoMatch
                    }
                } else if spec_value_get(v, "match_all"@) is Some {
                    QueryV::MatchAll
                } else {
                    QueryV::NoMatch
                }
            }
        },
        _ => QueryV::NoMatch,
    }
}


proof fn lemma_obj_index_of_exact(fields: Seq<(Seq<char>, ValV)>, key: Seq<char>, i: int)
    requires
        0 <= i < fields.len(),
        fields[i].0 == key,
        forall|k: int| 0 <= k < i ==> fields[k].0 != key,
    ensures
        spec_obj_index_of(fields, key) == i,
    decreases i,
{
    if i > 0 {
        assert(fields[0].0 != key);
        assert forall|k: int| 0 <= k < i - 1 implies fields.skip(1)[k].0 != key by {
            assert(fields.skip(1)[k] == fields[k + 1]);
        }
        assert(fields.skip(1)[i - 1] == fields[i]);
        lemma_obj_index_of_exact(fields.skip(1), key, i - 1);
    }
}

proof fn lemma_obj_index_of_none(fields: Seq<(Seq<char>, ValV)>, key: Seq<char>)
    requires
        forall|k: int| 0 <= k < fields.len() ==> fields[k].0 != key,
    ensures
        spec_obj_index_of(fields, key) == -1,
    decreases fields.len(),
{
    if fields.len() > 0 {
        assert forall|k: int| 0 <= k < fields.len() - 1 implies fields.skip(1)[k].0 != key by {
            assert(fields.skip(1)[k] == fields[k + 1]);
        }
        lemma_obj_index_of_none(fields.skip(1), key);
    }
}

/// Position of the first field named `key`.
fn obj_index_of(fields: &Vec<(String, Val)>, key: &Vec<char>) -> (r: Option<usize>)
    ensures
        match r {
            Option::Some(i) => i < fields@.len() && spec_obj_index_of(
                view_fields(fields@),
                key@,
            ) == i as int,
            Option::None => spec_obj_index_of(view_fields(fields@), key@) == -1,
        },
{
    let ghost fv = view_fields(fields@);
    let mut i: usize = 0;
    while i < fields.len()
        invariant
            i <= fields@.len(),
            fv == view_fields(fields@),
            fv.len() == fields@.len(),
            forall|k: int| 0 <= k < i ==> fv[k].0 != key@,
        decreases fields@.len() - i,
    {
        proof {
            assert(fv[i as int] == (fields@[i as int].0@, fields@[i as int].1@));
        }
        if crate::text::str_eq_chars(&fields[i].0, key) {
            proof {
                lemma_obj_index_of_exact(fv, key@, i as int);
            }
            return Some(i);
        }
        i += 1;
    }
    proof {
        lemma_obj_index_of_none(fv, key@);
    }
    None
}

/// The query text of a `match`-like clause value.
pub fn clause_text(v: &Val) -> (r: String)
    ensures
        r@ == spec_clause_text(v@),
{
    match v {
        Val::Str(s) => s.clone(),
        Val::Obj(_) => {
            let key = str_chars("query");
            match value_get(v, &key) {
                Some(q) => match q {
                    Val::Str(s) => s.clone(),
                    _ => String::new(),
                },
                None => String::new(),
            }
        },
        _ => String::new(),
    }
}

/// The pattern of a `prefix`/`wildcard` clause value.
pub fn clause_value_text(v: &Val) -> (r: String)
    ensures
        r@ == spec_clause_value_text(v@),
{
    match v {
        Val::Str(s) => s.clone(),
        Val::Obj(_) => {
            let key = str_chars("value");
            match value_get(v, &key) {
                Some(q) => match q {
                    Val::Str(s) => s.clone(),
                    _ => String::new(),
                },
                None => String::new(),
            }
        },
        _ => String::new(),
    }
}

/// A numeric range bound.
fn bound_of(v: Option<&Val>) -> (r: Option<i64>)
    ensures
        crate::query::bound_view(r) == spec_bound(
            match v {
                Option::Some(x) => Option::Some(x@),
                Option::None => Option::None,
            },
        ),
{
    match v {
        Some(x) => match x {
            Val::Int(n) => Some(*n),
            _ => None,
        },
        None => None,
    }
}

/// The string entries of a value list.
fn string_items(items: &Vec<Val>) -> (r: Vec<String>)
    ensures
        r.deep_view() == spec_string_items(
            crate::query::value_list_view(items@),
            items@.len() as int,
        ),
{
    let ghost iv = crate::query::value_list_view(items@);
    let mut r: Vec<String> = Vec::new();
    let mut i: usize = 0;
    proof {
        assert(r.deep_view() =~= Seq::<Seq<char>>::empty());
    }
    while i < items.len()
        invariant
            i <= items@.len(),
            iv == crate::query::value_list_view(items@),
            iv.len() == items@.len(),
            r.deep_view() == spec_string_items(iv, i as int),
        decreases items@.len() - i,
    {
        proof {
            assert(iv[i as int] == items@[i as int]@);
        }
        match &items[i] {
            Val::Str(s) => {
                let ghost old_dv = r.deep_view();
                r.push(s.clone());
                proof {
                    assert(r.deep_view() =~= old_dv.push(items@[i as int]@->Str_0));
                    assert(r.deep_view() =~= spec_string_items(iv, i as int + 1));
                }
            },
            _ => {},
        }
        i += 1;
    }
    r
}

/// Read a request value as a query.
#[verifier::loop_isolation(false)]
pub fn query_from_value(v: &Val) -> (r: Query)
    ensures
        r@ == spec_query_from_value(v@),
    decreases v,
{
    let fields = match v {
        Val::Obj(fields) => fields,
        _ => {
            return Query::NoMatch;
        },
    };
    proof {
        crate::value::lemma_obj_view(*fields);
    }
    let ghost fv = view_fields(fields@);
    if fields.len() == 0 {
        return Query::MatchAll;
    }
    let k_match = str_chars("match");
    if let Some(mv) = value_get(v, &k_match) {
        if let Val::Obj(mf) = mv {
            proof {
                crate::value::lemma_obj_view(*mf);
            }
            if mf.len() > 0 {
                proof {
                    assert(view_fields(mf@)[0] == (mf@[0].0@, mf@[0].1@));
                }
                let field = mf[0].0.clone();
                let text = clause_text(&mf[0].1);
                return Query::Match { field, text };
            }
        }
    }
    let k_mp = str_chars("match_phrase");
    if let Some(mv) = value_get(v, &k_mp) {
        if let Val::Obj(mf) = mv {
            proof {
                crate::value::lemma_obj_view(*mf);
            }
            if mf.len() > 0 {
                proof {
                    assert(view_fields(mf@)[0] == (mf@[0].0@, mf@[0].1@));
                }
                let field = mf[0].0.clone();
                let text = clause_text(&mf[0].1);
                return Query::MatchPhrase { field, text };
            }
        }
    }
    let k_mm = str_chars("multi_match");
    if let Some(mv) = value_get(v, &k_mm) {
        if let Val::Obj(_) = mv {
            let k_query = str_chars("query");
            let text: String = match value_get(mv, &k_query) {
                Some(q) => match q {
                    Val::Str(s) => s.clone(),
                    _ => String::new(),
                },
                None => String::new(),
            };
            let k_fields = str_chars("fields");
            let flds: Vec<String> = match value_get(mv, &k_fields) {
                Some(fvv) => match fvv {
                    Val::Arr(items) => {
                        proof {
                            assert(fvv@->Arr_0 =~= crate::query::value_list_view(items@));
                        }
                        string_items(items)
                    },
                    Val::Str(s) => {
                        let mut one: Vec<String> = Vec::new();
                        one.push(s.clone());
                        proof {
                            assert(crate::query::string_list_view(one@) =~= seq![fvv@->Str_0]);
                        }
                        one
                    },
                    _ => {
                        let mut one: Vec<String> = Vec::new();
                        one.push("_all".to_owned());
                        proof {
                            assert(crate::query::string_list_view(one@) =~= seq!["_all"@]);
                        }
                        one
                    },
                },
                None => {
                    let mut one: Vec<String> = Vec::new();
                    one.push("_all".to_owned());
                    proof {
                        assert(crate::query::string_list_view(one@) =~= seq!["_all"@]);
                    }
                    one
                },
            };
            proof {
                assert(crate::query::string_list_view(flds@) =~= flds.deep_view());
            }
            let r = Query::MultiMatch { fields: flds, text };
            proof {
                assert(r@->MultiMatch_fields =~= spec_query_from_value(v@)->MultiMatch_fields);
                assert(r@ == spec_query_from_value(v@));
            }
            return r;
        }
    }
    let k_range = str_chars("range");
    if let Some(rv) = value_get(v, &k_range) {
        if let Val::Obj(rf) = rv {
            proof {
                crate::value::lemma_obj_view(*rf);
            }
            if rf.len() > 0 {
                proof {
                    assert(view_fields(rf@)[0] == (rf@[0].0@, rf@[0].1@));
                }
                if let Val::Obj(_) = &rf[0].1 {
                    let params = &rf[0].1;
                    let field = rf[0].0.clone();
                    let k_gte = str_chars("gte");
                    let k_gt = str_chars("gt");
                    let k_lte = str_chars("lte");
                    let k_lt = str_chars("lt");
                    let gte = bound_of(value_get(params, &k_gte));
                    let gt = bound_of(value_get(params, &k_gt));
                    let lte = bound_of(value_get(params, &k_lte));
                    let lt = bound_of(value_get(params, &k_lt));
                    return Query::Range { field, gte, gt, lte, lt };
                }
            }
        }
    }
    let k_term = str_chars("term");
    if let Some(tv) = value_get(v, &k_term) {
        if let Val::Obj(tf) = tv {
            proof {
                crate::value::lemma_obj_view(*tf);
            }
            if tf.len() > 0 {
                proof {
                    assert(view_fields(tf@)[0] == (tf@[0].0@, tf@[0].1@));
                }
                let field = tf[0].0.clone();
                let value = tf[0].1.clone();
                return Query::Term { field, value };
            }
        }
    }
    let k_terms = str_chars("terms");
    if let Some(tv) = value_get(v, &k_terms) {
        if let Val::Obj(tf) = tv {
            proof {
                crate::value::lemma_obj_view(*tf);
            }
            if tf.len() > 0 {
                proof {
                    assert(view_fields(tf@)[0] == (tf@[0].0@, tf@[0].1@));
                }
                if let Val::Arr(items) = &tf[0].1 {
                    let field = tf[0].0.clone();
                    let mut values: Vec<Val> = Vec::new();
                    let mut j: usize = 0;
                    proof {
                        assert(crate::query::value_list_view(values@) =~= Seq::<
                            ValV,
                        >::empty());
                    }
                    while j < items.len()
                        invariant
                            j <= items@.len(),
                            crate::query::value_list_view(values@) == tf@[0].1@->Arr_0.take(
                                j as int,
                            ),
                        decreases items@.len() - j,
                    {
                        proof {
                            assert(tf@[0].1@->Arr_0[j as int] == items@[j as int]@);
                        }
                        let ghost before = crate::query::value_list_view(values@);
                        values.push(items[j].clone());
                        proof {
                            assert(crate::query::value_list_view(values@) =~= before.push(
                                tf@[0].1@->Arr_0[j as int],
                            ));
                            assert(crate::query::value_list_view(values@) =~= tf@[0].1@
                                ->Arr_0.take(j as int + 1));
                        }
                        j += 1;
                    }
                    let r = Query::Terms { field, values };
                    proof {
                        assert(tf@[0].1@->Arr_0.take(items@.len() as int) =~= tf@[0].1@->Arr_0);
                        assert(r@->Terms_values =~= spec_query_from_value(v@)->Terms_values);
                        assert(r@ == spec_query_from_value(v@));
                    }
                    return r;
                }
            }
        }
    }
    let k_prefix = str_chars("prefix");
    if let Some(pv) = value_get(v, &k_prefix) {
        if let Val::Obj(ff) = pv {
            proof {
                crate::value::lemma_obj_view(*ff);
            }
            if ff.len() > 0 {
                proof {
                    assert(view_fields(ff@)[0] == (ff@[0].0@, ff@[0].1@));
                }
                let field = ff[0].0.clone();
                let text = clause_value_text(&ff[0].1);
                return Query::Prefix { field, text };
            }
        }
    }
    let k_wc = str_chars("wildcard");
    if let Some(wv) = value_get(v, &k_wc) {
        if let Val::Obj(ff) = wv {
            proof {
                crate::value::lemma_obj_view(*ff);
            }
            if ff.len() > 0 {
                proof {
                    assert(view_fields(ff@)[0] == (ff@[0].0@, ff@[0].1@));
                }
                let field = ff[0].0.clone();
                let pattern = clause_value_text(&ff[0].1);
                return Query::Wildcard { field, pattern };
            }
        }
    }
    let k_bool = str_chars("bool");
    match obj_index_of(fields, &k_bool) {
        Some(bi) => {
            proof {
                lemma_obj_index_of(fv, "bool"@);
                assert(fv[bi as int] == (fields@[bi as int].0@, fields@[bi as int].1@));
            }
            match &fields[bi].1 {
                Val::Obj(bf) => {
                    proof {
                        crate::value::lemma_obj_view(*bf);
                    }
                    let must = parse_clause_list(fields, bi, bf, "must");
                    let should = parse_clause_list(fields, bi, bf, "should");
                    let must_not = parse_clause_list(fields, bi, bf, "must_not");
                    let filter = parse_clause_list(fields, bi, bf, "filter");
                    let r = Query::Bool { must, should, must_not, filter };
                    proof {
                        assert(r@->Bool_must =~= spec_query_from_value(v@)->Bool_must);
                        assert(r@->Bool_should =~= spec_query_from_value(v@)->Bool_should);
                        assert(r@->Bool_must_not =~= spec_query_from_value(v@)->Bool_must_not);
                        assert(r@->Bool_filter =~= spec_query_from_value(v@)->Bool_filter);
                        assert(r@ == spec_query_from_value(v@));
                    }
                    return r;
                },
                _ => {
                    return Query::NoMatch;
                },
            }
        },
        None => {
            proof {
                lemma_obj_index_of(fv, "bool"@);
            }
        },
    }
    let k_ma = str_chars("match_all");
    if value_get(v, &k_ma).is_some() {
        return Query::MatchAll;
    }
    Query::NoMatch
}

/// Read one clause list of a `bool` object (`fields[bi]` holds the object,
/// `bf` its field list).
#[verifier::loop_isolation(false)]
fn parse_clause_list(
    fields: &Vec<(String, Val)>,
    bi: usize,
    bf: &Vec<(String, Val)>,
    key: &str,
) -> (r: Vec<Query>)
    requires
        bi < fields@.len(),
        fields@[bi as int].1 == Val::Obj(*bf),
    ensures
        crate::query::query_list_view(r@) == spec_bool_clauses(
            view_fields(fields@),
            bi as int,
            key@,
        ),
    decreases fields, 0nat,
{
    let ghost fv = view_fields(fields@);
    proof {
        assert(fv[bi as int] == (fields@[bi as int].0@, fields@[bi as int].1@));
        crate::value::lemma_obj_view(*bf);
    }
    let key_chars = str_chars(key);
    let mut r: Vec<Query> = Vec::new();
    let ci = match obj_index_of(bf, &key_chars) {
        Some(ci) => ci,
        None => {
            proof {
                assert(crate::query::query_list_view(r@) =~= Seq::<QueryV>::empty());
            }
            return r;
        },
    };
    proof {
        assert(view_fields(bf@)[ci as int] == (bf@[ci as int].0@, bf@[ci as int].1@));
    }
    match &bf[ci].1 {
        Val::Arr(items) => {
            let mut j: usize = 0;
            proof {
                assert(crate::query::query_list_view(r@) =~= Seq::<QueryV>::empty());
                assert(Seq::<QueryV>::empty() =~= spec_bool_items(fv, bi as int, ci as int, 0));
            }
            while j < items.len()
                invariant
                    j <= items@.len(),
                    crate::query::query_list_view(r@) == spec_bool_items(
                        fv,
                        bi as int,
                        ci as int,
                        j as int,
                    ),
                decreases items@.len() - j,
            {
                proof {
                    assert(bf@[ci as int].1@->Arr_0[j as int] == items@[j as int]@);
                }
                let q = query_from_value(&items[j]);
                let ghost before = crate::query::query_list_view(r@);
                r.push(q);
                proof {
                    assert(crate::query::query_list_view(r@) =~= before.push(
                        spec_query_from_value(items@[j as int]@),
                    ));
                    assert(crate::query::query_list_view(r@) =~= spec_bool_items(
                        fv,
                        bi as int,
                        ci as int,
                        j as int + 1,
                    ));
                }
                j += 1;
            }
            r
        },
        _ => {
            proof {
                assert(crate::query::query_list_view(r@) =~= Seq::<QueryV>::empty());
            }
            r
        },
    }
}


/// The direction a sort-entry value denotes: `desc` as a string or under an
/// `order` key reverses the field's comparison.
pub open spec fn spec_sort_asc(v: ValV) -> bool {
    match v {
        ValV::Str(s) => s != "desc"@,
        ValV::Obj(_) => match spec_as_str(spec_value_get(v, "order"@)) {
            Option::Some(s) => s != "desc"@,
            Option::None => true,
        },
        _ => true,
    }
}

/// The sort keys named by an array of single-field objects.
pub open spec fn spec_sort_entries(items: Seq<ValV>, i: int) -> Seq<(Seq<char>, bool)>
    decreases i,
{
    if i <= 0 || i > items.len() {
        Seq::empty()
    } else {
        spec_sort_entries(items, i - 1) + (match items[i - 1] {
            ValV::Obj(f) => if f.len() > 0 {
                seq![(f[0].0, spec_sort_asc(f[0].1))]
            } else {
                Seq::empty()
            },
            _ => Seq::empty(),
        })
    }
}

/// The sort keys a request value denotes: an array of entries, or one
/// single-field object.
pub open spec fn spec_sort_keys(v: ValV) -> Seq<(Seq<char>, bool)> {
    match v {
        ValV::Arr(items) => spec_sort_entries(items, items.len() as int),
        ValV::Obj(f) => if f.len() > 0 {
            seq![(f[0].0, spec_sort_asc(f[0].1))]
        } else {
            Seq::empty()
        },
        _ => Seq::empty(),
    }
}

/// The direction of one sort entry.
fn sort_dir_of(v: &Val) -> (r: SortDir)
    ensures
        (r == SortDir::Asc) == spec_sort_asc(v@),
{
    let desc = match v {
        Val::Str(s) => crate::text::str_eq(s.as_str(), "desc"),
        Val::Obj(_) => {
            let key = str_chars("order");
            match value_get(v, &key) {
                Some(o) => match o {
                    Val::Str(s) => crate::text::str_eq(s.as_str(), "desc"),
                    _ => false,
                },
                None => false,
            }
        },
        _ => false,
    };
    if desc {
        SortDir::Desc
    } else {
        SortDir::Asc
    }
}

/// Read a request value as a sort specification.
pub fn sort_keys_from_value(v: &Val) -> (r: Vec<(String, SortDir)>)
    ensures
        crate::results::keys_view(r@) == spec_sort_keys(v@),
{
    let mut r: Vec<(String, SortDir)> = Vec::new();
    match v {
        Val::Arr(items) => {
            let ghost iv = v@->Arr_0;
            let mut i: usize = 0;
            proof {
                assert(crate::results::keys_view(r@) =~= Seq::<(Seq<char>, bool)>::empty());
            }
            while i < items.len()
                invariant
                    i <= items@.len(),
                    iv == v@->Arr_0,
                    iv.len() == items@.len(),
                    forall|k: int| 0 <= k < items@.len() ==> iv[k] == items@[k]@,
                    crate::results::keys_view(r@) == spec_sort_entries(iv, i as int),
                decreases items@.len() - i,
            {
                match &items[i] {
                    Val::Obj(f) => {
                        proof {
                            crate::value::lemma_obj_view(*f);
                        }
                        if f.len() > 0 {
                            proof {
                                assert(view_fields(f@)[0] == (f@[0].0@, f@[0].1@));
                            }
                            let ghost before = crate::results::keys_view(r@);
                            let name = f[0].0.clone();
                            let dir = sort_dir_of(&f[0].1);
                            r.push((name, dir));
                            proof {
                                assert(crate::results::keys_view(r@) =~= before.push(
                                    (f@[0].0@, spec_sort_asc(f@[0].1@)),
                                ));
                                assert(crate::results::keys_view(r@) =~= spec_sort_entries(
                                    iv,
                                    i as int + 1,
                                ));
                            }
                        }
                    },
                    _ => {},
                }
                i += 1;
            }
            proof {
                assert(spec_sort_keys(v@) == spec_sort_entries(iv, iv.len() as int));
            }
            r
        },
        Val::Obj(f) => {
            proof {
                crate::value::lemma_obj_view(*f);
            }
            if f.len() > 0 {
                proof {
                    assert(view_fields(f@)[0] == (f@[0].0@, f@[0].1@));
                }
                let name = f[0].0.clone();
                let dir = sort_dir_of(&f[0].1);
                r.push((name, dir));
                proof {
                    assert(crate::results::keys_view(r@) =~= seq![
                        (f@[0].0@, spec_sort_asc(f@[0].1@)),
                    ]);
                }
            } else {
                proof {
                    assert(crate::results::keys_view(r@) =~= Seq::<(Seq<char>, bool)>::empty());
                }
            }
            r
        },
        _ => {
            proof {
                assert(crate::results::keys_view(r@) =~= Seq::<(Seq<char>, bool)>::empty());
            }
            r
        },
    }
}

/// The names listed under `key`, when it holds an array.
pub open spec fn spec_opt_names(v: ValV, key: Seq<char>) -> Option<Seq<Seq<char>>> {
    match spec_value_get(v, key) {
        Option::Some(x) => match x {
            ValV::Arr(items) => Option::Some(spec_string_items(items, items.len() as int)),
            _ => Option::None,
        },
        Option::None => Option::None,
    }
}

/// The source filter a request value denotes.
pub open spec fn spec_source_filter_from(v: ValV) -> crate::source_filter::SourceFilterV {
    match v {
        ValV::Bool(b) => crate::source_filter::SourceFilterV::All(b),
        ValV::Arr(items) => crate::source_filter::SourceFilterV::Fields(
            spec_string_items(items, items.len() as int),
        ),
        ValV::Obj(_) => crate::source_filter::SourceFilterV::Partial {
            includes: spec_opt_names(v, "includes"@),
            excludes: spec_opt_names(v, "excludes"@),
        },
        _ => crate::source_filter::SourceFilterV::All(true),
    }
}

/// The names listed under `key`, when it holds an array.
fn opt_names_of(v: &Val, key: &Vec<char>) -> (r: Option<Vec<String>>)
    ensures
        crate::source_filter::opt_names_view(r) == spec_opt_names(v@, key@),
{
    match value_get(v, key) {
        Some(x) => match x {
            Val::Arr(items) => {
                proof {
                    assert(x@->Arr_0 =~= crate::query::value_list_view(items@));
                }
                let names = string_items(items);
                proof {
                    assert(crate::source_filter::names_view(names@) =~= names.deep_view());
                }
                Some(names)
            },
            _ => None,
        },
        None => None,
    }
}

/// Read a request value as a source filter.
pub fn source_filter_from_value(v: &Val) -> (r: SourceFilter)
    ensures
        r@ == spec_source_filter_from(v@),
{
    match v {
        Val::Bool(b) => SourceFilter::All(*b),
        Val::Arr(items) => {
            proof {
                assert(v@->Arr_0 =~= crate::query::value_list_view(items@));
            }
            let names = string_items(items);
            proof {
                assert(crate::source_filter::names_view(names@) =~= names.deep_view());
            }
            SourceFilter::Fields(names)
        },
        Val::Obj(_) => {
            let k_inc = str_chars("includes");
            let k_exc = str_chars("excludes");
            let includes = opt_names_of(v, &k_inc);
            let excludes = opt_names_of(v, &k_exc);
            SourceFilter::Partial { includes, excludes }
        },
        _ => SourceFilter::All(true),
    }
}

/// The first tag of a tag array, else the default.
pub open spec fn spec_tag_of(v: ValV, key: Seq<char>, dflt: Seq<char>) -> Seq<char> {
    match spec_value_get(v, key) {
        Option::Some(x) => match x {
            ValV::Arr(items) => if items.len() > 0 && items[0] is Str {
                items[0]->Str_0
            } else {
                dflt
            },
            _ => dflt,
        },
        Option::None => dflt,
    }
}

/// The highlight configuration a request value denotes: the keys of its
/// `fields` object and the first of each tag list, `<em>`/`</em>` when
/// absent.
pub open spec fn spec_highlight_from(v: ValV) -> Option<crate::highlight::HighlightConfigV> {
    match spec_value_get(v, "fields"@) {
        Option::Some(x) => match x {
            ValV::Obj(ff) => Option::Some(
                crate::highlight::HighlightConfigV {
                    fields: Seq::new(
                        ff.len(),
                        |i: int|
                            if 0 <= i < ff.len() {
                                ff[i].0
                            } else {
                                Seq::empty()
                            },
                    ),
                    pre_tag: spec_tag_of(v, "pre_tags"@, "<em>"@),
                    post_tag: spec_tag_of(v, "post_tags"@, "</em>"@),
                },
            ),
            _ => Option::None,
        },
        Option::None => Option::None,
    }
}

/// The first tag of a tag array, else the default.
fn tag_of(v: &Val, key: &Vec<char>, dflt: &str) -> (r: String)
    ensures
        r@ == spec_tag_of(v@, key@, dflt@),
{
    match value_get(v, key) {
        Some(x) => match x {
            Val::Arr(items) => {
                if items.len() > 0 {
                    proof {
                        assert(x@->Arr_0[0] == items@[0]@);
                    }
                    match &items[0] {
                        Val::Str(s) => s.clone(),
                        _ => dflt.to_owned(),
                    }
                } else {
                    dflt.to_owned()
                }
            },
            _ => dflt.to_owned(),
        },
        None => dflt.to_owned(),
    }
}

/// Read a request value as a highlight configuration.
pub fn highlight_from_value(v: &Val) -> (r: Option<HighlightConfig>)
    ensures
        match r {
            Option::Some(c) => spec_highlight_from(v@) == Option::Some(c@),
            Option::None => spec_highlight_from(v@) is None,
        },
{
    let k_fields = str_chars("fields");
    let ff = match value_get(v, &k_fields) {
        Some(x) => match x {
            Val::Obj(ff) => ff,
            _ => {
                return None;
            },
        },
        None => {
            return None;
        },
    };
    proof {
        crate::value::lemma_obj_view(*ff);
    }
    let mut names: Vec<String> = Vec::new();
    let mut i: usize = 0;
    while i < ff.len()
        invariant
            i <= ff@.len(),
            names.deep_view().len() == i,
            forall|k: int| 0 <= k < i ==> names.deep_view()[k] == ff@[k].0@,
        decreases ff@.len() - i,
    {
        let ghost before = names.deep_view();
        let n = ff[i].0.clone();
        names.push(n);
        proof {
            assert(names.deep_view() =~= before.push(ff@[i as int].0@));
        }
        i += 1;
    }
    let k_pre = str_chars("pre_tags");
    let k_post = str_chars("post_tags");
    let pre_tag = tag_of(v, &k_pre, "<em>");
    let post_tag = tag_of(v, &k_post, "</em>");
    proof {
        assert(crate::query::string_list_view(names@) =~= names.deep_view());
    }
    let c = HighlightConfig { fields: names, pre_tag, post_tag };
    proof {
        assert(c@.fields =~= spec_highlight_from(v@)->Some_0.fields);
        assert(c@ == spec_highlight_from(v@)->Some_0);
    }
    Some(c)
}

} // verus!

//! The engine's general guarantees, each stated and proved over the spec
//! functions that the executable contracts use.

use vstd::prelude::*;

use crate::bulk::{spec_bulk_action, BulkActionV};
use crate::catalog::{spec_cat_get, spec_cat_remove, spec_scored, wf_catalog, IndexV};
use crate::errors::GbsErrorV;
use crate::query::QueryV;
use crate::results::{
    spec_hit_le, spec_insert_hit, spec_page, spec_sort_cmp, spec_sort_hits, HitV,
};
use crate::score::{spec_score, spec_sum_scores};
use crate::text::{spec_glob, spec_lower, spec_lower_char};
use crate::source_filter::{
    spec_drop_fields, spec_filter_source, spec_pick_fields, spec_pick_value, SourceFilterV,
};
use crate::value::{spec_get_field, spec_obj_get, spec_obj_remove, spec_obj_set, ValV};

verus! {

broadcast use vstd::seq_lib::group_to_multiset_ensures;

/// Every hit the scorer emits carries the document's own positive score: a
/// zero score excludes the document from the hit list.
pub proof fn lemma_scored_hits_positive(docs: Seq<(Seq<char>, ValV)>, q: QueryV, i: int)
    requires
        0 <= i <= docs.len(),
    ensures
        forall|k: int|
            0 <= k < spec_scored(docs, q, i).len() ==> #[trigger] spec_scored(docs, q, i)[k].score
                > 0 && exists|d: int|
                0 <= d < i && spec_scored(docs, q, i)[k] == (HitV {
                    id: docs[d].0,
                    doc: docs[d].1,
                    score: spec_score(docs[d].1, q),
                }),
    decreases i,
{
    if i > 0 {
        lemma_scored_hits_positive(docs, q, i - 1);
        let prev = spec_scored(docs, q, i - 1);
        let cur = spec_scored(docs, q, i);
        assert forall|k: int| 0 <= k < cur.len() implies #[trigger] cur[k].score > 0 && exists|
            d: int,
        |
            0 <= d < i && cur[k] == (HitV {
                id: docs[d].0,
                doc: docs[d].1,
                score: spec_score(docs[d].1, q),
            }) by {
            if k < prev.len() {
                assert(cur[k] == prev[k]);
            } else {
                assert(cur[k] == (HitV {
                    id: docs[i - 1].0,
                    doc: docs[i - 1].1,
                    score: spec_score(docs[i - 1].1, q),
                }));
            }
        }
    }
}

/// A `match` clause with empty query text scores a full 1000 against every
/// document.
pub proof fn lemma_match_empty_text(doc: ValV, field: Seq<char>, text: Seq<char>)
    requires
        text.len() == 0,
    ensures
        spec_score(doc, QueryV::Match { field, text }) == 1000,
{
}

/// A `bool` query holding only `filter` clauses, all of which pass, scores
/// exactly 1000.
pub proof fn lemma_bool_filter_only(doc: ValV, filter: Seq<QueryV>)
    requires
        forall|i: int| 0 <= i < filter.len() ==> spec_score(doc, #[trigger] filter[i]) > 0,
    ensures
        spec_score(
            doc,
            QueryV::Bool {
                must: Seq::empty(),
                should: Seq::empty(),
                must_not: Seq::empty(),
                filter,
            },
        ) == 1000,
{
    assert(spec_sum_scores(doc, Seq::<QueryV>::empty(), 0) == 0);
}

/// Reflexivity of `term`: a term built from a document's own field value
/// always matches that document with a full score.
pub proof fn lemma_term_reflexive(doc: ValV, field: Seq<char>, v: ValV)
    requires
        spec_get_field(doc, field) == Option::Some(v),
    ensures
        spec_score(doc, QueryV::Term { field, value: v }) == 1000,
{
}

/// The pattern `*` glob-matches every text.
pub proof fn lemma_glob_star(s: Seq<char>)
    ensures
        spec_glob(seq!['*'], s),
    decreases s.len(),
{
    let p = seq!['*'];
    assert(p.skip(1) =~= Seq::<char>::empty());
    if s.len() == 0 {
        assert(spec_glob(p.skip(1), s));
    } else {
        lemma_glob_star(s.skip(1));
    }
}

/// A `wildcard` clause whose pattern is `*` matches every document whose
/// field resolves to a string.
pub proof fn lemma_wildcard_star_matches(doc: ValV, field: Seq<char>, s: Seq<char>)
    requires
        spec_get_field(doc, field) == Option::Some(ValV::Str(s)),
    ensures
        crate::score::spec_wildcard_matches(doc, field, "*"@),
{
    reveal_strlit("*");
    assert("*"@ =~= seq!['*']);
    assert(spec_lower("*"@) =~= seq!['*']) by {
        assert(spec_lower("*"@).len() == 1);
        assert(spec_lower("*"@)[0] == spec_lower_char('*'));
    }
    lemma_glob_star(spec_lower(s));
}

/// The hit order is total: any two hits compare one way or the other.
pub proof fn lemma_hit_le_total(a: HitV, b: HitV, keys: Seq<(Seq<char>, bool)>, by_score: bool)
    ensures
        spec_hit_le(a, b, keys, by_score) || spec_hit_le(b, a, keys, by_score),
{
    if !by_score {
        lemma_sort_cmp_antisym(a.doc, b.doc, keys);
    }
}

/// The document comparison is antisymmetric: swapping the sides negates
/// it.
pub proof fn lemma_sort_cmp_antisym(x: ValV, y: ValV, keys: Seq<(Seq<char>, bool)>)
    ensures
        spec_sort_cmp(x, y, keys) == -spec_sort_cmp(y, x, keys),
    decreases keys.len(),
{
    if keys.len() > 0 {
        let a = spec_get_field(x, keys[0].0);
        let b = spec_get_field(y, keys[0].0);
        lemma_cmp_vals_antisym(a, b);
        lemma_sort_cmp_antisym(x, y, keys.skip(1));
    }
}

proof fn lemma_cmp_vals_antisym(a: Option<ValV>, b: Option<ValV>)
    ensures
        crate::results::spec_cmp_vals(a, b) == -crate::results::spec_cmp_vals(b, a),
{
    match (a, b) {
        (Option::Some(ValV::Str(x)), Option::Some(ValV::Str(y))) => {
            crate::text::lemma_lex_trichotomy(x, y);
        },
        _ => {},
    }
}

/// Sorting preserves the hits: the result is a permutation of the input.
pub proof fn lemma_sort_hits_permutation(
    s: Seq<HitV>,
    keys: Seq<(Seq<char>, bool)>,
    by_score: bool,
)
    ensures
        spec_sort_hits(s, keys, by_score).to_multiset() == s.to_multiset(),
    decreases s.len(),
{
    if s.len() > 0 {
        lemma_sort_hits_permutation(s.drop_last(), keys, by_score);
        lemma_insert_hit_multiset(spec_sort_hits(s.drop_last(), keys, by_score), s.last(), keys,
            by_score);
        assert(s =~= s.drop_last().push(s.last()));
        assert(s.to_multiset() =~= s.drop_last().to_multiset().insert(s.last()));
    }
}

proof fn lemma_insert_hit_multiset(
    s: Seq<HitV>,
    x: HitV,
    keys: Seq<(Seq<char>, bool)>,
    by_score: bool,
)
    ensures
        spec_insert_hit(s, x, keys, by_score).to_multiset() == s.to_multiset().insert(x),
    decreases s.len(),
{
    if s.len() == 0 {
        assert(seq![x] =~= Seq::<HitV>::empty().push(x));
        assert(seq![x].to_multiset() =~= s.to_multiset().insert(x));
    } else if spec_hit_le(s.last(), x, keys, by_score) {
    } else {
        lemma_insert_hit_multiset(s.drop_last(), x, keys, by_score);
        let t = spec_insert_hit(s.drop_last(), x, keys, by_score);
        assert(t.push(s.last()).to_multiset() =~= t.to_multiset().insert(s.last()));
        assert(s =~= s.drop_last().push(s.last()));
        assert(s.to_multiset() =~= s.drop_last().to_multiset().insert(s.last()));
        assert(s.drop_last().to_multiset().insert(x).insert(s.last()) =~= s.drop_last()
            .to_multiset().insert(s.last()).insert(x));
    }
}

/// Under a transitive order the sort's result is sorted; the score order
/// (descending) is transitive outright.
pub proof fn lemma_sort_by_score_sorted(s: Seq<HitV>, keys: Seq<(Seq<char>, bool)>)
    ensures
        forall|i: int, j: int|
            0 <= i <= j < spec_sort_hits(s, keys, true).len() ==> spec_hit_le(
                #[trigger] spec_sort_hits(s, keys, true)[i],
                #[trigger] spec_sort_hits(s, keys, true)[j],
                keys,
                true,
            ),
    decreases s.len(),
{
    if s.len() > 0 {
        lemma_sort_by_score_sorted(s.drop_last(), keys);
        lemma_insert_hit_score_sorted(spec_sort_hits(s.drop_last(), keys, true), s.last(), keys);
    }
}

proof fn lemma_insert_hit_score_sorted(s: Seq<HitV>, x: HitV, keys: Seq<(Seq<char>, bool)>)
    requires
        forall|i: int, j: int|
            0 <= i <= j < s.len() ==> spec_hit_le(#[trigger] s[i], #[trigger] s[j], keys, true),
    ensures
        forall|i: int, j: int|
            0 <= i <= j < spec_insert_hit(s, x, keys, true).len() ==> spec_hit_le(
                #[trigger] spec_insert_hit(s, x, keys, true)[i],
                #[trigger] spec_insert_hit(s, x, keys, true)[j],
                keys,
                true,
            ),
    decreases s.len(),
{
    let t = spec_insert_hit(s, x, keys, true);
    if s.len() == 0 {
    } else if spec_hit_le(s.last(), x, keys, true) {
        assert forall|i: int, j: int| 0 <= i <= j < t.len() implies spec_hit_le(
            #[trigger] t[i],
            #[trigger] t[j],
            keys,
            true,
        ) by {
            if j == t.len() - 1 {
                if i < s.len() {
                    assert(spec_hit_le(s[i], s[s.len() - 1], keys, true));
                }
            }
        }
    } else {
        assert(forall|i: int, j: int|
            0 <= i <= j < s.drop_last().len() ==> spec_hit_le(
                #[trigger] s.drop_last()[i],
                #[trigger] s.drop_last()[j],
                keys,
                true,
            ));
        lemma_insert_hit_score_sorted(s.drop_last(), x, keys);
        let u = spec_insert_hit(s.drop_last(), x, keys, true);
        assert forall|i: int, j: int| 0 <= i <= j < t.len() implies spec_hit_le(
            #[trigger] t[i],
            #[trigger] t[j],
            keys,
            true,
        ) by {
            if j == t.len() - 1 {
                if i < u.len() {
                    // every element of the insertion result is x or one of
                    // the sorted prefix, and both sit at or above the old
                    // last element in score order
                    lemma_insert_hit_elem(s.drop_last(), x, keys, true, i);
                    if u[i] == x {
                        assert(x.score >= s.last().score);
                    } else {
                        let m = choose|m: int|
                            0 <= m < s.drop_last().len() && s.drop_last()[m] == u[i];
                        assert(spec_hit_le(s[m], s[s.len() - 1], keys, true));
                    }
                }
            } else {
                assert(t[i] == u[i] && t[j] == u[j]);
            }
        }
    }
}

/// Each element of an insertion result is the inserted element or one of
/// the original ones.
proof fn lemma_insert_hit_elem(
    s: Seq<HitV>,
    x: HitV,
    keys: Seq<(Seq<char>, bool)>,
    by_score: bool,
    k: int,
)
    requires
        0 <= k < spec_insert_hit(s, x, keys, by_score).len(),
    ensures
        spec_insert_hit(s, x, keys, by_score)[k] == x || exists|m: int|
            0 <= m < s.len() && s[m] == spec_insert_hit(s, x, keys, by_score)[k],
    decreases s.len(),
{
    if s.len() == 0 {
    } else if spec_hit_le(s.last(), x, keys, by_score) {
        if k < s.len() {
            assert(s.push(x)[k] == s[k]);
        }
    } else {
        let t = spec_insert_hit(s.drop_last(), x, keys, by_score);
        if k < t.len() {
            lemma_insert_hit_elem(s.drop_last(), x, keys, by_score, k);
            if t[k] != x {
                let m = choose|m: int| 0 <= m < s.len() - 1 && s.drop_last()[m] == t[k];
                assert(s[m] == t[k]);
            }
        } else {
            assert(t.push(s.last())[k] == s[s.len() - 1]);
        }
    }
}

/// The concatenation of the successive pages of size `size`.
pub open spec fn spec_pages_concat<T>(s: Seq<T>, size: int, k: int) -> Seq<T>
    decreases k,
{
    if k <= 0 {
        Seq::empty()
    } else {
        spec_pages_concat(s, size, k - 1) + spec_page(s, (k - 1) * size, size)
    }
}

/// Pagination is complete: the first `k` pages of size `size` together are
/// exactly the first `k * size` ranked hits, so successive pages rebuild
/// the whole list with no duplicates and no gaps.
pub proof fn lemma_pagination_complete<T>(s: Seq<T>, size: int, k: int)
    requires
        size > 0,
        k >= 0,
    ensures
        spec_pages_concat(s, size, k) == (if k * size <= s.len() {
            s.take(k * size)
        } else {
            s
        }),
    decreases k,
{
    if k == 0 {
        assert(spec_pages_concat(s, size, 0) =~= s.take(0));
    } else {
        lemma_pagination_complete(s, size, k - 1);
        assert((k - 1) * size == k * size - size) by (nonlinear_arith);
        assert(k * size >= size) by (nonlinear_arith)
            requires
                k >= 1 && size > 0,
        ;
        let prev = (k - 1) * size;
        if k * size <= s.len() {
            assert(spec_page(s, prev, size) =~= s.subrange(prev, k * size));
            assert(s.take(prev) + s.subrange(prev, k * size) =~= s.take(k * size));
        } else if prev <= s.len() {
            assert(spec_page(s, prev, size) =~= s.subrange(prev, s.len() as int));
            assert(s.take(prev) + s.subrange(prev, s.len() as int) =~= s);
        } else {
            assert(spec_page(s, prev, size) =~= Seq::<T>::empty());
            assert(s + Seq::<T>::empty() =~= s);
        }
    }
}


/// Looking a key up after binding one: the bound key yields the new value,
/// every other key is unaffected.
pub proof fn lemma_obj_get_set(
    fields: Seq<(Seq<char>, ValV)>,
    k: Seq<char>,
    v: ValV,
    k2: Seq<char>,
)
    ensures
        spec_obj_get(spec_obj_set(fields, k, v), k2) == (if k2 == k {
            Option::Some(v)
        } else {
            spec_obj_get(fields, k2)
        }),
    decreases fields.len(),
{
    reveal_with_fuel(spec_obj_get, 3);
    let goal = if k2 == k {
        Option::Some(v)
    } else {
        spec_obj_get(fields, k2)
    };
    if fields.len() == 0 {
        let t = spec_obj_set(fields, k, v);
        assert(t == seq![(k, v)]);
        assert(t.len() == 1);
        assert(t[0] == (k, v));
        assert(t.skip(1) =~= Seq::<(Seq<char>, ValV)>::empty());
        assert(spec_obj_get(t, k2) == goal);
    } else if fields[0].0 == k {
        let t = seq![(k, v)] + fields.skip(1);
        assert(t[0] == (k, v));
        assert(t.skip(1) =~= fields.skip(1));
        assert(spec_obj_set(fields, k, v) == t);
        assert(spec_obj_get(t, k2) == goal);
    } else if crate::text::spec_lex_lt(k, fields[0].0) {
        let t = seq![(k, v)] + fields;
        assert(t[0] == (k, v));
        assert(t.skip(1) =~= fields);
        assert(spec_obj_set(fields, k, v) == t);
        assert(spec_obj_get(t, k2) == goal);
    } else {
        lemma_obj_get_set(fields.skip(1), k, v, k2);
        let t = seq![fields[0]] + spec_obj_set(fields.skip(1), k, v);
        assert(t[0] == fields[0]);
        assert(t.len() > 0);
        assert(t.skip(1) =~= spec_obj_set(fields.skip(1), k, v));
        assert(spec_obj_set(fields, k, v) == t);
        assert(spec_obj_get(t, k2) == goal);
    }
}

/// Looking a key up after removing one: the removed key is gone, every
/// other key is unaffected.
pub proof fn lemma_obj_get_remove(fields: Seq<(Seq<char>, ValV)>, k: Seq<char>, k2: Seq<char>)
    ensures
        spec_obj_get(spec_obj_remove(fields, k), k2) == (if k2 == k {
            Option::<ValV>::None
        } else {
            spec_obj_get(fields, k2)
        }),
    decreases fields.len(),
{
    if fields.len() > 0 {
        lemma_obj_get_remove(fields.skip(1), k, k2);
        if fields[0].0 == k {
        } else {
            let t = seq![fields[0]] + spec_obj_remove(fields.skip(1), k);
            assert(t[0] == fields[0]);
            assert(t.skip(1) =~= spec_obj_remove(fields.skip(1), k));
        }
    }
}

/// Removing an absent key changes nothing.
pub proof fn lemma_obj_remove_absent(fields: Seq<(Seq<char>, ValV)>, k: Seq<char>)
    requires
        spec_obj_get(fields, k) is None,
    ensures
        spec_obj_remove(fields, k) == fields,
    decreases fields.len(),
{
    if fields.len() > 0 {
        assert(fields[0].0 != k);
        lemma_obj_remove_absent(fields.skip(1), k);
        assert(seq![fields[0]] + fields.skip(1) =~= fields);
    }
}

/// What a projection binds: a name yields the document's own value exactly
/// when it stands among the first `i` projected names and the document has
/// it.
pub proof fn lemma_pick_get(
    fields: Seq<(Seq<char>, ValV)>,
    names: Seq<Seq<char>>,
    i: int,
    n: Seq<char>,
)
    requires
        0 <= i <= names.len(),
    ensures
        spec_obj_get(spec_pick_fields(fields, names, i), n) == (if (exists|j: int|
            0 <= j < i && names[j] == n) && spec_obj_get(fields, n) is Some {
            spec_obj_get(fields, n)
        } else {
            Option::<ValV>::None
        }),
    decreases i,
{
    if i == 0 {
    } else {
        lemma_pick_get(fields, names, i - 1, n);
        match spec_obj_get(fields, names[i - 1]) {
            Option::Some(v) => {
                lemma_obj_get_set(spec_pick_fields(fields, names, i - 1), names[i - 1], v, n);
            },
            Option::None => {},
        }
    }
}

/// Projecting a projection by the same names changes nothing.
pub proof fn lemma_pick_pick(
    fields: Seq<(Seq<char>, ValV)>,
    names: Seq<Seq<char>>,
    i: int,
)
    requires
        0 <= i <= names.len(),
    ensures
        spec_pick_fields(spec_pick_fields(fields, names, names.len() as int), names, i)
            == spec_pick_fields(fields, names, i),
    decreases i,
{
    if i > 0 {
        lemma_pick_pick(fields, names, i - 1);
        let picked = spec_pick_fields(fields, names, names.len() as int);
        lemma_pick_get(fields, names, names.len() as int, names[i - 1]);
    }
}

/// A projection holds none of the dropped keys, so dropping them again
/// changes nothing; more generally, dropping keys that are all absent is
/// the identity.
pub proof fn lemma_drop_absent(
    fields: Seq<(Seq<char>, ValV)>,
    names: Seq<Seq<char>>,
    i: int,
)
    requires
        0 <= i <= names.len(),
        forall|j: int| 0 <= j < names.len() ==> spec_obj_get(fields, #[trigger] names[j]) is None,
    ensures
        spec_drop_fields(fields, names, i) == fields,
    decreases i,
{
    if i > 0 {
        lemma_drop_absent(fields, names, i - 1);
        lemma_obj_remove_absent(fields, names[i - 1]);
    }
}

/// What the dropped fields still bind: everything but the dropped names.
pub proof fn lemma_drop_get(
    fields: Seq<(Seq<char>, ValV)>,
    names: Seq<Seq<char>>,
    i: int,
    n: Seq<char>,
)
    requires
        0 <= i <= names.len(),
    ensures
        spec_obj_get(spec_drop_fields(fields, names, i), n) == (if exists|j: int|
            0 <= j < i && names[j] == n {
            Option::<ValV>::None
        } else {
            spec_obj_get(fields, n)
        }),
    decreases i,
{
    if i > 0 {
        lemma_drop_get(fields, names, i - 1, n);
        lemma_obj_get_remove(spec_drop_fields(fields, names, i - 1), names[i - 1], n);
    }
}

/// Applying the same source filter twice gives what applying it once does.
pub proof fn lemma_filter_source_idempotent(doc: ValV, f: SourceFilterV)
    ensures
        spec_filter_source(spec_filter_source(doc, Option::Some(f)), Option::Some(f))
            == spec_filter_source(doc, Option::Some(f)),
{
    let once = spec_filter_source(doc, Option::Some(f));
    match f {
        SourceFilterV::All(keep) => {
            if !keep {
                assert(once == ValV::Obj(Seq::empty()));
            }
        },
        SourceFilterV::Fields(names) => {
            lemma_pick_idempotent_value(doc, names);
        },
        SourceFilterV::Partial { includes, excludes } => {
            lemma_partial_idempotent(doc, includes, excludes);
        },
    }
}

proof fn lemma_pick_idempotent_value(doc: ValV, names: Seq<Seq<char>>)
    ensures
        spec_pick_value(spec_pick_value(doc, names), names) == spec_pick_value(doc, names),
{
    match doc {
        ValV::Obj(fields) => {
            lemma_pick_pick(fields, names, names.len() as int);
        },
        _ => {
            // the empty object projects to itself
            assert forall|j: int|
                0 <= j < names.len() implies spec_obj_get(
                Seq::<(Seq<char>, ValV)>::empty(),
                #[trigger] names[j],
            ) is None by {}
            lemma_pick_empty(names, names.len() as int);
        },
    }
}

proof fn lemma_pick_empty(names: Seq<Seq<char>>, i: int)
    requires
        0 <= i <= names.len(),
    ensures
        spec_pick_fields(Seq::<(Seq<char>, ValV)>::empty(), names, i) == Seq::<
            (Seq<char>, ValV),
        >::empty(),
    decreases i,
{
    if i > 0 {
        lemma_pick_empty(names, i - 1);
    }
}

proof fn lemma_partial_idempotent(
    doc: ValV,
    includes: Option<Seq<Seq<char>>>,
    excludes: Option<Seq<Seq<char>>>,
)
    ensures
        ({
            let f = SourceFilterV::Partial { includes, excludes };
            spec_filter_source(spec_filter_source(doc, Option::Some(f)), Option::Some(f))
                == spec_filter_source(doc, Option::Some(f))
        }),
{
    let f = SourceFilterV::Partial { includes, excludes };
    let once = spec_filter_source(doc, Option::Some(f));
    let after_excl = match excludes {
        Option::Some(es) => match doc {
            ValV::Obj(fields) => ValV::Obj(spec_drop_fields(fields, es, es.len() as int)),
            _ => doc,
        },
        Option::None => doc,
    };
    match includes {
        Option::Some(is) => {
            // `once` is a projection: an object whose keys sit among `is`
            // and are absent from the excluded names
            let picked = match after_excl {
                ValV::Obj(af) => spec_pick_fields(af, is, is.len() as int),
                _ => Seq::<(Seq<char>, ValV)>::empty(),
            };
            assert(once == ValV::Obj(picked)) by {
                match after_excl {
                    ValV::Obj(_) => {},
                    _ => {},
                }
            }
            match excludes {
                Option::Some(es) => {
                    assert forall|j: int|
                        0 <= j < es.len() implies spec_obj_get(
                        picked,
                        #[trigger] es[j],
                    ) is None by {
                        match after_excl {
                            ValV::Obj(af) => {
                                lemma_pick_get(af, is, is.len() as int, es[j]);
                                match doc {
                                    ValV::Obj(fields) => {
                                        lemma_drop_get(fields, es, es.len() as int, es[j]);
                                    },
                                    _ => {},
                                }
                            },
                            _ => {
                                lemma_pick_empty(is, is.len() as int);
                            },
                        }
                    }
                    lemma_drop_absent(picked, es, es.len() as int);
                },
                Option::None => {},
            }
            match after_excl {
                ValV::Obj(af) => {
                    lemma_pick_pick(af, is, is.len() as int);
                },
                _ => {
                    lemma_pick_empty(is, is.len() as int);
                    lemma_pick_pick(Seq::<(Seq<char>, ValV)>::empty(), is, is.len() as int);
                },
            }
        },
        Option::None => {
            match excludes {
                Option::Some(es) => {
                    match doc {
                        ValV::Obj(fields) => {
                            let dropped = spec_drop_fields(fields, es, es.len() as int);
                            assert forall|j: int|
                                0 <= j < es.len() implies spec_obj_get(
                                dropped,
                                #[trigger] es[j],
                            ) is None by {
                                lemma_drop_get(fields, es, es.len() as int, es[j]);
                            }
                            lemma_drop_absent(dropped, es, es.len() as int);
                        },
                        _ => {},
                    }
                },
                Option::None => {},
            }
        },
    }
}


/// A freshly created index is found again under its name, so creating it a
/// second time is refused as an invalid request.
pub proof fn lemma_create_then_create(cat: Seq<(Seq<char>, IndexV)>, name: Seq<char>, idx: IndexV)
    ensures
        spec_cat_get(cat.push((name, idx)), name) is Some,
    decreases cat.len(),
{
    let t = cat.push((name, idx));
    if cat.len() == 0 {
        assert(t[0] == (name, idx));
    } else if t[0].0 == name {
    } else {
        lemma_create_then_create(cat.skip(1), name, idx);
        assert(t.skip(1) =~= cat.skip(1).push((name, idx)));
    }
}

/// After deleting an index from a well-formed catalog, looking it up finds
/// nothing.
pub proof fn lemma_delete_then_get(cat: Seq<(Seq<char>, IndexV)>, name: Seq<char>)
    requires
        wf_catalog(cat),
    ensures
        spec_cat_get(spec_cat_remove(cat, name), name) is None,
    decreases cat.len(),
{
    if cat.len() > 0 {
        assert(wf_catalog(cat.skip(1))) by {
            assert(forall|i: int, j: int|
                0 <= i < j < cat.skip(1).len() ==> cat.skip(1)[i] == cat[i + 1] && cat.skip(1)[j]
                    == cat[j + 1]);
        }
        if cat[0].0 == name {
            lemma_absent_get(cat.skip(1), name);
        } else {
            lemma_delete_then_get(cat.skip(1), name);
            let t = seq![cat[0]] + spec_cat_remove(cat.skip(1), name);
            assert(t[0] == cat[0]);
            assert(t.skip(1) =~= spec_cat_remove(cat.skip(1), name));
        }
    }
}

/// A name bound nowhere in the catalog is not found.
proof fn lemma_absent_get(cat: Seq<(Seq<char>, IndexV)>, name: Seq<char>)
    requires
        forall|i: int| 0 <= i < cat.len() ==> (#[trigger] cat[i].0) != name,
    ensures
        spec_cat_get(cat, name) is None,
    decreases cat.len(),
{
    if cat.len() > 0 {
        assert(forall|i: int|
            0 <= i < cat.skip(1).len() ==> (#[trigger] cat.skip(1)[i]) == cat[i + 1]);
        lemma_absent_get(cat.skip(1), name);
    }
}

/// A bulk `Create` on an id already stored in its index fails, and the
/// catalog is unchanged.
pub proof fn lemma_bulk_create_existing(
    cat: Seq<(Seq<char>, IndexV)>,
    index: Seq<char>,
    id: Seq<char>,
    doc: ValV,
    fresh: Seq<char>,
)
    requires
        spec_cat_get(cat, index) is Some,
        spec_obj_get(spec_cat_get(cat, index)->Some_0.documents, id) is Some,
    ensures
        ({
            let out = spec_bulk_action(
                cat,
                BulkActionV::Create { index, id: Option::Some(id), document: doc },
                fresh,
            );
            out.0 == cat && out.1 == Result::<
                (Seq<char>, Seq<char>, u16, Option<Seq<char>>),
                GbsErrorV,
            >::Err(GbsErrorV::InvalidRequest("Document "@ + id + " already exists"@))
        }),
{
}

/// A bulk `Update` on a missing id succeeds and stores the given document
/// whole.
pub proof fn lemma_bulk_update_missing(
    cat: Seq<(Seq<char>, IndexV)>,
    index: Seq<char>,
    id: Seq<char>,
    doc: ValV,
    fresh: Seq<char>,
)
    requires
        spec_cat_get(cat, index) is Some,
        spec_obj_get(spec_cat_get(cat, index)->Some_0.documents, id) is None,
    ensures
        ({
            let out = spec_bulk_action(
                cat,
                BulkActionV::Update { index, id, document: doc },
                fresh,
            );
            let idx = spec_cat_get(cat, index)->Some_0;
            out.1 is Ok && out.0 == crate::catalog::spec_cat_set(
                cat,
                index,
                (IndexV {
                    documents: crate::catalog::spec_doc_set(idx.documents, id, doc),
                    ..idx
                }),
            )
        }),
{
}

/// A bulk `Delete` on a missing id fails, and the catalog is unchanged.
pub proof fn lemma_bulk_delete_missing(
    cat: Seq<(Seq<char>, IndexV)>,
    index: Seq<char>,
    id: Seq<char>,
    fresh: Seq<char>,
)
    requires
        spec_cat_get(cat, index) is Some,
        spec_obj_get(spec_cat_get(cat, index)->Some_0.documents, id) is None,
    ensures
        ({
            let out = spec_bulk_action(cat, BulkActionV::Delete { index, id }, fresh);
            out.0 == cat && out.1 == Result::<
                (Seq<char>, Seq<char>, u16, Option<Seq<char>>),
                GbsErrorV,
            >::Err(GbsErrorV::DocumentNotFound(id))
        }),
{
}


/// Elements of a shorter prefix are elements of the whole.
proof fn lemma_drop_last_contains(s: Seq<HitV>, e: HitV)
    requires
        s.len() > 0,
        s.drop_last().to_multiset().contains(e),
    ensures
        s.to_multiset().contains(e),
{
    assert(s =~= s.drop_last().push(s.last()));
    assert(s.to_multiset() =~= s.drop_last().to_multiset().insert(s.last()));
}

/// Transitivity of the per-field comparison on pairwise strictly ordered
/// values.
proof fn lemma_cmp_vals_trans_strict(a: Option<ValV>, b: Option<ValV>, c: Option<ValV>)
    requires
        crate::results::spec_cmp_vals(a, b) < 0,
        crate::results::spec_cmp_vals(b, c) < 0,
        crate::results::spec_cmp_vals(a, c) != 0,
    ensures
        crate::results::spec_cmp_vals(a, c) < 0,
{
    match (a, b, c) {
        (
            Option::Some(ValV::Str(x)),
            Option::Some(ValV::Str(y)),
            Option::Some(ValV::Str(z)),
        ) => {
            crate::text::lemma_lex_trichotomy(x, y);
            crate::text::lemma_lex_trichotomy(y, z);
            crate::text::lemma_lex_trichotomy(x, z);
            crate::text::lemma_lex_trans(x, y, z);
        },
        _ => {},
    }
}

/// The ascending order of one sort key is transitive on hits whose key
/// values are pairwise strictly ordered.
proof fn lemma_single_key_trans(a: HitV, b: HitV, c: HitV, kasc: Seq<(Seq<char>, bool)>)
    requires
        kasc.len() == 1,
        kasc[0].1 == true,
        spec_sort_cmp(a.doc, b.doc, kasc) != 0,
        spec_sort_cmp(b.doc, c.doc, kasc) != 0,
        spec_sort_cmp(a.doc, c.doc, kasc) != 0,
        spec_hit_le(a, b, kasc, false),
        spec_hit_le(b, c, kasc, false),
    ensures
        spec_hit_le(a, c, kasc, false),
{
    let f = kasc[0].0;
    assert(kasc.skip(1).len() == 0);
    lemma_single_key_cmp(a.doc, b.doc, kasc);
    lemma_single_key_cmp(b.doc, c.doc, kasc);
    lemma_single_key_cmp(a.doc, c.doc, kasc);
    lemma_cmp_vals_trans_strict(
        spec_get_field(a.doc, f),
        spec_get_field(b.doc, f),
        spec_get_field(c.doc, f),
    );
}

/// For one ascending key the document comparison is the field comparison.
proof fn lemma_single_key_cmp(x: ValV, y: ValV, kasc: Seq<(Seq<char>, bool)>)
    requires
        kasc.len() == 1,
        kasc[0].1 == true,
    ensures
        spec_sort_cmp(x, y, kasc) == crate::results::spec_cmp_vals(
            spec_get_field(x, kasc[0].0),
            spec_get_field(y, kasc[0].0),
        ),
{
    reveal_with_fuel(spec_sort_cmp, 2);
    assert(kasc.skip(1).len() == 0);
    assert(spec_sort_cmp(x, y, kasc.skip(1)) == 0);
}

/// The reversal law, abstractly: when every pair of distinct hits flips its
/// order between the two key lists, and the ascending order is transitive
/// on them, sorting descending gives exactly the reverse of sorting
/// ascending.
#[verifier::rlimit(100)]
proof fn lemma_sort_reverse_abstract(
    s: Seq<HitV>,
    kasc: Seq<(Seq<char>, bool)>,
    kdesc: Seq<(Seq<char>, bool)>,
)
    requires
        forall|i: int, j: int| 0 <= i < j < s.len() ==> s[i] != s[j],
        forall|a: HitV, b: HitV|
            s.to_multiset().contains(a) && s.to_multiset().contains(b) && a != b
                ==> (#[trigger] spec_hit_le(a, b, kdesc, false) <==> !spec_hit_le(
                a,
                b,
                kasc,
                false,
            )),
        forall|a: HitV, b: HitV, c: HitV|
            s.to_multiset().contains(a) && s.to_multiset().contains(b) && s.to_multiset()
                .contains(c) && a != b && b != c && a != c && #[trigger] spec_hit_le(
                a,
                b,
                kasc,
                false,
            ) && #[trigger] spec_hit_le(b, c, kasc, false) ==> spec_hit_le(a, c, kasc, false),
    ensures
        spec_sort_hits(s, kdesc, false) == spec_sort_hits(s, kasc, false).reverse(),
        spec_sort_hits(s, kasc, false).to_multiset() == s.to_multiset(),
        forall|i: int, j: int|
            0 <= i <= j < spec_sort_hits(s, kasc, false).len() ==> spec_hit_le(
                #[trigger] spec_sort_hits(s, kasc, false)[i],
                #[trigger] spec_sort_hits(s, kasc, false)[j],
                kasc,
                false,
            ),
    decreases s.len(),
{
    lemma_sort_hits_permutation(s, kasc, false);
    if s.len() == 0 {
        assert(spec_sort_hits(s, kasc, false).reverse() =~= Seq::<HitV>::empty());
    } else {
        let body = s.drop_last();
        let x = s.last();
        assert(s =~= body.push(x));
        assert(s.to_multiset() =~= body.to_multiset().insert(x));
        assert forall|i: int, j: int| 0 <= i < j < body.len() implies body[i] != body[j] by {
            assert(body[i] == s[i] && body[j] == s[j]);
        }
        assert forall|a: HitV, b: HitV|
            body.to_multiset().contains(a) && body.to_multiset().contains(b) && a != b implies (
        #[trigger] spec_hit_le(a, b, kdesc, false) <==> !spec_hit_le(a, b, kasc, false)) by {
            lemma_drop_last_contains(s, a);
            lemma_drop_last_contains(s, b);
        }
        assert forall|a: HitV, b: HitV, c: HitV|
            body.to_multiset().contains(a) && body.to_multiset().contains(b)
                && body.to_multiset().contains(c) && a != b && b != c && a != c
                && #[trigger] spec_hit_le(a, b, kasc, false) && #[trigger] spec_hit_le(
                b,
                c,
                kasc,
                false,
            ) implies spec_hit_le(a, c, kasc, false) by {
            lemma_drop_last_contains(s, a);
            lemma_drop_last_contains(s, b);
            lemma_drop_last_contains(s, c);
        }
        lemma_sort_reverse_abstract(body, kasc, kdesc);
        let t = spec_sort_hits(body, kasc, false);
        lemma_sort_hits_permutation(body, kasc, false);
        // x is distinct from every element of the sorted prefix
        assert forall|k: int| 0 <= k < t.len() implies t[k] != x && s.to_multiset().contains(
            t[k],
        ) by {
            assert(t.to_multiset().contains(t[k]));
            assert(body.to_multiset().contains(t[k]));
            let m = choose|m: int| 0 <= m < body.len() && body[m] == t[k];
            assert(s[m] == body[m] && s[s.len() - 1] == x);
            lemma_drop_last_contains(s, t[k]);
        }
        // find the insertion position in the ascending result
        let p = insert_position(t, x, kasc);
        lemma_insert_position(t, x, kasc, false);
        assert(spec_insert_hit(t, x, kasc, false) == t.take(p) + seq![x] + t.skip(p)) by {
            crate::results::lemma_insert_hit_at(t, x, kasc, false, p);
        }
        // by sortedness of `t` and transitivity, everything below `p` also
        // compares at or below `x`
        assert forall|k: int| 0 <= k < p implies spec_hit_le(t[k], x, kasc, false) by {
            if k < p - 1 {
                assert(spec_hit_le(t[k], t[p - 1], kasc, false));
                if t[k] != t[p - 1] {
                    assert(spec_hit_le(t[p - 1], x, kasc, false));
                }
            }
        }
        // in the reversed order the same position works out mirrored
        let rt = t.reverse();
        assert(rt.len() == t.len());
        assert forall|j: int| t.len() - p <= j < rt.len() implies !spec_hit_le(
            #[trigger] rt[j],
            x,
            kdesc,
            false,
        ) by {
            assert(rt[j] == t[t.len() - 1 - j]);
            assert(t.len() - 1 - j < p);
            assert(spec_hit_le(t[t.len() - 1 - j], x, kasc, false));
        }
        if t.len() - p > 0 {
            assert(rt[t.len() - p - 1] == t[p]);
            assert(!spec_hit_le(t[p], x, kasc, false));
            assert(spec_hit_le(rt[t.len() - p - 1], x, kdesc, false));
        }
        crate::results::lemma_insert_hit_at(rt, x, kdesc, false, t.len() - p);
        assert(spec_sort_hits(s, kdesc, false) == rt.take(t.len() - p) + seq![x] + rt.skip(
            t.len() - p,
        ));
        assert(rt.take(t.len() - p) + seq![x] + rt.skip(t.len() - p) =~= (t.take(p) + seq![x]
            + t.skip(p)).reverse());
        // the combined result is sorted ascending
        let u = t.take(p) + seq![x] + t.skip(p);
        assert forall|i: int, j: int| 0 <= i <= j < u.len() implies spec_hit_le(
            #[trigger] u[i],
            #[trigger] u[j],
            kasc,
            false,
        ) by {
            lemma_sorted_after_insert(t, x, p, kasc);
            assert(spec_hit_le(u[i], u[j], kasc, false));
        }
    }
}

/// The position the stable insertion uses: scanning from the end, past
/// every element that does not compare at or below the new one.
spec fn insert_position(t: Seq<HitV>, x: HitV, kasc: Seq<(Seq<char>, bool)>) -> int
    decreases t.len(),
{
    if t.len() == 0 {
        0
    } else if spec_hit_le(t.last(), x, kasc, false) {
        t.len() as int
    } else {
        insert_position(t.drop_last(), x, kasc)
    }
}

proof fn lemma_insert_position(t: Seq<HitV>, x: HitV, kasc: Seq<(Seq<char>, bool)>, by_score: bool)
    ensures
        0 <= insert_position(t, x, kasc) <= t.len(),
        forall|j: int|
            insert_position(t, x, kasc) <= j < t.len() ==> !spec_hit_le(
                #[trigger] t[j],
                x,
                kasc,
                false,
            ),
        insert_position(t, x, kasc) > 0 ==> spec_hit_le(
            t[insert_position(t, x, kasc) - 1],
            x,
            kasc,
            false,
        ),
    decreases t.len(),
{
    if t.len() > 0 && !spec_hit_le(t.last(), x, kasc, false) {
        lemma_insert_position(t.drop_last(), x, kasc, by_score);
        assert(forall|j: int| 0 <= j < t.len() - 1 ==> t.drop_last()[j] == #[trigger] t[j]);
    }
}

/// Inserting at the found position keeps the ascending order.
proof fn lemma_sorted_after_insert(
    t: Seq<HitV>,
    x: HitV,
    p: int,
    kasc: Seq<(Seq<char>, bool)>,
)
    requires
        0 <= p <= t.len(),
        forall|i: int, j: int|
            0 <= i <= j < t.len() ==> spec_hit_le(#[trigger] t[i], #[trigger] t[j], kasc, false),
        forall|k: int| 0 <= k < p ==> spec_hit_le(#[trigger] t[k], x, kasc, false),
        forall|j: int| p <= j < t.len() ==> !spec_hit_le(#[trigger] t[j], x, kasc, false),
    ensures
        forall|i: int, j: int|
            0 <= i <= j < (t.take(p) + seq![x] + t.skip(p)).len() ==> spec_hit_le(
                #[trigger] (t.take(p) + seq![x] + t.skip(p))[i],
                #[trigger] (t.take(p) + seq![x] + t.skip(p))[j],
                kasc,
                false,
            ),
{
    let u = t.take(p) + seq![x] + t.skip(p);
    assert forall|i: int, j: int| 0 <= i <= j < u.len() implies spec_hit_le(
        #[trigger] u[i],
        #[trigger] u[j],
        kasc,
        false,
    ) by {
        let ui = if i < p {
            t[i]
        } else if i == p {
            x
        } else {
            t[i - 1]
        };
        let uj = if j < p {
            t[j]
        } else if j == p {
            x
        } else {
            t[j - 1]
        };
        assert(u[i] == ui && u[j] == uj);
        if i == j {
            lemma_sort_cmp_antisym(ui.doc, ui.doc, kasc);
        } else if j == p {
            assert(spec_hit_le(t[i], x, kasc, false));
        } else if i == p {
            assert(!spec_hit_le(t[j - 1], x, kasc, false));
            lemma_hit_le_total(x, t[j - 1], kasc, false);
        } else {
            assert(spec_hit_le(ui, uj, kasc, false));
        }
    }
}

/// Reversing a single sort field's direction exactly reverses the hit
/// order, whenever the field orders the hits strictly (no two hits tie on
/// it).
pub proof fn lemma_single_key_reverse(s: Seq<HitV>, field: Seq<char>)
    requires
        forall|i: int, j: int| 0 <= i < j < s.len() ==> s[i] != s[j],
        forall|i: int, j: int|
            0 <= i < s.len() && 0 <= j < s.len() && i != j ==> spec_sort_cmp(
                (#[trigger] s[i]).doc,
                (#[trigger] s[j]).doc,
                seq![(field, true)],
            ) != 0,
    ensures
        spec_sort_hits(s, seq![(field, false)], false) == spec_sort_hits(
            s,
            seq![(field, true)],
            false,
        ).reverse(),
{
    let kasc = seq![(field, true)];
    let kdesc = seq![(field, false)];
    assert(kasc[0] == (field, true));
    assert(kdesc[0] == (field, false));
    assert forall|a: HitV, b: HitV|
        s.to_multiset().contains(a) && s.to_multiset().contains(b) && a != b implies (
    #[trigger] spec_hit_le(a, b, kdesc, false) <==> !spec_hit_le(a, b, kasc, false)) by {
        let i = choose|i: int| 0 <= i < s.len() && s[i] == a;
        let j = choose|j: int| 0 <= j < s.len() && s[j] == b;
        assert(spec_sort_cmp(a.doc, b.doc, kasc) != 0);
        assert(kasc.skip(1).len() == 0 && kdesc.skip(1).len() == 0);
        let c = crate::results::spec_cmp_vals(
            spec_get_field(a.doc, field),
            spec_get_field(b.doc, field),
        );
        reveal_with_fuel(spec_sort_cmp, 2);
        assert(spec_sort_cmp(a.doc, b.doc, kasc.skip(1)) == 0);
        assert(spec_sort_cmp(a.doc, b.doc, kdesc.skip(1)) == 0);
        assert(spec_sort_cmp(a.doc, b.doc, kasc) == c);
        assert(spec_sort_cmp(a.doc, b.doc, kdesc) == (if -c != 0 {
            -c
        } else {
            0int
        }));
    }
    assert forall|a: HitV, b: HitV, c: HitV|
        s.to_multiset().contains(a) && s.to_multiset().contains(b) && s.to_multiset().contains(
            c,
        ) && a != b && b != c && a != c && #[trigger] spec_hit_le(a, b, kasc, false)
            && #[trigger] spec_hit_le(b, c, kasc, false) implies spec_hit_le(
        a,
        c,
        kasc,
        false,
    ) by {
        let i = choose|i: int| 0 <= i < s.len() && s[i] == a;
        let j = choose|j: int| 0 <= j < s.len() && s[j] == b;
        let k = choose|k: int| 0 <= k < s.len() && s[k] == c;
        lemma_single_key_trans(a, b, c, kasc);
    }
    lemma_sort_reverse_abstract(s, kasc, kdesc);
}


/// Stability of the sort: hits that all tie under the order come out in
/// exactly their input order.
pub proof fn lemma_sort_ties_keep_order(
    s: Seq<HitV>,
    keys: Seq<(Seq<char>, bool)>,
    by_score: bool,
)
    requires
        forall|i: int, j: int|
            0 <= i < s.len() && 0 <= j < s.len() ==> spec_hit_le(
                #[trigger] s[i],
                #[trigger] s[j],
                keys,
                by_score,
            ),
    ensures
        spec_sort_hits(s, keys, by_score) == s,
    decreases s.len(),
{
    if s.len() > 0 {
        let body = s.drop_last();
        assert forall|i: int, j: int|
            0 <= i < body.len() && 0 <= j < body.len() implies spec_hit_le(
            #[trigger] body[i],
            #[trigger] body[j],
            keys,
            by_score,
        ) by {
            assert(body[i] == s[i] && body[j] == s[j]);
        }
        lemma_sort_ties_keep_order(body, keys, by_score);
        if body.len() > 0 {
            assert(body.last() == s[s.len() - 2] && s.last() == s[s.len() - 1]);
            assert(spec_hit_le(body.last(), s.last(), keys, by_score));
            assert(spec_insert_hit(body, s.last(), keys, by_score) == body.push(s.last()));
        }
        assert(body.push(s.last()) =~= s);
    }
}

} // verus!

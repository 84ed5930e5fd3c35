//! Highlighting: wrapping every non-overlapping, case-insensitive
//! occurrence of a query term in configured tags.
//!
//! Terms are the lowercase whitespace tokens of the query's text clauses
//! (and `term` literals), collected recursively through `bool` queries. For
//! each term the occurrences are found greedily left to right; the combined
//! occurrence list is stably ordered by start position and overlapping
//! matches are dropped, first match winning at any position.

use vstd::prelude::*;

use crate::query::{Query, QueryV};
use crate::text::{
    chars_to_string, spec_lower, spec_match_at, spec_tokens, str_chars, str_chars_lower, tokenize,
};
use crate::value::ValV;

verus! {

broadcast use vstd::std_specs::vec::group_vec_axioms;

/// The lowercase whitespace tokens of a query string.
pub open spec fn spec_query_tokens(q: Seq<char>) -> Seq<Seq<char>> {
    spec_tokens(spec_lower(q))
}

/// Lowercase, whitespace-tokenized terms of a query string.
pub fn tokenize_query(query: &str) -> (r: Vec<String>)
    ensures
        r.deep_view() == spec_query_tokens(query@),
{
    let lowered = str_chars_lower(query);
    let toks = tokenize(&lowered);
    let mut r: Vec<String> = Vec::new();
    let mut i: usize = 0;
    while i < toks.len()
        invariant
            i <= toks@.len(),
            toks.deep_view() == spec_query_tokens(query@),
            toks@.len() == toks.deep_view().len(),
            r.deep_view() == toks.deep_view().take(i as int),
        decreases toks@.len() - i,
    {
        proof {
            assert(toks.deep_view()[i as int] == toks@[i as int]@);
        }
        let ghost old_dv = r.deep_view();
        let s = chars_to_string(&toks[i]);
        r.push(s);
        proof {
            assert(r.deep_view() =~= old_dv.push(toks@[i as int]@));
            assert(r.deep_view() =~= toks.deep_view().take(i as int + 1));
        }
        i += 1;
    }
    proof {
        assert(toks.deep_view().take(toks@.len() as int) =~= toks.deep_view());
    }
    r
}

/// The search terms a query highlights: tokens of its text clauses, the
/// lowercase string literals of `term` clauses, and everything from nested
/// `bool` clauses, in clause order.
pub open spec fn spec_extract_terms(q: QueryV) -> Seq<Seq<char>>
    decreases q, 0int, 0int,
{
    match q {
        QueryV::Match { field, text } => spec_query_tokens(text),
        QueryV::MatchPhrase { field, text } => spec_query_tokens(text),
        QueryV::MultiMatch { fields, text } => spec_query_tokens(text),
        QueryV::Term { field, value } => match value {
            ValV::Str(s) => seq![spec_lower(s)],
            _ => Seq::empty(),
        },
        QueryV::Bool { must, should, must_not, filter } => spec_extract_list(
            must,
            must.len() as int,
        ) + spec_extract_list(should, should.len() as int) + spec_extract_list(
            must_not,
            must_not.len() as int,
        ) + spec_extract_list(filter, filter.len() as int),
        _ => Seq::empty(),
    }
}

pub open spec fn spec_extract_list(qs: Seq<QueryV>, i: int) -> Seq<Seq<char>>
    decreases qs, 1int, i,
{
    if i <= 0 || i > qs.len() {
        Seq::empty()
    } else {
        spec_extract_list(qs, i - 1) + spec_extract_terms(qs[i - 1])
    }
}

/// Collect the highlight terms of a query.
#[verifier::loop_isolation(false)]
pub fn extract_query_terms(query: &Query) -> (r: Vec<String>)
    ensures
        r.deep_view() == spec_extract_terms(query@),
    decreases query,
{
    match query {
        Query::Match { field: _, text } => tokenize_query(text.as_str()),
        Query::MatchPhrase { field: _, text } => tokenize_query(text.as_str()),
        Query::MultiMatch { fields: _, text } => tokenize_query(text.as_str()),
        Query::Term { field: _, value } => {
            let mut r: Vec<String> = Vec::new();
            match value {
                crate::value::Val::Str(s) => {
                    let lowered = str_chars_lower(s.as_str());
                    r.push(chars_to_string(&lowered));
                    proof {
                        assert(r.deep_view() =~= seq![spec_lower(s@)]);
                    }
                },
                _ => {
                    proof {
                        assert(r.deep_view() =~= Seq::<Seq<char>>::empty());
                    }
                },
            }
            r
        },
        Query::Bool { must, should, must_not, filter } => {
            let ghost mv = query@->Bool_must;
            let ghost sv = query@->Bool_should;
            let ghost nv = query@->Bool_must_not;
            let ghost fv = query@->Bool_filter;
            let mut r: Vec<String> = Vec::new();
            proof {
                assert(r.deep_view() =~= Seq::<Seq<char>>::empty());
                assert(Seq::<Seq<char>>::empty() =~= spec_extract_list(mv, 0));
            }
            let mut i: usize = 0;
            while i < must.len()
                invariant
                    i <= must@.len(),
                    r.deep_view() == spec_extract_list(mv, i as int),
                decreases must@.len() - i,
            {
                proof {
                    assert(mv[i as int] == must@[i as int]@);
                }
                let terms = extract_query_terms(&must[i]);
                append_strings(&mut r, terms);
                i += 1;
            }
            let ghost base1 = spec_extract_list(mv, mv.len() as int);
            proof {
                assert(base1 =~= base1 + spec_extract_list(sv, 0));
            }
            let mut i: usize = 0;
            while i < should.len()
                invariant
                    i <= should@.len(),
                    r.deep_view() == base1 + spec_extract_list(sv, i as int),
                decreases should@.len() - i,
            {
                proof {
                    assert(sv[i as int] == should@[i as int]@);
                }
                let terms = extract_query_terms(&should[i]);
                append_strings(&mut r, terms);
                proof {
                    assert(base1 + spec_extract_list(sv, i as int) + spec_extract_terms(
                        sv[i as int],
                    ) =~= base1 + spec_extract_list(sv, i as int + 1));
                }
                i += 1;
            }
            let ghost base2 = base1 + spec_extract_list(sv, sv.len() as int);
            proof {
                assert(base2 =~= base2 + spec_extract_list(nv, 0));
            }
            let mut i: usize = 0;
            while i < must_not.len()
                invariant
                    i <= must_not@.len(),
                    r.deep_view() == base2 + spec_extract_list(nv, i as int),
                decreases must_not@.len() - i,
            {
                proof {
                    assert(nv[i as int] == must_not@[i as int]@);
                }
                let terms = extract_query_terms(&must_not[i]);
                append_strings(&mut r, terms);
                proof {
                    assert(base2 + spec_extract_list(nv, i as int) + spec_extract_terms(
                        nv[i as int],
                    ) =~= base2 + spec_extract_list(nv, i as int + 1));
                }
                i += 1;
            }
            let ghost base3 = base2 + spec_extract_list(nv, nv.len() as int);
            proof {
                assert(base3 =~= base3 + spec_extract_list(fv, 0));
            }
            let mut i: usize = 0;
            while i < filter.len()
                invariant
                    i <= filter@.len(),
                    r.deep_view() == base3 + spec_extract_list(fv, i as int),
                decreases filter@.len() - i,
            {
                proof {
                    assert(fv[i as int] == filter@[i as int]@);
                }
                let terms = extract_query_terms(&filter[i]);
                append_strings(&mut r, terms);
                proof {
                    assert(base3 + spec_extract_list(fv, i as int) + spec_extract_terms(
                        fv[i as int],
                    ) =~= base3 + spec_extract_list(fv, i as int + 1));
                }
                i += 1;
            }
            proof {
                assert(r.deep_view() =~= spec_extract_terms(query@));
            }
            r
        },
        _ => {
            let r: Vec<String> = Vec::new();
            proof {
                assert(r.deep_view() =~= Seq::<Seq<char>>::empty());
            }
            r
        },
    }
}

/// Append all of `more` to `acc`.
fn append_strings(acc: &mut Vec<String>, more: Vec<String>)
    ensures
        final(acc).deep_view() == old(acc).deep_view() + more.deep_view(),
{
    let mut more = more;
    let ghost base = acc.deep_view();
    let ghost mv = more.deep_view();
    let mut i: usize = 0;
    proof {
        assert(base + mv.take(0) =~= base);
    }
    while i < more.len()
        invariant
            i <= more@.len(),
            more.deep_view() == mv,
            mv.len() == more@.len(),
            acc.deep_view() == base + mv.take(i as int),
        decreases more@.len() - i,
    {
        proof {
            assert(mv[i as int] == more@[i as int]@);
        }
        let ghost old_dv = acc.deep_view();
        let s = more[i].clone();
        acc.push(s);
        proof {
            assert(acc.deep_view() =~= old_dv.push(mv[i as int]));
            assert(acc.deep_view() =~= base + mv.take(i as int + 1));
        }
        i += 1;
    }
    proof {
        assert(mv.take(mv.len() as int) =~= mv);
    }
}

/// Greedy non-overlapping occurrences of a non-empty term, scanning left to
/// right from position `i`; after a match the scan resumes at its end.
pub open spec fn spec_occurrences(tl: Seq<char>, term: Seq<char>, i: int) -> Seq<(int, int)>
    decreases tl.len() - i,
    when term.len() > 0 && 0 <= i
{
    if i + term.len() > tl.len() {
        Seq::empty()
    } else if spec_match_at(tl, term, i) {
        seq![(i, i + term.len() as int)] + spec_occurrences(tl, term, i + term.len() as int)
    } else {
        spec_occurrences(tl, term, i + 1)
    }
}

/// All occurrences of the case-folded terms in the case-folded text, term
/// by term; empty terms are skipped.
pub open spec fn spec_all_matches(tl: Seq<char>, terms: Seq<Seq<char>>, k: int) -> Seq<(int, int)>
    decreases k,
{
    if k <= 0 || k > terms.len() {
        Seq::empty()
    } else {
        let t = spec_lower(terms[k - 1]);
        spec_all_matches(tl, terms, k - 1) + (if t.len() > 0 {
            spec_occurrences(tl, t, 0)
        } else {
            Seq::empty()
        })
    }
}

/// Stable insertion by start position.
pub open spec fn spec_insert_match(s: Seq<(int, int)>, x: (int, int)) -> Seq<(int, int)>
    decreases s.len(),
{
    if s.len() == 0 {
        seq![x]
    } else if s.last().0 <= x.0 {
        s.push(x)
    } else {
        spec_insert_match(s.drop_last(), x).push(s.last())
    }
}

/// Stable sort of the matches by start position.
pub open spec fn spec_sort_matches(s: Seq<(int, int)>) -> Seq<(int, int)>
    decreases s.len(),
{
    if s.len() == 0 {
        Seq::empty()
    } else {
        spec_insert_match(spec_sort_matches(s.drop_last()), s.last())
    }
}

/// Drop the matches that overlap an earlier kept one: a match is kept when
/// it starts at or after the end of the last kept match.
pub open spec fn spec_keep_matches(s: Seq<(int, int)>, last_end: int) -> Seq<(int, int)>
    decreases s.len(),
{
    if s.len() == 0 {
        Seq::empty()
    } else if s[0].0 >= last_end {
        seq![s[0]] + spec_keep_matches(s.skip(1), s[0].1)
    } else {
        spec_keep_matches(s.skip(1), last_end)
    }
}

/// Splice the kept matches into the original text, wrapping each matched
/// range in the tags; `last` is the end of the previously spliced range.
pub open spec fn spec_splice(
    text: Seq<char>,
    ms: Seq<(int, int)>,
    last: int,
    pre: Seq<char>,
    post: Seq<char>,
) -> Seq<char>
    decreases ms.len(),
    when 0 <= last <= text.len() && valid_matches(text, ms, last)
{
    if ms.len() == 0 {
        text.skip(last)
    } else {
        text.subrange(last, ms[0].0) + pre + text.subrange(ms[0].0, ms[0].1) + post + spec_splice(
            text,
            ms.skip(1),
            ms[0].1,
            pre,
            post,
        )
    }
}

/// The kept matches are in order, within the text, after `last`.
pub open spec fn valid_matches(text: Seq<char>, ms: Seq<(int, int)>, last: int) -> bool
    decreases ms.len(),
{
    if ms.len() == 0 {
        true
    } else {
        last <= ms[0].0 && ms[0].0 <= ms[0].1 && ms[0].1 <= text.len() && valid_matches(
            text,
            ms.skip(1),
            ms[0].1,
        )
    }
}

/// The fully highlighted rendering of `text` for the given terms and tags.
pub open spec fn spec_highlight_text(
    text: Seq<char>,
    terms: Seq<Seq<char>>,
    pre: Seq<char>,
    post: Seq<char>,
) -> Seq<char> {
    if terms.len() == 0 {
        text
    } else {
        let all = spec_all_matches(spec_lower(text), terms, terms.len() as int);
        let kept = spec_keep_matches(spec_sort_matches(all), 0);
        spec_splice(text, kept, 0, pre, post)
    }
}


pub open spec fn pairs_view(s: Seq<(usize, usize)>) -> Seq<(int, int)> {
    Seq::new(
        s.len(),
        |i: int|
            if 0 <= i < s.len() {
                (s[i].0 as int, s[i].1 as int)
            } else {
                (0int, 0int)
            },
    )
}

/// Every match of the list lies within a text of length `n`.
pub open spec fn matches_within(s: Seq<(int, int)>, n: int) -> bool {
    forall|k: int| 0 <= k < s.len() ==> 0 <= #[trigger] s[k].0 && s[k].0 <= s[k].1 && s[k].1 <= n
}

/// The matches are ordered by start position.
pub open spec fn matches_ordered(s: Seq<(int, int)>) -> bool {
    forall|i: int, j: int| 0 <= i < j < s.len() ==> s[i].0 <= s[j].0
}

proof fn lemma_insert_match_at(s: Seq<(int, int)>, x: (int, int), p: int)
    requires
        0 <= p <= s.len(),
        forall|j: int| p <= j < s.len() ==> !(#[trigger] s[j].0 <= x.0),
        p > 0 ==> s[p - 1].0 <= x.0,
    ensures
        spec_insert_match(s, x) == s.take(p) + seq![x] + s.skip(p),
    decreases s.len(),
{
    if s.len() == 0 {
        assert(spec_insert_match(s, x) =~= s.take(p) + seq![x] + s.skip(p));
    } else if p == s.len() {
        assert(s.last().0 <= x.0);
        assert(s.take(p) =~= s);
        assert(s.skip(p) =~= Seq::empty());
        assert(s.push(x) =~= s.take(p) + seq![x] + s.skip(p));
    } else {
        assert(!(s[s.len() - 1].0 <= x.0));
        lemma_insert_match_at(s.drop_last(), x, p);
        assert(s.drop_last().take(p) =~= s.take(p));
        assert(s.drop_last().skip(p) =~= s.subrange(p, s.len() - 1));
        assert((s.take(p) + seq![x] + s.subrange(p, s.len() - 1)).push(s.last()) =~= s.take(p)
            + seq![x] + s.skip(p));
    }
}

proof fn lemma_insert_match_within(s: Seq<(int, int)>, x: (int, int), n: int)
    requires
        matches_within(s, n),
        0 <= x.0 && x.0 <= x.1 && x.1 <= n,
    ensures
        matches_within(spec_insert_match(s, x), n),
    decreases s.len(),
{
    if s.len() > 0 && !(s.last().0 <= x.0) {
        assert(matches_within(s.drop_last(), n)) by {
            assert(forall|k: int|
                0 <= k < s.len() - 1 ==> s.drop_last()[k] == #[trigger] s[k]);
        }
        lemma_insert_match_within(s.drop_last(), x, n);
    }
}

proof fn lemma_insert_match_sorted(s: Seq<(int, int)>, x: (int, int))
    requires
        matches_ordered(s),
    ensures
        matches_ordered(spec_insert_match(s, x)),
    decreases s.len(),
{
    if s.len() == 0 {
    } else if s.last().0 <= x.0 {
        assert(matches_ordered(s.push(x))) by {
            assert(forall|i: int| 0 <= i < s.len() ==> #[trigger] s[i].0 <= s.last().0 || s[i].0
                <= x.0 || true);
            assert forall|i: int, j: int|
                0 <= i < j < s.push(x).len() implies s.push(x)[i].0 <= s.push(x)[j].0 by {
                if j < s.len() {
                } else {
                    assert(s.push(x)[j] == x);
                    if i < s.len() {
                        assert(s[i].0 <= s[s.len() - 1].0 || i == s.len() - 1 || s[i].0 <= s[s.len()
                            - 1].0);
                        assert(s[i].0 <= x.0);
                    }
                }
            }
        }
    } else {
        assert(matches_ordered(s.drop_last())) by {
            assert(forall|k: int|
                0 <= k < s.len() - 1 ==> s.drop_last()[k] == #[trigger] s[k]);
        }
        lemma_insert_match_sorted(s.drop_last(), x);
        let t = spec_insert_match(s.drop_last(), x);
        assert(x.0 < s.last().0);
        assert forall|k: int| 0 <= k < t.len() implies #[trigger] t[k].0 <= s.last().0 by {
            lemma_insert_match_elems(s.drop_last(), x, k);
            if t[k] == x {
            } else {
                let m = choose|m: int| 0 <= m < s.len() - 1 && s.drop_last()[m] == t[k];
                assert(s[m].0 <= s.last().0);
            }
        }
        assert(matches_ordered(t.push(s.last())));
    }
}

/// Every element of an insertion result is the inserted element or one of
/// the original elements.
proof fn lemma_insert_match_elems(s: Seq<(int, int)>, x: (int, int), k: int)
    requires
        0 <= k < spec_insert_match(s, x).len(),
    ensures
        spec_insert_match(s, x)[k] == x || exists|m: int|
            0 <= m < s.len() && s[m] == spec_insert_match(s, x)[k],
    decreases s.len(),
{
    if s.len() == 0 {
    } else if s.last().0 <= x.0 {
        if k < s.len() {
            assert(s.push(x)[k] == s[k]);
        }
    } else {
        let t = spec_insert_match(s.drop_last(), x);
        if k < t.len() {
            lemma_insert_match_elems(s.drop_last(), x, k);
            if t[k] != x {
                let m = choose|m: int| 0 <= m < s.len() - 1 && s.drop_last()[m] == t[k];
                assert(s[m] == t[k]);
            }
        } else {
            assert(t.push(s.last())[k] == s[s.len() - 1]);
        }
    }
}

/// A sorted, in-bounds match list filters to a valid splice plan.
proof fn lemma_keep_valid(text: Seq<char>, s: Seq<(int, int)>, last_end: int)
    requires
        matches_within(s, text.len() as int),
        matches_ordered(s),
        0 <= last_end <= text.len(),
    ensures
        valid_matches(text, spec_keep_matches(s, last_end), last_end),
    decreases s.len(),
{
    if s.len() > 0 {
        assert(matches_within(s.skip(1), text.len() as int) && matches_ordered(s.skip(1))) by {
            assert(forall|k: int| 0 <= k < s.len() - 1 ==> s.skip(1)[k] == #[trigger] s[k + 1]);
        }
        if s[0].0 >= last_end {
            lemma_keep_valid(text, s.skip(1), s[0].1);
            let kept = seq![s[0]] + spec_keep_matches(s.skip(1), s[0].1);
            assert(kept[0] == s[0]);
            assert(kept.skip(1) =~= spec_keep_matches(s.skip(1), s[0].1));
        } else {
            lemma_keep_valid(text, s.skip(1), last_end);
        }
    }
}

/// Append `src[a..b]` to `out`.
fn push_range(out: &mut Vec<char>, src: &Vec<char>, a: usize, b: usize)
    requires
        a <= b,
        b <= old(out)@.len() + src@.len(),
        b <= src@.len(),
    ensures
        final(out)@ == old(out)@ + src@.subrange(a as int, b as int),
{
    let mut i: usize = a;
    proof {
        assert(out@ =~= old(out)@ + src@.subrange(a as int, a as int));
    }
    while i < b
        invariant
            a <= i <= b <= src@.len(),
            out@ == old(out)@ + src@.subrange(a as int, i as int),
        decreases b - i,
    {
        out.push(src[i]);
        i += 1;
        proof {
            assert(out@ =~= old(out)@ + src@.subrange(a as int, i as int));
        }
    }
}

/// Append all of `src` to `out`.
fn push_all(out: &mut Vec<char>, src: &Vec<char>)
    ensures
        final(out)@ == old(out)@ + src@,
{
    let mut i: usize = 0;
    proof {
        assert(out@ =~= old(out)@ + src@.subrange(0, 0));
    }
    while i < src.len()
        invariant
            i <= src@.len(),
            out@ == old(out)@ + src@.subrange(0, i as int),
        decreases src@.len() - i,
    {
        out.push(src[i]);
        i += 1;
        proof {
            assert(out@ =~= old(out)@ + src@.subrange(0, i as int));
        }
    }
    proof {
        assert(src@.subrange(0, src@.len() as int) =~= src@);
    }
}

/// The non-overlapping highlight ranges of the terms inside the text, in
/// order of start position.
pub fn highlight_ranges(tc: &Vec<char>, terms: &Vec<String>) -> (r: Vec<(usize, usize)>)
    ensures
        pairs_view(r@) == spec_keep_matches(
            spec_sort_matches(
                spec_all_matches(spec_lower(tc@), terms.deep_view(), terms.deep_view().len() as int),
            ),
            0,
        ),
        valid_matches(tc@, pairs_view(r@), 0),
{
    let tl = chars_lower_vec(tc);
    let ghost tlv = spec_lower(tc@);
    let ghost termsv = terms.deep_view();
    let mut all: Vec<(usize, usize)> = Vec::new();
    let mut i: usize = 0;
    proof {
        assert(pairs_view(all@) =~= Seq::<(int, int)>::empty());
        assert(Seq::<(int, int)>::empty() =~= spec_all_matches(tlv, termsv, 0));
    }
    while i < terms.len()
        invariant
            i <= terms@.len(),
            tl@ == tlv,
            tlv.len() == tc@.len(),
            termsv == terms.deep_view(),
            termsv.len() == terms@.len(),
            pairs_view(all@) == spec_all_matches(tlv, termsv, i as int),
            matches_within(pairs_view(all@), tc@.len() as int),
        decreases terms@.len() - i,
    {
        proof {
            assert(termsv[i as int] == terms@[i as int]@);
        }
        let t = crate::text::str_chars_lower(terms[i].as_str());
        let ghost tv = spec_lower(termsv[i as int]);
        if t.len() > 0 && t.len() <= tl.len() {
            let limit = tl.len() - t.len();
            let mut j: usize = 0;
            let ghost base = pairs_view(all@);
            proof {
                assert(base + spec_occurrences(tlv, tv, 0) =~= base + spec_occurrences(tlv, tv, 0));
            }
            while j <= limit
                invariant
                    t@ == tv,
                    tv.len() > 0,
                    limit == tlv.len() - tv.len(),
                    tl@ == tlv,
                    tlv.len() == tc@.len(),
                    tlv.len() <= usize::MAX,
                    j <= tlv.len(),
                    base + spec_occurrences(tlv, tv, 0) == pairs_view(all@) + spec_occurrences(
                        tlv,
                        tv,
                        j as int,
                    ),
                    matches_within(pairs_view(all@), tc@.len() as int),
                decreases tlv.len() - j,
            {
                let ghost before = pairs_view(all@);
                if crate::text::match_at(&tl, &t, j) {
                    let e = j + t.len();
                    all.push((j, e));
                    proof {
                        assert(pairs_view(all@) =~= before.push((j as int, e as int)));
                        assert(spec_occurrences(tlv, tv, j as int) == seq![
                            (j as int, j + tv.len() as int),
                        ] + spec_occurrences(tlv, tv, j + tv.len() as int));
                        assert(pairs_view(all@) + spec_occurrences(tlv, tv, e as int) =~= before
                            + spec_occurrences(tlv, tv, j as int));
                    }
                    j = e;
                } else {
                    proof {
                        assert(spec_occurrences(tlv, tv, j as int) == spec_occurrences(
                            tlv,
                            tv,
                            j + 1,
                        ));
                    }
                    j += 1;
                }
            }
            proof {
                assert(spec_occurrences(tlv, tv, j as int) =~= Seq::<(int, int)>::empty());
                assert(pairs_view(all@) =~= base + spec_occurrences(tlv, tv, 0));
            }
        } else if t.len() > 0 {
            proof {
                assert(spec_occurrences(tlv, tv, 0) =~= Seq::<(int, int)>::empty());
                assert(pairs_view(all@) =~= pairs_view(all@) + spec_occurrences(tlv, tv, 0));
            }
        }
        proof {
            assert(spec_all_matches(tlv, termsv, i as int + 1) == spec_all_matches(
                tlv,
                termsv,
                i as int,
            ) + (if spec_lower(termsv[i as int]).len() > 0 {
                spec_occurrences(tlv, spec_lower(termsv[i as int]), 0)
            } else {
                Seq::<(int, int)>::empty()
            }));
            if tv.len() == 0 {
                assert(pairs_view(all@) =~= spec_all_matches(tlv, termsv, i as int + 1));
            }
        }
        i += 1;
    }
    // stable sort by start position
    let ghost allv = pairs_view(all@);
    let mut sorted: Vec<(usize, usize)> = Vec::new();
    let mut i: usize = 0;
    proof {
        assert(pairs_view(sorted@) =~= Seq::<(int, int)>::empty());
        assert(allv.take(0) =~= Seq::<(int, int)>::empty());
        assert(pairs_view(sorted@) =~= spec_sort_matches(allv.take(0)));
    }
    while i < all.len()
        invariant
            i <= all@.len(),
            allv == pairs_view(all@),
            allv.len() == all@.len(),
            matches_within(allv, tc@.len() as int),
            pairs_view(sorted@) == spec_sort_matches(allv.take(i as int)),
            matches_within(pairs_view(sorted@), tc@.len() as int),
            matches_ordered(pairs_view(sorted@)),
        decreases all@.len() - i,
    {
        let ghost sv = pairs_view(sorted@);
        let x = all[i];
        proof {
            assert(allv[i as int] == (x.0 as int, x.1 as int));
        }
        let mut p: usize = sorted.len();
        while p > 0 && !(sorted[p - 1].0 <= x.0)
            invariant
                p <= sorted@.len(),
                sv == pairs_view(sorted@),
                sv.len() == sorted@.len(),
                forall|k: int| p <= k < sv.len() ==> !(#[trigger] sv[k].0 <= x.0 as int),
            decreases p,
        {
            proof {
                assert(sv[p - 1] == (sorted@[p - 1].0 as int, sorted@[p - 1].1 as int));
            }
            p -= 1;
        }
        proof {
            if p > 0 {
                assert(sv[p - 1] == (sorted@[p - 1].0 as int, sorted@[p - 1].1 as int));
            }
            lemma_insert_match_at(sv, (x.0 as int, x.1 as int), p as int);
            lemma_insert_match_within(sv, (x.0 as int, x.1 as int), tc@.len() as int);
            lemma_insert_match_sorted(sv, (x.0 as int, x.1 as int));
        }
        sorted.insert(p, x);
        proof {
            assert(pairs_view(sorted@) =~= sv.take(p as int) + seq![(x.0 as int, x.1 as int)]
                + sv.skip(p as int));
            assert(allv.take(i as int + 1).drop_last() =~= allv.take(i as int));
            assert(allv.take(i as int + 1).last() == allv[i as int]);
        }
        i += 1;
    }
    proof {
        assert(allv.take(allv.len() as int) =~= allv);
    }
    // drop overlapping matches
    let ghost sortedv = pairs_view(sorted@);
    let mut kept: Vec<(usize, usize)> = Vec::new();
    let mut last_end: usize = 0;
    let mut i: usize = 0;
    proof {
        assert(pairs_view(kept@) =~= Seq::<(int, int)>::empty());
        assert(sortedv.skip(0) =~= sortedv);
    }
    while i < sorted.len()
        invariant
            i <= sorted@.len(),
            sortedv == pairs_view(sorted@),
            sortedv.len() == sorted@.len(),
            last_end <= tc@.len(),
            pairs_view(kept@) + spec_keep_matches(sortedv.skip(i as int), last_end as int)
                == spec_keep_matches(sortedv, 0),
            matches_within(sortedv, tc@.len() as int),
        decreases sorted@.len() - i,
    {
        let ghost kv = pairs_view(kept@);
        let x = sorted[i];
        proof {
            assert(sortedv[i as int] == (x.0 as int, x.1 as int));
            assert(sortedv.skip(i as int)[0] == sortedv[i as int]);
            assert(sortedv.skip(i as int).skip(1) =~= sortedv.skip(i as int + 1));
        }
        if x.0 >= last_end {
            kept.push(x);
            proof {
                assert(pairs_view(kept@) =~= kv.push((x.0 as int, x.1 as int)));
                assert(pairs_view(kept@) + spec_keep_matches(
                    sortedv.skip(i as int + 1),
                    x.1 as int,
                ) =~= kv + spec_keep_matches(sortedv.skip(i as int), last_end as int));
            }
            last_end = x.1;
        }
        i += 1;
    }
    proof {
        assert(spec_keep_matches(sortedv.skip(sortedv.len() as int), last_end as int) =~= Seq::<
            (int, int),
        >::empty());
        assert(pairs_view(kept@) =~= spec_keep_matches(sortedv, 0));
        lemma_keep_valid(tc@, sortedv, 0);
    }
    kept
}

/// Case-fold a character vector (vector form of the text utilities).
fn chars_lower_vec(v: &Vec<char>) -> (r: Vec<char>)
    ensures
        r@ == spec_lower(v@),
{
    crate::text::chars_lower(v)
}

/// Wrap every non-overlapping, case-insensitive occurrence of any term in
/// the tags; the first match wins at a given position.
pub fn highlight_text(text: &str, terms: &Vec<String>, pre_tag: &str, post_tag: &str) -> (r:
    String)
    ensures
        r@ == spec_highlight_text(text@, terms.deep_view(), pre_tag@, post_tag@),
{
    if terms.len() == 0 {
        proof {
            assert(terms.deep_view().len() == 0);
        }
        return text.to_owned();
    }
    let tc = str_chars(text);
    let pre = str_chars(pre_tag);
    let post = str_chars(post_tag);
    let kept = highlight_ranges(&tc, terms);
    splice_ranges(&tc, &kept, &pre, &post)
}

/// Assemble the highlighted text from the kept ranges.
fn splice_ranges(tc: &Vec<char>, kept: &Vec<(usize, usize)>, pre: &Vec<char>, post: &Vec<char>) -> (r:
    String)
    requires
        valid_matches(tc@, pairs_view(kept@), 0),
    ensures
        r@ == spec_splice(tc@, pairs_view(kept@), 0, pre@, post@),
{
    let ghost kv = pairs_view(kept@);
    let mut out: Vec<char> = Vec::new();
    let mut last: usize = 0;
    let mut i: usize = 0;
    proof {
        assert(kv.skip(0) =~= kv);
        assert(out@ =~= Seq::<char>::empty());
    }
    while i < kept.len()
        invariant
            i <= kept@.len(),
            kv == pairs_view(kept@),
            kv.len() == kept@.len(),
            last <= tc@.len(),
            valid_matches(tc@, kv.skip(i as int), last as int),
            out@ + spec_splice(tc@, kv.skip(i as int), last as int, pre@, post@) == spec_splice(
                tc@,
                kv,
                0,
                pre@,
                post@,
            ),
        decreases kept@.len() - i,
    {
        let x = kept[i];
        proof {
            assert(kv.skip(i as int)[0] == kv[i as int]);
            assert(kv[i as int] == (x.0 as int, x.1 as int));
            assert(kv.skip(i as int).skip(1) =~= kv.skip(i as int + 1));
        }
        push_range(&mut out, tc, last, x.0);
        push_all(&mut out, pre);
        push_range(&mut out, tc, x.0, x.1);
        push_all(&mut out, post);
        last = x.1;
        i += 1;
    }
    proof {
        assert(kv.skip(kept@.len() as int).len() == 0);
        assert(spec_splice(tc@, kv.skip(kept@.len() as int), last as int, pre@, post@) == tc@.skip(
            last as int,
        ));
    }
    push_range(&mut out, tc, last, tc.len());
    proof {
        assert(tc@.subrange(last as int, tc@.len() as int) =~= tc@.skip(last as int));
    }
    chars_to_string(&out)
}


/// Highlight configuration: the fields to highlight and the wrapping tags.
pub struct HighlightConfig {
    pub fields: Vec<String>,
    pub pre_tag: String,
    pub post_tag: String,
}

/// The mathematical model of a [`HighlightConfig`].
pub ghost struct HighlightConfigV {
    pub fields: Seq<Seq<char>>,
    pub pre_tag: Seq<char>,
    pub post_tag: Seq<char>,
}

impl View for HighlightConfig {
    type V = HighlightConfigV;

    open spec fn view(&self) -> HighlightConfigV {
        HighlightConfigV {
            fields: crate::query::string_list_view(self.fields@),
            pre_tag: self.pre_tag@,
            post_tag: self.post_tag@,
        }
    }
}

/// The highlighted rendering of one field: present only when the field
/// resolves to a string in which at least one term occurrence was wrapped.
pub open spec fn spec_highlight_field(
    doc: ValV,
    field: Seq<char>,
    terms: Seq<Seq<char>>,
    pre: Seq<char>,
    post: Seq<char>,
) -> Option<Seq<char>> {
    match crate::value::spec_get_field(doc, field) {
        Option::Some(v) => match v {
            ValV::Str(s) => {
                let kept = spec_keep_matches(
                    spec_sort_matches(
                        spec_all_matches(spec_lower(s), terms, terms.len() as int),
                    ),
                    0,
                );
                if kept.len() > 0 {
                    Option::Some(spec_splice(s, kept, 0, pre, post))
                } else {
                    Option::None
                }
            },
            _ => Option::None,
        },
        Option::None => Option::None,
    }
}

/// The highlight object's fields, over the first `i` configured fields.
pub open spec fn spec_highlight_fields(
    doc: ValV,
    fields: Seq<Seq<char>>,
    i: int,
    terms: Seq<Seq<char>>,
    pre: Seq<char>,
    post: Seq<char>,
) -> Seq<(Seq<char>, ValV)>
    decreases i,
{
    if i <= 0 || i > fields.len() {
        Seq::empty()
    } else {
        let prev = spec_highlight_fields(doc, fields, i - 1, terms, pre, post);
        match spec_highlight_field(doc, fields[i - 1], terms, pre, post) {
            Option::Some(h) => crate::value::spec_obj_set(
                prev,
                fields[i - 1],
                ValV::Arr(seq![ValV::Str(h)]),
            ),
            Option::None => prev,
        }
    }
}

/// The per-hit highlight object: one entry per configured field with at
/// least one wrapped occurrence; absent when the query has no terms or no
/// field produced wrapped output.
pub open spec fn spec_highlight_document(doc: ValV, q: QueryV, cfg: HighlightConfigV) -> Option<
    ValV,
> {
    let terms = spec_extract_terms(q);
    if terms.len() == 0 {
        Option::None
    } else {
        let fields = spec_highlight_fields(
            doc,
            cfg.fields,
            cfg.fields.len() as int,
            terms,
            cfg.pre_tag,
            cfg.post_tag,
        );
        if fields.len() == 0 {
            Option::None
        } else {
            Option::Some(ValV::Obj(fields))
        }
    }
}

/// Highlight a document for the query under the given configuration.
pub fn highlight_document(doc: &crate::value::Val, query: &Query, config: &HighlightConfig) -> (r:
    Option<crate::value::Val>)
    ensures
        match r {
            Option::Some(h) => spec_highlight_document(doc@, query@, config@) == Option::Some(h@),
            Option::None => spec_highlight_document(doc@, query@, config@) is None,
        },
{
    let terms = extract_query_terms(query);
    if terms.len() == 0 {
        proof {
            assert(spec_extract_terms(query@).len() == 0);
        }
        return None;
    }
    let ghost termsv = terms.deep_view();
    let ghost cfgv = config@;
    let pre = str_chars(config.pre_tag.as_str());
    let post = str_chars(config.post_tag.as_str());
    let mut out: Vec<(String, crate::value::Val)> = Vec::new();
    let mut i: usize = 0;
    proof {
        assert(crate::value::view_fields(out@) =~= Seq::<(Seq<char>, ValV)>::empty());
    }
    while i < config.fields.len()
        invariant
            i <= config.fields@.len(),
            termsv == terms.deep_view(),
            termsv.len() > 0,
            cfgv == config@,
            cfgv.fields.len() == config.fields@.len(),
            pre@ == cfgv.pre_tag,
            post@ == cfgv.post_tag,
            crate::value::view_fields(out@) == spec_highlight_fields(
                doc@,
                cfgv.fields,
                i as int,
                termsv,
                cfgv.pre_tag,
                cfgv.post_tag,
            ),
        decreases config.fields@.len() - i,
    {
        proof {
            assert(cfgv.fields[i as int] == config.fields@[i as int]@);
        }
        let path = str_chars(config.fields[i].as_str());
        match doc.get_field(&path) {
            Some(v) => match v {
                crate::value::Val::Str(s) => {
                    let tc = str_chars(s.as_str());
                    let ranges = highlight_ranges(&tc, &terms);
                    if ranges.len() > 0 {
                        let spliced = splice_ranges(&tc, &ranges, &pre, &post);
                        let mut arr: Vec<crate::value::Val> = Vec::new();
                        arr.push(crate::value::Val::Str(spliced));
                        let hv = crate::value::Val::Arr(arr);
                        proof {
                            assert(arr@[0] == crate::value::Val::Str(spliced));
                            assert(arr@[0]@ == ValV::Str(spliced@));
                            assert(hv@->Arr_0.len() == 1);
                            assert(hv@->Arr_0[0] == arr@[0]@);
                            assert(hv@->Arr_0 =~= seq![
                                ValV::Str(
                                    spec_splice(
                                        s@,
                                        spec_keep_matches(
                                            spec_sort_matches(
                                                spec_all_matches(
                                                    spec_lower(s@),
                                                    termsv,
                                                    termsv.len() as int,
                                                ),
                                            ),
                                            0,
                                        ),
                                        0,
                                        cfgv.pre_tag,
                                        cfgv.post_tag,
                                    ),
                                ),
                            ]);
                            assert(hv@ == ValV::Arr(hv@->Arr_0));
                        }
                        let key = config.fields[i].clone();
                        crate::value::obj_set(&mut out, key, hv);
                    }
                },
                _ => {},
            },
            None => {},
        }
        i += 1;
    }
    if out.len() == 0 {
        proof {
            assert(crate::value::view_fields(out@).len() == 0);
        }
        None
    } else {
        let r = crate::value::Val::Obj(out);
        proof {
            crate::value::lemma_obj_view(out);
            assert(crate::value::view_fields(out@).len() > 0);
        }
        Some(r)
    }
}

} // verus!

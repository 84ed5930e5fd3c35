//! Query scoring: a pure function from a document and a query to a
//! fixed-point score. A zero score means the document is excluded; a score
//! of `SCORE_ONE` (1000) is a perfect match. Substring containment scores
//! 800, an out-of-order phrase 600, and a partial word match half of the
//! matched fraction of the query words.
//!
//! All text comparisons are case-insensitive (over the ASCII range).

use vstd::prelude::*;

use crate::query::{Query, QueryV};
use crate::text::{
    chars_eq, contains_sub, glob_match, int_chars, parse_int, spec_contains, spec_glob,
    spec_int_str, spec_lower, spec_parse_int, spec_starts_with, spec_tokens, spec_words_in_order,
    starts_with, str_chars, str_chars_lower, tokenize, words_in_order,
};
use crate::value::{spec_get_field, ValV, Val};

verus! {

broadcast use vstd::std_specs::vec::group_vec_axioms;

/// Saturating score addition.
pub open spec fn sat_add(a: u64, b: u64) -> u64 {
    if a + b <= u64::MAX {
        (a + b) as u64
    } else {
        u64::MAX
    }
}

/// The text a value is matched as: a string is case-folded, a number is
/// rendered in decimal, a boolean as `true`/`false`; anything else has no
/// text and never text-matches.
pub open spec fn spec_value_text(v: ValV) -> Option<Seq<char>> {
    match v {
        ValV::Str(s) => Option::Some(spec_lower(s)),
        ValV::Int(n) => Option::Some(spec_int_str(n)),
        ValV::Bool(b) => Option::Some(
            if b {
                "true"@
            } else {
                "false"@
            },
        ),
        _ => Option::None,
    }
}

/// How many query words are contained in at least one field word.
pub open spec fn spec_count_word_matches(qw: Seq<Seq<char>>, fw: Seq<Seq<char>>) -> nat
    decreases qw.len(),
{
    if qw.len() == 0 {
        0
    } else {
        (if exists|j: int| 0 <= j < fw.len() && spec_contains(#[trigger] fw[j], qw[0]) {
            1nat
        } else {
            0nat
        }) + spec_count_word_matches(qw.skip(1), fw)
    }
}

/// Half of the matched fraction, in fixed point, never rounded down to
/// nothing: a partial match scores at least 1.
pub open spec fn spec_word_score(m: nat, t: nat) -> u64 {
    if t == 0 {
        1
    } else if 500 * (m as int) / (t as int) == 0 {
        1
    } else if 500 * (m as int) / (t as int) > 500 {
        500
    } else {
        (500 * (m as int) / (t as int)) as u64
    }
}

/// Score of a case-folded field text against a case-folded query text:
/// equality 1000, containment 800, else half the fraction of query words
/// found inside field words, zero when no word matches.
pub open spec fn spec_text_score(field: Seq<char>, query: Seq<char>) -> u64 {
    if field == query {
        1000
    } else if spec_contains(field, query) {
        800
    } else {
        let m = spec_count_word_matches(spec_tokens(query), spec_tokens(field));
        if m > 0 {
            spec_word_score(m, spec_tokens(query).len())
        } else {
            0
        }
    }
}

/// The best text-match score over every leaf of a value: strings score as
/// text, a number scores 500 when its decimal rendering contains the query.
pub open spec fn spec_search_value(v: ValV, q: Seq<char>) -> u64
    decreases v, 0int, 0int,
{
    match v {
        ValV::Str(s) => spec_text_score(spec_lower(s), q),
        ValV::Int(n) => if spec_contains(spec_int_str(n), q) {
            500
        } else {
            0
        },
        ValV::Obj(fields) => spec_search_fields(fields, fields.len() as int, q),
        ValV::Arr(items) => spec_search_items(items, items.len() as int, q),
        _ => 0,
    }
}

pub open spec fn spec_search_fields(fields: Seq<(Seq<char>, ValV)>, i: int, q: Seq<char>) -> u64
    decreases fields, 1int, i,
{
    if i <= 0 || i > fields.len() {
        0
    } else {
        let a = spec_search_value(fields[i - 1].1, q);
        let b = spec_search_fields(fields, i - 1, q);
        if a > b {
            a
        } else {
            b
        }
    }
}

pub open spec fn spec_search_items(items: Seq<ValV>, i: int, q: Seq<char>) -> u64
    decreases items, 1int, i,
{
    if i <= 0 || i > items.len() {
        0
    } else {
        let a = spec_search_value(items[i - 1], q);
        let b = spec_search_items(items, i - 1, q);
        if a > b {
            a
        } else {
            b
        }
    }
}

/// The `match` score for one field (`_all` and `*` search every leaf);
/// empty query text always scores 1000.
pub open spec fn spec_match_field(doc: ValV, field: Seq<char>, text: Seq<char>) -> u64 {
    if text.len() == 0 {
        1000
    } else if field == "_all"@ || field == "*"@ {
        spec_search_value(doc, spec_lower(text))
    } else {
        match spec_get_field(doc, field) {
            Option::Some(v) => match spec_value_text(v) {
                Option::Some(f) => spec_text_score(f, spec_lower(text)),
                Option::None => 0,
            },
            Option::None => 0,
        }
    }
}

/// Score of a case-folded field text against a case-folded phrase: the
/// phrase must be contained; a multi-word phrase whose words do not appear
/// in order among the field words scores 600 instead of 1000.
pub open spec fn spec_phrase_text_score(field: Seq<char>, phrase: Seq<char>) -> u64 {
    if spec_contains(field, phrase) {
        if spec_tokens(phrase).len() == 1 {
            1000
        } else if spec_words_in_order(spec_tokens(field), spec_tokens(phrase)) {
            1000
        } else {
            600
        }
    } else {
        0
    }
}

/// The best phrase score over every string leaf of a value.
pub open spec fn spec_search_phrase(v: ValV, p: Seq<char>) -> u64
    decreases v, 0int, 0int,
{
    match v {
        ValV::Str(s) => spec_phrase_text_score(spec_lower(s), p),
        ValV::Obj(fields) => spec_search_phrase_fields(fields, fields.len() as int, p),
        ValV::Arr(items) => spec_search_phrase_items(items, items.len() as int, p),
        _ => 0,
    }
}

pub open spec fn spec_search_phrase_fields(
    fields: Seq<(Seq<char>, ValV)>,
    i: int,
    p: Seq<char>,
) -> u64
    decreases fields, 1int, i,
{
    if i <= 0 || i > fields.len() {
        0
    } else {
        let a = spec_search_phrase(fields[i - 1].1, p);
        let b = spec_search_phrase_fields(fields, i - 1, p);
        if a > b {
            a
        } else {
            b
        }
    }
}

pub open spec fn spec_search_phrase_items(items: Seq<ValV>, i: int, p: Seq<char>) -> u64
    decreases items, 1int, i,
{
    if i <= 0 || i > items.len() {
        0
    } else {
        let a = spec_search_phrase(items[i - 1], p);
        let b = spec_search_phrase_items(items, i - 1, p);
        if a > b {
            a
        } else {
            b
        }
    }
}

/// The `match_phrase` score for one field; an empty phrase scores 1000.
pub open spec fn spec_match_phrase_field(doc: ValV, field: Seq<char>, phrase: Seq<char>) -> u64 {
    if phrase.len() == 0 {
        1000
    } else if field == "_all"@ || field == "*"@ {
        spec_search_phrase(doc, spec_lower(phrase))
    } else {
        match spec_get_field(doc, field) {
            Option::Some(v) => match spec_value_text(v) {
                Option::Some(f) => spec_phrase_text_score(f, spec_lower(phrase)),
                Option::None => 0,
            },
            Option::None => 0,
        }
    }
}

/// The best per-field `match` score; empty query text scores 1000.
pub open spec fn spec_multi_match(doc: ValV, fields: Seq<Seq<char>>, text: Seq<char>) -> u64 {
    if text.len() == 0 {
        1000
    } else {
        spec_multi_match_upto(doc, fields, fields.len() as int, text)
    }
}

pub open spec fn spec_multi_match_upto(
    doc: ValV,
    fields: Seq<Seq<char>>,
    i: int,
    text: Seq<char>,
) -> u64
    decreases i,
{
    if i <= 0 || i > fields.len() {
        0
    } else {
        let a = spec_match_field(doc, fields[i - 1], text);
        let b = spec_multi_match_upto(doc, fields, i - 1, text);
        if a > b {
            a
        } else {
            b
        }
    }
}

/// `term`: structural equality of the resolved field value and the literal.
pub open spec fn spec_term_matches(doc: ValV, field: Seq<char>, value: ValV) -> bool {
    match spec_get_field(doc, field) {
        Option::Some(v) => v == value,
        Option::None => false,
    }
}

/// `terms`: the field value equals one of the literals; an empty literal
/// list matches every document.
pub open spec fn spec_terms_matches(doc: ValV, field: Seq<char>, values: Seq<ValV>) -> bool {
    if values.len() == 0 {
        true
    } else {
        match spec_get_field(doc, field) {
            Option::Some(v) => exists|i: int| 0 <= i < values.len() && #[trigger] values[i] == v,
            Option::None => false,
        }
    }
}

/// `prefix`: case-insensitive prefix test on the field's text; an empty
/// prefix matches every document.
pub open spec fn spec_prefix_matches(doc: ValV, field: Seq<char>, prefix: Seq<char>) -> bool {
    if prefix.len() == 0 {
        true
    } else {
        match spec_get_field(doc, field) {
            Option::Some(v) => match spec_value_text(v) {
                Option::Some(f) => spec_starts_with(f, spec_lower(prefix)),
                Option::None => false,
            },
            Option::None => false,
        }
    }
}

/// `wildcard`: an anchored, case-insensitive glob over the field's string
/// value; only string fields can match, and an empty pattern matches every
/// document.
pub open spec fn spec_wildcard_matches(doc: ValV, field: Seq<char>, pattern: Seq<char>) -> bool {
    if pattern.len() == 0 {
        true
    } else {
        match spec_get_field(doc, field) {
            Option::Some(v) => match v {
                ValV::Str(s) => spec_glob(spec_lower(pattern), spec_lower(s)),
                _ => false,
            },
            Option::None => false,
        }
    }
}

/// The numeric reading of a field value for `range`: a number itself, or a
/// decimal string within the `i64` range.
pub open spec fn spec_range_value(v: ValV) -> Option<int> {
    match v {
        ValV::Int(n) => Option::Some(n),
        ValV::Str(s) => match spec_parse_int(s) {
            Option::Some(x) => if i64::MIN <= x <= i64::MAX {
                Option::Some(x)
            } else {
                Option::None
            },
            Option::None => Option::None,
        },
        _ => Option::None,
    }
}

/// `range`: every supplied bound must hold of the field's numeric reading.
pub open spec fn spec_range_matches(
    doc: ValV,
    field: Seq<char>,
    gte: Option<int>,
    gt: Option<int>,
    lte: Option<int>,
    lt: Option<int>,
) -> bool {
    match spec_get_field(doc, field) {
        Option::Some(v) => match spec_range_value(v) {
            Option::Some(x) => (match gte {
                Option::Some(b) => x >= b,
                Option::None => true,
            }) && (match gt {
                Option::Some(b) => x > b,
                Option::None => true,
            }) && (match lte {
                Option::Some(b) => x <= b,
                Option::None => true,
            }) && (match lt {
                Option::Some(b) => x < b,
                Option::None => true,
            }),
            Option::None => false,
        },
        Option::None => false,
    }
}

/// The score of a document against a query. Zero excludes the document.
///
/// `bool` semantics: every `must` and `filter` clause must score positive
/// and no `must_not` clause may; the score is the sum of the `must` scores
/// plus half the sum of the `should` scores, and 1000 when that sum is zero
/// (a passing filter-only query).
pub open spec fn spec_score(doc: ValV, q: QueryV) -> u64
    decreases q, 0int, 0int,
{
    match q {
        QueryV::Match { field, text } => spec_match_field(doc, field, text),
        QueryV::MatchPhrase { field, text } => spec_match_phrase_field(doc, field, text),
        QueryV::MultiMatch { fields, text } => spec_multi_match(doc, fields, text),
        QueryV::Term { field, value } => if spec_term_matches(doc, field, value) {
            1000
        } else {
            0
        },
        QueryV::Terms { field, values } => if spec_terms_matches(doc, field, values) {
            1000
        } else {
            0
        },
        QueryV::Prefix { field, text } => if spec_prefix_matches(doc, field, text) {
            1000
        } else {
            0
        },
        QueryV::Wildcard { field, pattern } => if spec_wildcard_matches(doc, field, pattern) {
            1000
        } else {
            0
        },
        QueryV::Range { field, gte, gt, lte, lt } => if spec_range_matches(
            doc,
            field,
            gte,
            gt,
            lte,
            lt,
        ) {
            1000
        } else {
            0
        },
        QueryV::Bool { must, should, must_not, filter } => {
            let must_ok = forall|i: int|
                0 <= i < must.len() ==> spec_score(doc, #[trigger] must[i]) > 0;
            let must_not_ok = forall|i: int|
                0 <= i < must_not.len() ==> spec_score(doc, #[trigger] must_not[i]) == 0;
            let filter_ok = forall|i: int|
                0 <= i < filter.len() ==> spec_score(doc, #[trigger] filter[i]) > 0;
            if !must_ok || !must_not_ok || !filter_ok {
                0
            } else {
                let m = spec_sum_scores(doc, must, must.len() as int);
                let s = spec_sum_scores(doc, should, should.len() as int);
                let total = if s > 0 {
                    sat_add(m, s / 2)
                } else {
                    m
                };
                if total > 0 {
                    total
                } else {
                    1000
                }
            }
        },
        QueryV::MatchAll => 1000,
        QueryV::NoMatch => 0,
    }
}

/// Saturating sum of the scores of the first `i` clauses.
pub open spec fn spec_sum_scores(doc: ValV, qs: Seq<QueryV>, i: int) -> u64
    decreases qs, 1int, i,
{
    if i <= 0 || i > qs.len() {
        0
    } else {
        sat_add(spec_sum_scores(doc, qs, i - 1), spec_score(doc, qs[i - 1]))
    }
}


/// Saturating addition of two scores.
fn add_scores(a: u64, b: u64) -> (r: u64)
    ensures
        r == sat_add(a, b),
{
    if a <= u64::MAX - b {
        a + b
    } else {
        u64::MAX
    }
}

/// The matchable text of a value, already case-folded.
pub fn value_text(v: &Val) -> (r: Option<Vec<char>>)
    ensures
        match r {
            Option::Some(t) => spec_value_text(v@) == Option::Some(t@),
            Option::None => spec_value_text(v@) is None,
        },
{
    match v {
        Val::Str(s) => Some(str_chars_lower(s.as_str())),
        Val::Int(n) => Some(int_chars(*n)),
        Val::Bool(b) => {
            if *b {
                Some(str_chars("true"))
            } else {
                Some(str_chars("false"))
            }
        },
        _ => None,
    }
}

/// Whether any field word contains the query word.
fn any_word_contains(fw: &Vec<Vec<char>>, w: &Vec<char>) -> (r: bool)
    ensures
        r == exists|j: int|
            0 <= j < fw.deep_view().len() && spec_contains(#[trigger] fw.deep_view()[j], w@),
{
    let mut j: usize = 0;
    while j < fw.len()
        invariant
            j <= fw@.len(),
            forall|k: int| 0 <= k < j ==> !spec_contains(#[trigger] fw.deep_view()[k], w@),
        decreases fw@.len() - j,
    {
        proof {
            assert(fw.deep_view()[j as int] == fw@[j as int]@);
        }
        if contains_sub(&fw[j], w) {
            return true;
        }
        j += 1;
    }
    proof {
        assert(fw.deep_view().len() == fw@.len());
    }
    false
}

/// Text-match score of a case-folded field text against a case-folded
/// query text.
pub fn text_score(field: &Vec<char>, query: &Vec<char>) -> (r: u64)
    ensures
        r == spec_text_score(field@, query@),
{
    if chars_eq(field, query) {
        return 1000;
    }
    if contains_sub(field, query) {
        return 800;
    }
    let qw = tokenize(query);
    let fw = tokenize(field);
    let ghost qws = spec_tokens(query@);
    let ghost fws = spec_tokens(field@);
    let mut m: u64 = 0;
    let mut i: usize = 0;
    proof {
        assert(qws.skip(0) =~= qws);
    }
    while i < qw.len()
        invariant
            i <= qw@.len(),
            qw.deep_view() == qws,
            fw.deep_view() == fws,
            qw@.len() == qws.len(),
            m <= i,
            m + spec_count_word_matches(qws.skip(i as int), fws) == spec_count_word_matches(
                qws,
                fws,
            ),
        decreases qw@.len() - i,
    {
        proof {
            assert(qws.skip(i as int)[0] == qws[i as int]);
            assert(qws[i as int] == qw@[i as int]@);
            assert(qws.skip(i as int).skip(1) =~= qws.skip(i as int + 1));
        }
        if any_word_contains(&fw, &qw[i]) {
            m += 1;
        }
        i += 1;
    }
    proof {
        assert(qws.skip(qw@.len() as int).len() == 0);
    }
    if m > 0 {
        let t = qw.len() as u64;
        proof {
            assert(m <= t);
            assert(500 * (m as int) / (t as int) <= 500) by (nonlinear_arith)
                requires
                    m <= t,
                    t >= 1,
            ;
            assert(500 * (m as int) / (t as int) >= 0) by (nonlinear_arith)
                requires
                    m >= 0,
                    t >= 1,
            ;
        }
        let s = ((500u128 * (m as u128)) / (t as u128)) as u64;
        if s == 0 {
            1
        } else if s > 500 {
            500
        } else {
            s
        }
    } else {
        0
    }
}

/// The best text-match score over every leaf of a value.
#[verifier::loop_isolation(false)]
pub fn search_value_score(v: &Val, q: &Vec<char>) -> (r: u64)
    ensures
        r == spec_search_value(v@, q@),
    decreases v,
{
    match v {
        Val::Str(s) => {
            let f = str_chars_lower(s.as_str());
            text_score(&f, q)
        },
        Val::Int(n) => {
            let f = int_chars(*n);
            if contains_sub(&f, q) {
                500
            } else {
                0
            }
        },
        Val::Obj(fields) => {
            let ghost fv = v@->Obj_0;
            let mut best: u64 = 0;
            let mut i: usize = 0;
            while i < fields.len()
                invariant
                    i <= fields@.len(),
                    best == spec_search_fields(fv, i as int, q@),
                decreases fields@.len() - i,
            {
                proof {
                    assert(fv[i as int].1 == fields@[i as int].1@);
                }
                let s = search_value_score(&fields[i].1, q);
                if s > best {
                    best = s;
                }
                i += 1;
            }
            proof {
                assert(v@ == ValV::Obj(fv));
            }
            best
        },
        Val::Arr(items) => {
            let ghost iv = v@->Arr_0;
            let mut best: u64 = 0;
            let mut i: usize = 0;
            while i < items.len()
                invariant
                    i <= items@.len(),
                    best == spec_search_items(iv, i as int, q@),
                decreases items@.len() - i,
            {
                proof {
                    assert(iv[i as int] == items@[i as int]@);
                }
                let s = search_value_score(&items[i], q);
                if s > best {
                    best = s;
                }
                i += 1;
            }
            proof {
                assert(v@ == ValV::Arr(iv));
            }
            best
        },
        _ => 0,
    }
}

/// Phrase score of a case-folded field text against a case-folded phrase.
pub fn phrase_text_score(field: &Vec<char>, phrase: &Vec<char>) -> (r: u64)
    ensures
        r == spec_phrase_text_score(field@, phrase@),
{
    if !contains_sub(field, phrase) {
        return 0;
    }
    let pw = tokenize(phrase);
    if pw.len() == 1 {
        return 1000;
    }
    let fw = tokenize(field);
    if words_in_order(&fw, &pw) {
        1000
    } else {
        600
    }
}

/// The best phrase score over every string leaf of a value.
#[verifier::loop_isolation(false)]
pub fn search_phrase_score(v: &Val, p: &Vec<char>) -> (r: u64)
    ensures
        r == spec_search_phrase(v@, p@),
    decreases v,
{
    match v {
        Val::Str(s) => {
            let f = str_chars_lower(s.as_str());
            phrase_text_score(&f, p)
        },
        Val::Obj(fields) => {
            let ghost fv = v@->Obj_0;
            let mut best: u64 = 0;
            let mut i: usize = 0;
            while i < fields.len()
                invariant
                    i <= fields@.len(),
                    best == spec_search_phrase_fields(fv, i as int, p@),
                decreases fields@.len() - i,
            {
                proof {
                    assert(fv[i as int].1 == fields@[i as int].1@);
                }
                let s = search_phrase_score(&fields[i].1, p);
                if s > best {
                    best = s;
                }
                i += 1;
            }
            proof {
                assert(v@ == ValV::Obj(fv));
            }
            best
        },
        Val::Arr(items) => {
            let ghost iv = v@->Arr_0;
            let mut best: u64 = 0;
            let mut i: usize = 0;
            while i < items.len()
                invariant
                    i <= items@.len(),
                    best == spec_search_phrase_items(iv, i as int, p@),
                decreases items@.len() - i,
            {
                proof {
                    assert(iv[i as int] == items@[i as int]@);
                }
                let s = search_phrase_score(&items[i], p);
                if s > best {
                    best = s;
                }
                i += 1;
            }
            proof {
                assert(v@ == ValV::Arr(iv));
            }
            best
        },
        _ => 0,
    }
}

/// Whether `field` names the whole document.
fn is_all_field(field: &str) -> (r: bool)
    ensures
        r == (field@ == "_all"@ || field@ == "*"@),
{
    crate::text::str_eq(field, "_all") || crate::text::str_eq(field, "*")
}

/// The `match` score of a document field against query text; zero when the
/// field is missing or the text does not match.
pub fn match_field(doc: &Val, field: &str, query_text: &str) -> (r: u64)
    ensures
        r == spec_match_field(doc@, field@, query_text@),
{
    if query_text.unicode_len() == 0 {
        return 1000;
    }
    if is_all_field(field) {
        let q = str_chars_lower(query_text);
        return search_value_score(doc, &q);
    }
    let path = str_chars(field);
    match doc.get_field(&path) {
        Some(v) => match value_text(v) {
            Some(f) => {
                let q = str_chars_lower(query_text);
                text_score(&f, &q)
            },
            None => 0,
        },
        None => 0,
    }
}

/// The `match` score of query text against every field of the document.
pub fn match_all_fields(doc: &Val, query_text: &str) -> (r: u64)
    ensures
        r == spec_match_field(doc@, "_all"@, query_text@),
{
    if query_text.unicode_len() == 0 {
        return 1000;
    }
    let q = str_chars_lower(query_text);
    search_value_score(doc, &q)
}

/// The `match_phrase` score of a document field against a phrase.
pub fn match_phrase_field(doc: &Val, field: &str, phrase: &str) -> (r: u64)
    ensures
        r == spec_match_phrase_field(doc@, field@, phrase@),
{
    if phrase.unicode_len() == 0 {
        return 1000;
    }
    if is_all_field(field) {
        let p = str_chars_lower(phrase);
        return search_phrase_score(doc, &p);
    }
    let path = str_chars(field);
    match doc.get_field(&path) {
        Some(v) => match value_text(v) {
            Some(f) => {
                let p = str_chars_lower(phrase);
                phrase_text_score(&f, &p)
            },
            None => 0,
        },
        None => 0,
    }
}

/// The best per-field `match` score.
pub fn multi_match_fields(doc: &Val, fields: &Vec<String>, query_text: &str) -> (r: u64)
    ensures
        r == spec_multi_match(doc@, crate::query::string_list_view(fields@), query_text@),
{
    if query_text.unicode_len() == 0 {
        return 1000;
    }
    let ghost fv = crate::query::string_list_view(fields@);
    let mut best: u64 = 0;
    let mut i: usize = 0;
    while i < fields.len()
        invariant
            i <= fields@.len(),
            fv == crate::query::string_list_view(fields@),
            fv.len() == fields@.len(),
            query_text@.len() > 0,
            best == spec_multi_match_upto(doc@, fv, i as int, query_text@),
        decreases fields@.len() - i,
    {
        proof {
            assert(fv[i as int] == fields@[i as int]@);
        }
        let s = match_field(doc, fields[i].as_str(), query_text);
        if s > best {
            best = s;
        }
        i += 1;
    }
    best
}

/// Whether the resolved field value equals the literal, structurally.
pub fn term_match(doc: &Val, field: &str, value: &Val) -> (r: bool)
    ensures
        r == spec_term_matches(doc@, field@, value@),
{
    let path = str_chars(field);
    match doc.get_field(&path) {
        Some(v) => crate::value::value_eq(v, value),
        None => false,
    }
}

/// Whether the resolved field value equals any of the literals; an empty
/// literal list matches every document.
pub fn terms_match(doc: &Val, field: &str, values: &Vec<Val>) -> (r: bool)
    ensures
        r == spec_terms_matches(doc@, field@, crate::query::value_list_view(values@)),
{
    let ghost vv = crate::query::value_list_view(values@);
    if values.len() == 0 {
        return true;
    }
    let path = str_chars(field);
    match doc.get_field(&path) {
        Some(v) => {
            let mut i: usize = 0;
            while i < values.len()
                invariant
                    i <= values@.len(),
                    vv == crate::query::value_list_view(values@),
                    vv.len() == values@.len(),
                    spec_get_field(doc@, field@) == Option::Some(v@),
                    forall|k: int| 0 <= k < i ==> #[trigger] vv[k] != v@,
                decreases values@.len() - i,
            {
                proof {
                    assert(vv[i as int] == values@[i as int]@);
                }
                if crate::value::value_eq(&values[i], v) {
                    return true;
                }
                i += 1;
            }
            false
        },
        None => false,
    }
}

/// Case-insensitive prefix test on the resolved field's text.
pub fn prefix_match(doc: &Val, field: &str, prefix: &str) -> (r: bool)
    ensures
        r == spec_prefix_matches(doc@, field@, prefix@),
{
    if prefix.unicode_len() == 0 {
        return true;
    }
    let path = str_chars(field);
    match doc.get_field(&path) {
        Some(v) => match value_text(v) {
            Some(f) => {
                let p = str_chars_lower(prefix);
                starts_with(&f, &p)
            },
            None => false,
        },
        None => false,
    }
}

/// Anchored, case-insensitive glob test on the resolved field's string
/// value.
pub fn wildcard_match(doc: &Val, field: &str, pattern: &str) -> (r: bool)
    ensures
        r == spec_wildcard_matches(doc@, field@, pattern@),
{
    if pattern.unicode_len() == 0 {
        return true;
    }
    let path = str_chars(field);
    match doc.get_field(&path) {
        Some(v) => match v {
            Val::Str(s) => {
                let p = str_chars_lower(pattern);
                let f = str_chars_lower(s.as_str());
                glob_match(&p, &f)
            },
            _ => false,
        },
        None => false,
    }
}

/// Whether every supplied bound holds of the resolved field's numeric
/// reading.
pub fn range_match(
    doc: &Val,
    field: &str,
    gte: Option<i64>,
    gt: Option<i64>,
    lte: Option<i64>,
    lt: Option<i64>,
) -> (r: bool)
    ensures
        r == spec_range_matches(
            doc@,
            field@,
            crate::query::bound_view(gte),
            crate::query::bound_view(gt),
            crate::query::bound_view(lte),
            crate::query::bound_view(lt),
        ),
{
    let path = str_chars(field);
    let x: i64 = match doc.get_field(&path) {
        Some(v) => match v {
            Val::Int(n) => *n,
            Val::Str(s) => {
                let cs = str_chars(s.as_str());
                match parse_int(&cs) {
                    Some(n) => n,
                    None => {
                        return false;
                    },
                }
            },
            _ => {
                return false;
            },
        },
        None => {
            return false;
        },
    };
    let ok_gte = match gte {
        Some(b) => x >= b,
        None => true,
    };
    let ok_gt = match gt {
        Some(b) => x > b,
        None => true,
    };
    let ok_lte = match lte {
        Some(b) => x <= b,
        None => true,
    };
    let ok_lt = match lt {
        Some(b) => x < b,
        None => true,
    };
    ok_gte && ok_gt && ok_lte && ok_lt
}

/// The score of a document against a query; zero excludes the document.
#[verifier::loop_isolation(false)]
pub fn score_document(doc: &Val, query: &Query) -> (r: u64)
    ensures
        r == spec_score(doc@, query@),
    decreases query,
{
    match query {
        Query::Match { field, text } => match_field(doc, field.as_str(), text.as_str()),
        Query::MatchPhrase { field, text } => match_phrase_field(
            doc,
            field.as_str(),
            text.as_str(),
        ),
        Query::MultiMatch { fields, text } => multi_match_fields(doc, fields, text.as_str()),
        Query::Term { field, value } => {
            if term_match(doc, field.as_str(), value) {
                1000
            } else {
                0
            }
        },
        Query::Terms { field, values } => {
            if terms_match(doc, field.as_str(), values) {
                1000
            } else {
                0
            }
        },
        Query::Prefix { field, text } => {
            if prefix_match(doc, field.as_str(), text.as_str()) {
                1000
            } else {
                0
            }
        },
        Query::Wildcard { field, pattern } => {
            if wildcard_match(doc, field.as_str(), pattern.as_str()) {
                1000
            } else {
                0
            }
        },
        Query::Range { field, gte, gt, lte, lt } => {
            if range_match(doc, field.as_str(), *gte, *gt, *lte, *lt) {
                1000
            } else {
                0
            }
        },
        Query::Bool { must, should, must_not, filter } => {
            let ghost mv = query@->Bool_must;
            let ghost sv = query@->Bool_should;
            let ghost nv = query@->Bool_must_not;
            let ghost fv = query@->Bool_filter;
            let mut msum: u64 = 0;
            let mut i: usize = 0;
            while i < must.len()
                invariant
                    i <= must@.len(),
                    msum == spec_sum_scores(doc@, mv, i as int),
                    forall|k: int| 0 <= k < i ==> spec_score(doc@, #[trigger] mv[k]) > 0,
                decreases must@.len() - i,
            {
                proof {
                    assert(mv[i as int] == must@[i as int]@);
                }
                let s = score_document(doc, &must[i]);
                if s == 0 {
                    return 0;
                }
                msum = add_scores(msum, s);
                i += 1;
            }
            let mut ssum: u64 = 0;
            let mut j: usize = 0;
            while j < should.len()
                invariant
                    j <= should@.len(),
                    ssum == spec_sum_scores(doc@, sv, j as int),
                decreases should@.len() - j,
            {
                proof {
                    assert(sv[j as int] == should@[j as int]@);
                }
                let s = score_document(doc, &should[j]);
                ssum = add_scores(ssum, s);
                j += 1;
            }
            let mut k: usize = 0;
            while k < must_not.len()
                invariant
                    k <= must_not@.len(),
                    forall|t: int| 0 <= t < k ==> spec_score(doc@, #[trigger] nv[t]) == 0,
                decreases must_not@.len() - k,
            {
                proof {
                    assert(nv[k as int] == must_not@[k as int]@);
                }
                let s = score_document(doc, &must_not[k]);
                if s > 0 {
                    return 0;
                }
                k += 1;
            }
            let mut t: usize = 0;
            while t < filter.len()
                invariant
                    t <= filter@.len(),
                    forall|u: int| 0 <= u < t ==> spec_score(doc@, #[trigger] fv[u]) > 0,
                decreases filter@.len() - t,
            {
                proof {
                    assert(fv[t as int] == filter@[t as int]@);
                }
                let s = score_document(doc, &filter[t]);
                if s == 0 {
                    return 0;
                }
                t += 1;
            }
            let total = if ssum > 0 {
                add_scores(msum, ssum / 2)
            } else {
                msum
            };
            if total > 0 {
                total
            } else {
                1000
            }
        },
        Query::MatchAll => 1000,
        Query::NoMatch => 0,
    }
}

} // verus!

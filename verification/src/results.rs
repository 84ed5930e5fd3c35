//! Result processing: scored hits, stable sorting and pagination.
//!
//! Hits are first ordered by score, descending; a sort specification then
//! re-orders them by its fields, first-listed field first, with the score
//! order breaking ties. Both passes are one stable insertion sort, whose
//! exact output is pinned by [`spec_sort_hits`].

use vstd::prelude::*;

use crate::text::{spec_lex_lt, str_chars, str_eq, str_lt};
use crate::value::{spec_get_field, ValV, Val};

verus! {

broadcast use vstd::std_specs::vec::group_vec_axioms;

/// One scored document.
pub struct Hit {
    pub id: String,
    pub doc: Val,
    pub score: u64,
}

/// The mathematical model of a [`Hit`].
pub ghost struct HitV {
    pub id: Seq<char>,
    pub doc: ValV,
    pub score: u64,
}

impl View for Hit {
    type V = HitV;

    open spec fn view(&self) -> HitV {
        HitV { id: self.id@, doc: self.doc@, score: self.score }
    }
}

/// Sort direction for one sort field.
#[derive(Clone, Copy, PartialEq, Eq, Structural)]
pub enum SortDir {
    Asc,
    Desc,
}

/// The model of a sort key list: each entry is a field name and whether it
/// sorts ascending.
pub open spec fn keys_view(keys: Seq<(String, SortDir)>) -> Seq<(Seq<char>, bool)> {
    Seq::new(
        keys.len(),
        |i: int|
            if 0 <= i < keys.len() {
                (keys[i].0@, keys[i].1 == SortDir::Asc)
            } else {
                (Seq::empty(), true)
            },
    )
}

pub open spec fn hits_view(hits: Seq<Hit>) -> Seq<HitV> {
    Seq::new(
        hits.len(),
        |i: int|
            if 0 <= i < hits.len() {
                hits[i]@
            } else {
                (HitV { id: Seq::empty(), doc: ValV::Null, score: 0 })
            },
    )
}

/// Three-way comparison of two resolved field values: strings compare
/// lexicographically, numbers numerically, a present value sorts before a
/// missing one, and any other pairing is a tie.
pub open spec fn spec_cmp_vals(a: Option<ValV>, b: Option<ValV>) -> int {
    match (a, b) {
        (Option::Some(ValV::Str(x)), Option::Some(ValV::Str(y))) => if x == y {
            0
        } else if spec_lex_lt(x, y) {
            -1
        } else {
            1
        },
        (Option::Some(ValV::Int(x)), Option::Some(ValV::Int(y))) => if x == y {
            0
        } else if x < y {
            -1
        } else {
            1
        },
        (Option::Some(_), Option::None) => -1,
        (Option::None, Option::Some(_)) => 1,
        _ => 0,
    }
}

/// Lexicographic three-way document comparison over the sort keys; a
/// descending key reverses its field's comparison.
pub open spec fn spec_sort_cmp(x: ValV, y: ValV, keys: Seq<(Seq<char>, bool)>) -> int
    decreases keys.len(),
{
    if keys.len() == 0 {
        0
    } else {
        let c = spec_cmp_vals(spec_get_field(x, keys[0].0), spec_get_field(y, keys[0].0));
        let c = if keys[0].1 {
            c
        } else {
            -c
        };
        if c != 0 {
            c
        } else {
            spec_sort_cmp(x, y, keys.skip(1))
        }
    }
}

/// The sort order: by score descending, or by the sort keys.
pub open spec fn spec_hit_le(a: HitV, b: HitV, keys: Seq<(Seq<char>, bool)>, by_score: bool) -> bool {
    if by_score {
        a.score >= b.score
    } else {
        spec_sort_cmp(a.doc, b.doc, keys) <= 0
    }
}

/// Stable insertion: `x` goes after every element that compares
/// less-or-equal to it.
pub open spec fn spec_insert_hit(
    s: Seq<HitV>,
    x: HitV,
    keys: Seq<(Seq<char>, bool)>,
    by_score: bool,
) -> Seq<HitV>
    decreases s.len(),
{
    if s.len() == 0 {
        seq![x]
    } else if spec_hit_le(s.last(), x, keys, by_score) {
        s.push(x)
    } else {
        spec_insert_hit(s.drop_last(), x, keys, by_score).push(s.last())
    }
}

/// Stable insertion sort: the exact result of sorting, ties kept in input
/// order.
pub open spec fn spec_sort_hits(
    s: Seq<HitV>,
    keys: Seq<(Seq<char>, bool)>,
    by_score: bool,
) -> Seq<HitV>
    decreases s.len(),
{
    if s.len() == 0 {
        Seq::empty()
    } else {
        spec_insert_hit(spec_sort_hits(s.drop_last(), keys, by_score), s.last(), keys, by_score)
    }
}

/// Three-way comparison of two resolved field values.
fn cmp_vals(a: Option<&Val>, b: Option<&Val>) -> (r: i8)
    ensures
        r as int == spec_cmp_vals(
            match a {
                Option::Some(v) => Option::Some(v@),
                Option::None => Option::None,
            },
            match b {
                Option::Some(v) => Option::Some(v@),
                Option::None => Option::None,
            },
        ),
{
    match (a, b) {
        (Some(Val::Str(x)), Some(Val::Str(y))) => {
            if str_eq(x.as_str(), y.as_str()) {
                0
            } else if str_lt(x.as_str(), y.as_str()) {
                -1
            } else {
                1
            }
        },
        (Some(Val::Int(x)), Some(Val::Int(y))) => {
            if *x == *y {
                0
            } else if *x < *y {
                -1
            } else {
                1
            }
        },
        (Some(_), None) => -1,
        (None, Some(_)) => 1,
        _ => 0,
    }
}

/// Compare two documents under the sort keys.
pub fn compare_documents(x: &Val, y: &Val, keys: &Vec<(String, SortDir)>) -> (r: i8)
    ensures
        r as int == spec_sort_cmp(x@, y@, keys_view(keys@)),
{
    let ghost kv = keys_view(keys@);
    let mut i: usize = 0;
    proof {
        assert(kv.skip(0) =~= kv);
    }
    while i < keys.len()
        invariant
            i <= keys@.len(),
            kv == keys_view(keys@),
            kv.len() == keys@.len(),
            spec_sort_cmp(x@, y@, kv) == spec_sort_cmp(x@, y@, kv.skip(i as int)),
        decreases keys@.len() - i,
    {
        proof {
            assert(kv.skip(i as int)[0] == kv[i as int]);
            assert(kv[i as int] == (keys@[i as int].0@, keys@[i as int].1 == SortDir::Asc));
            assert(kv.skip(i as int).skip(1) =~= kv.skip(i as int + 1));
        }
        let field = str_chars(keys[i].0.as_str());
        let c = cmp_vals(x.get_field(&field), y.get_field(&field));
        let asc = match keys[i].1 {
            SortDir::Asc => true,
            SortDir::Desc => false,
        };
        let c = if asc {
            c
        } else {
            -c
        };
        if c != 0 {
            return c;
        }
        i += 1;
    }
    proof {
        assert(kv.skip(keys@.len() as int).len() == 0);
    }
    0
}

fn hit_le(a: &Hit, b: &Hit, keys: &Vec<(String, SortDir)>, by_score: bool) -> (r: bool)
    ensures
        r == spec_hit_le(a@, b@, keys_view(keys@), by_score),
{
    if by_score {
        a.score >= b.score
    } else {
        compare_documents(&a.doc, &b.doc, keys) <= 0
    }
}

/// The stable insertion places the new hit at the position whose suffix
/// holds exactly the elements that do not compare at or below it.
pub proof fn lemma_insert_hit_at(
    s: Seq<HitV>,
    x: HitV,
    keys: Seq<(Seq<char>, bool)>,
    by_score: bool,
    p: int,
)
    requires
        0 <= p <= s.len(),
        forall|j: int| p <= j < s.len() ==> !spec_hit_le(#[trigger] s[j], x, keys, by_score),
        p > 0 ==> spec_hit_le(s[p - 1], x, keys, by_score),
    ensures
        spec_insert_hit(s, x, keys, by_score) == s.take(p) + seq![x] + s.skip(p),
    decreases s.len(),
{
    if s.len() == 0 {
        assert(spec_insert_hit(s, x, keys, by_score) =~= s.take(p) + seq![x] + s.skip(p));
    } else if p == s.len() {
        assert(spec_hit_le(s.last(), x, keys, by_score));
        assert(s.take(p) =~= s);
        assert(s.skip(p) =~= Seq::empty());
        assert(s.push(x) =~= s.take(p) + seq![x] + s.skip(p));
    } else {
        assert(!spec_hit_le(s[s.len() - 1], x, keys, by_score));
        lemma_insert_hit_at(s.drop_last(), x, keys, by_score, p);
        assert(s.drop_last().take(p) =~= s.take(p));
        assert(s.drop_last().skip(p) =~= s.subrange(p, s.len() - 1));
        assert((s.take(p) + seq![x] + s.subrange(p, s.len() - 1)).push(s.last()) =~= s.take(p)
            + seq![x] + s.skip(p));
    }
}

/// Stable sort of the hits: by score descending when `by_score`, else by
/// the sort keys, first-listed key dominating; equal hits keep their input
/// order.
pub fn sort_hits(hits: Vec<Hit>, keys: &Vec<(String, SortDir)>, by_score: bool) -> (r: Vec<Hit>)
    ensures
        hits_view(r@) == spec_sort_hits(hits_view(hits@), keys_view(keys@), by_score),
{
    let ghost hv = hits_view(hits@);
    let ghost kv = keys_view(keys@);
    let mut out: Vec<Hit> = Vec::new();
    let input = hits;
    let mut i: usize = 0;
    proof {
        assert(hits_view(out@) =~= Seq::<HitV>::empty());
        assert(hv.take(0) =~= Seq::<HitV>::empty());
        assert(spec_sort_hits(hv.take(0), kv, by_score) == Seq::<HitV>::empty());
    }
    while i < input.len()
        invariant
            i <= input@.len(),
            hv == hits_view(input@),
            kv == keys_view(keys@),
            hv.len() == input@.len(),
            hits_view(out@) == spec_sort_hits(hv.take(i as int), kv, by_score),
        decreases input@.len() - i,
    {
        let ghost sorted = hits_view(out@);
        let x = input[i].clone();
        proof {
            assert(hv[i as int] == x@);
        }
        let mut p: usize = out.len();
        while p > 0 && !hit_le(&out[p - 1], &x, keys, by_score)
            invariant
                p <= out@.len(),
                sorted == hits_view(out@),
                kv == keys_view(keys@),
                sorted.len() == out@.len(),
                forall|j: int|
                    p <= j < sorted.len() ==> !spec_hit_le(#[trigger] sorted[j], x@, kv, by_score),
            decreases p,
        {
            proof {
                assert(sorted[p - 1] == out@[p - 1]@);
            }
            p -= 1;
        }
        proof {
            if p > 0 {
                assert(sorted[p - 1] == out@[p - 1]@);
            }
            lemma_insert_hit_at(sorted, x@, kv, by_score, p as int);
        }
        out.insert(p, x);
        proof {
            assert(hits_view(out@) =~= sorted.take(p as int) + seq![x@] + sorted.skip(p as int));
            assert(hv.take(i as int + 1).drop_last() =~= hv.take(i as int));
            assert(hv.take(i as int + 1).last() == hv[i as int]);
        }
        i += 1;
    }
    proof {
        assert(hv.take(hv.len() as int) =~= hv);
    }
    out
}

/// The page `[from, from + size)` of a sequence, clipped to its length.
pub open spec fn spec_page<T>(s: Seq<T>, from: int, size: int) -> Seq<T> {
    let lo = if from <= s.len() {
        from
    } else {
        s.len() as int
    };
    let hi = if from + size <= s.len() {
        from + size
    } else {
        s.len() as int
    };
    if lo <= hi {
        s.subrange(lo, hi)
    } else {
        Seq::empty()
    }
}

/// Keep the page `[from, from + size)` of the hits.
pub fn paginate(hits: Vec<Hit>, from: usize, size: usize) -> (r: Vec<Hit>)
    ensures
        hits_view(r@) == spec_page(hits_view(hits@), from as int, size as int),
{
    let ghost hv = hits_view(hits@);
    let n = hits.len();
    let lo = if from <= n {
        from
    } else {
        n
    };
    let hi = if size <= n - lo {
        lo + size
    } else {
        n
    };
    let mut out: Vec<Hit> = Vec::new();
    let mut i: usize = lo;
    while i < hi
        invariant
            lo <= i <= hi <= hits@.len(),
            hv == hits_view(hits@),
            hv.len() == hits@.len(),
            hits_view(out@) == hv.subrange(lo as int, i as int),
        decreases hi - i,
    {
        let ghost partial = hits_view(out@);
        let h = hits[i].clone();
        proof {
            assert(h@ == hv[i as int]);
        }
        out.push(h);
        proof {
            assert(hits_view(out@) =~= partial.push(hv[i as int]));
            assert(hits_view(out@) =~= hv.subrange(lo as int, i as int + 1));
        }
        i += 1;
    }
    proof {
        assert(hits_view(out@) =~= spec_page(hv, from as int, size as int));
    }
    out
}

impl Clone for Hit {
    /// Copy of a hit, with the same model.
    fn clone(&self) -> (r: Self)
        ensures
            r@ == self@,
    {
        Hit { id: self.id.clone(), doc: self.doc.clone(), score: self.score }
    }
}

} // verus!

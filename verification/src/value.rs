//! The document value model: a semi-structured tree of objects, arrays,
//! strings, integers, booleans and null, with dot-path field access.
//!
//! Object fields are kept strictly sorted by key, so two objects hold the
//! same fields exactly when they are structurally equal. The mathematical
//! model of a tree is [`ValV`], reached through the `@` view operator.

use vstd::prelude::*;

use crate::text::{lemma_lex_trichotomy, spec_lex_lt};

verus! {

broadcast use vstd::std_specs::vec::group_vec_axioms;

/// A semi-structured document value.
pub enum Val {
    Null,
    Bool(bool),
    Int(i64),
    Str(String),
    Arr(Vec<Val>),
    Obj(Vec<(String, Val)>),
}

/// The mathematical model of a [`Val`].
#[verifier::ext_equal]
pub ghost enum ValV {
    Null,
    Bool(bool),
    Int(int),
    Str(Seq<char>),
    Arr(Seq<ValV>),
    Obj(Seq<(Seq<char>, ValV)>),
}

pub open spec fn val_view(v: Val) -> ValV
    decreases v,
{
    match v {
        Val::Null => ValV::Null,
        Val::Bool(b) => ValV::Bool(b),
        Val::Int(n) => ValV::Int(n as int),
        Val::Str(s) => ValV::Str(s@),
        Val::Arr(items) => ValV::Arr(
            Seq::new(
                items@.len(),
                |i: int|
                    if 0 <= i < items@.len() {
                        val_view(items@[i])
                    } else {
                        ValV::Null
                    },
            ),
        ),
        Val::Obj(fields) => ValV::Obj(
            Seq::new(
                fields@.len(),
                |i: int|
                    if 0 <= i < fields@.len() {
                        (fields@[i].0@, val_view(fields@[i].1))
                    } else {
                        (Seq::empty(), ValV::Null)
                    },
            ),
        ),
    }
}

impl View for Val {
    type V = ValV;

    open spec fn view(&self) -> ValV {
        val_view(*self)
    }
}

/// Well-formed values keep every object's keys strictly sorted, so keys are
/// unique and structural equality coincides with map equality.
pub open spec fn wf_val(v: ValV) -> bool
    decreases v,
{
    match v {
        ValV::Arr(items) => forall|i: int| 0 <= i < items.len() ==> wf_val(#[trigger] items[i]),
        ValV::Obj(fields) => (forall|i: int, j: int|
            0 <= i < j < fields.len() ==> spec_lex_lt(fields[i].0, fields[j].0)) && (forall|i: int|
            0 <= i < fields.len() ==> wf_val(#[trigger] fields[i].1)),
        _ => true,
    }
}

/// The value bound to `key` in an object's field list (first match).
pub open spec fn spec_obj_get(fields: Seq<(Seq<char>, ValV)>, key: Seq<char>) -> Option<ValV>
    decreases fields.len(),
{
    if fields.len() == 0 {
        Option::None
    } else if fields[0].0 == key {
        Option::Some(fields[0].1)
    } else {
        spec_obj_get(fields.skip(1), key)
    }
}

/// Binding `key` to `val`, keeping the keys sorted: replaces an existing
/// binding, else inserts before the first larger key.
pub open spec fn spec_obj_set(
    fields: Seq<(Seq<char>, ValV)>,
    key: Seq<char>,
    val: ValV,
) -> Seq<(Seq<char>, ValV)>
    decreases fields.len(),
{
    if fields.len() == 0 {
        seq![(key, val)]
    } else if fields[0].0 == key {
        seq![(key, val)] + fields.skip(1)
    } else if spec_lex_lt(key, fields[0].0) {
        seq![(key, val)] + fields
    } else {
        seq![fields[0]] + spec_obj_set(fields.skip(1), key, val)
    }
}

/// Removing every binding of `key`.
pub open spec fn spec_obj_remove(fields: Seq<(Seq<char>, ValV)>, key: Seq<char>) -> Seq<
    (Seq<char>, ValV),
>
    decreases fields.len(),
{
    if fields.len() == 0 {
        Seq::empty()
    } else if fields[0].0 == key {
        spec_obj_remove(fields.skip(1), key)
    } else {
        seq![fields[0]] + spec_obj_remove(fields.skip(1), key)
    }
}

impl Val {
    /// An object value with no fields.
    pub fn empty_obj() -> (r: Val)
        ensures
            r@ == ValV::Obj(Seq::<(Seq<char>, ValV)>::empty()),
    {
        let v: Vec<(String, Val)> = Vec::new();
        let r = Val::Obj(v);
        proof {
            assert(r@->Obj_0 =~= Seq::<(Seq<char>, ValV)>::empty());
            assert(r@ == ValV::Obj(r@->Obj_0));
        }
        r
    }

    /// A string value.
    pub fn string(s: &str) -> (r: Val)
        ensures
            r@ == ValV::Str(s@),
    {
        Val::Str(s.to_owned())
    }
}

impl Clone for Val {
    /// Deep copy; the copy has the same model.
    #[verifier::loop_isolation(false)]
    fn clone(&self) -> (r: Self)
        ensures
            r@ == self@,
        decreases self,
    {
        match self {
            Val::Null => Val::Null,
            Val::Bool(b) => Val::Bool(*b),
            Val::Int(n) => Val::Int(*n),
            Val::Str(s) => Val::Str(s.clone()),
            Val::Arr(items) => {
                let mut out: Vec<Val> = Vec::new();
                let mut i: usize = 0;
                while i < items.len()
                    invariant
                        i <= items@.len(),
                        out@.len() == i,
                        forall|k: int| 0 <= k < i ==> out@[k]@ == items@[k]@,
                    decreases items@.len() - i,
                {
                    out.push(items[i].clone());
                    i += 1;
                }
                let r = Val::Arr(out);
                proof {
                    assert(r@->Arr_0 =~= self@->Arr_0);
                    assert(r@ == ValV::Arr(r@->Arr_0));
                    assert(self@ == ValV::Arr(self@->Arr_0));
                }
                r
            },
            Val::Obj(fields) => {
                let mut out: Vec<(String, Val)> = Vec::new();
                let mut i: usize = 0;
                while i < fields.len()
                    invariant
                        i <= fields@.len(),
                        out@.len() == i,
                        forall|k: int|
                            0 <= k < i ==> out@[k].0@ == fields@[k].0@ && out@[k].1@
                                == fields@[k].1@,
                    decreases fields@.len() - i,
                {
                    let key = fields[i].0.clone();
                    let val = fields[i].1.clone();
                    out.push((key, val));
                    i += 1;
                }
                let r = Val::Obj(out);
                proof {
                    assert(r@->Obj_0 =~= self@->Obj_0);
                    assert(r@ == ValV::Obj(r@->Obj_0));
                    assert(self@ == ValV::Obj(self@->Obj_0));
                }
                r
            },
        }
    }
}


/// Length of the leading run of non-dot characters.
pub open spec fn spec_seg_len(s: Seq<char>) -> nat
    decreases s.len(),
{
    if s.len() == 0 || s[0] == '.' {
        0
    } else {
        1 + spec_seg_len(s.skip(1))
    }
}

proof fn lemma_seg_len_bound(s: Seq<char>)
    ensures
        spec_seg_len(s) <= s.len(),
        forall|k: int| 0 <= k < spec_seg_len(s) ==> s[k] != '.',
        spec_seg_len(s) < s.len() ==> s[spec_seg_len(s) as int] == '.',
    decreases s.len(),
{
    if s.len() == 0 || s[0] == '.' {
    } else {
        lemma_seg_len_bound(s.skip(1));
        assert forall|k: int| 0 <= k < spec_seg_len(s) implies s[k] != '.' by {
            if k > 0 {
                assert(s.skip(1)[k - 1] != '.');
            }
        }
    }
}

proof fn lemma_seg_len_exact(s: Seq<char>, n: int)
    requires
        0 <= n <= s.len(),
        forall|k: int| 0 <= k < n ==> s[k] != '.',
        n < s.len() ==> s[n] == '.',
    ensures
        spec_seg_len(s) == n,
    decreases s.len(),
{
    if s.len() == 0 {
    } else if n == 0 {
    } else {
        assert(s[0] != '.');
        assert forall|k: int| 0 <= k < n - 1 implies s.skip(1)[k] != '.' by {
            assert(s.skip(1)[k] == s[k + 1]);
        }
        assert(n - 1 < s.skip(1).len() ==> s.skip(1)[n - 1] == '.');
        lemma_seg_len_exact(s.skip(1), n - 1);
    }
}

/// Splitting on `.`: empty segments are kept, and there is always at least
/// one segment.
pub open spec fn spec_split_dots(s: Seq<char>) -> Seq<Seq<char>>
    decreases s.len(),
    via spec_split_dots_decreases
{
    if spec_seg_len(s) == s.len() {
        seq![s]
    } else {
        seq![s.take(spec_seg_len(s) as int)] + spec_split_dots(s.skip(spec_seg_len(s) as int + 1))
    }
}

#[via_fn]
proof fn spec_split_dots_decreases(s: Seq<char>) {
    lemma_seg_len_bound(s);
}

/// Split a dotted path into its segments.
pub fn split_dots(v: &Vec<char>) -> (r: Vec<Vec<char>>)
    ensures
        r.deep_view() == spec_split_dots(v@),
{
    let mut r: Vec<Vec<char>> = Vec::new();
    let mut i: usize = 0;
    proof {
        assert(v@.skip(0) =~= v@);
        assert(r.deep_view() =~= Seq::<Seq<char>>::empty());
        assert(r.deep_view() + spec_split_dots(v@) =~= spec_split_dots(v@));
    }
    loop
        invariant
            i <= v@.len(),
            i == 0 || (0 < i && v@[i - 1] == '.'),
            r.deep_view() + spec_split_dots(v@.skip(i as int)) == spec_split_dots(v@),
        decreases v@.len() - i,
    {
        let ghost rest = v@.skip(i as int);
        let start = i;
        let mut j: usize = i;
        while j < v.len() && v[j] != '.'
            invariant
                start <= j <= v@.len(),
                forall|k: int| start <= k < j ==> v@[k] != '.',
            decreases v@.len() - j,
        {
            j += 1;
        }
        proof {
            assert forall|k: int| 0 <= k < j - start implies rest[k] != '.' by {
                assert(rest[k] == v@[i + k]);
            }
            assert(j - start < rest.len() ==> rest[j - start] == '.');
            lemma_seg_len_exact(rest, j - start);
        }
        let mut seg: Vec<char> = Vec::new();
        let mut k: usize = start;
        while k < j
            invariant
                start <= k <= j <= v@.len(),
                seg@ == v@.subrange(start as int, k as int),
            decreases j - k,
        {
            seg.push(v[k]);
            k += 1;
            proof {
                assert(seg@ =~= v@.subrange(start as int, k as int));
            }
        }
        let ghost old_dv = r.deep_view();
        proof {
            assert(seg.deep_view() =~= seg@);
        }
        r.push(seg);
        proof {
            assert(r.deep_view() =~= old_dv.push(seg@));
        }
        if j == v.len() {
            proof {
                assert(spec_seg_len(rest) == rest.len());
                assert(seg@ =~= rest);
                assert(spec_split_dots(rest) == seq![rest]);
                assert(r.deep_view() =~= old_dv + seq![rest]);
            }
            return r;
        }
        proof {
            assert(spec_seg_len(rest) < rest.len());
            assert(seg@ =~= rest.take(spec_seg_len(rest) as int));
            assert(spec_split_dots(rest) == seq![seg@] + spec_split_dots(
                rest.skip(spec_seg_len(rest) as int + 1),
            ));
            assert(rest.skip(spec_seg_len(rest) as int + 1) =~= v@.skip(j + 1));
            assert(r.deep_view() + spec_split_dots(v@.skip(j + 1)) =~= old_dv + spec_split_dots(
                rest,
            ));
        }
        i = j + 1;
    }
}

/// Dot-path traversal: each segment selects a field of an object.
pub open spec fn spec_path_get(v: ValV, parts: Seq<Seq<char>>) -> Option<ValV>
    decreases parts.len(),
{
    if parts.len() == 0 {
        Option::Some(v)
    } else {
        match v {
            ValV::Obj(fields) => match spec_obj_get(fields, parts[0]) {
                Option::Some(child) => spec_path_get(child, parts.skip(1)),
                Option::None => Option::None,
            },
            _ => Option::None,
        }
    }
}

/// Resolve a field name against a document: `_all` and `*` denote the whole
/// document, any other name is a dot-separated path.
pub open spec fn spec_get_field(doc: ValV, field: Seq<char>) -> Option<ValV> {
    if field == "_all"@ || field == "*"@ {
        Option::Some(doc)
    } else {
        spec_path_get(doc, spec_split_dots(field))
    }
}

/// The value bound to `key` among an object's fields.
pub fn obj_get<'a>(fields: &'a Vec<(String, Val)>, key: &Vec<char>) -> (r: Option<&'a Val>)
    ensures
        match r {
            Option::Some(c) => spec_obj_get(view_fields(fields@), key@) == Option::Some(c@),
            Option::None => spec_obj_get(view_fields(fields@), key@) is None,
        },
{
    let ghost all = view_fields(fields@);
    let mut i: usize = 0;
    proof {
        assert(all.skip(0) =~= all);
    }
    while i < fields.len()
        invariant
            i <= fields@.len(),
            all == view_fields(fields@),
            all.len() == fields@.len(),
            forall|k: int| 0 <= k < fields@.len() ==> all[k] == (fields@[k].0@, fields@[k].1@),
            spec_obj_get(all, key@) == spec_obj_get(all.skip(i as int), key@),
        decreases fields@.len() - i,
    {
        proof {
            assert(all.skip(i as int)[0] == all[i as int]);
            assert(all.skip(i as int).skip(1) =~= all.skip(i + 1));
        }
        if crate::text::str_eq_chars(&fields[i].0, key) {
            return Some(&fields[i].1);
        }
        i += 1;
    }
    proof {
        assert(all.skip(i as int).len() == 0);
    }
    None
}

/// The field list of an object model.
pub open spec fn view_fields(fields: Seq<(String, Val)>) -> Seq<(Seq<char>, ValV)> {
    Seq::new(
        fields.len(),
        |i: int|
            if 0 <= i < fields.len() {
                (fields[i].0@, fields[i].1@)
            } else {
                (Seq::empty(), ValV::Null)
            },
    )
}

/// An object's fields viewed through the value model.
pub proof fn lemma_obj_view(fields: Vec<(String, Val)>)
    ensures
        Val::Obj(fields)@ == ValV::Obj(view_fields(fields@)),
{
    assert(Val::Obj(fields)@->Obj_0 =~= view_fields(fields@));
    assert(Val::Obj(fields)@ == ValV::Obj(Val::Obj(fields)@->Obj_0));
}

/// Resolve a dot-separated field path against this value.
impl Val {
    pub fn get_field<'a>(&'a self, field: &Vec<char>) -> (r: Option<&'a Val>)
        ensures
            match r {
                Option::Some(c) => spec_get_field(self@, field@) == Option::Some(c@),
                Option::None => spec_get_field(self@, field@) is None,
            },
    {
        let all_chars: Vec<char> = vec!['_', 'a', 'l', 'l'];
        let star: Vec<char> = vec!['*'];
        proof {
            reveal_strlit("_all");
            reveal_strlit("*");
            assert(all_chars@ =~= "_all"@);
            assert(star@ =~= "*"@);
        }
        if crate::text::chars_eq(field, &all_chars) || crate::text::chars_eq(field, &star) {
            return Some(self);
        }
        let parts = split_dots(field);
        let ghost parts_v = spec_split_dots(field@);
        let mut cur: &Val = self;
        let mut i: usize = 0;
        proof {
            assert(parts_v.skip(0) =~= parts_v);
        }
        while i < parts.len()
            invariant
                i <= parts@.len(),
                parts.deep_view() == parts_v,
                parts@.len() == parts_v.len(),
                spec_get_field(self@, field@) == spec_path_get(self@, parts_v),
                spec_path_get(self@, parts_v) == spec_path_get(cur@, parts_v.skip(i as int)),
            decreases parts@.len() - i,
        {
            proof {
                assert(parts_v.skip(i as int)[0] == parts_v[i as int]);
                assert(parts_v[i as int] == parts@[i as int]@);
                assert(parts_v.skip(i as int).skip(1) =~= parts_v.skip(i + 1));
            }
            match cur {
                Val::Obj(fields) => {
                    proof {
                        lemma_obj_view(*fields);
                    }
                    match obj_get(fields, &parts[i]) {
                        Some(child) => {
                            cur = child;
                        },
                        None => {
                            return None;
                        },
                    }
                },
                _ => {
                    return None;
                },
            }
            i += 1;
        }
        proof {
            assert(parts_v.skip(i as int).len() == 0);
        }
        Some(cur)
    }
}


/// Structural equality of two values: they have the same model.
#[verifier::loop_isolation(false)]
pub fn value_eq(a: &Val, b: &Val) -> (r: bool)
    ensures
        r == (a@ == b@),
    decreases a,
{
    match (a, b) {
        (Val::Null, Val::Null) => true,
        (Val::Bool(x), Val::Bool(y)) => x == y,
        (Val::Int(x), Val::Int(y)) => x == y,
        (Val::Str(x), Val::Str(y)) => crate::text::str_eq(x.as_str(), y.as_str()),
        (Val::Arr(x), Val::Arr(y)) => {
            if x.len() != y.len() {
                proof {
                    assert(a@->Arr_0.len() != b@->Arr_0.len());
                }
                return false;
            }
            let mut i: usize = 0;
            while i < x.len()
                invariant
                    i <= x@.len(),
                    x@.len() == y@.len(),
                    forall|k: int| 0 <= k < i ==> a@->Arr_0[k] == b@->Arr_0[k],
                decreases x@.len() - i,
            {
                if !value_eq(&x[i], &y[i]) {
                    proof {
                        assert(a@->Arr_0[i as int] == x@[i as int]@);
                        assert(b@->Arr_0[i as int] == y@[i as int]@);
                    }
                    return false;
                }
                i += 1;
            }
            proof {
                assert(a@->Arr_0 =~= b@->Arr_0);
                assert(a@ == ValV::Arr(a@->Arr_0));
                assert(b@ == ValV::Arr(b@->Arr_0));
            }
            true
        },
        (Val::Obj(x), Val::Obj(y)) => {
            if x.len() != y.len() {
                proof {
                    assert(a@->Obj_0.len() != b@->Obj_0.len());
                }
                return false;
            }
            let mut i: usize = 0;
            while i < x.len()
                invariant
                    i <= x@.len(),
                    x@.len() == y@.len(),
                    forall|k: int| 0 <= k < i ==> a@->Obj_0[k] == b@->Obj_0[k],
                decreases x@.len() - i,
            {
                proof {
                    assert(a@->Obj_0[i as int] == (x@[i as int].0@, x@[i as int].1@));
                    assert(b@->Obj_0[i as int] == (y@[i as int].0@, y@[i as int].1@));
                }
                if !crate::text::str_eq(x[i].0.as_str(), y[i].0.as_str()) {
                    return false;
                }
                if !value_eq(&x[i].1, &y[i].1) {
                    return false;
                }
                i += 1;
            }
            proof {
                assert(a@->Obj_0 =~= b@->Obj_0);
                assert(a@ == ValV::Obj(a@->Obj_0));
                assert(b@ == ValV::Obj(b@->Obj_0));
            }
            true
        },
        _ => {
            proof {
                assert(a@ != b@);
            }
            false
        },
    }
}

proof fn lemma_obj_set_split(fields: Seq<(Seq<char>, ValV)>, key: Seq<char>, val: ValV, i: int)
    requires
        0 <= i <= fields.len(),
        forall|k: int|
            0 <= k < i ==> fields[k].0 != key && !spec_lex_lt(key, #[trigger] fields[k].0),
    ensures
        spec_obj_set(fields, key, val) == fields.take(i) + spec_obj_set(fields.skip(i), key, val),
    decreases i,
{
    if i == 0 {
        assert(fields.take(0) =~= Seq::empty());
        assert(fields.skip(0) =~= fields);
        assert(fields.take(0) + spec_obj_set(fields, key, val) =~= spec_obj_set(
            fields,
            key,
            val,
        ));
    } else {
        assert(fields.len() > 0);
        assert(fields[0].0 != key && !spec_lex_lt(key, fields[0].0));
        assert(spec_obj_set(fields, key, val) == seq![fields[0]] + spec_obj_set(
            fields.skip(1),
            key,
            val,
        ));
        assert forall|k: int|
            0 <= k < i - 1 implies fields.skip(1)[k].0 != key && !spec_lex_lt(
            key,
            #[trigger] fields.skip(1)[k].0,
        ) by {
            assert(fields.skip(1)[k] == fields[k + 1]);
        }
        lemma_obj_set_split(fields.skip(1), key, val, i - 1);
        assert(fields.skip(1).take(i - 1) =~= fields.subrange(1, i));
        assert(fields.skip(1).skip(i - 1) =~= fields.skip(i));
        assert(seq![fields[0]] + (fields.subrange(1, i) + spec_obj_set(fields.skip(i), key, val))
            =~= fields.take(i) + spec_obj_set(fields.skip(i), key, val));
    }
}

/// Bind `key` to `val` among an object's fields, replacing an existing
/// binding and otherwise inserting before the first larger key.
pub fn obj_set(fields: &mut Vec<(String, Val)>, key: String, val: Val)
    ensures
        view_fields(final(fields)@) == spec_obj_set(view_fields(old(fields)@), key@, val@),
{
    let ghost all = view_fields(old(fields)@);
    let mut i: usize = 0;
    while i < fields.len()
        invariant
            i <= fields@.len(),
            fields@ == old(fields)@,
            all == view_fields(old(fields)@),
            forall|k: int| 0 <= k < i ==> all[k].0 != key@ && !spec_lex_lt(key@, #[trigger] all[k].0),
        decreases fields@.len() - i,
    {
        proof {
            assert(all[i as int] == (fields@[i as int].0@, fields@[i as int].1@));
        }
        if crate::text::str_eq(fields[i].0.as_str(), key.as_str()) {
            proof {
                lemma_obj_set_split(all, key@, val@, i as int);
                assert(all.skip(i as int)[0] == all[i as int]);
                assert(spec_obj_set(all.skip(i as int), key@, val@) == seq![(key@, val@)]
                    + all.skip(i as int).skip(1));
                assert(all.skip(i as int).skip(1) =~= all.skip(i as int + 1));
            }
            fields[i] = (key, val);
            proof {
                assert(view_fields(fields@) =~= all.take(i as int) + (seq![(key@, val@)]
                    + all.skip(i as int + 1)));
            }
            return ;
        }
        if crate::text::str_lt(key.as_str(), fields[i].0.as_str()) {
            proof {
                lemma_obj_set_split(all, key@, val@, i as int);
                assert(all.skip(i as int)[0] == all[i as int]);
                assert(spec_obj_set(all.skip(i as int), key@, val@) == seq![(key@, val@)]
                    + all.skip(i as int));
            }
            fields.insert(i, (key, val));
            proof {
                assert(view_fields(fields@) =~= all.take(i as int) + (seq![(key@, val@)]
                    + all.skip(i as int)));
            }
            return ;
        }
        proof {
            lemma_lex_trichotomy(key@, all[i as int].0);
        }
        i += 1;
    }
    proof {
        lemma_obj_set_split(all, key@, val@, all.len() as int);
        assert(all.skip(all.len() as int).len() == 0);
        assert(spec_obj_set(all.skip(all.len() as int), key@, val@) == seq![(key@, val@)]);
    }
    fields.push((key, val));
    proof {
        assert(all.take(all.len() as int) =~= all);
        assert(view_fields(fields@) =~= all + seq![(key@, val@)]);
        assert(all + seq![(key@, val@)] =~= all.take(all.len() as int) + seq![(key@, val@)]);
    }
}

proof fn lemma_obj_remove_split(fields: Seq<(Seq<char>, ValV)>, key: Seq<char>, i: int)
    requires
        0 <= i <= fields.len(),
    ensures
        spec_obj_remove(fields, key) == spec_obj_remove(fields.take(i), key) + spec_obj_remove(
            fields.skip(i),
            key,
        ),
    decreases i,
{
    if i == 0 {
        assert(fields.take(0) =~= Seq::empty());
        assert(fields.skip(0) =~= fields);
        assert(spec_obj_remove(Seq::empty(), key) + spec_obj_remove(fields, key) =~=
            spec_obj_remove(fields, key));
    } else {
        assert(fields.len() > 0);
        assert forall|k: int| 0 <= k < i - 1 implies fields.skip(1)[k] == fields[k + 1] by {}
        lemma_obj_remove_split(fields.skip(1), key, i - 1);
        assert(fields.skip(1).take(i - 1) =~= fields.subrange(1, i));
        assert(fields.skip(1).skip(i - 1) =~= fields.skip(i));
        assert(fields.take(i).skip(1) =~= fields.subrange(1, i));
        if fields[0].0 == key {
            assert(spec_obj_remove(fields, key) == spec_obj_remove(fields.skip(1), key));
            assert(spec_obj_remove(fields.take(i), key) == spec_obj_remove(
                fields.subrange(1, i),
                key,
            )) by {
                assert(fields.take(i)[0] == fields[0]);
            }
        } else {
            assert(spec_obj_remove(fields, key) == seq![fields[0]] + spec_obj_remove(
                fields.skip(1),
                key,
            ));
            assert(spec_obj_remove(fields.take(i), key) == seq![fields[0]] + spec_obj_remove(
                fields.subrange(1, i),
                key,
            )) by {
                assert(fields.take(i)[0] == fields[0]);
            }
            assert(seq![fields[0]] + (spec_obj_remove(fields.subrange(1, i), key)
                + spec_obj_remove(fields.skip(i), key)) =~= (seq![fields[0]] + spec_obj_remove(
                fields.subrange(1, i),
                key,
            )) + spec_obj_remove(fields.skip(i), key));
        }
    }
}

/// Copy an object's fields, dropping every binding of `key`.
pub fn obj_remove_copy(fields: &Vec<(String, Val)>, key: &Vec<char>) -> (r: Vec<
    (String, Val),
>)
    ensures
        view_fields(r@) == spec_obj_remove(view_fields(fields@), key@),
{
    let ghost all = view_fields(fields@);
    let mut out: Vec<(String, Val)> = Vec::new();
    let mut i: usize = 0;
    proof {
        assert(all.skip(0) =~= all);
        assert(view_fields(out@) =~= Seq::<(Seq<char>, ValV)>::empty());
        assert(view_fields(out@) + spec_obj_remove(all, key@) =~= spec_obj_remove(all, key@));
    }
    while i < fields.len()
        invariant
            i <= fields@.len(),
            all == view_fields(fields@),
            all.len() == fields@.len(),
            forall|k: int| 0 <= k < fields@.len() ==> all[k] == (fields@[k].0@, fields@[k].1@),
            view_fields(out@) + spec_obj_remove(all.skip(i as int), key@) == spec_obj_remove(
                all,
                key@,
            ),
        decreases fields@.len() - i,
    {
        proof {
            assert(all.skip(i as int)[0] == all[i as int]);
            assert(all.skip(i as int).skip(1) =~= all.skip(i as int + 1));
        }
        if !crate::text::str_eq_chars(&fields[i].0, key) {
            let k = fields[i].0.clone();
            let v = fields[i].1.clone();
            let ghost old_out = view_fields(out@);
            out.push((k, v));
            proof {
                assert(view_fields(out@) =~= old_out.push((fields@[i as int].0@, fields@[
                    i as int].1@)));
                assert(old_out.push(all[i as int]) =~= old_out + seq![all[i as int]]);
                assert(view_fields(out@) + spec_obj_remove(all.skip(i as int + 1), key@) =~=
                    old_out + spec_obj_remove(all.skip(i as int), key@));
            }
        }
        i += 1;
    }
    proof {
        assert(all.skip(fields@.len() as int).len() == 0);
        assert(view_fields(out@) + spec_obj_remove(all.skip(fields@.len() as int), key@) =~=
            view_fields(out@));
    }
    out
}


/// Copy an object's field list; the copy has the same model.
pub fn clone_fields(fields: &Vec<(String, Val)>) -> (r: Vec<(String, Val)>)
    ensures
        view_fields(r@) == view_fields(fields@),
{
    let mut out: Vec<(String, Val)> = Vec::new();
    let mut i: usize = 0;
    while i < fields.len()
        invariant
            i <= fields@.len(),
            out@.len() == i,
            forall|k: int|
                0 <= k < i ==> out@[k].0@ == fields@[k].0@ && out@[k].1@ == fields@[k].1@,
        decreases fields@.len() - i,
    {
        let k = fields[i].0.clone();
        let v = fields[i].1.clone();
        out.push((k, v));
        i += 1;
    }
    proof {
        assert(view_fields(out@) =~= view_fields(fields@));
    }
    out
}

} // verus!

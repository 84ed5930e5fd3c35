//! Source filtering: projecting a stored document onto the fields a search
//! response should carry.

use vstd::prelude::*;

use crate::value::{
    obj_remove_copy, spec_obj_get, spec_obj_remove, spec_obj_set, view_fields, obj_get, obj_set,
    ValV, Val,
};
use crate::text::str_chars;

verus! {

broadcast use vstd::std_specs::vec::group_vec_axioms;

/// A `_source` filter: everything or nothing, a list of field names, or an
/// include/exclude pair.
pub enum SourceFilter {
    All(bool),
    Fields(Vec<String>),
    Partial { includes: Option<Vec<String>>, excludes: Option<Vec<String>> },
}

/// The mathematical model of a [`SourceFilter`].
pub ghost enum SourceFilterV {
    All(bool),
    Fields(Seq<Seq<char>>),
    Partial { includes: Option<Seq<Seq<char>>>, excludes: Option<Seq<Seq<char>>> },
}

pub open spec fn names_view(ss: Seq<String>) -> Seq<Seq<char>> {
    Seq::new(
        ss.len(),
        |i: int|
            if 0 <= i < ss.len() {
                ss[i]@
            } else {
                Seq::empty()
            },
    )
}

pub open spec fn opt_names_view(ss: Option<Vec<String>>) -> Option<Seq<Seq<char>>> {
    match ss {
        Option::Some(v) => Option::Some(names_view(v@)),
        Option::None => Option::None,
    }
}

impl View for SourceFilter {
    type V = SourceFilterV;

    open spec fn view(&self) -> SourceFilterV {
        match *self {
            SourceFilter::All(b) => SourceFilterV::All(b),
            SourceFilter::Fields(names) => SourceFilterV::Fields(names_view(names@)),
            SourceFilter::Partial { includes, excludes } => SourceFilterV::Partial {
                includes: opt_names_view(includes),
                excludes: opt_names_view(excludes),
            },
        }
    }
}

/// The fields of `doc` named by the first `i` entries of `names`, collected
/// in key order.
pub open spec fn spec_pick_fields(
    fields: Seq<(Seq<char>, ValV)>,
    names: Seq<Seq<char>>,
    i: int,
) -> Seq<(Seq<char>, ValV)>
    decreases i,
{
    if i <= 0 || i > names.len() {
        Seq::empty()
    } else {
        let prev = spec_pick_fields(fields, names, i - 1);
        match spec_obj_get(fields, names[i - 1]) {
            Option::Some(v) => spec_obj_set(prev, names[i - 1], v),
            Option::None => prev,
        }
    }
}

/// The fields of `doc` with the first `i` names of `names` removed.
pub open spec fn spec_drop_fields(
    fields: Seq<(Seq<char>, ValV)>,
    names: Seq<Seq<char>>,
    i: int,
) -> Seq<(Seq<char>, ValV)>
    decreases i,
{
    if i <= 0 || i > names.len() {
        fields
    } else {
        spec_obj_remove(spec_drop_fields(fields, names, i - 1), names[i - 1])
    }
}

/// Projection of a document by a list of field names: an object holding the
/// named top-level fields that exist; anything but an object yields the
/// empty object.
pub open spec fn spec_pick_value(doc: ValV, names: Seq<Seq<char>>) -> ValV {
    match doc {
        ValV::Obj(fields) => ValV::Obj(spec_pick_fields(fields, names, names.len() as int)),
        _ => ValV::Obj(Seq::empty()),
    }
}

/// Source filtering. `true` keeps the document, `false` yields the empty
/// object, a name list projects onto those fields, and an include/exclude
/// pair first removes the excluded top-level keys and then, when includes
/// are given, rebuilds from the remaining included keys.
pub open spec fn spec_filter_source(doc: ValV, filter: Option<SourceFilterV>) -> ValV {
    match filter {
        Option::None => doc,
        Option::Some(f) => match f {
            SourceFilterV::All(keep) => if keep {
                doc
            } else {
                ValV::Obj(Seq::empty())
            },
            SourceFilterV::Fields(names) => spec_pick_value(doc, names),
            SourceFilterV::Partial { includes, excludes } => {
                let after_excl = match excludes {
                    Option::Some(es) => match doc {
                        ValV::Obj(fields) => ValV::Obj(
                            spec_drop_fields(fields, es, es.len() as int),
                        ),
                        _ => doc,
                    },
                    Option::None => doc,
                };
                match includes {
                    Option::Some(is) => spec_pick_value(after_excl, is),
                    Option::None => after_excl,
                }
            },
        },
    }
}

/// Copy the top-level fields of `doc` named by `names`, in key order.
fn pick_fields(fields: &Vec<(String, Val)>, names: &Vec<String>) -> (r: Vec<(String, Val)>)
    ensures
        view_fields(r@) == spec_pick_fields(
            view_fields(fields@),
            names_view(names@),
            names@.len() as int,
        ),
{
    let ghost fv = view_fields(fields@);
    let ghost nv = names_view(names@);
    let mut out: Vec<(String, Val)> = Vec::new();
    let mut i: usize = 0;
    proof {
        assert(view_fields(out@) =~= Seq::<(Seq<char>, ValV)>::empty());
    }
    while i < names.len()
        invariant
            i <= names@.len(),
            fv == view_fields(fields@),
            nv == names_view(names@),
            nv.len() == names@.len(),
            view_fields(out@) == spec_pick_fields(fv, nv, i as int),
        decreases names@.len() - i,
    {
        proof {
            assert(nv[i as int] == names@[i as int]@);
        }
        let key = str_chars(names[i].as_str());
        match obj_get(fields, &key) {
            Some(v) => {
                let kc = names[i].clone();
                let vc = v.clone();
                obj_set(&mut out, kc, vc);
            },
            None => {},
        }
        i += 1;
    }
    out
}

/// Apply a source filter to a document.
pub fn filter_source(doc: &Val, filter: Option<&SourceFilter>) -> (r: Val)
    ensures
        r@ == spec_filter_source(
            doc@,
            match filter {
                Option::Some(f) => Option::Some(f@),
                Option::None => Option::None,
            },
        ),
{
    let f = match filter {
        Some(f) => f,
        None => {
            return doc.clone();
        },
    };
    match f {
        SourceFilter::All(keep) => {
            if *keep {
                doc.clone()
            } else {
                Val::empty_obj()
            }
        },
        SourceFilter::Fields(names) => {
            match doc {
                Val::Obj(fields) => {
                    proof {
                        crate::value::lemma_obj_view(*fields);
                    }
                    let picked = pick_fields(fields, names);
                    let r = Val::Obj(picked);
                    proof {
                        crate::value::lemma_obj_view(picked);
                    }
                    r
                },
                _ => Val::empty_obj(),
            }
        },
        SourceFilter::Partial { includes, excludes } => {
            let mut current: Val = doc.clone();
            if let Some(es) = excludes {
                match current {
                    Val::Obj(fields0) => {
                        proof {
                            crate::value::lemma_obj_view(fields0);
                        }
                        let ghost fv = view_fields(fields0@);
                        let ghost ev = names_view(es@);
                        let mut work: Vec<(String, Val)> = fields0;
                        let mut i: usize = 0;
                        while i < es.len()
                            invariant
                                i <= es@.len(),
                                ev == names_view(es@),
                                ev.len() == es@.len(),
                                view_fields(work@) == spec_drop_fields(fv, ev, i as int),
                            decreases es@.len() - i,
                        {
                            proof {
                                assert(ev[i as int] == es@[i as int]@);
                            }
                            let key = str_chars(es[i].as_str());
                            work = obj_remove_copy(&work, &key);
                            i += 1;
                        }
                        current = Val::Obj(work);
                        proof {
                            crate::value::lemma_obj_view(work);
                        }
                    },
                    other => {
                        current = other;
                    },
                }
            }
            match includes {
                Some(is) => {
                    match &current {
                        Val::Obj(fields) => {
                            proof {
                                crate::value::lemma_obj_view(*fields);
                            }
                            let picked = pick_fields(fields, is);
                            let r = Val::Obj(picked);
                            proof {
                                crate::value::lemma_obj_view(picked);
                            }
                            r
                        },
                        _ => Val::empty_obj(),
                    }
                },
                None => current,
            }
        },
    }
}

} // verus!

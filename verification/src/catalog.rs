//! The index catalog: the named indices, their metadata and documents, and
//! every operation the storage facade exposes over them. All state is in
//! memory; a durable backend, when one is wired in, is written before these
//! operations are applied.

use vstd::prelude::*;
use vstd::string::StringExecFns;

use crate::errors::{GbsError, GbsErrorV};
use crate::text::{str_chars, str_eq};
use crate::value::{spec_obj_get, view_fields, ValV, Val};

verus! {

broadcast use vstd::std_specs::vec::group_vec_axioms;

/// One named index: inert metadata plus its documents, id to value.
pub struct Index {
    pub name: String,
    pub settings: Option<Val>,
    pub mappings: Option<Val>,
    pub documents: Vec<(String, Val)>,
    pub aliases: Vec<String>,
}

/// The mathematical model of an [`Index`].
pub ghost struct IndexV {
    pub name: Seq<char>,
    pub settings: Option<ValV>,
    pub mappings: Option<ValV>,
    pub documents: Seq<(Seq<char>, ValV)>,
    pub aliases: Seq<Seq<char>>,
}

pub open spec fn opt_val_view(v: Option<Val>) -> Option<ValV> {
    match v {
        Option::Some(x) => Option::Some(x@),
        Option::None => Option::None,
    }
}

impl View for Index {
    type V = IndexV;

    open spec fn view(&self) -> IndexV {
        IndexV {
            name: self.name@,
            settings: opt_val_view(self.settings),
            mappings: opt_val_view(self.mappings),
            documents: view_fields(self.documents@),
            aliases: crate::query::string_list_view(self.aliases@),
        }
    }
}

impl Index {
    /// A fresh index with no documents and no aliases.
    pub fn new(name: String, settings: Option<Val>, mappings: Option<Val>) -> (r: Index)
        ensures
            r@ == (IndexV {
                name: name@,
                settings: opt_val_view(settings),
                mappings: opt_val_view(mappings),
                documents: Seq::empty(),
                aliases: Seq::empty(),
            }),
    {
        let r = Index { name, settings, mappings, documents: Vec::new(), aliases: Vec::new() };
        proof {
            assert(view_fields(r.documents@) =~= Seq::<(Seq<char>, ValV)>::empty());
            assert(crate::query::string_list_view(r.aliases@) =~= Seq::<Seq<char>>::empty());
        }
        r
    }
}

/// The catalog of indices, keyed by name.
pub struct Catalog {
    pub indices: Vec<(String, Index)>,
}

pub open spec fn indices_view(s: Seq<(String, Index)>) -> Seq<(Seq<char>, IndexV)> {
    Seq::new(
        s.len(),
        |i: int|
            if 0 <= i < s.len() {
                (s[i].0@, s[i].1@)
            } else {
                (
                    Seq::empty(),
                    IndexV {
                        name: Seq::empty(),
                        settings: Option::None,
                        mappings: Option::None,
                        documents: Seq::empty(),
                        aliases: Seq::empty(),
                    },
                )
            },
    )
}

impl View for Catalog {
    type V = Seq<(Seq<char>, IndexV)>;

    open spec fn view(&self) -> Seq<(Seq<char>, IndexV)> {
        indices_view(self.indices@)
    }
}

/// The index bound to `name` (first match).
pub open spec fn spec_cat_get(s: Seq<(Seq<char>, IndexV)>, name: Seq<char>) -> Option<IndexV>
    decreases s.len(),
{
    if s.len() == 0 {
        Option::None
    } else if s[0].0 == name {
        Option::Some(s[0].1)
    } else {
        spec_cat_get(s.skip(1), name)
    }
}

/// Replace the first binding of `name` in place.
pub open spec fn spec_cat_set(
    s: Seq<(Seq<char>, IndexV)>,
    name: Seq<char>,
    idx: IndexV,
) -> Seq<(Seq<char>, IndexV)>
    decreases s.len(),
{
    if s.len() == 0 {
        seq![(name, idx)]
    } else if s[0].0 == name {
        seq![(name, idx)] + s.skip(1)
    } else {
        seq![s[0]] + spec_cat_set(s.skip(1), name, idx)
    }
}

/// Drop the first binding of `name`.
pub open spec fn spec_cat_remove(s: Seq<(Seq<char>, IndexV)>, name: Seq<char>) -> Seq<
    (Seq<char>, IndexV),
>
    decreases s.len(),
{
    if s.len() == 0 {
        s
    } else if s[0].0 == name {
        s.skip(1)
    } else {
        seq![s[0]] + spec_cat_remove(s.skip(1), name)
    }
}

/// Every index name occurs once.
pub open spec fn wf_catalog(s: Seq<(Seq<char>, IndexV)>) -> bool {
    forall|i: int, j: int| 0 <= i < j < s.len() ==> s[i].0 != s[j].0
}

impl Catalog {
    /// An empty catalog.
    pub fn new() -> (r: Catalog)
        ensures
            r@ == Seq::<(Seq<char>, IndexV)>::empty(),
    {
        let r = Catalog { indices: Vec::new() };
        proof {
            assert(r@ =~= Seq::<(Seq<char>, IndexV)>::empty());
        }
        r
    }

    /// Position of the index named `name`, if present.
    fn find(&self, name: &str) -> (r: Option<usize>)
        ensures
            match r {
                Option::Some(i) => i < self.indices@.len() && self@[i as int].0 == name@
                    && spec_cat_get(self@, name@) == Option::Some(self@[i as int].1) && forall|
                    k: int,
                |
                    0 <= k < i ==> self@[k].0 != name@,
                Option::None => spec_cat_get(self@, name@) is None,
            },
    {
        let ghost cv = self@;
        let mut i: usize = 0;
        proof {
            assert(cv.skip(0) =~= cv);
        }
        while i < self.indices.len()
            invariant
                i <= self.indices@.len(),
                cv == self@,
                cv.len() == self.indices@.len(),
                spec_cat_get(cv, name@) == spec_cat_get(cv.skip(i as int), name@),
                forall|k: int| 0 <= k < i ==> cv[k].0 != name@,
            decreases self.indices@.len() - i,
        {
            proof {
                assert(cv.skip(i as int)[0] == cv[i as int]);
                assert(cv[i as int] == (self.indices@[i as int].0@, self.indices@[i as int].1@));
                assert(cv.skip(i as int).skip(1) =~= cv.skip(i as int + 1));
            }
            if str_eq(self.indices[i].0.as_str(), name) {
                return Some(i);
            }
            i += 1;
        }
        proof {
            assert(cv.skip(cv.len() as int).len() == 0);
        }
        None
    }

    /// Whether the named index exists.
    pub fn index_exists(&self, name: &str) -> (r: bool)
        ensures
            r == (spec_cat_get(self@, name@) is Some),
    {
        match self.find(name) {
            Some(_) => true,
            None => false,
        }
    }

    /// Create an index; fails when one of that name already exists.
    pub fn create_index(
        &mut self,
        name: &str,
        settings: Option<Val>,
        mappings: Option<Val>,
    ) -> (r: Result<(), GbsError>)
        ensures
            match spec_cat_get(old(self)@, name@) {
                Option::Some(_) => r matches Err(e) && e@ == GbsErrorV::InvalidRequest(
                    "Index "@ + name@ + " already exists"@,
                ) && final(self)@ == old(self)@,
                Option::None => r is Ok && final(self)@ == old(self)@.push(
                    (
                        name@,
                        IndexV {
                            name: name@,
                            settings: opt_val_view(settings),
                            mappings: opt_val_view(mappings),
                            documents: Seq::empty(),
                            aliases: Seq::empty(),
                        },
                    ),
                ),
            },
    {
        if self.index_exists(name) {
            let msg = "Index ".to_owned().concat(name).concat(" already exists");
            return Err(GbsError::InvalidRequest(msg));
        }
        let ghost before = self@;
        let idx = Index::new(name.to_owned(), settings, mappings);
        self.indices.push((name.to_owned(), idx));
        proof {
            assert(self@ =~= before.push((name@, idx@)));
        }
        Ok(())
    }

    /// The names of all indices, in creation order.
    pub fn list_indices(&self) -> (r: Vec<String>)
        ensures
            r.deep_view() == Seq::new(self@.len(), |i: int| self@[i].0),
    {
        let ghost cv = self@;
        let mut r: Vec<String> = Vec::new();
        let mut i: usize = 0;
        while i < self.indices.len()
            invariant
                i <= self.indices@.len(),
                cv == self@,
                cv.len() == self.indices@.len(),
                r.deep_view().len() == i,
                forall|k: int| 0 <= k < i ==> r.deep_view()[k] == cv[k].0,
            decreases self.indices@.len() - i,
        {
            proof {
                assert(cv[i as int] == (self.indices@[i as int].0@, self.indices@[i as int].1@));
            }
            let ghost old_dv = r.deep_view();
            let n = self.indices[i].0.clone();
            r.push(n);
            proof {
                assert(r.deep_view() =~= old_dv.push(cv[i as int].0));
            }
            i += 1;
        }
        proof {
            assert(r.deep_view() =~= Seq::new(cv.len(), |k: int| cv[k].0));
        }
        r
    }

    /// Per-index document counts, in creation order.
    pub fn get_indices_stats(&self) -> (r: Vec<(String, usize)>)
        ensures
            r@.len() == self@.len(),
            forall|i: int|
                0 <= i < r@.len() ==> r@[i].0@ == self@[i].0 && r@[i].1 == self@[
                    i
                ].1.documents.len(),
    {
        let ghost cv = self@;
        let mut r: Vec<(String, usize)> = Vec::new();
        let mut i: usize = 0;
        while i < self.indices.len()
            invariant
                i <= self.indices@.len(),
                cv == self@,
                cv.len() == self.indices@.len(),
                r@.len() == i,
                forall|k: int|
                    0 <= k < i ==> r@[k].0@ == cv[k].0 && r@[k].1 == cv[k].1.documents.len(),
            decreases self.indices@.len() - i,
        {
            proof {
                assert(cv[i as int] == (self.indices@[i as int].0@, self.indices@[i as int].1@));
            }
            let n = self.indices[i].0.clone();
            let c = self.indices[i].1.documents.len();
            r.push((n, c));
            i += 1;
        }
        r
    }

    /// Delete an index; fails when it does not exist.
    pub fn delete_index(&mut self, name: &str) -> (r: Result<(), GbsError>)
        ensures
            match spec_cat_get(old(self)@, name@) {
                Option::Some(_) => r is Ok && final(self)@ == spec_cat_remove(old(self)@, name@),
                Option::None => r matches Err(e) && e@ == GbsErrorV::IndexNotFound(name@)
                    && final(self)@ == old(self)@,
            },
    {
        let ghost before = self@;
        match self.find(name) {
            Some(i) => {
                proof {
                    lemma_cat_remove_split(before, name@, i as int);
                }
                self.indices.remove(i);
                proof {
                    assert(self@ =~= before.take(i as int) + before.skip(i as int + 1));
                }
                Ok(())
            },
            None => Err(GbsError::IndexNotFound(name.to_owned())),
        }
    }

    /// Delete every index.
    pub fn delete_all_indices(&mut self) -> (r: Result<(), GbsError>)
        ensures
            r is Ok,
            final(self)@ == Seq::<(Seq<char>, IndexV)>::empty(),
    {
        self.indices = Vec::new();
        proof {
            assert(self@ =~= Seq::<(Seq<char>, IndexV)>::empty());
        }
        Ok(())
    }
}

proof fn lemma_cat_remove_split(s: Seq<(Seq<char>, IndexV)>, name: Seq<char>, i: int)
    requires
        0 <= i < s.len(),
        s[i].0 == name,
        forall|k: int| 0 <= k < i ==> s[k].0 != name,
    ensures
        spec_cat_remove(s, name) == s.take(i) + s.skip(i + 1),
    decreases i,
{
    if i == 0 {
        assert(s[0].0 == name);
        assert(spec_cat_remove(s, name) == s.skip(1));
        assert(s.take(0) + s.skip(1) =~= s.skip(1));
    } else {
        assert(s[0].0 != name);
        assert forall|k: int| 0 <= k < i - 1 implies s.skip(1)[k].0 != name by {
            assert(s.skip(1)[k] == s[k + 1]);
        }
        assert(s.skip(1)[i - 1] == s[i]);
        lemma_cat_remove_split(s.skip(1), name, i - 1);
        assert(s.skip(1).take(i - 1) =~= s.subrange(1, i));
        assert(s.skip(1).skip(i) =~= s.skip(i + 1));
        assert(seq![s[0]] + (s.subrange(1, i) + s.skip(i + 1)) =~= s.take(i) + s.skip(i + 1));
    }
}


/// Replace the first binding of `id` among the documents, in place, else
/// append it.
pub open spec fn spec_doc_set(
    docs: Seq<(Seq<char>, ValV)>,
    id: Seq<char>,
    doc: ValV,
) -> Seq<(Seq<char>, ValV)>
    decreases docs.len(),
{
    if docs.len() == 0 {
        seq![(id, doc)]
    } else if docs[0].0 == id {
        seq![(id, doc)] + docs.skip(1)
    } else {
        seq![docs[0]] + spec_doc_set(docs.skip(1), id, doc)
    }
}

/// Drop the first binding of `id`.
pub open spec fn spec_doc_remove(docs: Seq<(Seq<char>, ValV)>, id: Seq<char>) -> Seq<
    (Seq<char>, ValV),
>
    decreases docs.len(),
{
    if docs.len() == 0 {
        docs
    } else if docs[0].0 == id {
        docs.skip(1)
    } else {
        seq![docs[0]] + spec_doc_remove(docs.skip(1), id)
    }
}

proof fn lemma_doc_set_split(docs: Seq<(Seq<char>, ValV)>, id: Seq<char>, doc: ValV, i: int)
    requires
        0 <= i <= docs.len(),
        forall|k: int| 0 <= k < i ==> docs[k].0 != id,
    ensures
        spec_doc_set(docs, id, doc) == docs.take(i) + spec_doc_set(docs.skip(i), id, doc),
    decreases i,
{
    if i == 0 {
        assert(docs.skip(0) =~= docs);
        assert(docs.take(0) + spec_doc_set(docs, id, doc) =~= spec_doc_set(docs, id, doc));
    } else {
        assert(docs[0].0 != id);
        assert forall|k: int| 0 <= k < i - 1 implies docs.skip(1)[k].0 != id by {
            assert(docs.skip(1)[k] == docs[k + 1]);
        }
        lemma_doc_set_split(docs.skip(1), id, doc, i - 1);
        assert(docs.skip(1).take(i - 1) =~= docs.subrange(1, i));
        assert(docs.skip(1).skip(i - 1) =~= docs.skip(i));
        assert(seq![docs[0]] + (docs.subrange(1, i) + spec_doc_set(docs.skip(i), id, doc)) =~=
            docs.take(i) + spec_doc_set(docs.skip(i), id, doc));
    }
}

proof fn lemma_doc_remove_split(docs: Seq<(Seq<char>, ValV)>, id: Seq<char>, i: int)
    requires
        0 <= i < docs.len(),
        docs[i].0 == id,
        forall|k: int| 0 <= k < i ==> docs[k].0 != id,
    ensures
        spec_doc_remove(docs, id) == docs.take(i) + docs.skip(i + 1),
    decreases i,
{
    if i == 0 {
        assert(spec_doc_remove(docs, id) == docs.skip(1));
        assert(docs.take(0) + docs.skip(1) =~= docs.skip(1));
    } else {
        assert(docs[0].0 != id);
        assert forall|k: int| 0 <= k < i - 1 implies docs.skip(1)[k].0 != id by {
            assert(docs.skip(1)[k] == docs[k + 1]);
        }
        assert(docs.skip(1)[i - 1] == docs[i]);
        lemma_doc_remove_split(docs.skip(1), id, i - 1);
        assert(docs.skip(1).take(i - 1) =~= docs.subrange(1, i));
        assert(docs.skip(1).skip(i) =~= docs.skip(i + 1));
        assert(seq![docs[0]] + (docs.subrange(1, i) + docs.skip(i + 1)) =~= docs.take(i)
            + docs.skip(i + 1));
    }
}

/// Upsert a document into a document list.
pub fn doc_set(docs: &mut Vec<(String, Val)>, id: String, doc: Val)
    ensures
        view_fields(final(docs)@) == spec_doc_set(view_fields(old(docs)@), id@, doc@),
{
    let ghost dv = view_fields(old(docs)@);
    let mut i: usize = 0;
    while i < docs.len()
        invariant
            i <= docs@.len(),
            docs@ == old(docs)@,
            dv == view_fields(old(docs)@),
            forall|k: int| 0 <= k < i ==> dv[k].0 != id@,
        decreases docs@.len() - i,
    {
        proof {
            assert(dv[i as int] == (docs@[i as int].0@, docs@[i as int].1@));
        }
        if str_eq(docs[i].0.as_str(), id.as_str()) {
            proof {
                lemma_doc_set_split(dv, id@, doc@, i as int);
                assert(dv.skip(i as int)[0] == dv[i as int]);
                assert(spec_doc_set(dv.skip(i as int), id@, doc@) == seq![(id@, doc@)] + dv.skip(
                    i as int,
                ).skip(1));
                assert(dv.skip(i as int).skip(1) =~= dv.skip(i as int + 1));
            }
            docs[i] = (id, doc);
            proof {
                assert(view_fields(docs@) =~= dv.take(i as int) + (seq![(id@, doc@)] + dv.skip(
                    i as int + 1,
                )));
            }
            return ;
        }
        i += 1;
    }
    proof {
        lemma_doc_set_split(dv, id@, doc@, dv.len() as int);
        assert(dv.skip(dv.len() as int).len() == 0);
        assert(spec_doc_set(dv.skip(dv.len() as int), id@, doc@) == seq![(id@, doc@)]);
    }
    docs.push((id, doc));
    proof {
        assert(dv.take(dv.len() as int) =~= dv);
        assert(view_fields(docs@) =~= dv + seq![(id@, doc@)]);
        assert(dv + seq![(id@, doc@)] =~= dv.take(dv.len() as int) + seq![(id@, doc@)]);
    }
}

/// Position of the document with the given id, if present.
fn doc_find(docs: &Vec<(String, Val)>, id: &str) -> (r: Option<usize>)
    ensures
        match r {
            Option::Some(i) => i < docs@.len() && view_fields(docs@)[i as int].0 == id@
                && spec_obj_get(view_fields(docs@), id@) == Option::Some(
                view_fields(docs@)[i as int].1,
            ) && forall|k: int| 0 <= k < i ==> view_fields(docs@)[k].0 != id@,
            Option::None => spec_obj_get(view_fields(docs@), id@) is None,
        },
{
    let ghost dv = view_fields(docs@);
    let mut i: usize = 0;
    proof {
        assert(dv.skip(0) =~= dv);
    }
    while i < docs.len()
        invariant
            i <= docs@.len(),
            dv == view_fields(docs@),
            dv.len() == docs@.len(),
            spec_obj_get(dv, id@) == spec_obj_get(dv.skip(i as int), id@),
            forall|k: int| 0 <= k < i ==> dv[k].0 != id@,
        decreases docs@.len() - i,
    {
        proof {
            assert(dv.skip(i as int)[0] == dv[i as int]);
            assert(dv[i as int] == (docs@[i as int].0@, docs@[i as int].1@));
            assert(dv.skip(i as int).skip(1) =~= dv.skip(i as int + 1));
        }
        if str_eq(docs[i].0.as_str(), id) {
            return Some(i);
        }
        i += 1;
    }
    proof {
        assert(dv.skip(dv.len() as int).len() == 0);
    }
    None
}

/// Shallow top-level merge: each field of `new` replaces or joins the
/// fields of `base`; used by the bulk `Update` action. When either side is
/// not an object, `new` wins wholesale.
pub open spec fn spec_shallow_merge(base: ValV, new: ValV) -> ValV {
    match (base, new) {
        (ValV::Obj(bf), ValV::Obj(nf)) => ValV::Obj(spec_merge_fields(bf, nf, nf.len() as int)),
        _ => new,
    }
}

pub open spec fn spec_merge_fields(
    base: Seq<(Seq<char>, ValV)>,
    new: Seq<(Seq<char>, ValV)>,
    i: int,
) -> Seq<(Seq<char>, ValV)>
    decreases i,
{
    if i <= 0 || i > new.len() {
        base
    } else {
        crate::value::spec_obj_set(spec_merge_fields(base, new, i - 1), new[i - 1].0, new[i - 1].1)
    }
}

/// Merge `new`'s fields into `base`.
pub fn shallow_merge(base: Val, new: &Val) -> (r: Val)
    ensures
        r@ == spec_shallow_merge(base@, new@),
{
    match (base, new) {
        (Val::Obj(bf), Val::Obj(nf)) => {
            proof {
                crate::value::lemma_obj_view(bf);
                crate::value::lemma_obj_view(*nf);
            }
            let ghost bv = view_fields(bf@);
            let ghost nv = view_fields(nf@);
            let mut out = bf;
            let mut i: usize = 0;
            while i < nf.len()
                invariant
                    i <= nf@.len(),
                    nv == view_fields(nf@),
                    nv.len() == nf@.len(),
                    view_fields(out@) == spec_merge_fields(bv, nv, i as int),
                decreases nf@.len() - i,
            {
                proof {
                    assert(nv[i as int] == (nf@[i as int].0@, nf@[i as int].1@));
                }
                let k = nf[i].0.clone();
                let v = nf[i].1.clone();
                crate::value::obj_set(&mut out, k, v);
                i += 1;
            }
            let r = Val::Obj(out);
            proof {
                crate::value::lemma_obj_view(out);
            }
            r
        },
        (_, other) => other.clone(),
    }
}

impl Catalog {
    /// Store a document under `id`, replacing any existing one; fails when
    /// the index does not exist.
    pub fn index_document(&mut self, index_name: &str, id: &str, document: Val) -> (r: Result<
        (),
        GbsError,
    >)
        ensures
            match spec_cat_get(old(self)@, index_name@) {
                Option::Some(idx) => r is Ok && final(self)@ == spec_cat_set(
                    old(self)@,
                    index_name@,
                    (IndexV {
                        documents: spec_doc_set(idx.documents, id@, document@),
                        ..idx
                    }),
                ),
                Option::None => r matches Err(e) && e@ == GbsErrorV::IndexNotFound(index_name@)
                    && final(self)@ == old(self)@,
            },
    {
        let ghost before = self@;
        match self.find(index_name) {
            Some(i) => {
                let (nm, mut idx) = self.indices.remove(i);
                let ghost idxv = idx@;
                doc_set(&mut idx.documents, id.to_owned(), document);
                proof {
                    assert(idx@ == (IndexV {
                        documents: spec_doc_set(idxv.documents, id@, document@),
                        ..idxv
                    }));
                }
                self.indices.insert(i, (nm, idx));
                proof {
                    lemma_cat_set_split(before, index_name@, idx@, i as int);
                    assert(before.skip(i as int)[0] == before[i as int]);
                    assert(spec_cat_set(before.skip(i as int), index_name@, idx@) == seq![
                        (index_name@, idx@),
                    ] + before.skip(i as int).skip(1));
                    assert(before.skip(i as int).skip(1) =~= before.skip(i as int + 1));
                    assert(self@ =~= before.take(i as int) + (seq![(index_name@, idx@)]
                        + before.skip(i as int + 1)));
                }
                Ok(())
            },
            None => Err(GbsError::IndexNotFound(index_name.to_owned())),
        }
    }

    /// Fetch a document envelope: index name, id, version and the stored
    /// source; fails when index or document is missing.
    pub fn get_document(&self, index_name: &str, id: &str) -> (r: Result<Val, GbsError>)
        ensures
            match spec_cat_get(self@, index_name@) {
                Option::Some(idx) => match spec_obj_get(idx.documents, id@) {
                    Option::Some(doc) => r matches Ok(v) && v@ == ValV::Obj(
                        seq![
                            ("_id"@, ValV::Str(id@)),
                            ("_index"@, ValV::Str(index_name@)),
                            ("_source"@, doc),
                            ("_type"@, ValV::Str("_doc"@)),
                            ("_version"@, ValV::Int(1)),
                        ],
                    ),
                    Option::None => r matches Err(e) && e@ == GbsErrorV::DocumentNotFound(id@),
                },
                Option::None => r matches Err(e) && e@ == GbsErrorV::IndexNotFound(index_name@),
            },
    {
        match self.find(index_name) {
            Some(i) => {
                let idx = &self.indices[i].1;
                let key = str_chars(id);
                match crate::value::obj_get(&idx.documents, &key) {
                    Some(doc) => {
                        let mut fields: Vec<(String, Val)> = Vec::new();
                        fields.push(("_id".to_owned(), Val::Str(id.to_owned())));
                        fields.push(("_index".to_owned(), Val::Str(index_name.to_owned())));
                        fields.push(("_source".to_owned(), doc.clone()));
                        fields.push(("_type".to_owned(), Val::Str("_doc".to_owned())));
                        fields.push(("_version".to_owned(), Val::Int(1)));
                        let v = Val::Obj(fields);
                        proof {
                            crate::value::lemma_obj_view(fields);
                            assert(view_fields(fields@) =~= seq![
                                ("_id"@, ValV::Str(id@)),
                                ("_index"@, ValV::Str(index_name@)),
                                ("_source"@, doc@),
                                ("_type"@, ValV::Str("_doc"@)),
                                ("_version"@, ValV::Int(1)),
                            ]);
                        }
                        Ok(v)
                    },
                    None => Err(GbsError::DocumentNotFound(id.to_owned())),
                }
            },
            None => Err(GbsError::IndexNotFound(index_name.to_owned())),
        }
    }

    /// Delete a document; fails when index or document is missing.
    pub fn delete_document(&mut self, index_name: &str, id: &str) -> (r: Result<(), GbsError>)
        ensures
            match spec_cat_get(old(self)@, index_name@) {
                Option::Some(idx) => match spec_obj_get(idx.documents, id@) {
                    Option::Some(_) => r is Ok && final(self)@ == spec_cat_set(
                        old(self)@,
                        index_name@,
                        (IndexV { documents: spec_doc_remove(idx.documents, id@), ..idx }),
                    ),
                    Option::None => r matches Err(e) && e@ == GbsErrorV::DocumentNotFound(id@)
                        && final(self)@ == old(self)@,
                },
                Option::None => r matches Err(e) && e@ == GbsErrorV::IndexNotFound(index_name@)
                    && final(self)@ == old(self)@,
            },
    {
        let ghost before = self@;
        match self.find(index_name) {
            Some(i) => {
                let (nm, mut idx) = self.indices.remove(i);
                let ghost idxv = idx@;
                let ghost dv = idxv.documents;
                match doc_find(&idx.documents, id) {
                    Some(j) => {
                        proof {
                            lemma_doc_remove_split(dv, id@, j as int);
                        }
                        idx.documents.remove(j);
                        proof {
                            assert(view_fields(idx.documents@) =~= dv.take(j as int) + dv.skip(
                                j as int + 1,
                            ));
                            assert(idx@ == (IndexV {
                                documents: spec_doc_remove(idxv.documents, id@),
                                ..idxv
                            }));
                        }
                        self.indices.insert(i, (nm, idx));
                        proof {
                            lemma_cat_set_split(before, index_name@, idx@, i as int);
                            assert(before.skip(i as int)[0] == before[i as int]);
                            assert(spec_cat_set(before.skip(i as int), index_name@, idx@) == seq![
                                (index_name@, idx@),
                            ] + before.skip(i as int).skip(1));
                            assert(before.skip(i as int).skip(1) =~= before.skip(i as int + 1));
                            assert(self@ =~= before.take(i as int) + (seq![(index_name@, idx@)]
                                + before.skip(i as int + 1)));
                        }
                        Ok(())
                    },
                    None => {
                        self.indices.insert(i, (nm, idx));
                        proof {
                            assert(self@ =~= before);
                        }
                        Err(GbsError::DocumentNotFound(id.to_owned()))
                    },
                }
            },
            None => Err(GbsError::IndexNotFound(index_name.to_owned())),
        }
    }
}

proof fn lemma_cat_set_split(s: Seq<(Seq<char>, IndexV)>, name: Seq<char>, idx: IndexV, i: int)
    requires
        0 <= i < s.len(),
        s[i].0 == name,
        forall|k: int| 0 <= k < i ==> s[k].0 != name,
    ensures
        spec_cat_set(s, name, idx) == s.take(i) + (seq![(name, idx)] + s.skip(i + 1)),
    decreases i,
{
    if i == 0 {
        assert(spec_cat_set(s, name, idx) == seq![(name, idx)] + s.skip(1));
        assert(s.take(0) + (seq![(name, idx)] + s.skip(1)) =~= seq![(name, idx)] + s.skip(1));
    } else {
        assert(s[0].0 != name);
        assert forall|k: int| 0 <= k < i - 1 implies s.skip(1)[k].0 != name by {
            assert(s.skip(1)[k] == s[k + 1]);
        }
        assert(s.skip(1)[i - 1] == s[i]);
        lemma_cat_set_split(s.skip(1), name, idx, i - 1);
        assert(s.skip(1).take(i - 1) =~= s.subrange(1, i));
        assert(s.skip(1).skip(i) =~= s.skip(i + 1));
        assert(seq![s[0]] + (s.subrange(1, i) + (seq![(name, idx)] + s.skip(i + 1))) =~= s.take(i)
            + (seq![(name, idx)] + s.skip(i + 1)));
    }
}


/// Mapping metadata after an update: merged one level deep under a
/// `properties` key when both sides are objects, else replaced.
pub open spec fn spec_update_mappings(old_m: Option<ValV>, new: ValV) -> Option<ValV> {
    match old_m {
        Option::None => Option::Some(ValV::Obj(seq![("properties"@, new)])),
        Option::Some(ex) => match (ex, new) {
            (ValV::Obj(ef), ValV::Obj(nf)) => match spec_obj_get(ef, "properties"@) {
                Option::Some(props) => match props {
                    ValV::Obj(pf) => Option::Some(
                        ValV::Obj(
                            crate::value::spec_obj_set(
                                ef,
                                "properties"@,
                                ValV::Obj(spec_merge_fields(pf, nf, nf.len() as int)),
                            ),
                        ),
                    ),
                    _ => Option::Some(ValV::Obj(ef)),
                },
                Option::None => Option::Some(
                    ValV::Obj(crate::value::spec_obj_set(ef, "properties"@, ValV::Obj(nf))),
                ),
            },
            (_, n) => Option::Some(n),
        },
    }
}

/// Settings metadata after an update: keys merged directly when both sides
/// are objects, else replaced.
pub open spec fn spec_update_settings(old_s: Option<ValV>, new: ValV) -> Option<ValV> {
    match old_s {
        Option::None => Option::Some(new),
        Option::Some(ex) => match (ex, new) {
            (ValV::Obj(ef), ValV::Obj(nf)) => Option::Some(
                ValV::Obj(spec_merge_fields(ef, nf, nf.len() as int)),
            ),
            (_, n) => Option::Some(n),
        },
    }
}

/// Merge `new`'s fields into `base`'s fields (both known to be objects).
fn merge_obj_fields(base: Vec<(String, Val)>, nf: &Vec<(String, Val)>) -> (r: Vec<
    (String, Val),
>)
    ensures
        view_fields(r@) == spec_merge_fields(
            view_fields(base@),
            view_fields(nf@),
            nf@.len() as int,
        ),
{
    let ghost bv = view_fields(base@);
    let ghost nv = view_fields(nf@);
    let mut out = base;
    let mut i: usize = 0;
    while i < nf.len()
        invariant
            i <= nf@.len(),
            nv == view_fields(nf@),
            nv.len() == nf@.len(),
            view_fields(out@) == spec_merge_fields(bv, nv, i as int),
        decreases nf@.len() - i,
    {
        proof {
            assert(nv[i as int] == (nf@[i as int].0@, nf@[i as int].1@));
        }
        let k = nf[i].0.clone();
        let v = nf[i].1.clone();
        crate::value::obj_set(&mut out, k, v);
        i += 1;
    }
    out
}

impl Catalog {
    /// Store a document under a freshly generated id; fails when the index
    /// does not exist.
    pub fn create_document(&mut self, index_name: &str, document: Val) -> (r: Result<
        String,
        GbsError,
    >)
        ensures
            match spec_cat_get(old(self)@, index_name@) {
                Option::Some(idx) => r matches Ok(id) && id@.len() == 36 && final(self)@
                    == spec_cat_set(
                    old(self)@,
                    index_name@,
                    (IndexV { documents: spec_doc_set(idx.documents, id@, document@), ..idx }),
                ),
                Option::None => r matches Err(e) && e@ == GbsErrorV::IndexNotFound(index_name@)
                    && final(self)@ == old(self)@,
            },
    {
        let id = crate::trusted::new_doc_id();
        let id2 = id.clone();
        match self.index_document(index_name, id.as_str(), document) {
            Ok(_) => Ok(id2),
            Err(e) => Err(e),
        }
    }

    /// Merge new mapping metadata into an index; fails when the index does
    /// not exist.
    pub fn update_mapping(&mut self, index_name: &str, new_mappings: Val) -> (r: Result<
        (),
        GbsError,
    >)
        ensures
            match spec_cat_get(old(self)@, index_name@) {
                Option::Some(idx) => r is Ok && final(self)@ == spec_cat_set(
                    old(self)@,
                    index_name@,
                    (IndexV { mappings: spec_update_mappings(idx.mappings, new_mappings@), ..idx }),
                ),
                Option::None => r matches Err(e) && e@ == GbsErrorV::IndexNotFound(index_name@)
                    && final(self)@ == old(self)@,
            },
    {
        let ghost before = self@;
        match self.find(index_name) {
            Some(i) => {
                let (nm, mut idx) = self.indices.remove(i);
                let ghost idxv = idx@;
                let old_mappings = idx.mappings;
                idx.mappings = Some(merge_mappings(old_mappings, &new_mappings));
                proof {
                    assert(idx@ == (IndexV {
                        mappings: spec_update_mappings(idxv.mappings, new_mappings@),
                        ..idxv
                    }));
                }
                self.indices.insert(i, (nm, idx));
                proof {
                    lemma_cat_set_split(before, index_name@, idx@, i as int);
                    assert(before.skip(i as int)[0] == before[i as int]);
                    assert(spec_cat_set(before.skip(i as int), index_name@, idx@) == seq![
                        (index_name@, idx@),
                    ] + before.skip(i as int).skip(1));
                    assert(before.skip(i as int).skip(1) =~= before.skip(i as int + 1));
                    assert(self@ =~= before.take(i as int) + (seq![(index_name@, idx@)]
                        + before.skip(i as int + 1)));
                }
                Ok(())
            },
            None => Err(GbsError::IndexNotFound(index_name.to_owned())),
        }
    }

    /// Merge new settings metadata into an index; fails when the index
    /// does not exist.
    pub fn update_settings(&mut self, index_name: &str, new_settings: Val) -> (r: Result<
        (),
        GbsError,
    >)
        ensures
            match spec_cat_get(old(self)@, index_name@) {
                Option::Some(idx) => r is Ok && final(self)@ == spec_cat_set(
                    old(self)@,
                    index_name@,
                    (IndexV { settings: spec_update_settings(idx.settings, new_settings@), ..idx }),
                ),
                Option::None => r matches Err(e) && e@ == GbsErrorV::IndexNotFound(index_name@)
                    && final(self)@ == old(self)@,
            },
    {
        let ghost before = self@;
        match self.find(index_name) {
            Some(i) => {
                let (nm, mut idx) = self.indices.remove(i);
                let ghost idxv = idx@;
                let old_settings = idx.settings;
                idx.settings = Some(merge_settings(old_settings, &new_settings));
                proof {
                    assert(idx@ == (IndexV {
                        settings: spec_update_settings(idxv.settings, new_settings@),
                        ..idxv
                    }));
                }
                self.indices.insert(i, (nm, idx));
                proof {
                    lemma_cat_set_split(before, index_name@, idx@, i as int);
                    assert(before.skip(i as int)[0] == before[i as int]);
                    assert(spec_cat_set(before.skip(i as int), index_name@, idx@) == seq![
                        (index_name@, idx@),
                    ] + before.skip(i as int).skip(1));
                    assert(before.skip(i as int).skip(1) =~= before.skip(i as int + 1));
                    assert(self@ =~= before.take(i as int) + (seq![(index_name@, idx@)]
                        + before.skip(i as int + 1)));
                }
                Ok(())
            },
            None => Err(GbsError::IndexNotFound(index_name.to_owned())),
        }
    }

    /// The index names matched by an anchored glob pattern.
    pub fn match_indices(&self, pattern: &str) -> (r: Vec<String>)
        ensures
            r.deep_view() == spec_match_names(self@, pattern@),
    {
        let ghost cv = self@;
        let pat = str_chars(pattern);
        let mut r: Vec<String> = Vec::new();
        let mut i: usize = 0;
        proof {
            assert(cv.skip(0) =~= cv);
            assert(r.deep_view() =~= Seq::<Seq<char>>::empty());
            assert(r.deep_view() + spec_match_names_list(cv.skip(0), pattern@) =~=
                spec_match_names(cv, pattern@));
        }
        while i < self.indices.len()
            invariant
                i <= self.indices@.len(),
                cv == self@,
                cv.len() == self.indices@.len(),
                pat@ == pattern@,
                r.deep_view() + spec_match_names_list(cv.skip(i as int), pattern@)
                    == spec_match_names(cv, pattern@),
            decreases self.indices@.len() - i,
        {
            proof {
                assert(cv.skip(i as int)[0] == cv[i as int]);
                assert(cv[i as int] == (self.indices@[i as int].0@, self.indices@[i as int].1@));
                assert(cv.skip(i as int).skip(1) =~= cv.skip(i as int + 1));
            }
            let name_chars = str_chars(self.indices[i].0.as_str());
            if crate::text::glob_match(&pat, &name_chars) {
                let ghost old_dv = r.deep_view();
                let n = self.indices[i].0.clone();
                r.push(n);
                proof {
                    assert(r.deep_view() =~= old_dv.push(cv[i as int].0));
                    assert(r.deep_view() + spec_match_names_list(cv.skip(i as int + 1), pattern@)
                        =~= old_dv + spec_match_names_list(cv.skip(i as int), pattern@));
                }
            }
            i += 1;
        }
        proof {
            assert(spec_match_names_list(cv.skip(cv.len() as int), pattern@) =~= Seq::<
                Seq<char>,
            >::empty());
            assert(r.deep_view() =~= spec_match_names(cv, pattern@));
        }
        r
    }
}

/// The names of the catalog's indices that the glob pattern matches, in
/// catalog order.
pub open spec fn spec_match_names(s: Seq<(Seq<char>, IndexV)>, pat: Seq<char>) -> Seq<Seq<char>> {
    spec_match_names_list(s, pat)
}

pub open spec fn spec_match_names_list(s: Seq<(Seq<char>, IndexV)>, pat: Seq<char>) -> Seq<
    Seq<char>,
>
    decreases s.len(),
{
    if s.len() == 0 {
        Seq::empty()
    } else if crate::text::spec_glob(pat, s[0].0) {
        seq![s[0].0] + spec_match_names_list(s.skip(1), pat)
    } else {
        spec_match_names_list(s.skip(1), pat)
    }
}

/// Apply the mapping-merge rule to an index's mapping metadata.
fn merge_mappings(old_m: Option<Val>, new: &Val) -> (r: Val)
    ensures
        Option::Some(r@) == spec_update_mappings(opt_val_view(old_m), new@),
{
    match old_m {
        None => {
            let mut fields: Vec<(String, Val)> = Vec::new();
            fields.push(("properties".to_owned(), new.clone()));
            let r = Val::Obj(fields);
            proof {
                crate::value::lemma_obj_view(fields);
                assert(view_fields(fields@) =~= seq![("properties"@, new@)]);
            }
            r
        },
        Some(ex) => {
            match (ex, new) {
                (Val::Obj(ef), Val::Obj(nf)) => {
                    proof {
                        crate::value::lemma_obj_view(ef);
                        crate::value::lemma_obj_view(*nf);
                    }
                    let props_key = str_chars("properties");
                    let ghost efv = view_fields(ef@);
                    let ghost nfv = view_fields(nf@);
                    proof {
                        reveal_strlit("properties");
                    }
                    let found = match crate::value::obj_get(&ef, &props_key) {
                        Some(props) => match props {
                            Val::Obj(pf) => {
                                proof {
                                    crate::value::lemma_obj_view(*pf);
                                }
                                Some(Some(crate::value::clone_fields(pf)))
                            },
                            _ => Some(None),
                        },
                        None => None,
                    };
                    match found {
                        Some(Some(pf)) => {
                            let merged = merge_obj_fields(pf, nf);
                            let mut out = ef;
                            crate::value::obj_set(
                                &mut out,
                                "properties".to_owned(),
                                Val::Obj(merged),
                            );
                            let r = Val::Obj(out);
                            proof {
                                crate::value::lemma_obj_view(merged);
                                crate::value::lemma_obj_view(out);
                            }
                            r
                        },
                        Some(None) => Val::Obj(ef),
                        None => {
                            let mut out = ef;
                            let nfc = crate::value::clone_fields(nf);
                            proof {
                                crate::value::lemma_obj_view(nfc);
                            }
                            crate::value::obj_set(
                                &mut out,
                                "properties".to_owned(),
                                Val::Obj(nfc),
                            );
                            let r = Val::Obj(out);
                            proof {
                                crate::value::lemma_obj_view(out);
                            }
                            r
                        },
                    }
                },
                (_, n) => n.clone(),
            }
        },
    }
}

/// Apply the settings-merge rule to an index's settings metadata.
fn merge_settings(old_s: Option<Val>, new: &Val) -> (r: Val)
    ensures
        Option::Some(r@) == spec_update_settings(opt_val_view(old_s), new@),
{
    match old_s {
        None => new.clone(),
        Some(ex) => {
            match (ex, new) {
                (Val::Obj(ef), Val::Obj(nf)) => {
                    proof {
                        crate::value::lemma_obj_view(ef);
                        crate::value::lemma_obj_view(*nf);
                    }
                    let merged = merge_obj_fields(ef, nf);
                    let r = Val::Obj(merged);
                    proof {
                        crate::value::lemma_obj_view(merged);
                    }
                    r
                },
                (_, n) => n.clone(),
            }
        },
    }
}


/// The alias object of one index: each alias name bound to an empty
/// object.
pub open spec fn spec_alias_fields(aliases: Seq<Seq<char>>, i: int) -> Seq<(Seq<char>, ValV)>
    decreases i,
{
    if i <= 0 || i > aliases.len() {
        Seq::empty()
    } else {
        crate::value::spec_obj_set(
            spec_alias_fields(aliases, i - 1),
            aliases[i - 1],
            ValV::Obj(Seq::empty()),
        )
    }
}

/// The catalog's alias listing: every index name bound to an object with
/// its aliases.
pub open spec fn spec_aliases_value(s: Seq<(Seq<char>, IndexV)>, i: int) -> Seq<(Seq<char>, ValV)>
    decreases i,
{
    if i <= 0 || i > s.len() {
        Seq::empty()
    } else {
        crate::value::spec_obj_set(
            spec_aliases_value(s, i - 1),
            s[i - 1].0,
            ValV::Obj(
                seq![
                    ("aliases"@, ValV::Obj(
                        spec_alias_fields(s[i - 1].1.aliases, s[i - 1].1.aliases.len() as int),
                    )),
                ],
            ),
        )
    }
}

/// The metadata envelope of one index: its settings, mappings and aliases
/// under its name.
pub open spec fn spec_index_envelope(name: Seq<char>, idx: IndexV) -> ValV {
    ValV::Obj(
        seq![
            (name, ValV::Obj(
                seq![
                    ("aliases"@, ValV::Obj(Seq::empty())),
                    ("mappings"@, (match idx.mappings {
                        Option::Some(m) => m,
                        Option::None => ValV::Null,
                    })),
                    ("settings"@, (match idx.settings {
                        Option::Some(x) => x,
                        Option::None => ValV::Null,
                    })),
                ],
            )),
        ],
    )
}

impl Catalog {
    /// The aliases of every index, as a value keyed by index name.
    pub fn get_aliases(&self) -> (r: Val)
        ensures
            r@ == ValV::Obj(spec_aliases_value(self@, self@.len() as int)),
    {
        let ghost cv = self@;
        let mut out: Vec<(String, Val)> = Vec::new();
        let mut i: usize = 0;
        proof {
            assert(view_fields(out@) =~= Seq::<(Seq<char>, ValV)>::empty());
        }
        while i < self.indices.len()
            invariant
                i <= self.indices@.len(),
                cv == self@,
                cv.len() == self.indices@.len(),
                view_fields(out@) == spec_aliases_value(cv, i as int),
            decreases self.indices@.len() - i,
        {
            proof {
                assert(cv[i as int] == (self.indices@[i as int].0@, self.indices@[i as int].1@));
            }
            let idx = &self.indices[i].1;
            let ghost av = idx@.aliases;
            let mut amap: Vec<(String, Val)> = Vec::new();
            let mut j: usize = 0;
            proof {
                assert(view_fields(amap@) =~= Seq::<(Seq<char>, ValV)>::empty());
            }
            while j < idx.aliases.len()
                invariant
                    j <= idx.aliases@.len(),
                    av == idx@.aliases,
                    av.len() == idx.aliases@.len(),
                    view_fields(amap@) == spec_alias_fields(av, j as int),
                decreases idx.aliases@.len() - j,
            {
                proof {
                    assert(av[j as int] == idx.aliases@[j as int]@);
                }
                let a = idx.aliases[j].clone();
                crate::value::obj_set(&mut amap, a, Val::empty_obj());
                j += 1;
            }
            let inner = Val::Obj(amap);
            proof {
                crate::value::lemma_obj_view(amap);
            }
            let mut wrap: Vec<(String, Val)> = Vec::new();
            wrap.push(("aliases".to_owned(), inner));
            let wrapped = Val::Obj(wrap);
            proof {
                crate::value::lemma_obj_view(wrap);
                assert(view_fields(wrap@) =~= seq![
                    ("aliases"@, ValV::Obj(spec_alias_fields(av, av.len() as int))),
                ]);
            }
            let name = self.indices[i].0.clone();
            crate::value::obj_set(&mut out, name, wrapped);
            i += 1;
        }
        let r = Val::Obj(out);
        proof {
            crate::value::lemma_obj_view(out);
        }
        r
    }

    /// The metadata envelope of the named index; fails when it does not
    /// exist.
    pub fn get_index(&self, name: &str) -> (r: Result<Val, GbsError>)
        ensures
            match spec_cat_get(self@, name@) {
                Option::Some(idx) => r matches Ok(v) && v@ == spec_index_envelope(name@, idx),
                Option::None => r matches Err(e) && e@ == GbsErrorV::IndexNotFound(name@),
            },
    {
        match self.find(name) {
            Some(i) => {
                let idx = &self.indices[i].1;
                proof {
                    assert(self@[i as int] == (self.indices@[i as int].0@, self.indices@[
                        i as int].1@));
                }
                let ghost idxv = self@[i as int].1;
                let ghost mv: ValV = match idxv.mappings {
                    Option::Some(m) => m,
                    Option::None => ValV::Null,
                };
                let ghost sv: ValV = match idxv.settings {
                    Option::Some(x) => x,
                    Option::None => ValV::Null,
                };
                let settings: Val = match &idx.settings {
                    Some(s) => s.clone(),
                    None => Val::Null,
                };
                let mappings: Val = match &idx.mappings {
                    Some(m) => m.clone(),
                    None => Val::Null,
                };
                let mut inner: Vec<(String, Val)> = Vec::new();
                inner.push(("aliases".to_owned(), Val::empty_obj()));
                inner.push(("mappings".to_owned(), mappings));
                inner.push(("settings".to_owned(), settings));
                let inner_v = Val::Obj(inner);
                proof {
                    crate::value::lemma_obj_view(inner);
                    assert(view_fields(inner@) =~= seq![
                        ("aliases"@, ValV::Obj(Seq::<(Seq<char>, ValV)>::empty())),
                        ("mappings"@, mv),
                        ("settings"@, sv),
                    ]);
                }
                let mut outer: Vec<(String, Val)> = Vec::new();
                outer.push((name.to_owned(), inner_v));
                let r = Val::Obj(outer);
                proof {
                    crate::value::lemma_obj_view(outer);
                    assert(inner_v@ == ValV::Obj(view_fields(inner@)));
                    assert(inner_v@ == ValV::Obj(
                        seq![
                            ("aliases"@, ValV::Obj(Seq::<(Seq<char>, ValV)>::empty())),
                            ("mappings"@, mv),
                            ("settings"@, sv),
                        ],
                    ));
                    assert(view_fields(outer@)[0] == (name@, inner_v@));
                    let env = spec_index_envelope(name@, idxv);
                    let env_inner = env->Obj_0[0].1;
                    assert(env_inner->Obj_0 =~= inner_v@->Obj_0);
                    assert(env_inner == ValV::Obj(env_inner->Obj_0));
                    assert(inner_v@ == ValV::Obj(inner_v@->Obj_0));
                    assert(env->Obj_0[0] == (name@, inner_v@));
                    assert(r@->Obj_0 =~= env->Obj_0);
                    assert(r@ == env);
                }
                Ok(r)
            },
            None => Err(GbsError::IndexNotFound(name.to_owned())),
        }
    }

    /// Recreate an index from loaded metadata and documents, replacing any
    /// index of the same name.
    pub fn restore_index(
        &mut self,
        name: &str,
        settings: Option<Val>,
        mappings: Option<Val>,
        documents: Vec<(String, Val)>,
    )
        ensures
            final(self)@ == (match spec_cat_get(old(self)@, name@) {
                Option::Some(_) => spec_cat_set(
                    old(self)@,
                    name@,
                    (IndexV {
                        name: name@,
                        settings: opt_val_view(settings),
                        mappings: opt_val_view(mappings),
                        documents: view_fields(documents@),
                        aliases: Seq::empty(),
                    }),
                ),
                Option::None => old(self)@.push(
                    (
                        name@,
                        IndexV {
                            name: name@,
                            settings: opt_val_view(settings),
                            mappings: opt_val_view(mappings),
                            documents: view_fields(documents@),
                            aliases: Seq::empty(),
                        },
                    ),
                ),
            }),
    {
        let ghost before = self@;
        let mut idx = Index::new(name.to_owned(), settings, mappings);
        idx.documents = documents;
        let ghost idxv = idx@;
        match self.find(name) {
            Some(i) => {
                self.indices.remove(i);
                self.indices.insert(i, (name.to_owned(), idx));
                proof {
                    lemma_cat_set_split(before, name@, idxv, i as int);
                    assert(before.skip(i as int)[0] == before[i as int]);
                    assert(spec_cat_set(before.skip(i as int), name@, idxv) == seq![(name@, idxv)]
                        + before.skip(i as int).skip(1));
                    assert(before.skip(i as int).skip(1) =~= before.skip(i as int + 1));
                    assert(self@ =~= before.take(i as int) + (seq![(name@, idxv)] + before.skip(
                        i as int + 1,
                    )));
                }
            },
            None => {
                self.indices.push((name.to_owned(), idx));
                proof {
                    assert(self@ =~= before.push((name@, idxv)));
                }
            },
        }
    }
}


/// One returned search hit: the index it came from, the document id, its
/// score, the filtered source, and its highlight object when one was
/// produced.
pub struct SearchHit {
    pub index: String,
    pub id: String,
    pub score: u64,
    pub source: Val,
    pub highlight: Option<Val>,
}

/// The mathematical model of a [`SearchHit`].
pub ghost struct SearchHitV {
    pub index: Seq<char>,
    pub id: Seq<char>,
    pub score: u64,
    pub source: ValV,
    pub highlight: Option<ValV>,
}

impl View for SearchHit {
    type V = SearchHitV;

    open spec fn view(&self) -> SearchHitV {
        SearchHitV {
            index: self.index@,
            id: self.id@,
            score: self.score,
            source: self.source@,
            highlight: opt_val_view(self.highlight),
        }
    }
}

/// A search response: the total number of matching documents, the best
/// score on the returned page, and the page of hits.
pub struct SearchResult {
    pub total: usize,
    pub max_score: Option<u64>,
    pub hits: Vec<SearchHit>,
}

/// The mathematical model of a [`SearchResult`].
pub ghost struct SearchResultV {
    pub total: int,
    pub max_score: Option<u64>,
    pub hits: Seq<SearchHitV>,
}

pub open spec fn search_hits_view(s: Seq<SearchHit>) -> Seq<SearchHitV> {
    Seq::new(
        s.len(),
        |i: int|
            if 0 <= i < s.len() {
                s[i]@
            } else {
                (SearchHitV {
                    index: Seq::empty(),
                    id: Seq::empty(),
                    score: 0,
                    source: ValV::Null,
                    highlight: Option::None,
                })
            },
    )
}

impl View for SearchResult {
    type V = SearchResultV;

    open spec fn view(&self) -> SearchResultV {
        SearchResultV {
            total: self.total as int,
            max_score: self.max_score,
            hits: search_hits_view(self.hits@),
        }
    }
}

/// The documents that match the query, in store order, with their scores.
pub open spec fn spec_scored(
    docs: Seq<(Seq<char>, ValV)>,
    q: crate::query::QueryV,
    i: int,
) -> Seq<crate::results::HitV>
    decreases i,
{
    if i <= 0 || i > docs.len() {
        Seq::empty()
    } else {
        let prev = spec_scored(docs, q, i - 1);
        let score = crate::score::spec_score(docs[i - 1].1, q);
        if score > 0 {
            prev + seq![
                (crate::results::HitV { id: docs[i - 1].0, doc: docs[i - 1].1, score: score }),
            ]
        } else {
            prev
        }
    }
}

/// The ranked hit list of a search: matching documents ordered by score
/// descending, then re-ordered by the sort keys when given.
pub open spec fn spec_ranked(
    docs: Seq<(Seq<char>, ValV)>,
    q: crate::query::QueryV,
    sort: Option<Seq<(Seq<char>, bool)>>,
) -> Seq<crate::results::HitV> {
    let scored = spec_scored(docs, q, docs.len() as int);
    let by_score = crate::results::spec_sort_hits(scored, Seq::empty(), true);
    match sort {
        Option::Some(keys) => if keys.len() > 0 {
            crate::results::spec_sort_hits(by_score, keys, false)
        } else {
            by_score
        },
        Option::None => by_score,
    }
}

/// The full search outcome over one index.
pub open spec fn spec_search(
    idx: IndexV,
    q: crate::query::QueryV,
    from: int,
    size: int,
    sort: Option<Seq<(Seq<char>, bool)>>,
    source: Option<crate::source_filter::SourceFilterV>,
    hl: Option<crate::highlight::HighlightConfigV>,
) -> SearchResultV {
    let ranked = spec_ranked(idx.documents, q, sort);
    let paged = crate::results::spec_page(ranked, from, size);
    SearchResultV {
        total: ranked.len() as int,
        max_score: if paged.len() > 0 {
            Option::Some(paged[0].score)
        } else {
            Option::None
        },
        hits: Seq::new(
            paged.len(),
            |i: int|
                if 0 <= i < paged.len() {
                    (SearchHitV {
                        index: idx.name,
                        id: paged[i].id,
                        score: paged[i].score,
                        source: crate::source_filter::spec_filter_source(paged[i].doc, source),
                        highlight: match hl {
                            Option::Some(cfg) => crate::highlight::spec_highlight_document(
                                paged[i].doc,
                                q,
                                cfg,
                            ),
                            Option::None => Option::None,
                        },
                    })
                } else {
                    (SearchHitV {
                        index: Seq::empty(),
                        id: Seq::empty(),
                        score: 0,
                        source: ValV::Null,
                        highlight: Option::None,
                    })
                },
        ),
    }
}

pub open spec fn opt_keys_view(sort: Option<Vec<(String, crate::results::SortDir)>>) -> Option<
    Seq<(Seq<char>, bool)>,
> {
    match sort {
        Option::Some(keys) => Option::Some(crate::results::keys_view(keys@)),
        Option::None => Option::None,
    }
}

impl Catalog {
    /// Search one index: score every document, rank, paginate, filter each
    /// hit's source and attach highlights. Fails only when the index does
    /// not exist.
    pub fn search(
        &self,
        index_name: &str,
        query: &crate::query::Query,
        from: Option<u32>,
        size: Option<u32>,
        sort: Option<&Vec<(String, crate::results::SortDir)>>,
        source_filter: Option<&crate::source_filter::SourceFilter>,
        highlight: Option<&crate::highlight::HighlightConfig>,
    ) -> (r: Result<SearchResult, GbsError>)
        ensures
            match spec_cat_get(self@, index_name@) {
                Option::Some(idx) => r matches Ok(res) && res@ == spec_search(
                    idx,
                    query@,
                    (match from {
                        Option::Some(f) => f as int,
                        Option::None => 0,
                    }),
                    (match size {
                        Option::Some(s) => s as int,
                        Option::None => 10,
                    }),
                    (match sort {
                        Option::Some(keys) => Option::Some(crate::results::keys_view(keys@)),
                        Option::None => Option::None,
                    }),
                    (match source_filter {
                        Option::Some(f) => Option::Some(f@),
                        Option::None => Option::None,
                    }),
                    (match highlight {
                        Option::Some(h) => Option::Some(h@),
                        Option::None => Option::None,
                    }),
                ),
                Option::None => r matches Err(e) && e@ == GbsErrorV::IndexNotFound(index_name@),
            },
    {
        let i = match self.find(index_name) {
            Some(i) => i,
            None => {
                return Err(GbsError::IndexNotFound(index_name.to_owned()));
            },
        };
        let idx = &self.indices[i].1;
        proof {
            assert(self@[i as int] == (self.indices@[i as int].0@, self.indices@[i as int].1@));
        }
        let ghost idxv = self@[i as int].1;
        let ghost qv = query@;
        let ghost dv = idxv.documents;

        // score every document, keeping the matches in store order
        let mut scored: Vec<crate::results::Hit> = Vec::new();
        let mut d: usize = 0;
        proof {
            assert(crate::results::hits_view(scored@) =~= Seq::<crate::results::HitV>::empty());
        }
        while d < idx.documents.len()
            invariant
                d <= idx.documents@.len(),
                dv == view_fields(idx.documents@),
                dv.len() == idx.documents@.len(),
                qv == query@,
                crate::results::hits_view(scored@) == spec_scored(dv, qv, d as int),
            decreases idx.documents@.len() - d,
        {
            proof {
                assert(dv[d as int] == (idx.documents@[d as int].0@, idx.documents@[d as int].1@));
            }
            let score = crate::score::score_document(&idx.documents[d].1, query);
            if score > 0 {
                let ghost before = crate::results::hits_view(scored@);
                let id = idx.documents[d].0.clone();
                let doc = idx.documents[d].1.clone();
                scored.push(crate::results::Hit { id, doc, score });
                proof {
                    assert(crate::results::hits_view(scored@) =~= before.push(
                        (crate::results::HitV {
                            id: dv[d as int].0,
                            doc: dv[d as int].1,
                            score: score,
                        }),
                    ));
                    assert(before.push(
                        (crate::results::HitV {
                            id: dv[d as int].0,
                            doc: dv[d as int].1,
                            score: score,
                        }),
                    ) =~= before + seq![
                        (crate::results::HitV {
                            id: dv[d as int].0,
                            doc: dv[d as int].1,
                            score: score,
                        }),
                    ]);
                }
            }
            d += 1;
        }

        // rank: by score descending, then by the sort keys
        let no_keys: Vec<(String, crate::results::SortDir)> = Vec::new();
        proof {
            assert(crate::results::keys_view(no_keys@) =~= Seq::<(Seq<char>, bool)>::empty());
        }
        let by_score = crate::results::sort_hits(scored, &no_keys, true);
        let ranked = match sort {
            Some(keys) => {
                if keys.len() > 0 {
                    crate::results::sort_hits(by_score, keys, false)
                } else {
                    proof {
                        assert(crate::results::keys_view(keys@).len() == 0);
                    }
                    by_score
                }
            },
            None => by_score,
        };
        let ghost rankedv = crate::results::hits_view(ranked@);
        proof {
            assert(rankedv == spec_ranked(dv, qv, opt_keys_view(match sort {
                Option::Some(keys) => Option::Some(*keys),
                Option::None => Option::None,
            })));
        }

        // paginate
        let total = ranked.len();
        let from_val: usize = match from {
            Some(f) => f as usize,
            None => 0,
        };
        let size_val: usize = match size {
            Some(s) => s as usize,
            None => 10,
        };
        let paged = crate::results::paginate(ranked, from_val, size_val);
        let ghost pagedv = crate::results::hits_view(paged@);
        let max_score: Option<u64> = if paged.len() > 0 {
            Some(paged[0].score)
        } else {
            None
        };
        proof {
            if paged@.len() > 0 {
                assert(pagedv[0] == paged@[0]@);
            }
        }

        // build the hit page
        let index_name_owned = idx.name.clone();
        proof {
            assert(index_name_owned@ == idxv.name);
        }
        let mut hits: Vec<SearchHit> = Vec::new();
        let mut h: usize = 0;
        while h < paged.len()
            invariant
                h <= paged@.len(),
                pagedv == crate::results::hits_view(paged@),
                pagedv.len() == paged@.len(),
                qv == query@,
                search_hits_view(hits@).len() == h,
                index_name_owned@ == idxv.name,
                forall|k: int|
                    0 <= k < h ==> search_hits_view(hits@)[k] == (SearchHitV {
                        index: idxv.name,
                        id: pagedv[k].id,
                        score: pagedv[k].score,
                        source: crate::source_filter::spec_filter_source(
                            pagedv[k].doc,
                            (match source_filter {
                                Option::Some(f) => Option::Some(f@),
                                Option::None => Option::None,
                            }),
                        ),
                        highlight: (match highlight {
                            Option::Some(cfg) => crate::highlight::spec_highlight_document(
                                pagedv[k].doc,
                                qv,
                                cfg@,
                            ),
                            Option::None => Option::None,
                        }),
                    }),
            decreases paged@.len() - h,
        {
            proof {
                assert(pagedv[h as int] == paged@[h as int]@);
            }
            let hit = &paged[h];
            let src = crate::source_filter::filter_source(&hit.doc, source_filter);
            let hl: Option<Val> = match highlight {
                Some(cfg) => crate::highlight::highlight_document(&hit.doc, query, cfg),
                None => None,
            };
            let id = hit.id.clone();
            let index = index_name_owned.clone();
            let score = hit.score;
            let ghost before_h = search_hits_view(hits@);
            let ghost expected = (SearchHitV {
                index: idxv.name,
                id: pagedv[h as int].id,
                score: pagedv[h as int].score,
                source: crate::source_filter::spec_filter_source(
                    pagedv[h as int].doc,
                    (match source_filter {
                        Option::Some(f) => Option::Some(f@),
                        Option::None => Option::None,
                    }),
                ),
                highlight: (match highlight {
                    Option::Some(cfg) => crate::highlight::spec_highlight_document(
                        pagedv[h as int].doc,
                        qv,
                        cfg@,
                    ),
                    Option::None => Option::None,
                }),
            });
            proof {
                assert(id@ == pagedv[h as int].id);
                assert(src@ == expected.source);
                assert(opt_val_view(hl) == expected.highlight);
            }
            hits.push(SearchHit { index, id, score, source: src, highlight: hl });
            proof {
                assert(search_hits_view(hits@) =~= before_h.push(expected));
            }
            h += 1;
        }
        let r = SearchResult { total, max_score, hits };
        proof {
            assert(r@.hits =~= spec_search(
                idxv,
                qv,
                (match from {
                    Option::Some(f) => f as int,
                    Option::None => 0,
                }),
                (match size {
                    Option::Some(s) => s as int,
                    Option::None => 10,
                }),
                (match sort {
                    Option::Some(keys) => Option::Some(crate::results::keys_view(keys@)),
                    Option::None => Option::None,
                }),
                (match source_filter {
                    Option::Some(f) => Option::Some(f@),
                    Option::None => Option::None,
                }),
                (match highlight {
                    Option::Some(hh) => Option::Some(hh@),
                    Option::None => Option::None,
                }),
            ).hits);
        }
        Ok(r)
    }
}


pub open spec fn results_view(rs: Seq<SearchResult>) -> Seq<SearchResultV> {
    Seq::new(
        rs.len(),
        |i: int|
            if 0 <= i < rs.len() {
                rs[i]@
            } else {
                (SearchResultV { total: 0, max_score: Option::None, hits: Seq::empty() })
            },
    )
}

/// The hits of the first `i` per-index pages, in page order.
pub open spec fn spec_merged_hits(rs: Seq<SearchResultV>, i: int) -> Seq<SearchHitV>
    decreases i,
{
    if i <= 0 || i > rs.len() {
        Seq::empty()
    } else {
        spec_merged_hits(rs, i - 1) + rs[i - 1].hits
    }
}

/// The combined total of the first `i` pages, saturating at the machine
/// bound.
pub open spec fn spec_merged_total(rs: Seq<SearchResultV>, i: int) -> int
    decreases i,
{
    if i <= 0 || i > rs.len() {
        0
    } else {
        let t = spec_merged_total(rs, i - 1) + rs[i - 1].total;
        if t > usize::MAX {
            usize::MAX as int
        } else {
            t
        }
    }
}

/// Stable insertion by score, descending.
pub open spec fn spec_insert_by_score(s: Seq<SearchHitV>, x: SearchHitV) -> Seq<SearchHitV>
    decreases s.len(),
{
    if s.len() == 0 {
        seq![x]
    } else if s.last().score >= x.score {
        s.push(x)
    } else {
        spec_insert_by_score(s.drop_last(), x).push(s.last())
    }
}

/// Stable sort of merged hits by score, descending.
pub open spec fn spec_sort_by_score(s: Seq<SearchHitV>) -> Seq<SearchHitV>
    decreases s.len(),
{
    if s.len() == 0 {
        Seq::empty()
    } else {
        spec_insert_by_score(spec_sort_by_score(s.drop_last()), s.last())
    }
}

/// The merged outcome over per-index pages: hits combined in page order,
/// re-sorted by score and re-paginated, totals summed.
pub open spec fn spec_merge_results(rs: Seq<SearchResultV>, from: int, size: int) -> SearchResultV {
    let all = spec_merged_hits(rs, rs.len() as int);
    let ranked = spec_sort_by_score(all);
    let paged = crate::results::spec_page(ranked, from, size);
    SearchResultV {
        total: spec_merged_total(rs, rs.len() as int),
        max_score: if paged.len() > 0 {
            Option::Some(paged[0].score)
        } else {
            Option::None
        },
        hits: paged,
    }
}

proof fn lemma_insert_by_score_at(s: Seq<SearchHitV>, x: SearchHitV, p: int)
    requires
        0 <= p <= s.len(),
        forall|j: int| p <= j < s.len() ==> !(#[trigger] s[j].score >= x.score),
        p > 0 ==> s[p - 1].score >= x.score,
    ensures
        spec_insert_by_score(s, x) == s.take(p) + seq![x] + s.skip(p),
    decreases s.len(),
{
    if s.len() == 0 {
        assert(spec_insert_by_score(s, x) =~= s.take(p) + seq![x] + s.skip(p));
    } else if p == s.len() {
        assert(s.last().score >= x.score);
        assert(s.take(p) =~= s);
        assert(s.skip(p) =~= Seq::empty());
        assert(s.push(x) =~= s.take(p) + seq![x] + s.skip(p));
    } else {
        assert(!(s[s.len() - 1].score >= x.score));
        lemma_insert_by_score_at(s.drop_last(), x, p);
        assert(s.drop_last().take(p) =~= s.take(p));
        assert(s.drop_last().skip(p) =~= s.subrange(p, s.len() - 1));
        assert((s.take(p) + seq![x] + s.subrange(p, s.len() - 1)).push(s.last()) =~= s.take(p)
            + seq![x] + s.skip(p));
    }
}

/// Merge the per-index search pages of a multi-index request: combined
/// hits are re-ranked by score, descending and stably, then re-paginated;
/// the totals add up.
pub fn merge_search_results(pages: Vec<SearchResult>, from: Option<u32>, size: Option<u32>) -> (r:
    SearchResult)
    ensures
        r@ == spec_merge_results(
            results_view(pages@),
            (match from {
                Option::Some(f) => f as int,
                Option::None => 0,
            }),
            (match size {
                Option::Some(s) => s as int,
                Option::None => 10,
            }),
        ),
{
    let ghost rv = results_view(pages@);
    let mut all: Vec<SearchHit> = Vec::new();
    let mut total: usize = 0;
    let mut i: usize = 0;
    proof {
        assert(search_hits_view(all@) =~= Seq::<SearchHitV>::empty());
    }
    while i < pages.len()
        invariant
            i <= pages@.len(),
            rv == results_view(pages@),
            rv.len() == pages@.len(),
            search_hits_view(all@) == spec_merged_hits(rv, i as int),
            total == spec_merged_total(rv, i as int),
        decreases pages@.len() - i,
    {
        proof {
            assert(rv[i as int] == pages@[i as int]@);
        }
        let page = &pages[i];
        let mut j: usize = 0;
        let ghost base = search_hits_view(all@);
        while j < page.hits.len()
            invariant
                j <= page.hits@.len(),
                page == pages@[i as int],
                rv[i as int] == pages@[i as int]@,
                search_hits_view(all@) == base + rv[i as int].hits.take(j as int),
            decreases page.hits@.len() - j,
        {
            let ghost before = search_hits_view(all@);
            let h = clone_search_hit(&page.hits[j]);
            proof {
                assert(rv[i as int].hits[j as int] == page.hits@[j as int]@);
            }
            all.push(h);
            proof {
                assert(search_hits_view(all@) =~= before.push(rv[i as int].hits[j as int]));
                assert(search_hits_view(all@) =~= base + rv[i as int].hits.take(j as int + 1));
            }
            j += 1;
        }
        proof {
            assert(rv[i as int].hits.take(rv[i as int].hits.len() as int) =~= rv[i as int].hits);
        }
        if pages[i].total <= usize::MAX - total {
            total = total + pages[i].total;
        } else {
            total = usize::MAX;
        }
        i += 1;
    }
    // stable sort by score, descending
    let ghost allv = search_hits_view(all@);
    let mut sorted: Vec<SearchHit> = Vec::new();
    let mut i: usize = 0;
    proof {
        assert(search_hits_view(sorted@) =~= Seq::<SearchHitV>::empty());
        assert(allv.take(0) =~= Seq::<SearchHitV>::empty());
        assert(search_hits_view(sorted@) =~= spec_sort_by_score(allv.take(0)));
    }
    while i < all.len()
        invariant
            i <= all@.len(),
            allv == search_hits_view(all@),
            allv.len() == all@.len(),
            search_hits_view(sorted@) == spec_sort_by_score(allv.take(i as int)),
        decreases all@.len() - i,
    {
        let ghost sv = search_hits_view(sorted@);
        let x = clone_search_hit(&all[i]);
        proof {
            assert(allv[i as int] == all@[i as int]@);
        }
        let mut p: usize = sorted.len();
        while p > 0 && !(sorted[p - 1].score >= x.score)
            invariant
                p <= sorted@.len(),
                sv == search_hits_view(sorted@),
                sv.len() == sorted@.len(),
                x@ == allv[i as int],
                forall|k: int| p <= k < sv.len() ==> !(#[trigger] sv[k].score >= x@.score),
            decreases p,
        {
            proof {
                assert(sv[p - 1] == sorted@[p - 1]@);
            }
            p -= 1;
        }
        proof {
            if p > 0 {
                assert(sv[p - 1] == sorted@[p - 1]@);
            }
            lemma_insert_by_score_at(sv, x@, p as int);
        }
        sorted.insert(p, x);
        proof {
            assert(search_hits_view(sorted@) =~= sv.take(p as int) + seq![allv[i as int]]
                + sv.skip(p as int));
            assert(allv.take(i as int + 1).drop_last() =~= allv.take(i as int));
            assert(allv.take(i as int + 1).last() == allv[i as int]);
        }
        i += 1;
    }
    proof {
        assert(allv.take(allv.len() as int) =~= allv);
    }
    let from_val: usize = match from {
        Some(f) => f as usize,
        None => 0,
    };
    let size_val: usize = match size {
        Some(s) => s as usize,
        None => 10,
    };
    let ghost sortedv = search_hits_view(sorted@);
    let n = sorted.len();
    let lo = if from_val <= n {
        from_val
    } else {
        n
    };
    let hi = if size_val <= n - lo {
        lo + size_val
    } else {
        n
    };
    let mut hits: Vec<SearchHit> = Vec::new();
    let mut k: usize = lo;
    while k < hi
        invariant
            lo <= k <= hi <= sorted@.len(),
            sortedv == search_hits_view(sorted@),
            sortedv.len() == sorted@.len(),
            search_hits_view(hits@) == sortedv.subrange(lo as int, k as int),
        decreases hi - k,
    {
        let ghost partial = search_hits_view(hits@);
        let h = clone_search_hit(&sorted[k]);
        proof {
            assert(h@ == sortedv[k as int]);
        }
        hits.push(h);
        proof {
            assert(search_hits_view(hits@) =~= partial.push(sortedv[k as int]));
            assert(search_hits_view(hits@) =~= sortedv.subrange(lo as int, k as int + 1));
        }
        k += 1;
    }
    proof {
        assert(search_hits_view(hits@) =~= crate::results::spec_page(
            sortedv,
            from_val as int,
            size_val as int,
        ));
    }
    let max_score: Option<u64> = if hits.len() > 0 {
        Some(hits[0].score)
    } else {
        None
    };
    proof {
        if hits@.len() > 0 {
            assert(search_hits_view(hits@)[0] == hits@[0]@);
        }
    }
    SearchResult { total, max_score, hits }
}

/// Copy of a search hit, with the same model.
fn clone_search_hit(h: &SearchHit) -> (r: SearchHit)
    ensures
        r@ == h@,
{
    SearchHit {
        index: h.index.clone(),
        id: h.id.clone(),
        score: h.score,
        source: h.source.clone(),
        highlight: match &h.highlight {
            Some(v) => Some(v.clone()),
            None => None,
        },
    }
}


/// The per-index pages a multi-index request gathers: for each pattern, in
/// order, one page per matched index.
pub open spec fn spec_gather(
    cat: Seq<(Seq<char>, IndexV)>,
    pats: Seq<Seq<char>>,
    i: int,
    q: crate::query::QueryV,
    from: int,
    size: int,
    sort: Option<Seq<(Seq<char>, bool)>>,
    source: Option<crate::source_filter::SourceFilterV>,
    hl: Option<crate::highlight::HighlightConfigV>,
) -> Seq<SearchResultV>
    decreases i,
{
    if i <= 0 || i > pats.len() {
        Seq::empty()
    } else {
        spec_gather(cat, pats, i - 1, q, from, size, sort, source, hl) + spec_gather_names(
            cat,
            spec_match_names(cat, pats[i - 1]),
            spec_match_names(cat, pats[i - 1]).len() as int,
            q,
            from,
            size,
            sort,
            source,
            hl,
        )
    }
}

pub open spec fn spec_gather_names(
    cat: Seq<(Seq<char>, IndexV)>,
    names: Seq<Seq<char>>,
    j: int,
    q: crate::query::QueryV,
    from: int,
    size: int,
    sort: Option<Seq<(Seq<char>, bool)>>,
    source: Option<crate::source_filter::SourceFilterV>,
    hl: Option<crate::highlight::HighlightConfigV>,
) -> Seq<SearchResultV>
    decreases j,
{
    if j <= 0 || j > names.len() {
        Seq::empty()
    } else {
        spec_gather_names(cat, names, j - 1, q, from, size, sort, source, hl) + (
        match spec_cat_get(cat, names[j - 1]) {
            Option::Some(idx) => seq![spec_search(idx, q, from, size, sort, source, hl)],
            Option::None => Seq::empty(),
        })
    }
}

impl Catalog {
    /// Search every index matched by the glob patterns, then merge the
    /// per-index pages: the combined hits are re-ranked by score and
    /// re-paginated, and the totals add up.
    pub fn search_many(
        &self,
        patterns: &Vec<String>,
        query: &crate::query::Query,
        from: Option<u32>,
        size: Option<u32>,
        sort: Option<&Vec<(String, crate::results::SortDir)>>,
        source_filter: Option<&crate::source_filter::SourceFilter>,
        highlight: Option<&crate::highlight::HighlightConfig>,
    ) -> (r: SearchResult)
        ensures
            ({
                let from_v = match from {
                    Option::Some(f) => f as int,
                    Option::None => 0int,
                };
                let size_v = match size {
                    Option::Some(s) => s as int,
                    Option::None => 10int,
                };
                let sort_v = match sort {
                    Option::Some(keys) => Option::Some(crate::results::keys_view(keys@)),
                    Option::None => Option::None,
                };
                let source_v = match source_filter {
                    Option::Some(f) => Option::Some(f@),
                    Option::None => Option::None,
                };
                let hl_v = match highlight {
                    Option::Some(h) => Option::Some(h@),
                    Option::None => Option::None,
                };
                r@ == spec_merge_results(
                    spec_gather(
                        self@,
                        crate::query::string_list_view(patterns@),
                        patterns@.len() as int,
                        query@,
                        from_v,
                        size_v,
                        sort_v,
                        source_v,
                        hl_v,
                    ),
                    from_v,
                    size_v,
                )
            }),
    {
        let ghost cat = self@;
        let ghost pv = crate::query::string_list_view(patterns@);
        let ghost from_v: int = match from {
            Option::Some(f) => f as int,
            Option::None => 0int,
        };
        let ghost size_v: int = match size {
            Option::Some(s) => s as int,
            Option::None => 10int,
        };
        let ghost sort_v: Option<Seq<(Seq<char>, bool)>> = match sort {
            Option::Some(keys) => Option::Some(crate::results::keys_view(keys@)),
            Option::None => Option::None,
        };
        let ghost source_v: Option<crate::source_filter::SourceFilterV> = match source_filter {
            Option::Some(f) => Option::Some(f@),
            Option::None => Option::None,
        };
        let ghost hl_v: Option<crate::highlight::HighlightConfigV> = match highlight {
            Option::Some(h) => Option::Some(h@),
            Option::None => Option::None,
        };
        let mut pages: Vec<SearchResult> = Vec::new();
        let mut i: usize = 0;
        proof {
            assert(results_view(pages@) =~= Seq::<SearchResultV>::empty());
        }
        while i < patterns.len()
            invariant
                i <= patterns@.len(),
                cat == self@,
                pv == crate::query::string_list_view(patterns@),
                pv.len() == patterns@.len(),
                from_v == (match from {
                    Option::Some(f) => f as int,
                    Option::None => 0int,
                }),
                size_v == (match size {
                    Option::Some(s) => s as int,
                    Option::None => 10int,
                }),
                sort_v == (match sort {
                    Option::Some(keys) => Option::Some(crate::results::keys_view(keys@)),
                    Option::None => Option::None,
                }),
                source_v == (match source_filter {
                    Option::Some(f) => Option::Some(f@),
                    Option::None => Option::None,
                }),
                hl_v == (match highlight {
                    Option::Some(h) => Option::Some(h@),
                    Option::None => Option::None,
                }),
                results_view(pages@) == spec_gather(
                    cat,
                    pv,
                    i as int,
                    query@,
                    from_v,
                    size_v,
                    sort_v,
                    source_v,
                    hl_v,
                ),
            decreases patterns@.len() - i,
        {
            proof {
                assert(pv[i as int] == patterns@[i as int]@);
            }
            let names = self.match_indices(patterns[i].as_str());
            let ghost nv = spec_match_names(cat, pv[i as int]);
            let ghost base = results_view(pages@);
            let mut j: usize = 0;
            proof {
                assert(names.deep_view() == nv);
                assert(base + spec_gather_names(
                    cat,
                    nv,
                    0,
                    query@,
                    from_v,
                    size_v,
                    sort_v,
                    source_v,
                    hl_v,
                ) =~= base);
            }
            while j < names.len()
                invariant
                    j <= names@.len(),
                    cat == self@,
                    names.deep_view() == nv,
                    nv.len() == names@.len(),
                    results_view(pages@) == base + spec_gather_names(
                        cat,
                        nv,
                        j as int,
                        query@,
                        from_v,
                        size_v,
                        sort_v,
                        source_v,
                        hl_v,
                    ),
                    from_v == (match from {
                        Option::Some(f) => f as int,
                        Option::None => 0int,
                    }),
                    size_v == (match size {
                        Option::Some(s) => s as int,
                        Option::None => 10int,
                    }),
                    sort_v == (match sort {
                        Option::Some(keys) => Option::Some(crate::results::keys_view(keys@)),
                        Option::None => Option::None,
                    }),
                    source_v == (match source_filter {
                        Option::Some(f) => Option::Some(f@),
                        Option::None => Option::None,
                    }),
                    hl_v == (match highlight {
                        Option::Some(h) => Option::Some(h@),
                        Option::None => Option::None,
                    }),
                decreases names@.len() - j,
            {
                proof {
                    assert(nv[j as int] == names@[j as int]@);
                }
                let ghost before = results_view(pages@);
                match self.search(
                    names[j].as_str(),
                    query,
                    from,
                    size,
                    sort,
                    source_filter,
                    highlight,
                ) {
                    Ok(res) => {
                        proof {
                            assert(spec_cat_get(cat, nv[j as int]) is Some);
                            assert(res@ == spec_search(
                                spec_cat_get(cat, nv[j as int])->Some_0,
                                query@,
                                from_v,
                                size_v,
                                sort_v,
                                source_v,
                                hl_v,
                            ));
                        }
                        pages.push(res);
                        proof {
                            assert(results_view(pages@) =~= before.push(
                                spec_search(
                                    spec_cat_get(cat, nv[j as int])->Some_0,
                                    query@,
                                    from_v,
                                    size_v,
                                    sort_v,
                                    source_v,
                                    hl_v,
                                ),
                            ));
                            assert(results_view(pages@) =~= base + spec_gather_names(
                                cat,
                                nv,
                                j as int + 1,
                                query@,
                                from_v,
                                size_v,
                                sort_v,
                                source_v,
                                hl_v,
                            ));
                        }
                    },
                    Err(_) => {
                        proof {
                            assert(spec_cat_get(cat, nv[j as int]) is None);
                            assert(results_view(pages@) =~= base + spec_gather_names(
                                cat,
                                nv,
                                j as int + 1,
                                query@,
                                from_v,
                                size_v,
                                sort_v,
                                source_v,
                                hl_v,
                            ));
                        }
                    },
                }
                j += 1;
            }
            proof {
                assert(spec_gather_names(
                    cat,
                    nv,
                    nv.len() as int,
                    query@,
                    from_v,
                    size_v,
                    sort_v,
                    source_v,
                    hl_v,
                ) == spec_gather_names(
                    cat,
                    nv,
                    names@.len() as int,
                    query@,
                    from_v,
                    size_v,
                    sort_v,
                    source_v,
                    hl_v,
                ));
            }
            i += 1;
        }
        merge_search_results(pages, from, size)
    }
}

} // verus!

use vstd::prelude::*;

use crate::fs::{FSReferenceModel, PBXFSReference, opt_str};

verus! {

/// A record of the project file: a file-system record, or a record of
/// another kind, named by its `isa`.
#[derive(Debug)]
pub enum PBXObject {
    FSReference(PBXFSReference),
    Other(String),
}

impl PBXObject {
    /// The record read as a file-system record, if it is one.
    pub open spec fn fs_model(self) -> Option<FSReferenceModel> {
        match self {
            PBXObject::FSReference(r) => Some(r@),
            PBXObject::Other(_) => None,
        }
    }

    /// The record as a file-system record, if it is one.
    pub fn as_pbxfs_reference(&self) -> (r: Option<&PBXFSReference>)
        ensures
            match r {
                Some(n) => self.fs_model() == Some(n@),
                None => self.fs_model() is None,
            },
    {
        match self {
            PBXObject::FSReference(n) => Some(n),
            PBXObject::Other(_) => None,
        }
    }
}

/// One entry of the collection: its identifier and, for a file-system
/// record, its content.
pub open spec fn entry_view(e: (String, PBXObject)) -> (Seq<char>, Option<FSReferenceModel>) {
    (e.0@, e.1.fs_model())
}

/// The flat table of a project's records, addressed by identifier.
///
/// Where an identifier was stored twice, the first entry is the one that
/// lookups see.
pub struct PBXObjectCollection {
    entries: Vec<(String, PBXObject)>,
}

impl View for PBXObjectCollection {
    type V = Seq<(Seq<char>, Option<FSReferenceModel>)>;

    closed spec fn view(&self) -> Seq<(Seq<char>, Option<FSReferenceModel>)> {
        self.entries@.map_values(|e: (String, PBXObject)| entry_view(e))
    }
}

impl PBXObjectCollection {
    /// Entry `i` is the first one stored under `id`.
    pub open spec fn is_first_key(self, i: int, id: Seq<char>) -> bool {
        &&& 0 <= i < self@.len()
        &&& self@[i].0 == id
        &&& forall|j: int| 0 <= j < i ==> self@[j].0 != id
    }

    /// The entry that lookups of `id` see, if any.
    pub open spec fn key_index(self, id: Seq<char>) -> Option<int> {
        if exists|i: int| self.is_first_key(i, id) {
            Some(choose|i: int| self.is_first_key(i, id))
        } else {
            None
        }
    }

    /// The file-system record stored under `id`: none where no entry has
    /// that identifier or the entry is of another kind.
    pub open spec fn resolve(self, id: Seq<char>) -> Option<FSReferenceModel> {
        match self.key_index(id) {
            Some(i) => self@[i].1,
            None => None,
        }
    }

    /// `id` names a group-like record that `get_subgroup` takes for `name`.
    pub open spec fn names_subgroup(self, id: Seq<char>, name: Seq<char>) -> bool {
        (self.resolve(id) is Some) && self.resolve(id)->0.is_subgroup_named(name)
    }

    /// `id` names a file record that `get_file` takes for `name`.
    pub open spec fn names_file(self, id: Seq<char>, name: Seq<char>) -> bool {
        (self.resolve(id) is Some) && self.resolve(id)->0.is_file_named(name)
    }

    /// The first entry under an identifier is the only one.
    pub proof fn lemma_first_key_unique(self, i: int, id: Seq<char>)
        requires
            self.is_first_key(i, id),
        ensures
            self.key_index(id) == Some(i),
    {
        let k = choose|k: int| self.is_first_key(k, id);
        if k < i {
            assert(self@[k].0 != id);
        } else if i < k {
            assert(self@[i].0 != id);
        }
    }

    /// An empty collection.
    pub fn new() -> (r: PBXObjectCollection)
        ensures
            r@.len() == 0,
    {
        PBXObjectCollection { entries: Vec::new() }
    }

    /// The number of entries.
    pub fn len(&self) -> (r: usize)
        ensures
            r == self@.len(),
    {
        self.entries.len()
    }

    /// The index of the entry that lookups of `id` see.
    pub(crate) fn index_of(&self, id: &String) -> (r: Option<usize>)
        ensures
            match r {
                Some(i) => self.key_index(id@) == Some(i as int),
                None => forall|j: int| 0 <= j < self@.len() ==> self@[j].0 != id@,
            },
            r is None <==> self.key_index(id@) is None,
    {
        let mut i: usize = 0;
        while i < self.entries.len()
            invariant
                i <= self@.len(),
                self@.len() == self.entries@.len(),
                forall|j: int| 0 <= j < i ==> self@[j].0 != id@,
            decreases self.entries@.len() - i,
        {
            assert(self@[i as int] == entry_view(self.entries@[i as int]));
            if self.entries[i].0 == *id {
                proof {
                    self.lemma_first_key_unique(i as int, id@);
                }
                return Some(i);
            }
            i += 1;
        }
        assert(!exists|k: int| self.is_first_key(k, id@));
        None
    }

    /// The file-system record stored under `id`, if there is one.
    pub fn get_fs_reference(&self, id: &String) -> (r: Option<&PBXFSReference>)
        ensures
            match r {
                Some(n) => self.resolve(id@) == Some(n@),
                None => self.resolve(id@) is None,
            },
    {
        match self.index_of(id) {
            Some(i) => {
                assert(self@[i as int] == entry_view(self.entries@[i as int]));
                self.entries[i].1.as_pbxfs_reference()
            },
            None => None,
        }
    }

    /// Whether `id` names a file-system record.
    pub fn contains_fs_reference(&self, id: &String) -> (r: bool)
        ensures
            r == (self.resolve(id@) is Some),
    {
        self.get_fs_reference(id).is_some()
    }

    /// Store `object` under `id`, in place of what was stored there.
    pub fn insert(&mut self, id: String, object: PBXObject)
        ensures
            forall|k: Seq<char>|
                #[trigger] final(self).resolve(k) == if k == id@ {
                    object.fs_model()
                } else {
                    old(self).resolve(k)
                },
    {
        let ghost id_v = id@;
        let ghost obj_m = object.fs_model();
        match self.index_of(&id) {
            Some(i) => {
                self.entries.remove(i);
                self.entries.insert(i, (id, object));
                proof {
                    assert(self@ =~= old(self)@.update(i as int, (id_v, obj_m)));
                    assert forall|k: Seq<char>| #[trigger]
                        self.resolve(k) == if k == id_v {
                            obj_m
                        } else {
                            old(self).resolve(k)
                        } by {
                        if k == id_v {
                            self.lemma_first_key_unique(i as int, k);
                        } else {
                            self.lemma_same_keys_resolve(*old(self), k, i as int);
                        }
                    }
                }
            },
            None => {
                self.entries.push((id, object));
                proof {
                    assert(self@ =~= old(self)@.push((id_v, obj_m)));
                    assert forall|k: Seq<char>| #[trigger]
                        self.resolve(k) == if k == id_v {
                            obj_m
                        } else {
                            old(self).resolve(k)
                        } by {
                        if k == id_v {
                            self.lemma_first_key_unique(old(self)@.len() as int, k);
                        } else {
                            match old(self).key_index(k) {
                                Some(j) => {
                                    old(self).lemma_first_key_unique(j, k);
                                    self.lemma_first_key_unique(j, k);
                                },
                                None => {
                                    if self.key_index(k) is Some {
                                        let j = self.key_index(k)->0;
                                        self.lemma_first_key_unique(j, k);
                                        assert(j < old(self)@.len());
                                        assert(old(self)@[j] == self@[j]);
                                        assert forall|jj: int| 0 <= jj < j implies old(
                                            self,
                                        )@[jj].0 != k by {
                                            assert(old(self)@[jj] == self@[jj]);
                                        }
                                        assert(old(self).is_first_key(j, k));
                                        old(self).lemma_first_key_unique(j, k);
                                    }
                                },
                            }
                        }
                    }
                }
            },
        }
    }

    /// Where only entry `i` changed, and kept its identifier, lookups of
    /// any other identifier are unchanged.
    proof fn lemma_same_keys_resolve(self, other: PBXObjectCollection, k: Seq<char>, i: int)
        requires
            self@.len() == other@.len(),
            0 <= i < self@.len(),
            self@[i].0 == other@[i].0,
            self@[i].0 != k,
            forall|j: int| 0 <= j < self@.len() && j != i ==> self@[j] == other@[j],
        ensures
            self.resolve(k) == other.resolve(k),
    {
        match other.key_index(k) {
            Some(j) => {
                other.lemma_first_key_unique(j, k);
                assert(self.is_first_key(j, k));
                self.lemma_first_key_unique(j, k);
            },
            None => {
                if self.key_index(k) is Some {
                    let j = self.key_index(k)->0;
                    self.lemma_first_key_unique(j, k);
                    assert(other.is_first_key(j, k));
                    other.lemma_first_key_unique(j, k);
                }
            },
        }
    }
}

/// Two entries hold the same record but perhaps for its parent link.
pub open spec fn same_but_parent(
    a: (Seq<char>, Option<FSReferenceModel>),
    b: (Seq<char>, Option<FSReferenceModel>),
) -> bool {
    &&& a.0 == b.0
    &&& match (a.1, b.1) {
        (Some(x), Some(y)) => x == y.with_parent(x.parent),
        (None, None) => true,
        _ => false,
    }
}

impl PBXObjectCollection {
    /// Two collections that differ at most in parent links.
    pub open spec fn same_but_parents(self, other: PBXObjectCollection) -> bool {
        &&& self@.len() == other@.len()
        &&& forall|i: int| 0 <= i < self@.len() ==> same_but_parent(#[trigger] self@[i], other@[i])
    }

    /// `walk` starts at `root` and each of its later identifiers is a
    /// resolved child of the one before.
    pub open spec fn is_walk(self, root: Seq<char>, walk: Seq<Seq<char>>) -> bool {
        &&& walk.len() > 0
        &&& walk[0] == root
        &&& forall|k: int|
            0 <= k < walk.len() - 1 ==> (self.resolve(#[trigger] walk[k]) is Some)
                && self.resolve(walk[k])->0.children_in(self).contains(walk[k + 1])
    }

    /// `id` ends some walk from `root`.
    pub open spec fn reached(self, root: Seq<char>, id: Seq<char>) -> bool {
        exists|w: Seq<Seq<char>>| #[trigger] self.is_walk(root, w) && w.last() == id
    }

    /// Entry `e` holds a file-system record whose parent link names the end
    /// of a walk from `root` that goes on to `e`'s identifier: its parent is
    /// a record reached from `root` that lists it among its resolved
    /// children.
    pub open spec fn parent_on_walk(
        self,
        root: Seq<char>,
        e: (Seq<char>, Option<FSReferenceModel>),
    ) -> bool {
        &&& e.1 is Some
        &&& exists|w: Seq<Seq<char>>|
            #[trigger] self.is_walk(root, w) && (self.resolve(w.last()) is Some) && self.resolve(
                w.last(),
            )->0.children_in(self).contains(e.0) && e.1->0.parent == Some(w.last())
    }

    /// A walk goes on to any resolved child of its last record.
    pub proof fn lemma_walk_push(self, root: Seq<char>, walk: Seq<Seq<char>>, x: Seq<char>)
        requires
            self.is_walk(root, walk),
            self.resolve(walk.last()) is Some,
            self.resolve(walk.last())->0.children_in(self).contains(x),
        ensures
            self.is_walk(root, walk.push(x)),
    {
        let wk = walk.push(x);
        assert forall|m: int| 0 <= m < wk.len() - 1 implies (self.resolve(#[trigger] wk[m])
            is Some) && self.resolve(wk[m])->0.children_in(self).contains(wk[m + 1]) by {
            if m < walk.len() - 1 {
                assert(wk[m] == walk[m] && wk[m + 1] == walk[m + 1]);
            } else {
                assert(wk[m] == walk.last() && wk[m + 1] == x);
            }
        }
    }

    /// What stamping parent links from `root` makes of this collection, in
    /// `after`:
    /// - nothing but parent links changes;
    /// - an entry that changed is the one that lookups of its identifier
    ///   see, and its new parent is a record on a walk from `root` that
    ///   lists it;
    /// - each resolved child of `root` has `root` as its parent;
    /// - each record at the end of a walk from `root` has for parent a
    ///   record on a walk from `root` that lists it.
    pub open spec fn parents_assigned(self, after: PBXObjectCollection, root: Seq<char>) -> bool {
        &&& after.same_but_parents(self)
        &&& forall|i: int|
            0 <= i < self@.len() ==> #[trigger] after@[i] == self@[i] || (self.key_index(self@[i].0)
                == Some(i) && self.parent_on_walk(root, after@[i]))
        &&& (self.resolve(root) is Some) ==> forall|id: Seq<char>|
            #[trigger] self.resolve(root)->0.children_in(self).contains(id) ==> after.resolve(
                id,
            )->0.parent == Some(root)
        &&& forall|walk: Seq<Seq<char>>|
            #[trigger] self.is_walk(root, walk) && walk.len() > 1 ==> (after.resolve(walk.last())
                is Some) && self.parent_on_walk(root, (walk.last(), after.resolve(walk.last())))
    }

    /// Where parent links alone changed, lookups find the same entries, and
    /// records that differ at most in their parent link.
    pub proof fn lemma_resolve_but_parents(self, other: PBXObjectCollection, id: Seq<char>)
        requires
            self.same_but_parents(other),
        ensures
            self.key_index(id) == other.key_index(id),
            self.resolve(id) is Some <==> other.resolve(id) is Some,
            self.resolve(id) is Some ==> self.resolve(id)->0 == other.resolve(id)->0.with_parent(
                self.resolve(id)->0.parent,
            ),
    {
        if other.key_index(id) is Some {
            let j = other.key_index(id)->0;
            other.lemma_first_key_unique(j, id);
            assert(same_but_parent(self@[j], other@[j]));
            assert forall|jj: int| 0 <= jj < j implies self@[jj].0 != id by {
                assert(same_but_parent(self@[jj], other@[jj]));
            }
            assert(self.is_first_key(j, id));
            self.lemma_first_key_unique(j, id);
        } else if self.key_index(id) is Some {
            let j = self.key_index(id)->0;
            self.lemma_first_key_unique(j, id);
            assert(same_but_parent(self@[j], other@[j]));
            assert forall|jj: int| 0 <= jj < j implies other@[jj].0 != id by {
                assert(same_but_parent(self@[jj], other@[jj]));
            }
            assert(other.is_first_key(j, id));
            other.lemma_first_key_unique(j, id);
        }
    }

    /// Where parent links alone changed, each record has the same resolved
    /// children.
    pub proof fn lemma_children_but_parents(self, other: PBXObjectCollection, y: Seq<char>)
        requires
            self.same_but_parents(other),
        ensures
            (self.resolve(y) is Some) ==> self.resolve(y)->0.children_in(self) == other.resolve(
                y,
            )->0.children_in(other),
    {
        self.lemma_resolve_but_parents(other, y);
        if self.resolve(y) is Some {
            assert forall|id: Seq<char>|
                (self.resolve(id) is Some) == (other.resolve(id) is Some) by {
                self.lemma_resolve_but_parents(other, id);
            }
            assert((|id: Seq<char>| self.resolve(id) is Some) =~= (|id: Seq<char>|
                other.resolve(id) is Some));
        }
    }

    /// Where parent links alone changed, the walks are the same.
    pub proof fn lemma_walks_but_parents(
        self,
        other: PBXObjectCollection,
        root: Seq<char>,
        walk: Seq<Seq<char>>,
    )
        requires
            self.same_but_parents(other),
        ensures
            self.is_walk(root, walk) == other.is_walk(root, walk),
    {
        assert forall|k: int| 0 <= k < walk.len() - 1 implies ((self.resolve(#[trigger] walk[k])
            is Some) && self.resolve(walk[k])->0.children_in(self).contains(walk[k + 1])) == ((
        other.resolve(walk[k]) is Some) && other.resolve(walk[k])->0.children_in(other).contains(
            walk[k + 1],
        )) by {
            self.lemma_resolve_but_parents(other, walk[k]);
            self.lemma_children_but_parents(other, walk[k]);
        }
    }

    /// The file-system record held by entry `i`, if it holds one.
    pub(crate) fn fs_reference_at(&self, i: usize) -> (r: Option<&PBXFSReference>)
        requires
            i < self@.len(),
        ensures
            match r {
                Some(n) => self@[i as int].1 == Some(n@),
                None => self@[i as int].1 is None,
            },
    {
        assert(self@[i as int] == entry_view(self.entries@[i as int]));
        self.entries[i].1.as_pbxfs_reference()
    }

    /// Attach the file-system record of entry `i` to `parent`.
    pub(crate) fn set_parent_at(&mut self, i: usize, parent: Option<String>)
        requires
            i < old(self)@.len(),
            old(self)@[i as int].1 is Some,
        ensures
            final(self)@ == old(self)@.update(
                i as int,
                (
                    old(self)@[i as int].0,
                    Some(old(self)@[i as int].1->0.with_parent(opt_str(parent))),
                ),
            ),
    {
        assert(old(self)@[i as int] == entry_view(old(self).entries@[i as int]));
        let (k, obj) = self.entries.remove(i);
        match obj {
            PBXObject::FSReference(mut n) => {
                n.set_parent(parent);
                self.entries.insert(i, (k, PBXObject::FSReference(n)));
            },
            PBXObject::Other(isa) => {
                self.entries.insert(i, (k, PBXObject::Other(isa)));
            },
        }
        assert(self@ =~= old(self)@.update(
            i as int,
            (old(self)@[i as int].0, Some(old(self)@[i as int].1->0.with_parent(opt_str(parent)))),
        ));
    }
}

} // verus!

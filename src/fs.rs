use vstd::prelude::*;
use vstd::set_lib::{lemma_int_range, lemma_len_subset, set_int_range};

use crate::kind::{PBXFSReferenceKind, PBXSourceTree};
use crate::objects::{PBXObjectCollection, same_but_parent};

verus! {

/// The value of an optional text attribute.
pub open spec fn opt_str(o: Option<String>) -> Option<Seq<char>> {
    match o {
        Some(s) => Some(s@),
        None => None,
    }
}

/// The identifiers held in a list of strings.
pub open spec fn ids_view(v: Seq<String>) -> Seq<Seq<char>> {
    v.map_values(|s: String| s@)
}

/// The value of an optional identifier list.
pub open spec fn opt_ids(o: Option<Vec<String>>) -> Option<Seq<Seq<char>>> {
    match o {
        Some(v) => Some(ids_view(v@)),
        None => None,
    }
}

/// An optional identifier list read as a set: order and repetition do not count.
pub open spec fn opt_set(o: Option<Seq<Seq<char>>>) -> Option<Set<Seq<char>>> {
    match o {
        Some(s) => Some(s.to_set()),
        None => None,
    }
}

/// The content of a file-system record, and its parent link.
pub struct FSReferenceModel {
    pub kind: PBXFSReferenceKind,
    pub source_tree: Option<PBXSourceTree>,
    pub path: Option<Seq<char>>,
    pub name: Option<Seq<char>>,
    pub include_in_index: Option<bool>,
    pub uses_tabs: Option<bool>,
    pub indent_width: Option<isize>,
    pub tab_width: Option<isize>,
    pub wraps_lines: Option<bool>,
    pub children: Option<Seq<Seq<char>>>,
    pub file_encoding: Option<isize>,
    pub explicit_file_type: Option<Seq<char>>,
    pub last_known_file_type: Option<Seq<char>>,
    pub line_ending: Option<isize>,
    pub language_specification_identifier: Option<Seq<char>>,
    pub xc_language_specification_identifier: Option<Seq<char>>,
    pub plist_structure_definition_identifier: Option<Seq<char>>,
    pub current_version_reference: Option<Seq<char>>,
    pub version_group_type: Option<Seq<char>>,
    pub parent: Option<Seq<char>>,
}

impl FSReferenceModel {
    /// A record of the given kind with no attribute set.
    pub open spec fn empty(kind: PBXFSReferenceKind) -> FSReferenceModel {
        FSReferenceModel {
            kind,
            source_tree: None,
            path: None,
            name: None,
            include_in_index: None,
            uses_tabs: None,
            indent_width: None,
            tab_width: None,
            wraps_lines: None,
            children: None,
            file_encoding: None,
            explicit_file_type: None,
            last_known_file_type: None,
            line_ending: None,
            language_specification_identifier: None,
            xc_language_specification_identifier: None,
            plist_structure_definition_identifier: None,
            current_version_reference: None,
            version_group_type: None,
            parent: None,
        }
    }

    /// Child identifiers are held as a set: no identifier twice.
    pub open spec fn wf(self) -> bool {
        (self.children is Some) ==> self.children->0.no_duplicates()
    }

    /// The identifiers that children resolution walks: none for a file or
    /// for a record without a child list.
    pub open spec fn child_ids(self) -> Seq<Seq<char>> {
        if self.kind.is_file() || self.children is None {
            Seq::empty()
        } else {
            self.children->0
        }
    }

    /// The children that resolution yields: the child identifiers that name
    /// a file-system record of `objects`, in stored order.
    pub open spec fn children_in(self, objects: PBXObjectCollection) -> Seq<Seq<char>> {
        self.child_ids().filter(|id: Seq<char>| objects.resolve(id) is Some)
    }

    /// The same record, attached to another parent.
    pub open spec fn with_parent(self, parent: Option<Seq<char>>) -> FSReferenceModel {
        FSReferenceModel { parent, ..self }
    }

    /// Structural equality: every attribute but the parent link, with the
    /// child identifiers compared as sets.
    pub open spec fn same_content(self, o: FSReferenceModel) -> bool {
        &&& self.kind == o.kind
        &&& self.source_tree == o.source_tree
        &&& self.path == o.path
        &&& self.name == o.name
        &&& opt_set(self.children) == opt_set(o.children)
        &&& self.current_version_reference == o.current_version_reference
        &&& self.version_group_type == o.version_group_type
        &&& self.include_in_index == o.include_in_index
        &&& self.uses_tabs == o.uses_tabs
        &&& self.indent_width == o.indent_width
        &&& self.tab_width == o.tab_width
        &&& self.wraps_lines == o.wraps_lines
        &&& self.file_encoding == o.file_encoding
        &&& self.explicit_file_type == o.explicit_file_type
        &&& self.last_known_file_type == o.last_known_file_type
        &&& self.line_ending == o.line_ending
        &&& self.language_specification_identifier == o.language_specification_identifier
        &&& self.xc_language_specification_identifier == o.xc_language_specification_identifier
        &&& self.plist_structure_definition_identifier
            == o.plist_structure_definition_identifier
    }

    /// What `get_subgroup` looks for: a group-like record whose path is
    /// `name`, or, where it has no path, whose name is `name`.
    pub open spec fn is_subgroup_named(self, name: Seq<char>) -> bool {
        &&& self.kind.is_group()
        &&& match self.path {
            Some(p) => p == name,
            None => self.name == Some(name),
        }
    }

    /// What `get_file` looks for: a file whose name is `name`, or, where it
    /// has no name, whose path is `name`.
    pub open spec fn is_file_named(self, name: Seq<char>) -> bool {
        &&& self.kind.is_file()
        &&& match self.name {
            Some(n) => n == name,
            None => self.path == Some(name),
        }
    }
}

/// `r` is the first element of `c` that satisfies `p`, or none where no
/// element does.
pub open spec fn is_first_match(
    c: Seq<Seq<char>>,
    p: spec_fn(Seq<char>) -> bool,
    r: Option<Seq<char>>,
) -> bool {
    match r {
        Some(id) => exists|k: int|
            0 <= k < c.len() && c[k] == id && p(c[k]) && forall|j: int| 0 <= j < k ==> !p(c[j]),
        None => forall|j: int| 0 <= j < c.len() ==> !p(c[j]),
    }
}

/// A record of the file-system tree: a file reference, a group, a variant
/// group or a version group.
///
/// Records live in a [`crate::objects::PBXObjectCollection`]; the parent link
/// is the identifier of the parent record in that collection.
#[derive(Debug)]
pub struct PBXFSReference {
    source_tree: Option<PBXSourceTree>,
    path: Option<String>,
    name: Option<String>,
    include_in_index: Option<bool>,
    uses_tabs: Option<bool>,
    indent_width: Option<isize>,
    tab_width: Option<isize>,
    wraps_lines: Option<bool>,
    kind: PBXFSReferenceKind,
    /// Child identifiers (group-like kinds only), without repetition.
    children_references: Option<Vec<String>>,
    file_encoding: Option<isize>,
    explicit_file_type: Option<String>,
    last_known_file_type: Option<String>,
    line_ending: Option<isize>,
    language_specification_identifier: Option<String>,
    xc_language_specification_identifier: Option<String>,
    plist_structure_definition_identifier: Option<String>,
    current_version_reference: Option<String>,
    version_group_type: Option<String>,
    parent: Option<String>,
}

impl View for PBXFSReference {
    type V = FSReferenceModel;

    closed spec fn view(&self) -> FSReferenceModel {
        FSReferenceModel {
            kind: self.kind,
            source_tree: self.source_tree,
            path: opt_str(self.path),
            name: opt_str(self.name),
            include_in_index: self.include_in_index,
            uses_tabs: self.uses_tabs,
            indent_width: self.indent_width,
            tab_width: self.tab_width,
            wraps_lines: self.wraps_lines,
            children: opt_ids(self.children_references),
            file_encoding: self.file_encoding,
            explicit_file_type: opt_str(self.explicit_file_type),
            last_known_file_type: opt_str(self.last_known_file_type),
            line_ending: self.line_ending,
            language_specification_identifier: opt_str(self.language_specification_identifier),
            xc_language_specification_identifier: opt_str(
                self.xc_language_specification_identifier,
            ),
            plist_structure_definition_identifier: opt_str(
                self.plist_structure_definition_identifier,
            ),
            current_version_reference: opt_str(self.current_version_reference),
            version_group_type: opt_str(self.version_group_type),
            parent: opt_str(self.parent),
        }
    }
}

/// Whether two optional texts hold the same value.
fn opt_string_eq(a: &Option<String>, b: &Option<String>) -> (r: bool)
    ensures
        r == (opt_str(*a) == opt_str(*b)),
{
    match (a, b) {
        (Some(x), Some(y)) => *x == *y,
        (None, None) => true,
        _ => false,
    }
}

/// Whether `id` occurs in `v`.
pub(crate) fn contains_id(v: &Vec<String>, id: &String) -> (r: bool)
    ensures
        r == ids_view(v@).contains(id@),
{
    let mut i: usize = 0;
    while i < v.len()
        invariant
            i <= v@.len(),
            forall|j: int| 0 <= j < i ==> v@[j]@ != id@,
        decreases v@.len() - i,
    {
        if v[i] == *id {
            assert(ids_view(v@)[i as int] == id@);
            return true;
        }
        i += 1;
    }
    assert(!ids_view(v@).contains(id@)) by {
        if ids_view(v@).contains(id@) {
            let k = choose|k: int| 0 <= k < ids_view(v@).len() && ids_view(v@)[k] == id@;
            assert(v@[k]@ == id@);
        }
    }
    false
}

/// Whether every identifier of `a` occurs in `b`.
fn ids_within(a: &Vec<String>, b: &Vec<String>) -> (r: bool)
    ensures
        r == ids_view(a@).to_set().subset_of(ids_view(b@).to_set()),
{
    let mut i: usize = 0;
    while i < a.len()
        invariant
            i <= a@.len(),
            forall|j: int| 0 <= j < i ==> ids_view(b@).contains(#[trigger] a@[j]@),
        decreases a@.len() - i,
    {
        if !contains_id(b, &a[i]) {
            assert(ids_view(a@)[i as int] == a@[i as int]@);
            assert(ids_view(a@).to_set().contains(a@[i as int]@));
            return false;
        }
        i += 1;
    }
    assert forall|x: Seq<char>| ids_view(a@).to_set().contains(x) implies ids_view(
        b@,
    ).to_set().contains(x) by {
        let k = choose|k: int| 0 <= k < ids_view(a@).len() && ids_view(a@)[k] == x;
        assert(a@[k]@ == x);
    }
    true
}

/// Whether two optional identifier lists hold the same set.
fn opt_ids_set_eq(a: &Option<Vec<String>>, b: &Option<Vec<String>>) -> (r: bool)
    ensures
        r == (opt_set(opt_ids(*a)) == opt_set(opt_ids(*b))),
{
    match (a, b) {
        (Some(x), Some(y)) => {
            let r = ids_within(x, y) && ids_within(y, x);
            if r {
                assert(ids_view(x@).to_set() =~= ids_view(y@).to_set());
            }
            r
        },
        (None, None) => true,
        _ => false,
    }
}

impl PBXFSReference {
    /// A record of the given kind with no attribute set and no parent.
    pub fn new(kind: PBXFSReferenceKind) -> (r: PBXFSReference)
        ensures
            r@ == FSReferenceModel::empty(kind),
    {
        PBXFSReference {
            source_tree: None,
            path: None,
            name: None,
            include_in_index: None,
            uses_tabs: None,
            indent_width: None,
            tab_width: None,
            wraps_lines: None,
            kind,
            children_references: None,
            file_encoding: None,
            explicit_file_type: None,
            last_known_file_type: None,
            line_ending: None,
            language_specification_identifier: None,
            xc_language_specification_identifier: None,
            plist_structure_definition_identifier: None,
            current_version_reference: None,
            version_group_type: None,
            parent: None,
        }
    }

    /// Whether this record is a file reference.
    pub fn is_file(&self) -> (r: bool)
        ensures
            r == self@.kind.is_file(),
    {
        self.kind.is_file()
    }

    /// Whether this record is group-like: a group, a variant group or a
    /// version group.
    pub fn is_group(&self) -> (r: bool)
        ensures
            r == self@.kind.is_group(),
    {
        self.kind.is_group()
    }

    /// The record's kind.
    pub fn kind(&self) -> (r: PBXFSReferenceKind)
        ensures
            r == self@.kind,
    {
        self.kind
    }

    /// Set the parent link: the identifier of the parent record, if any.
    pub fn set_parent(&mut self, parent: Option<String>)
        ensures
            final(self)@ == old(self)@.with_parent(opt_str(parent)),
    {
        self.parent = parent;
    }

    /// The identifier of the parent record, if one was set.
    #[must_use]
    pub fn parent(&self) -> (r: Option<String>)
        ensures
            opt_str(r) == self@.parent,
    {
        self.parent.clone()
    }

    /// The child identifiers, if any are set.
    pub fn children_references(&self) -> (r: Option<&Vec<String>>)
        ensures
            match r {
                Some(v) => self@.children == Some(ids_view(v@)),
                None => self@.children is None,
            },
    {
        self.children_references.as_ref()
    }

    /// Set the child identifiers; an identifier given twice is kept once.
    pub fn set_children_references(&mut self, ids: Vec<String>)
        ensures
            final(self)@.wf(),
            final(self)@ == (FSReferenceModel { children: final(self)@.children, ..old(self)@ }),
            final(self)@.children is Some,
            final(self)@.children->0.to_set() == ids_view(ids@).to_set(),
    {
        let mut kept: Vec<String> = Vec::new();
        let mut i: usize = 0;
        assert(ids_view(kept@).to_set() =~= ids_view(ids@.take(0)).to_set());
        while i < ids.len()
            invariant
                i <= ids@.len(),
                ids_view(kept@).no_duplicates(),
                ids_view(kept@).to_set() == ids_view(ids@.take(i as int)).to_set(),
            decreases ids@.len() - i,
        {
            let id = &ids[i];
            let ghost before = ids_view(kept@);
            proof {
                assert(ids_view(ids@.take(i + 1)) =~= ids_view(ids@.take(i as int)).push(id@));
                ids_view(ids@.take(i as int)).lemma_push_to_set_commute(id@);
            }
            if !contains_id(&kept, id) {
                kept.push(id.clone());
                proof {
                    assert(ids_view(kept@) =~= before.push(id@));
                    before.lemma_push_to_set_commute(id@);
                    assert(ids_view(kept@).no_duplicates()) by {
                        assert forall|a: int, b: int|
                            0 <= a < ids_view(kept@).len() && 0 <= b < ids_view(kept@).len()
                                && a != b implies ids_view(kept@)[a] != ids_view(kept@)[b] by {
                            if a == before.len() {
                                assert(before.contains(before[b]));
                            } else if b == before.len() {
                                assert(before.contains(before[a]));
                            }
                        }
                    }
                }
            } else {
                proof {
                    assert(before.to_set().contains(id@));
                    assert(before.to_set().insert(id@) =~= before.to_set());
                }
            }
            i += 1;
        }
        assert(ids@.take(ids@.len() as int) =~= ids@);
        self.children_references = Some(kept);
    }

    /// The record's path, if set.
    pub fn path(&self) -> (r: Option<&String>)
        ensures
            match r {
                Some(p) => self@.path == Some(p@),
                None => self@.path is None,
            },
    {
        self.path.as_ref()
    }

    /// Set the record's path.
    pub fn set_path(&mut self, path: Option<String>)
        ensures
            final(self)@ == (FSReferenceModel { path: opt_str(path), ..old(self)@ }),
    {
        self.path = path;
    }

    /// The record's name, if set.
    pub fn name(&self) -> (r: Option<&String>)
        ensures
            match r {
                Some(n) => self@.name == Some(n@),
                None => self@.name is None,
            },
    {
        self.name.as_ref()
    }

    /// Set the record's name.
    pub fn set_name(&mut self, name: Option<String>)
        ensures
            final(self)@ == (FSReferenceModel { name: opt_str(name), ..old(self)@ }),
    {
        self.name = name;
    }
}

impl PartialEq for PBXFSReference {
    fn eq(&self, other: &Self) -> (r: bool)
        ensures
            r == self@.same_content(other@),
    {
        self.kind == other.kind && self.source_tree == other.source_tree && opt_string_eq(
            &self.path,
            &other.path,
        ) && opt_string_eq(&self.name, &other.name) && opt_ids_set_eq(
            &self.children_references,
            &other.children_references,
        ) && opt_string_eq(&self.current_version_reference, &other.current_version_reference)
            && opt_string_eq(&self.version_group_type, &other.version_group_type)
            && self.include_in_index == other.include_in_index && self.uses_tabs
            == other.uses_tabs && self.indent_width == other.indent_width && self.tab_width
            == other.tab_width && self.wraps_lines == other.wraps_lines && self.file_encoding
            == other.file_encoding && opt_string_eq(
            &self.explicit_file_type,
            &other.explicit_file_type,
        ) && opt_string_eq(&self.last_known_file_type, &other.last_known_file_type)
            && self.line_ending == other.line_ending && opt_string_eq(
            &self.language_specification_identifier,
            &other.language_specification_identifier,
        ) && opt_string_eq(
            &self.xc_language_specification_identifier,
            &other.xc_language_specification_identifier,
        ) && opt_string_eq(
            &self.plist_structure_definition_identifier,
            &other.plist_structure_definition_identifier,
        )
    }
}

impl vstd::std_specs::cmp::PartialEqSpecImpl for PBXFSReference {
    open spec fn obeys_eq_spec() -> bool {
        true
    }

    open spec fn eq_spec(&self, other: &PBXFSReference) -> bool {
        self@.same_content(other@)
    }
}

impl Eq for PBXFSReference {

}

impl PBXFSReference {
    /// The identifiers of this record's children that resolve to
    /// file-system records of `objects`, in stored order. Empty for a file
    /// and for a record without child identifiers; identifiers that name no
    /// record, or a record of another kind, are left out.
    pub fn children(&self, objects: &PBXObjectCollection) -> (r: Vec<String>)
        ensures
            ids_view(r@) == self@.children_in(*objects),
            self@.kind.is_file() ==> r@.len() == 0,
    {
        let ghost pred = |id: Seq<char>| objects.resolve(id) is Some;
        if self.is_file() || self.children_references.is_none() {
            assert(self@.child_ids() =~= Seq::<Seq<char>>::empty());
            assert(self@.children_in(*objects) =~= Seq::<Seq<char>>::empty());
            return Vec::new();
        }
        let refs = self.children_references.as_ref().unwrap();
        let ghost ids = ids_view(refs@);
        assert(ids == self@.child_ids());
        let mut r: Vec<String> = Vec::new();
        let mut i: usize = 0;
        assert(ids.take(0) =~= Seq::<Seq<char>>::empty());
        assert(ids_view(r@) =~= ids.take(0).filter(pred));
        while i < refs.len()
            invariant
                i <= refs@.len(),
                ids == ids_view(refs@),
                ids_view(r@) == ids.take(i as int).filter(pred),
                pred == (|id: Seq<char>| objects.resolve(id) is Some),
            decreases refs@.len() - i,
        {
            let id = &refs[i];
            proof {
                assert(ids.take(i + 1) =~= ids.take(i as int).push(id@));
                ids.take(i as int).lemma_filter_push(id@, pred);
            }
            let ghost before = ids_view(r@);
            assert(pred(id@) == (objects.resolve(id@) is Some));
            if objects.contains_fs_reference(id) {
                r.push(id.clone());
                assert(ids_view(r@) =~= before.push(id@));
            }
            i += 1;
        }
        assert(ids.take(ids.len() as int) =~= ids);
        r
    }

    /// The first child that is group-like and whose path is `name`, or,
    /// where it has no path, whose name is `name`. None for a file.
    pub fn get_subgroup(&self, objects: &PBXObjectCollection, name: &str) -> (r: Option<String>)
        ensures
            is_first_match(
                self@.children_in(*objects),
                |id: Seq<char>| objects.names_subgroup(id, name@),
                opt_str(r),
            ),
            self@.kind.is_file() ==> r is None,
    {
        let ghost p = |id: Seq<char>| objects.names_subgroup(id, name@);
        if self.is_file() {
            assert(self@.children_in(*objects) =~= Seq::<Seq<char>>::empty());
            return None;
        }
        let sought_name = name.to_owned();
        let kids = self.children(objects);
        let ghost c = ids_view(kids@);
        let mut k: usize = 0;
        while k < kids.len()
            invariant
                k <= kids@.len(),
                c == ids_view(kids@),
                c == self@.children_in(*objects),
                self@.kind.is_file() ==> kids@.len() == 0,
                sought_name@ == name@,
                p == (|id: Seq<char>| objects.names_subgroup(id, name@)),
                forall|j: int| 0 <= j < k ==> !p(c[j]),
            decreases kids@.len() - k,
        {
            let found = match objects.get_fs_reference(&kids[k]) {
                Some(n) => n.is_group() && match &n.path {
                    Some(path) => *path == sought_name,
                    None => match &n.name {
                        Some(nm) => *nm == sought_name,
                        None => false,
                    },
                },
                None => false,
            };
            assert(c[k as int] == kids@[k as int]@);
            assert(found == p(c[k as int]));
            if found {
                let r = kids[k].clone();
                assert(is_first_match(c, p, Some(c[k as int])));
                return Some(r);
            }
            k += 1;
        }
        None
    }

    /// The first child that is a file and whose name is `name`, or, where
    /// it has no name, whose path is `name`. None for a file.
    pub fn get_file(&self, objects: &PBXObjectCollection, name: &str) -> (r: Option<String>)
        ensures
            is_first_match(
                self@.children_in(*objects),
                |id: Seq<char>| objects.names_file(id, name@),
                opt_str(r),
            ),
            self@.kind.is_file() ==> r is None,
    {
        let ghost p = |id: Seq<char>| objects.names_file(id, name@);
        let sought_name = name.to_owned();
        let kids = self.children(objects);
        let ghost c = ids_view(kids@);
        let mut k: usize = 0;
        while k < kids.len()
            invariant
                k <= kids@.len(),
                c == ids_view(kids@),
                c == self@.children_in(*objects),
                self@.kind.is_file() ==> kids@.len() == 0,
                sought_name@ == name@,
                p == (|id: Seq<char>| objects.names_file(id, name@)),
                forall|j: int| 0 <= j < k ==> !p(c[j]),
            decreases kids@.len() - k,
        {
            let found = match objects.get_fs_reference(&kids[k]) {
                Some(n) => n.is_file() && match &n.name {
                    Some(nm) => *nm == sought_name,
                    None => match &n.path {
                        Some(path) => *path == sought_name,
                        None => false,
                    },
                },
                None => false,
            };
            assert(c[k as int] == kids@[k as int]@);
            assert(found == p(c[k as int]));
            if found {
                let r = kids[k].clone();
                assert(is_first_match(c, p, Some(c[k as int])));
                return Some(r);
            }
            k += 1;
        }
        None
    }
}

/// Where every processed record has its resolved children stamped, every
/// stamped record was processed, and `root` was processed, every record on a
/// walk from `root` after `root` itself is stamped.
proof fn lemma_walk_stamped(
    start: PBXObjectCollection,
    root: Seq<char>,
    stamped: Seq<bool>,
    processed: Set<Seq<char>>,
    walk: Seq<Seq<char>>,
    k: int,
)
    requires
        stamped.len() == start@.len(),
        processed.contains(root),
        forall|y: Seq<char>, c: Seq<char>|
            processed.contains(y) && (start.resolve(y) is Some) && #[trigger] start.resolve(
                y,
            )->0.children_in(start).contains(c) ==> (start.key_index(c) is Some)
                && stamped[start.key_index(c)->0],
        forall|i: int|
            0 <= i < stamped.len() && #[trigger] stamped[i] ==> processed.contains(start@[i].0),
        start.is_walk(root, walk),
        1 <= k < walk.len(),
    ensures
        start.key_index(walk[k]) is Some,
        stamped[start.key_index(walk[k])->0],
    decreases k,
{
    let y = walk[k - 1];
    assert(start.resolve(walk[k - 1]) is Some);
    if k > 1 {
        lemma_walk_stamped(start, root, stamped, processed, walk, k - 1);
        let i = start.key_index(y)->0;
        start.lemma_first_key_unique(i, y);
        assert(processed.contains(start@[i].0));
    }
    assert(processed.contains(y));
}

impl PBXFSReference {
    /// Stamp the records under the record named `this` with their parents:
    /// each child of a record reached from `this` gets the identifier of the
    /// record it was reached from as its parent link. A record reached twice
    /// keeps the link of the first record that reached it, so on a tree each
    /// record gets its one parent, and a cycle in the child lists ends the
    /// walk. Nothing but parent links changes, and only the links of records
    /// reached from `this`: every link written names a record on a walk from
    /// `this` that lists the record it is written on.
    pub fn assign_parent_to_children(objects: &mut PBXObjectCollection, this: &String)
        ensures
            old(objects).parents_assigned(*final(objects), this@),
    {
        let ghost start = *objects;
        let ghost kids0: Seq<Seq<char>> = if start.resolve(this@) is Some {
            start.resolve(this@)->0.children_in(start)
        } else {
            Seq::empty()
        };
        let n = objects.len();
        // stamped[i]: the walk has set the parent link of entry i.
        let mut stamped: Vec<bool> = vec![false; n];
        // Records whose children are still to be visited.
        let mut work: Vec<String> = Vec::new();
        work.push(this.clone());
        // The stamped entries, as a set, which bounds the walk.
        let ghost mut seen: Set<int> = Set::empty();
        // Whether `this` is yet to be visited: it is the first record taken.
        let ghost mut first: bool = true;
        // The records whose children have been visited.
        let ghost mut processed: Set<Seq<char>> = Set::empty();
        proof {
            assert(start.is_walk(this@, seq![this@]));
            assert forall|x: Seq<char>| ids_view(work@).contains(x) implies start.reached(
                this@,
                x,
            ) by {
                assert(ids_view(work@)[0] == this@);
            }
            lemma_int_range(0, n as int);
            assert forall|i: int| 0 <= i < n implies !stamped@[i] by {}
        }
        while work.len() > 0
            invariant
                start == *old(objects),
                objects.same_but_parents(start),
                objects@.len() == n,
                stamped@.len() == n,
                forall|i: int|
                    0 <= i < n ==> (#[trigger] stamped@[i] ==> start.parent_on_walk(this@, objects@[i])
                        && start.key_index(start@[i].0) == Some(i)) && (
                    !stamped@[i] ==> objects@[i] == start@[i]),
                set_int_range(0, n as int).finite(),
                set_int_range(0, n as int).len() == n,
                seen.subset_of(set_int_range(0, n as int)),
                forall|i: int| 0 <= i < n ==> (stamped@[i] <==> seen.contains(i)),
                first ==> work@.len() == 1 && work@[0]@ == this@ && *objects == start && seen
                    =~= Set::<int>::empty(),
                !first ==> forall|id: Seq<char>| #[trigger]
                    kids0.contains(id) ==> {
                        &&& start.key_index(id) is Some
                        &&& stamped@[start.key_index(id)->0]
                        &&& objects@[start.key_index(id)->0].1->0.parent == Some(this@)
                    },
                kids0 == (if start.resolve(this@) is Some {
                    start.resolve(this@)->0.children_in(start)
                } else {
                    Seq::empty()
                }),
                forall|y: Seq<char>, c: Seq<char>|
                    processed.contains(y) && start.resolve(y) is Some && #[trigger] start.resolve(
                        y,
                    )->0.children_in(start).contains(c) ==> start.key_index(c) is Some
                        && stamped@[start.key_index(c)->0],
                forall|i: int|
                    0 <= i < n && #[trigger] stamped@[i] ==> processed.contains(start@[i].0)
                        || ids_view(work@).contains(start@[i].0),
                !first ==> processed.contains(this@),
                forall|x: Seq<char>| ids_view(work@).contains(x) ==> start.reached(this@, x),
            decreases n - seen.len(), work.len(),
        {
            proof {
                lemma_len_subset(seen, set_int_range(0, n as int));
            }
            let ghost work_before = ids_view(work@);
            let cur = work.pop().unwrap();
            proof {
                assert(work_before =~= ids_view(work@).push(cur@));
                assert(work_before[work_before.len() - 1] == cur@);
                assert forall|x: Seq<char>| ids_view(work@).contains(x) implies start.reached(
                    this@,
                    x,
                ) by {
                    let k = choose|k: int| 0 <= k < ids_view(work@).len() && ids_view(work@)[k] == x;
                    assert(work_before[k] == x);
                }
                assert forall|i: int| 0 <= i < n && #[trigger] stamped@[i] implies processed.contains(
                    start@[i].0,
                ) || start@[i].0 == cur@ || ids_view(work@).contains(start@[i].0) by {
                    if work_before.contains(start@[i].0) && start@[i].0 != cur@ {
                        let k = choose|k: int|
                            0 <= k < work_before.len() && work_before[k] == start@[i].0;
                        assert(ids_view(work@)[k] == start@[i].0);
                    }
                }
            }
            let ghost seen0 = seen;
            let ghost w0 = work@.len();
            let ghost at = *objects;
            let kids: Vec<String> = match objects.get_fs_reference(&cur) {
                Some(node) => node.children(objects),
                None => Vec::new(),
            };
            proof {
                assert forall|jj: int| 0 <= jj < kids@.len() implies at.resolve(
                    #[trigger] kids@[jj]@,
                ) is Some by {
                    assert(ids_view(kids@)[jj] == kids@[jj]@);
                    let node = at.resolve(cur@)->0;
                    node.child_ids().lemma_filter_pred(
                        |id: Seq<char>| at.resolve(id) is Some,
                        jj,
                    );
                }
                at.lemma_resolve_but_parents(start, cur@);
                if start.resolve(cur@) is Some {
                    assert forall|id: Seq<char>|
                        (at.resolve(id) is Some) == (start.resolve(id) is Some) by {
                        at.lemma_resolve_but_parents(start, id);
                    }
                    assert((|id: Seq<char>| at.resolve(id) is Some) =~= (|id: Seq<char>|
                        start.resolve(id) is Some));
                    assert(at.resolve(cur@)->0.child_ids() == start.resolve(cur@)->0.child_ids());
                }
                if first {
                    at.lemma_resolve_but_parents(start, cur@);
                    assert(ids_view(kids@) == kids0);
                    assert forall|i: int| 0 <= i < n implies !stamped@[i] by {
                        assert(!seen.contains(i));
                    }
                }
            }
            let mut j: usize = 0;
            while j < kids.len()
                invariant
                    start == *old(objects),
                    objects.same_but_parents(start),
                    at.same_but_parents(start),
                    objects@.len() == n,
                    stamped@.len() == n,
                    kids@.len() > 0 ==> start.resolve(cur@) is Some && ids_view(kids@)
                        == start.resolve(cur@)->0.children_in(start),
                    forall|i: int|
                        0 <= i < n ==> (#[trigger] stamped@[i] ==> start.parent_on_walk(this@, objects@[i])
                        && start.key_index(start@[i].0) == Some(i)) && (
                        !stamped@[i] ==> objects@[i] == start@[i]),
                    set_int_range(0, n as int).finite(),
                    set_int_range(0, n as int).len() == n,
                    seen.subset_of(set_int_range(0, n as int)),
                    forall|i: int| 0 <= i < n ==> (stamped@[i] <==> seen.contains(i)),
                    seen0.subset_of(seen),
                    seen.finite(),
                    work@.len() == w0 + (seen.len() - seen0.len()),
                    forall|jj: int| 0 <= jj < kids@.len() ==> at.resolve(#[trigger] kids@[jj]@) is Some,
                    first ==> cur@ == this@ && ids_view(kids@) == kids0,
                    first ==> forall|i: int|
                        0 <= i < n && #[trigger] stamped@[i] ==> objects@[i].1->0.parent == Some(
                            this@,
                        ),
                    first ==> forall|jj: int|
                        0 <= jj < j ==> start.key_index(#[trigger] kids@[jj]@) is Some
                            && stamped@[start.key_index(kids@[jj]@)->0],
                    !first ==> forall|id: Seq<char>| #[trigger]
                        kids0.contains(id) ==> {
                            &&& start.key_index(id) is Some
                            &&& stamped@[start.key_index(id)->0]
                            &&& objects@[start.key_index(id)->0].1->0.parent == Some(this@)
                        },
                    forall|y: Seq<char>, c: Seq<char>|
                        processed.contains(y) && start.resolve(y) is Some && #[trigger] start.resolve(
                            y,
                        )->0.children_in(start).contains(c) ==> start.key_index(c) is Some
                            && stamped@[start.key_index(c)->0],
                    forall|i: int|
                        0 <= i < n && #[trigger] stamped@[i] ==> processed.contains(start@[i].0)
                            || start@[i].0 == cur@ || ids_view(work@).contains(start@[i].0),
                    forall|jj: int|
                        0 <= jj < j ==> start.key_index(#[trigger] kids@[jj]@) is Some
                            && stamped@[start.key_index(kids@[jj]@)->0],
                    start.resolve(cur@) is Some ==> ids_view(kids@) == start.resolve(
                        cur@,
                    )->0.children_in(start),
                    !first ==> processed.contains(this@),
                    forall|x: Seq<char>| ids_view(work@).contains(x) ==> start.reached(this@, x),
                    start.reached(this@, cur@),
                    kids@.len() > 0 ==> start.resolve(cur@) is Some,
                decreases kids@.len() - j,
            {
                let kid = &kids[j];
                proof {
                    objects.lemma_resolve_but_parents(start, kid@);
                    at.lemma_resolve_but_parents(start, kid@);
                }
                match objects.index_of(kid) {
                    Some(i) => {
                        if !stamped[i] {
                            let ghost before = *objects;
                            let ghost work_prev = ids_view(work@);
                            objects.set_parent_at(i, Some(cur.clone()));
                            stamped[i] = true;
                            work.push(kid.clone());
                            proof {
                                seen = seen.insert(i as int);
                                assert(ids_view(work@) =~= work_prev.push(kid@));
                                assert forall|x: Seq<char>| work_prev.contains(x) implies ids_view(
                                    work@,
                                ).contains(x) by {
                                    let k = choose|k: int| 0 <= k < work_prev.len() && work_prev[k] == x;
                                    assert(ids_view(work@)[k] == x);
                                }
                                assert(ids_view(work@)[work_prev.len() as int] == kid@);
                                assert(ids_view(kids@)[j as int] == kid@);
                                let wc = choose|w: Seq<Seq<char>>|
                                    #[trigger] start.is_walk(this@, w) && w.last() == cur@;
                                let wk = wc.push(kid@);
                                start.lemma_walk_push(this@, wc, kid@);
                                assert(start.is_walk(this@, wk));
                                assert(start@[i as int].0 == kid@);
                                assert(start.key_index(kid@) == Some(i as int));
                                assert(start.parent_on_walk(this@, objects@[i as int]));
                                assert forall|x: Seq<char>| ids_view(work@).contains(
                                    x,
                                ) implies start.reached(this@, x) by {
                                    if x == kid@ {
                                        assert(wk.last() == kid@);
                                    } else {
                                        let k = choose|k: int|
                                            0 <= k < ids_view(work@).len() && ids_view(work@)[k]
                                                == x;
                                        assert(work_prev[k] == x);
                                    }
                                }
                                assert forall|k: int| 0 <= k < n implies same_but_parent(
                                    #[trigger] objects@[k],
                                    start@[k],
                                ) by {
                                    assert(same_but_parent(before@[k], start@[k]));
                                }
                            }
                        }
                    },
                    None => {},
                }
                j += 1;
            }
            proof {
                if first {
                    assert forall|id: Seq<char>| #[trigger] kids0.contains(id) implies {
                        &&& start.key_index(id) is Some
                        &&& stamped@[start.key_index(id)->0]
                        &&& objects@[start.key_index(id)->0].1->0.parent == Some(this@)
                    } by {
                        let jj = choose|jj: int| 0 <= jj < kids0.len() && kids0[jj] == id;
                        assert(ids_view(kids@)[jj] == kids@[jj]@);
                    }
                }
                first = false;
                processed = processed.insert(cur@);
                assert forall|c: Seq<char>| start.resolve(cur@) is Some && #[trigger] start.resolve(
                    cur@,
                )->0.children_in(start).contains(c) implies start.key_index(c) is Some
                    && stamped@[start.key_index(c)->0] by {
                    let jj = choose|jj: int|
                        0 <= jj < ids_view(kids@).len() && ids_view(kids@)[jj] == c;
                    assert(ids_view(kids@)[jj] == kids@[jj]@);
                }
                lemma_len_subset(seen, set_int_range(0, n as int));
                lemma_len_subset(seen0, seen);
            }
        }
        proof {
            assert forall|walk: Seq<Seq<char>>|
                #[trigger] start.is_walk(this@, walk) && walk.len() > 1 implies (objects.resolve(
                walk.last(),
            ) is Some) && start.parent_on_walk(this@, (walk.last(), objects.resolve(walk.last()))) by {
                let x = walk.last();
                lemma_walk_stamped(start, this@, stamped@, processed, walk, walk.len() - 1);
                let i = start.key_index(x)->0;
                start.lemma_first_key_unique(i, x);
                objects.lemma_resolve_but_parents(start, x);
            }
            assert forall|i: int| 0 <= i < n implies #[trigger] objects@[i] == start@[i] || (
            start.key_index(start@[i].0) == Some(i) && start.parent_on_walk(this@, objects@[i])) by {
                if stamped@[i] {
                    assert(start.parent_on_walk(this@, objects@[i]) && start.key_index(start@[i].0)
                        == Some(i));
                } else {
                    assert(objects@[i] == start@[i]);
                }
            }
            assert forall|id: Seq<char>| #[trigger] kids0.contains(id) implies objects.resolve(
                id,
            )->0.parent == Some(this@) by {
                objects.lemma_resolve_but_parents(start, id);
                start.lemma_first_key_unique(start.key_index(id)->0, id);
            }
        }
    }
}

impl PBXFSReference {
    /// The source tree, if set.
    pub fn source_tree(&self) -> (r: Option<PBXSourceTree>)
        ensures
            r == self@.source_tree,
    {
        self.source_tree
    }

    /// Set the source tree.
    pub fn set_source_tree(&mut self, value: Option<PBXSourceTree>)
        ensures
            final(self)@ == (FSReferenceModel { source_tree: value, ..old(self)@ }),
    {
        self.source_tree = value;
    }

    /// The include-in-index flag, if set.
    pub fn include_in_index(&self) -> (r: Option<bool>)
        ensures
            r == self@.include_in_index,
    {
        self.include_in_index
    }

    /// Set the include-in-index flag.
    pub fn set_include_in_index(&mut self, value: Option<bool>)
        ensures
            final(self)@ == (FSReferenceModel { include_in_index: value, ..old(self)@ }),
    {
        self.include_in_index = value;
    }

    /// The uses-tabs setting, if set.
    pub fn uses_tabs(&self) -> (r: Option<bool>)
        ensures
            r == self@.uses_tabs,
    {
        self.uses_tabs
    }

    /// Set the uses-tabs setting.
    pub fn set_uses_tabs(&mut self, value: Option<bool>)
        ensures
            final(self)@ == (FSReferenceModel { uses_tabs: value, ..old(self)@ }),
    {
        self.uses_tabs = value;
    }

    /// The indent width, if set.
    pub fn indent_width(&self) -> (r: Option<isize>)
        ensures
            r == self@.indent_width,
    {
        self.indent_width
    }

    /// Set the indent width.
    pub fn set_indent_width(&mut self, value: Option<isize>)
        ensures
            final(self)@ == (FSReferenceModel { indent_width: value, ..old(self)@ }),
    {
        self.indent_width = value;
    }

    /// The tab width, if set.
    pub fn tab_width(&self) -> (r: Option<isize>)
        ensures
            r == self@.tab_width,
    {
        self.tab_width
    }

    /// Set the tab width.
    pub fn set_tab_width(&mut self, value: Option<isize>)
        ensures
            final(self)@ == (FSReferenceModel { tab_width: value, ..old(self)@ }),
    {
        self.tab_width = value;
    }

    /// The wraps-lines setting, if set.
    pub fn wraps_lines(&self) -> (r: Option<bool>)
        ensures
            r == self@.wraps_lines,
    {
        self.wraps_lines
    }

    /// Set the wraps-lines setting.
    pub fn set_wraps_lines(&mut self, value: Option<bool>)
        ensures
            final(self)@ == (FSReferenceModel { wraps_lines: value, ..old(self)@ }),
    {
        self.wraps_lines = value;
    }

    /// The text encoding of the file, if set.
    pub fn file_encoding(&self) -> (r: Option<isize>)
        ensures
            r == self@.file_encoding,
    {
        self.file_encoding
    }

    /// Set the text encoding of the file.
    pub fn set_file_encoding(&mut self, value: Option<isize>)
        ensures
            final(self)@ == (FSReferenceModel { file_encoding: value, ..old(self)@ }),
    {
        self.file_encoding = value;
    }

    /// The line ending of the file, if set.
    pub fn line_ending(&self) -> (r: Option<isize>)
        ensures
            r == self@.line_ending,
    {
        self.line_ending
    }

    /// Set the line ending of the file.
    pub fn set_line_ending(&mut self, value: Option<isize>)
        ensures
            final(self)@ == (FSReferenceModel { line_ending: value, ..old(self)@ }),
    {
        self.line_ending = value;
    }

    /// The user-specified file type, if set.
    pub fn explicit_file_type(&self) -> (r: Option<&String>)
        ensures
            match r {
                Some(v) => self@.explicit_file_type == Some(v@),
                None => self@.explicit_file_type is None,
            },
    {
        self.explicit_file_type.as_ref()
    }

    /// Set the user-specified file type.
    pub fn set_explicit_file_type(&mut self, value: Option<String>)
        ensures
            final(self)@ == (FSReferenceModel { explicit_file_type: opt_str(value), ..old(self)@ }),
    {
        self.explicit_file_type = value;
    }

    /// The derived file type, if set.
    pub fn last_known_file_type(&self) -> (r: Option<&String>)
        ensures
            match r {
                Some(v) => self@.last_known_file_type == Some(v@),
                None => self@.last_known_file_type is None,
            },
    {
        self.last_known_file_type.as_ref()
    }

    /// Set the derived file type.
    pub fn set_last_known_file_type(&mut self, value: Option<String>)
        ensures
            final(self)@ == (FSReferenceModel { last_known_file_type: opt_str(value), ..old(self)@ }),
    {
        self.last_known_file_type = value;
    }

    /// The legacy language identifier, if set.
    pub fn language_specification_identifier(&self) -> (r: Option<&String>)
        ensures
            match r {
                Some(v) => self@.language_specification_identifier == Some(v@),
                None => self@.language_specification_identifier is None,
            },
    {
        self.language_specification_identifier.as_ref()
    }

    /// Set the legacy language identifier.
    pub fn set_language_specification_identifier(&mut self, value: Option<String>)
        ensures
            final(self)@ == (FSReferenceModel { language_specification_identifier: opt_str(value), ..old(self)@ }),
    {
        self.language_specification_identifier = value;
    }

    /// The language identifier, if set.
    pub fn xc_language_specification_identifier(&self) -> (r: Option<&String>)
        ensures
            match r {
                Some(v) => self@.xc_language_specification_identifier == Some(v@),
                None => self@.xc_language_specification_identifier is None,
            },
    {
        self.xc_language_specification_identifier.as_ref()
    }

    /// Set the language identifier.
    pub fn set_xc_language_specification_identifier(&mut self, value: Option<String>)
        ensures
            final(self)@ == (FSReferenceModel { xc_language_specification_identifier: opt_str(value), ..old(self)@ }),
    {
        self.xc_language_specification_identifier = value;
    }

    /// The plist structure identifier, if set.
    pub fn plist_structure_definition_identifier(&self) -> (r: Option<&String>)
        ensures
            match r {
                Some(v) => self@.plist_structure_definition_identifier == Some(v@),
                None => self@.plist_structure_definition_identifier is None,
            },
    {
        self.plist_structure_definition_identifier.as_ref()
    }

    /// Set the plist structure identifier.
    pub fn set_plist_structure_definition_identifier(&mut self, value: Option<String>)
        ensures
            final(self)@ == (FSReferenceModel { plist_structure_definition_identifier: opt_str(value), ..old(self)@ }),
    {
        self.plist_structure_definition_identifier = value;
    }

    /// The current version (version groups), if set.
    pub fn current_version_reference(&self) -> (r: Option<&String>)
        ensures
            match r {
                Some(v) => self@.current_version_reference == Some(v@),
                None => self@.current_version_reference is None,
            },
    {
        self.current_version_reference.as_ref()
    }

    /// Set the current version (version groups).
    pub fn set_current_version_reference(&mut self, value: Option<String>)
        ensures
            final(self)@ == (FSReferenceModel { current_version_reference: opt_str(value), ..old(self)@ }),
    {
        self.current_version_reference = value;
    }

    /// The version group type, if set.
    pub fn version_group_type(&self) -> (r: Option<&String>)
        ensures
            match r {
                Some(v) => self@.version_group_type == Some(v@),
                None => self@.version_group_type is None,
            },
    {
        self.version_group_type.as_ref()
    }

    /// Set the version group type.
    pub fn set_version_group_type(&mut self, value: Option<String>)
        ensures
            final(self)@ == (FSReferenceModel { version_group_type: opt_str(value), ..old(self)@ }),
    {
        self.version_group_type = value;
    }
}

} // verus!

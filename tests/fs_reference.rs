use xcodeproj::{PBXFSReference, PBXFSReferenceKind, PBXObject, PBXObjectCollection, PBXSourceTree};

fn s(v: &str) -> String {
    v.to_string()
}

fn group(path: Option<&str>, name: Option<&str>, children: &[&str]) -> PBXFSReference {
    let mut g = PBXFSReference::new(PBXFSReferenceKind::Group);
    g.set_path(path.map(s));
    g.set_name(name.map(s));
    g.set_children_references(children.iter().map(|c| s(c)).collect());
    g
}

fn file(path: Option<&str>, name: Option<&str>) -> PBXFSReference {
    let mut f = PBXFSReference::new(PBXFSReferenceKind::File);
    f.set_path(path.map(s));
    f.set_name(name.map(s));
    f
}

/// A main group `G0` holding the `Source` group, a `Resources` group and a
/// file; `Source` holds `Log.swift` and `App.swift`.
fn demo() -> PBXObjectCollection {
    let mut objects = PBXObjectCollection::new();
    objects.insert(s("G0"), PBXObject::FSReference(group(None, None, &["A1", "B2", "F0"])));
    objects.insert(s("A1"), PBXObject::FSReference(group(Some("Source"), None, &["F1", "F2"])));
    objects.insert(s("B2"), PBXObject::FSReference(group(None, Some("Resources"), &[])));
    objects.insert(s("F0"), PBXObject::FSReference(file(Some("README.md"), None)));
    objects.insert(s("F1"), PBXObject::FSReference(file(None, Some("Log.swift"))));
    objects.insert(s("F2"), PBXObject::FSReference(file(Some("App.swift"), None)));
    PBXFSReference::assign_parent_to_children(&mut objects, &s("G0"));
    objects
}

#[test]
fn get_parent() {
    let objects = demo();
    let main_group = objects.get_fs_reference(&s("G0")).unwrap();
    let source_id = main_group.get_subgroup(&objects, "Source").unwrap();
    let source_group = objects.get_fs_reference(&source_id).unwrap();
    let parent = source_group.parent();
    let parent = objects.get_fs_reference(&parent.unwrap()).unwrap();
    assert_eq!(parent.children_references(), main_group.children_references())
}

#[test]
fn get_file() {
    let objects = demo();
    let source_group = objects.get_fs_reference(&s("A1")).unwrap();
    let file = source_group.get_file(&objects, "Log.swift");
    assert!(file.is_some())
}

#[test]
fn file_has_no_children() {
    let mut objects = demo();
    let mut f = file(None, Some("Odd.swift"));
    f.set_children_references(vec![s("F1")]);
    objects.insert(s("F9"), PBXObject::FSReference(f));
    let f = objects.get_fs_reference(&s("F9")).unwrap();
    assert!(f.children(&objects).is_empty());
    assert_eq!(f.get_file(&objects, "Log.swift"), None);
    assert_eq!(f.get_subgroup(&objects, "Source"), None);
}

#[test]
fn children_skip_unknown_and_other_records() {
    let mut objects = PBXObjectCollection::new();
    objects.insert(s("G"), PBXObject::FSReference(group(None, None, &["X", "T", "F"])));
    objects.insert(s("T"), PBXObject::Other(s("PBXNativeTarget")));
    objects.insert(s("F"), PBXObject::FSReference(file(None, Some("a.swift"))));
    let g = objects.get_fs_reference(&s("G")).unwrap();
    assert_eq!(g.children(&objects), vec![s("F")]);
}

#[test]
fn children_of_main_group() {
    let objects = demo();
    let g = objects.get_fs_reference(&s("G0")).unwrap();
    assert_eq!(g.children(&objects), vec![s("A1"), s("B2"), s("F0")]);
}

#[test]
fn parents_follow_child_lists() {
    let objects = demo();
    for (child, parent) in [("A1", "G0"), ("B2", "G0"), ("F0", "G0"), ("F1", "A1"), ("F2", "A1")] {
        let c = objects.get_fs_reference(&s(child)).unwrap();
        assert_eq!(c.parent(), Some(s(parent)));
    }
    assert_eq!(objects.get_fs_reference(&s("G0")).unwrap().parent(), None);
}

#[test]
fn parent_assignment_is_repeatable() {
    let mut objects = demo();
    PBXFSReference::assign_parent_to_children(&mut objects, &s("G0"));
    assert_eq!(objects.get_fs_reference(&s("F1")).unwrap().parent(), Some(s("A1")));
    assert_eq!(objects.get_fs_reference(&s("A1")).unwrap().parent(), Some(s("G0")));
}

#[test]
fn parent_assignment_ends_on_a_cycle() {
    let mut objects = PBXObjectCollection::new();
    objects.insert(s("P"), PBXObject::FSReference(group(Some("p"), None, &["Q"])));
    objects.insert(s("Q"), PBXObject::FSReference(group(Some("q"), None, &["P"])));
    PBXFSReference::assign_parent_to_children(&mut objects, &s("P"));
    assert_eq!(objects.get_fs_reference(&s("Q")).unwrap().parent(), Some(s("P")));
    assert_eq!(objects.get_fs_reference(&s("P")).unwrap().parent(), Some(s("Q")));
}

#[test]
fn lookups_are_repeatable() {
    let objects = demo();
    let g = objects.get_fs_reference(&s("G0")).unwrap();
    assert_eq!(g.get_subgroup(&objects, "Source"), g.get_subgroup(&objects, "Source"));
    let a = objects.get_fs_reference(&s("A1")).unwrap();
    assert_eq!(a.get_file(&objects, "Log.swift"), a.get_file(&objects, "Log.swift"));
}

#[test]
fn subgroup_path_before_name() {
    let mut objects = PBXObjectCollection::new();
    objects.insert(s("G"), PBXObject::FSReference(group(None, None, &["S"])));
    objects.insert(s("S"), PBXObject::FSReference(group(Some("dir"), Some("Label"), &[])));
    let g = objects.get_fs_reference(&s("G")).unwrap();
    assert_eq!(g.get_subgroup(&objects, "dir"), Some(s("S")));
    assert_eq!(g.get_subgroup(&objects, "Label"), None);
}

#[test]
fn file_name_before_path() {
    let mut objects = PBXObjectCollection::new();
    objects.insert(s("G"), PBXObject::FSReference(group(None, None, &["F"])));
    objects.insert(s("F"), PBXObject::FSReference(file(Some("src/a.swift"), Some("a.swift"))));
    let g = objects.get_fs_reference(&s("G")).unwrap();
    assert_eq!(g.get_file(&objects, "a.swift"), Some(s("F")));
    assert_eq!(g.get_file(&objects, "src/a.swift"), None);
}

#[test]
fn lookups_skip_wrong_kind() {
    let objects = demo();
    let g = objects.get_fs_reference(&s("G0")).unwrap();
    assert_eq!(g.get_file(&objects, "Source"), None);
    assert_eq!(g.get_subgroup(&objects, "README.md"), None);
    assert_eq!(g.get_subgroup(&objects, "Resources"), Some(s("B2")));
    assert_eq!(g.get_file(&objects, "README.md"), Some(s("F0")));
}

#[test]
fn subgroup_scenario() {
    let objects = demo();
    let g0 = objects.get_fs_reference(&s("G0")).unwrap();
    let found = g0.get_subgroup(&objects, "Source");
    assert_eq!(found, Some(s("A1")));
    let a1 = objects.get_fs_reference(&s("A1")).unwrap();
    let parent = objects.get_fs_reference(&a1.parent().unwrap()).unwrap();
    assert!(parent == g0);
}

#[test]
fn file_scenario() {
    let mut objects = PBXObjectCollection::new();
    objects.insert(s("G0"), PBXObject::FSReference(group(None, None, &["F1"])));
    objects.insert(s("F1"), PBXObject::FSReference(file(None, Some("Log.swift"))));
    let g0 = objects.get_fs_reference(&s("G0")).unwrap();
    assert_eq!(g0.get_file(&objects, "Log.swift"), Some(s("F1")));
    assert_eq!(g0.get_file(&objects, "nonexistent"), None);
}

#[test]
fn group_without_child_list() {
    let mut objects = demo();
    objects.insert(s("E"), PBXObject::FSReference(PBXFSReference::new(PBXFSReferenceKind::Group)));
    let e = objects.get_fs_reference(&s("E")).unwrap();
    assert!(e.children_references().is_none());
    assert!(e.children(&objects).is_empty());
    assert_eq!(e.get_subgroup(&objects, "Source"), None);
    assert_eq!(e.get_file(&objects, "Log.swift"), None);
    assert_eq!(e.get_subgroup(&objects, ""), None);
}

#[test]
fn equality_ignores_parent_and_child_order() {
    let mut a = group(Some("Source"), None, &["X", "Y"]);
    let mut b = group(Some("Source"), None, &["Y", "X", "Y"]);
    a.set_parent(Some(s("MainGroup")));
    b.set_parent(Some(s("OtherGroup")));
    assert!(a == b);
    assert!(b == a);
    assert!(a == a);
    let c = group(Some("Source"), None, &["X"]);
    assert!(a != c);
    let d = group(Some("Other"), None, &["X", "Y"]);
    assert!(a != d);
    let e = file(Some("Source"), None);
    assert!(e != group(Some("Source"), None, &[]));
}

#[test]
fn duplicate_child_identifiers_kept_once() {
    let g = group(None, None, &["A", "B", "A"]);
    assert_eq!(g.children_references(), Some(&vec![s("A"), s("B")]));
}

#[test]
fn insert_replaces_existing_record() {
    let mut objects = demo();
    objects.insert(s("F1"), PBXObject::FSReference(file(None, Some("Other.swift"))));
    let a1 = objects.get_fs_reference(&s("A1")).unwrap();
    assert_eq!(a1.get_file(&objects, "Log.swift"), None);
    assert_eq!(a1.get_file(&objects, "Other.swift"), Some(s("F1")));
    assert_eq!(objects.len(), 6);
}

#[test]
fn kind_classification() {
    assert!(PBXFSReference::new(PBXFSReferenceKind::File).is_file());
    for k in [
        PBXFSReferenceKind::Group,
        PBXFSReferenceKind::VariantGroup,
        PBXFSReferenceKind::VersionGroup,
    ] {
        let r = PBXFSReference::new(k);
        assert!(r.is_group());
        assert!(!r.is_file());
        assert_eq!(r.kind(), k);
    }
}

#[test]
fn attribute_accessors() {
    let mut f = PBXFSReference::new(PBXFSReferenceKind::File);
    assert_eq!(f.path(), None);
    f.set_source_tree(Some(PBXSourceTree::Group));
    f.set_include_in_index(Some(false));
    f.set_uses_tabs(Some(true));
    f.set_indent_width(Some(4));
    f.set_tab_width(Some(8));
    f.set_wraps_lines(Some(true));
    f.set_file_encoding(Some(4));
    f.set_line_ending(Some(0));
    f.set_explicit_file_type(Some(s("text")));
    f.set_last_known_file_type(Some(s("sourcecode.swift")));
    f.set_language_specification_identifier(Some(s("swift")));
    f.set_xc_language_specification_identifier(Some(s("xcode.lang.swift")));
    f.set_plist_structure_definition_identifier(Some(s("plist")));
    f.set_current_version_reference(Some(s("V1")));
    f.set_version_group_type(Some(s("wrapper.xcdatamodel")));
    assert_eq!(f.source_tree(), Some(PBXSourceTree::Group));
    assert_eq!(f.include_in_index(), Some(false));
    assert_eq!(f.uses_tabs(), Some(true));
    assert_eq!(f.indent_width(), Some(4));
    assert_eq!(f.tab_width(), Some(8));
    assert_eq!(f.wraps_lines(), Some(true));
    assert_eq!(f.file_encoding(), Some(4));
    assert_eq!(f.line_ending(), Some(0));
    assert_eq!(f.explicit_file_type(), Some(&s("text")));
    assert_eq!(f.last_known_file_type(), Some(&s("sourcecode.swift")));
    assert_eq!(f.language_specification_identifier(), Some(&s("swift")));
    assert_eq!(f.xc_language_specification_identifier(), Some(&s("xcode.lang.swift")));
    assert_eq!(f.plist_structure_definition_identifier(), Some(&s("plist")));
    assert_eq!(f.current_version_reference(), Some(&s("V1")));
    assert_eq!(f.version_group_type(), Some(&s("wrapper.xcdatamodel")));

    let mut g = PBXFSReference::new(PBXFSReferenceKind::File);
    assert!(f != g);
    g.set_source_tree(Some(PBXSourceTree::Group));
    g.set_include_in_index(Some(false));
    g.set_uses_tabs(Some(true));
    g.set_indent_width(Some(4));
    g.set_tab_width(Some(8));
    g.set_wraps_lines(Some(true));
    g.set_file_encoding(Some(4));
    g.set_line_ending(Some(0));
    g.set_explicit_file_type(Some(s("text")));
    g.set_last_known_file_type(Some(s("sourcecode.swift")));
    g.set_language_specification_identifier(Some(s("swift")));
    g.set_xc_language_specification_identifier(Some(s("xcode.lang.swift")));
    g.set_plist_structure_definition_identifier(Some(s("plist")));
    g.set_current_version_reference(Some(s("V1")));
    g.set_version_group_type(Some(s("wrapper.xcdatamodel")));
    assert!(f == g);
    g.set_tab_width(Some(2));
    assert!(f != g);
}

#[test]
fn parent_assignment_from_a_file_changes_nothing() {
    let mut objects = demo();
    let mut f = file(None, Some("Stray.swift"));
    f.set_children_references(vec![s("A1")]);
    f.set_parent(Some(s("Elsewhere")));
    objects.insert(s("F9"), PBXObject::FSReference(f));
    PBXFSReference::assign_parent_to_children(&mut objects, &s("F9"));
    PBXFSReference::assign_parent_to_children(&mut objects, &s("missing"));
    assert_eq!(objects.get_fs_reference(&s("A1")).unwrap().parent(), Some(s("G0")));
    assert_eq!(objects.get_fs_reference(&s("F9")).unwrap().parent(), Some(s("Elsewhere")));
}

#[test]
fn parent_assignment_leaves_records_outside_the_subtree() {
    let mut objects = demo();
    let mut stale = group(Some("Old"), None, &["F1"]);
    stale.set_parent(Some(s("Nowhere")));
    objects.insert(s("S9"), PBXObject::FSReference(stale));
    PBXFSReference::assign_parent_to_children(&mut objects, &s("A1"));
    assert_eq!(objects.get_fs_reference(&s("F1")).unwrap().parent(), Some(s("A1")));
    assert_eq!(objects.get_fs_reference(&s("A1")).unwrap().parent(), Some(s("G0")));
    assert_eq!(objects.get_fs_reference(&s("B2")).unwrap().parent(), Some(s("G0")));
    assert_eq!(objects.get_fs_reference(&s("G0")).unwrap().parent(), None);
    assert_eq!(objects.get_fs_reference(&s("S9")).unwrap().parent(), Some(s("Nowhere")));
}

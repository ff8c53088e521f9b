use vstd::prelude::*;

use crate::fs::{FSReferenceModel, is_first_match};
use crate::objects::{PBXObjectCollection, same_but_parent};

verus! {

/// A first match is unique: two results that are both the first element of
/// `c` satisfying `p` are the same.
pub proof fn lemma_first_match_unique(
    c: Seq<Seq<char>>,
    p: spec_fn(Seq<char>) -> bool,
    r1: Option<Seq<char>>,
    r2: Option<Seq<char>>,
)
    requires
        is_first_match(c, p, r1),
        is_first_match(c, p, r2),
    ensures
        r1 == r2,
{
    if r1 is Some && r2 is Some {
        let k1 = choose|k: int|
            0 <= k < c.len() && c[k] == r1->0 && p(c[k]) && forall|j: int|
                0 <= j < k ==> !p(c[j]);
        let k2 = choose|k: int|
            0 <= k < c.len() && c[k] == r2->0 && p(c[k]) && forall|j: int|
                0 <= j < k ==> !p(c[j]);
        assert(k1 == k2) by {
            if k1 < k2 {
                assert(!p(c[k1]));
            } else if k2 < k1 {
                assert(!p(c[k2]));
            }
        }
    } else if r1 is Some {
        let k1 = choose|k: int|
            0 <= k < c.len() && c[k] == r1->0 && p(c[k]) && forall|j: int|
                0 <= j < k ==> !p(c[j]);
        assert(!p(c[k1]));
    } else if r2 is Some {
        let k2 = choose|k: int|
            0 <= k < c.len() && c[k] == r2->0 && p(c[k]) && forall|j: int|
                0 <= j < k ==> !p(c[j]);
        assert(!p(c[k2]));
    }
}

/// Looking up a subgroup by name twice, in an unchanged tree, gives the
/// same answer both times.
pub proof fn lemma_get_subgroup_repeatable(
    node: FSReferenceModel,
    objects: PBXObjectCollection,
    name: Seq<char>,
    r1: Option<Seq<char>>,
    r2: Option<Seq<char>>,
)
    requires
        is_first_match(
            node.children_in(objects),
            |id: Seq<char>| objects.names_subgroup(id, name),
            r1,
        ),
        is_first_match(
            node.children_in(objects),
            |id: Seq<char>| objects.names_subgroup(id, name),
            r2,
        ),
    ensures
        r1 == r2,
{
    lemma_first_match_unique(
        node.children_in(objects),
        |id: Seq<char>| objects.names_subgroup(id, name),
        r1,
        r2,
    );
}

/// Looking up a file by name twice, in an unchanged tree, gives the same
/// answer both times.
pub proof fn lemma_get_file_repeatable(
    node: FSReferenceModel,
    objects: PBXObjectCollection,
    name: Seq<char>,
    r1: Option<Seq<char>>,
    r2: Option<Seq<char>>,
)
    requires
        is_first_match(node.children_in(objects), |id: Seq<char>| objects.names_file(id, name), r1),
        is_first_match(node.children_in(objects), |id: Seq<char>| objects.names_file(id, name), r2),
    ensures
        r1 == r2,
{
    lemma_first_match_unique(
        node.children_in(objects),
        |id: Seq<char>| objects.names_file(id, name),
        r1,
        r2,
    );
}

/// Structural equality is reflexive.
pub proof fn lemma_same_content_reflexive(a: FSReferenceModel)
    ensures
        a.same_content(a),
{
}

/// Structural equality is symmetric.
pub proof fn lemma_same_content_symmetric(a: FSReferenceModel, b: FSReferenceModel)
    requires
        a.same_content(b),
    ensures
        b.same_content(a),
{
}

/// Structural equality is transitive.
pub proof fn lemma_same_content_transitive(
    a: FSReferenceModel,
    b: FSReferenceModel,
    c: FSReferenceModel,
)
    requires
        a.same_content(b),
        b.same_content(c),
    ensures
        a.same_content(c),
{
}

/// Structural equality does not depend on where a record sits: the same
/// content under two parents is equal.
pub proof fn lemma_same_content_under_any_parent(
    a: FSReferenceModel,
    p: Option<Seq<char>>,
    q: Option<Seq<char>>,
)
    ensures
        a.with_parent(p).same_content(a.with_parent(q)),
{
}

/// A subgroup is found by its path before its name: a group-like record
/// whose path and name differ answers to its path and not to its name.
pub proof fn lemma_subgroup_path_before_name(m: FSReferenceModel, path: Seq<char>, name: Seq<char>)
    requires
        m.kind.is_group(),
        m.path == Some(path),
        m.name == Some(name),
        path != name,
    ensures
        m.is_subgroup_named(path),
        !m.is_subgroup_named(name),
{
}

/// A file is found by its name before its path: a file record whose name
/// and path differ answers to its name and not to its path.
pub proof fn lemma_file_name_before_path(m: FSReferenceModel, path: Seq<char>, name: Seq<char>)
    requires
        m.kind.is_file(),
        m.path == Some(path),
        m.name == Some(name),
        path != name,
    ensures
        m.is_file_named(name),
        !m.is_file_named(path),
{
}

/// Stamping parent links from a root that names no record, or names a file,
/// changes nothing.
pub proof fn lemma_assign_from_leaf_changes_nothing(
    before: PBXObjectCollection,
    after: PBXObjectCollection,
    root: Seq<char>,
)
    requires
        before.parents_assigned(after, root),
        (before.resolve(root) is None) || before.resolve(root)->0.kind.is_file(),
    ensures
        after@ == before@,
{
    assert forall|i: int| 0 <= i < before@.len() implies after@[i] == before@[i] by {
        if after@[i] != before@[i] {
            let e = after@[i];
            let w = choose|w: Seq<Seq<char>>|
                #[trigger] before.is_walk(root, w) && (before.resolve(w.last()) is Some)
                    && before.resolve(w.last())->0.children_in(before).contains(e.0)
                    && e.1->0.parent == Some(w.last());
            let wk = w.push(e.0);
            before.lemma_walk_push(root, w, e.0);
            assert(before.resolve(wk[0]) is Some && before.resolve(wk[0])->0.children_in(
                before,
            ).contains(wk[1]));
            lemma_file_has_no_children(before.resolve(root)->0, before);
        }
    }
    assert(after@ =~= before@);
}

/// On a tree below the root, where each record reached from the root in one
/// step or more is reached from one record only, every such record ends with
/// the record it sits under as its parent.
pub proof fn lemma_assign_on_tree(
    before: PBXObjectCollection,
    after: PBXObjectCollection,
    root: Seq<char>,
    walk: Seq<Seq<char>>,
)
    requires
        before.parents_assigned(after, root),
        forall|w1: Seq<Seq<char>>, w2: Seq<Seq<char>>|
            #[trigger] before.is_walk(root, w1) && #[trigger] before.is_walk(root, w2) && w1.len()
                > 1 && w2.len() > 1 && w1.last() == w2.last() ==> w1[w1.len() - 2] == w2[w2.len()
                - 2],
        before.is_walk(root, walk),
        walk.len() > 1,
    ensures
        after.resolve(walk.last()) is Some,
        after.resolve(walk.last())->0.parent == Some(walk[walk.len() - 2]),
{
    let x = walk.last();
    let m = after.resolve(x);
    assert(before.parent_on_walk(root, (x, m)));
    let w = choose|w: Seq<Seq<char>>|
        #[trigger] before.is_walk(root, w) && (before.resolve(w.last()) is Some) && before.resolve(
            w.last(),
        )->0.children_in(before).contains(x) && m->0.parent == Some(w.last());
    before.lemma_walk_push(root, w, x);
    let wk = w.push(x);
    assert(wk[wk.len() - 2] == w.last());
    assert(before.is_walk(root, wk) && before.is_walk(root, walk));
}

/// Stamping parent links from the same root a second time changes nothing,
/// where each record reached from the root in one step or more is reached
/// from one record only.
pub proof fn lemma_assign_twice_changes_nothing(
    before: PBXObjectCollection,
    once: PBXObjectCollection,
    twice: PBXObjectCollection,
    root: Seq<char>,
)
    requires
        before.parents_assigned(once, root),
        once.parents_assigned(twice, root),
        forall|w1: Seq<Seq<char>>, w2: Seq<Seq<char>>|
            #[trigger] before.is_walk(root, w1) && #[trigger] before.is_walk(root, w2) && w1.len()
                > 1 && w2.len() > 1 && w1.last() == w2.last() ==> w1[w1.len() - 2] == w2[w2.len()
                - 2],
    ensures
        twice@ == once@,
{
    assert forall|i: int| 0 <= i < once@.len() implies twice@[i] == once@[i] by {
        if twice@[i] != once@[i] {
            lemma_second_stamp_keeps_entry(before, once, twice, root, i);
        }
    }
    assert(twice@ =~= once@);
}

/// One entry of the second run: its parent link is the one the first run
/// wrote.
proof fn lemma_second_stamp_keeps_entry(
    before: PBXObjectCollection,
    once: PBXObjectCollection,
    twice: PBXObjectCollection,
    root: Seq<char>,
    i: int,
)
    requires
        once.same_but_parents(before),
        twice.same_but_parents(once),
        forall|walk: Seq<Seq<char>>|
            #[trigger] before.is_walk(root, walk) && walk.len() > 1 ==> (once.resolve(walk.last())
                is Some) && before.parent_on_walk(root, (walk.last(), once.resolve(walk.last()))),
        forall|w1: Seq<Seq<char>>, w2: Seq<Seq<char>>|
            #[trigger] before.is_walk(root, w1) && #[trigger] before.is_walk(root, w2) && w1.len()
                > 1 && w2.len() > 1 && w1.last() == w2.last() ==> w1[w1.len() - 2] == w2[w2.len()
                - 2],
        0 <= i < once@.len(),
        once.key_index(once@[i].0) == Some(i),
        once.parent_on_walk(root, twice@[i]),
    ensures
        twice@[i] == once@[i],
{
    {
        let e = twice@[i];
        let key = once@[i].0;
        let w = choose|w: Seq<Seq<char>>|
            #[trigger] once.is_walk(root, w) && (once.resolve(w.last()) is Some) && once.resolve(
                w.last(),
            )->0.children_in(once).contains(e.0) && e.1->0.parent == Some(w.last());
        assert(same_but_parent(twice@[i], once@[i]));
        let wk = w.push(key);
        once.lemma_walk_push(root, w, key);
        once.lemma_walks_but_parents(before, root, wk);
        assert(before.is_walk(root, wk) && wk.len() > 1);
        once.lemma_first_key_unique(i, key);
        assert(wk.last() == key);
        let m = once.resolve(key);
        assert(m == once@[i].1);
        assert(before.parent_on_walk(root, (key, m)));
        let w2 = choose|w2: Seq<Seq<char>>|
            #[trigger] before.is_walk(root, w2) && (before.resolve(w2.last()) is Some)
                && before.resolve(w2.last())->0.children_in(before).contains(key)
                && m->0.parent == Some(w2.last());
        let wk2 = w2.push(key);
        before.lemma_walk_push(root, w2, key);
        assert(wk[wk.len() - 2] == w.last());
        assert(wk2[wk2.len() - 2] == w2.last());
        assert(w.last() == w2.last());
        assert(twice@[i].1->0 == once@[i].1->0);
    }
}

/// A file record has no children, whatever the collection holds.
pub proof fn lemma_file_has_no_children(m: FSReferenceModel, objects: PBXObjectCollection)
    requires
        m.kind.is_file(),
    ensures
        m.children_in(objects).len() == 0,
{
    assert(m.child_ids() =~= Seq::<Seq<char>>::empty());
    assert(m.children_in(objects) =~= Seq::<Seq<char>>::empty());
}

} // verus!

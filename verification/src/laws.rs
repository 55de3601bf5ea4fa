use vstd::prelude::*;

use crate::file::File;
use crate::file::FileV;
use crate::folder::{
    lemma_first_folder, v_add_file, v_append, v_append_all, v_contains, v_first_folder, v_folder,
    v_id, v_remove, v_remove_folder, v_remove_folder_keep_children, v_same_identity,
    with_children, Folder, FolderV, NodeV,
};
use vstd::std_specs::cmp::PartialEqSpec;

verus! {

/// How many folders (when `folder_kind` is true) or leaves (otherwise) with
/// id `id` a node's subtree holds, the node itself included.
pub open spec fn v_count_node(n: NodeV, folder_kind: bool, id: int) -> nat
    decreases n,
{
    match n {
        NodeV::File(f) => if !folder_kind && f.id == id {
            1nat
        } else {
            0nat
        },
        NodeV::Folder(f) => v_count_folder(f, folder_kind, id),
    }
}

/// The same count over a folder's whole subtree, the folder itself included.
pub open spec fn v_count_folder(f: FolderV, folder_kind: bool, id: int) -> nat
    decreases f,
{
    (if folder_kind && f.id == id {
        1nat
    } else {
        0nat
    }) + v_count_seq(f.children, folder_kind, id)
}

/// The same count summed over a sequence of nodes.
pub open spec fn v_count_seq(s: Seq<NodeV>, folder_kind: bool, id: int) -> nat
    decreases s,
{
    if s.len() == 0 {
        0nat
    } else {
        v_count_node(s[0], folder_kind, id) + v_count_seq(s.drop_first(), folder_kind, id)
    }
}

/// Whether a node of this kind and id is reachable anywhere in `f`'s subtree.
pub open spec fn v_reaches(f: FolderV, folder_kind: bool, id: int) -> bool {
    v_count_folder(f, folder_kind, id) > 0
}

/// Identity equality: two leaves compare equal exactly when their ids are
/// equal, whatever their paths or parents are.
pub proof fn lemma_file_identity_equality(a: File, b: File)
    ensures
        <File as PartialEqSpec>::eq_spec(&a, &b) <==> a@.id == b@.id,
{
}

/// Identity equality: two folders compare equal exactly when their ids are
/// equal, whatever their names, parents or children are.
pub proof fn lemma_folder_identity_equality(a: Folder, b: Folder)
    ensures
        <Folder as PartialEqSpec>::eq_spec(&a, &b) <==> a@.id == b@.id,
{
}

/// Idempotent append: appending the same entity a second time leaves the
/// children exactly as they were after the first append.
pub proof fn lemma_append_idempotent(s: Seq<NodeV>, n: NodeV)
    ensures
        v_append(v_append(s, n), n) == v_append(s, n),
{
    if !v_contains(s, n) {
        assert(v_same_identity(s.push(n)[s.len() as int], n));
        assert(v_contains(s.push(n), n));
    }
}

/// Idempotent insertion: inserting the same (by id) leaf into the same
/// target folder a second time leaves the whole tree exactly as it was after
/// the first insertion.
pub proof fn lemma_add_file_idempotent(f: FolderV, folder_id: int, c: FileV)
    ensures
        v_add_file(v_add_file(f, folder_id, c), folder_id, c) == v_add_file(f, folder_id, c),
{
    let n = NodeV::File(c);
    let g = v_add_file(f, folder_id, c);
    if f.id == folder_id {
        lemma_append_idempotent(f.children, n);
        assert(v_add_file(g, folder_id, c) =~= g);
    } else {
        lemma_first_folder(f.children, folder_id);
        let i = v_first_folder(f.children, folder_id);
        if i == -1 {
            assert(g == f);
        } else {
            let sub = v_folder(f.children[i]);
            let sub1 = with_children(sub, v_append(sub.children, n));
            assert(g.children == f.children.update(i, NodeV::Folder(sub1)));
            lemma_first_folder(g.children, folder_id);
            let r = v_first_folder(g.children, folder_id);
            assert(g.children[i] is Folder && v_id(g.children[i]) == folder_id);
            assert(r == i);
            lemma_append_idempotent(sub.children, n);
            assert(with_children(sub1, v_append(sub1.children, n)) =~= sub1);
            assert(g.children.update(i, NodeV::Folder(sub1)) =~= g.children);
            assert(v_add_file(g, folder_id, c) =~= g);
        }
    }
}

proof fn lemma_count_seq_prepend(x: NodeV, t: Seq<NodeV>, folder_kind: bool, id: int)
    ensures
        v_count_seq(seq![x] + t, folder_kind, id) == v_count_node(x, folder_kind, id)
            + v_count_seq(t, folder_kind, id),
{
    let s = seq![x] + t;
    assert(s[0] == x);
    assert(s.drop_first() =~= t);
}

proof fn lemma_remove_count_le(s: Seq<NodeV>, n: NodeV, folder_kind: bool, id: int)
    ensures
        v_count_seq(v_remove(s, n), folder_kind, id) <= v_count_seq(s, folder_kind, id),
    decreases s.len(),
{
    if s.len() > 0 {
        lemma_remove_count_le(s.drop_first(), n, folder_kind, id);
        if !v_same_identity(s[0], n) {
            lemma_count_seq_prepend(s[0], v_remove(s.drop_first(), n), folder_kind, id);
        }
    }
}

proof fn lemma_remove_count_drops(s: Seq<NodeV>, n: NodeV, folder_kind: bool, id: int, i: int)
    requires
        0 <= i < s.len(),
        v_same_identity(s[i], n),
    ensures
        v_count_seq(v_remove(s, n), folder_kind, id) + v_count_node(s[i], folder_kind, id)
            <= v_count_seq(s, folder_kind, id),
    decreases s.len(),
{
    if i == 0 {
        lemma_remove_count_le(s.drop_first(), n, folder_kind, id);
    } else {
        assert(s.drop_first()[i - 1] == s[i]);
        lemma_remove_count_drops(s.drop_first(), n, folder_kind, id, i - 1);
        if !v_same_identity(s[0], n) {
            lemma_count_seq_prepend(s[0], v_remove(s.drop_first(), n), folder_kind, id);
        }
    }
}

/// Cascade removal: removing child folder `c` from the folder that directly
/// holds it discards `c` together with its whole subtree.  When the tree
/// holds nodes of the given kind and id at most once, and the removed
/// subtree holds one, none stays reachable afterwards.
pub proof fn lemma_cascade_removal(f: FolderV, c: FolderV, folder_kind: bool, id: int, i: int)
    requires
        0 <= i < f.children.len(),
        f.children[i] is Folder,
        v_id(f.children[i]) == c.id,
        v_count_folder(f, folder_kind, id) <= 1,
        v_count_node(f.children[i], folder_kind, id) >= 1,
    ensures
        !v_reaches(v_remove_folder(f, f.id, c), folder_kind, id),
{
    assert(v_same_identity(f.children[i], NodeV::Folder(c)));
    lemma_remove_count_drops(f.children, NodeV::Folder(c), folder_kind, id, i);
    assert(v_remove_folder(f, f.id, c) == with_children(
        f,
        v_remove(f.children, NodeV::Folder(c)),
    ));
}

proof fn lemma_append_contains(s: Seq<NodeV>, n: NodeV, m: NodeV)
    ensures
        v_contains(v_append(s, n), m) <==> (v_contains(s, m) || v_same_identity(n, m)),
{
    if v_contains(s, n) {
        if v_same_identity(n, m) {
            let i = choose|i: int| 0 <= i < s.len() && v_same_identity(s[i], n);
            assert(v_same_identity(s[i], m));
        }
    } else {
        let p = s.push(n);
        assert(p[s.len() as int] == n);
        if v_contains(p, m) {
            let i = choose|i: int| 0 <= i < p.len() && v_same_identity(p[i], m);
            if i < s.len() {
                assert(v_same_identity(s[i], m));
            }
        }
        if v_contains(s, m) {
            let i = choose|i: int| 0 <= i < s.len() && v_same_identity(s[i], m);
            assert(v_same_identity(p[i], m));
        }
        if v_same_identity(n, m) {
            assert(v_same_identity(p[s.len() as int], m));
        }
    }
}

proof fn lemma_append_all_contains(s: Seq<NodeV>, items: Seq<NodeV>, m: NodeV)
    ensures
        v_contains(v_append_all(s, items), m) <==> (v_contains(s, m) || exists|j: int|
            0 <= j < items.len() && v_same_identity(#[trigger] items[j], m)),
    decreases items.len(),
{
    if items.len() > 0 {
        lemma_append_contains(s, items[0], m);
        lemma_append_all_contains(v_append(s, items[0]), items.drop_first(), m);
        let rest = items.drop_first();
        assert(forall|j: int| 0 <= j < rest.len() ==> #[trigger] rest[j] == items[j + 1]);
        if exists|j: int| 0 <= j < items.len() && v_same_identity(#[trigger] items[j], m) {
            let j = choose|j: int| 0 <= j < items.len() && v_same_identity(#[trigger] items[j], m);
            if j > 0 {
                assert(v_same_identity(rest[j - 1], m));
            }
        }
        if exists|j: int| 0 <= j < rest.len() && v_same_identity(#[trigger] rest[j], m) {
            let j = choose|j: int| 0 <= j < rest.len() && v_same_identity(#[trigger] rest[j], m);
            assert(v_same_identity(items[j + 1], m));
        }
    }
}

proof fn lemma_remove_no_match(s: Seq<NodeV>, n: NodeV)
    ensures
        !v_contains(v_remove(s, n), n),
    decreases s.len(),
{
    if s.len() > 0 {
        lemma_remove_no_match(s.drop_first(), n);
        if !v_same_identity(s[0], n) {
            let r = seq![s[0]] + v_remove(s.drop_first(), n);
            if v_contains(r, n) {
                let i = choose|i: int| 0 <= i < r.len() && v_same_identity(r[i], n);
                if i > 0 {
                    assert(v_same_identity(v_remove(s.drop_first(), n)[i - 1], n));
                }
            }
        }
    }
}

/// Keep-children removal: removing folder `c`, children kept, from the
/// folder that directly holds it leaves every direct child of `c` present
/// among that folder's children, and no folder with `c`'s id among them.
/// The precondition only rules out a child of `c` carrying `c`'s own id,
/// which id uniqueness already guarantees.
pub proof fn lemma_keep_children(f: FolderV, c: FolderV)
    requires
        forall|j: int|
            0 <= j < c.children.len() ==> !(#[trigger] c.children[j] is Folder && v_id(
                c.children[j],
            ) == c.id),
    ensures
        forall|j: int|
            0 <= j < c.children.len() ==> v_contains(
                v_remove_folder_keep_children(f, f.id, c).children,
                #[trigger] c.children[j],
            ),
        !v_contains(v_remove_folder_keep_children(f, f.id, c).children, NodeV::Folder(c)),
{
    let removed = v_remove(f.children, NodeV::Folder(c));
    let r = v_append_all(removed, c.children);
    assert(v_remove_folder_keep_children(f, f.id, c).children == r);
    lemma_remove_no_match(f.children, NodeV::Folder(c));
    lemma_append_all_contains(removed, c.children, NodeV::Folder(c));
    assert forall|j: int| 0 <= j < c.children.len() implies v_contains(
        r,
        c.children[j],
    ) by {
        lemma_append_all_contains(removed, c.children, c.children[j]);
        assert(v_same_identity(c.children[j], c.children[j]));
    }
}

} // verus!

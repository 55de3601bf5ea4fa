use vstd::prelude::*;

use crate::file::{File, FileV};

verus! {

/// A child of a folder: either a leaf file or a nested folder.
#[derive(Debug)]
pub enum FileOrFolder {
    File(File),
    Folder(Folder),
}

/// A container node of the tree: a folder identified by `folder_id`, holding a
/// name, an ordered sequence of children, and the id of its parent folder
/// (`None` only for the root).
#[derive(Debug)]
pub struct Folder {
    pub children: Vec<FileOrFolder>,
    pub name: String,
    pub parent_id: Option<i64>,
    pub folder_id: i64,
}

/// Mathematical view of a child node.
#[verifier::ext_equal]
pub ghost enum NodeV {
    File(FileV),
    Folder(FolderV),
}

/// Mathematical view of a folder: name text, identifiers, and the views of
/// its children in order.
#[verifier::ext_equal]
pub ghost struct FolderV {
    pub children: Seq<NodeV>,
    pub name: Seq<char>,
    pub parent_id: Option<int>,
    pub id: int,
}

/// View of a child node, recursively over the whole subtree.
pub open spec fn node_view(n: FileOrFolder) -> NodeV
    decreases n,
{
    match n {
        FileOrFolder::File(f) => NodeV::File(f@),
        FileOrFolder::Folder(f) => NodeV::Folder(folder_view(f)),
    }
}

/// Views of a sequence of child nodes, in order.
pub open spec fn nodes_view(s: Seq<FileOrFolder>) -> Seq<NodeV>
    decreases s,
{
    if s.len() == 0 {
        Seq::<NodeV>::empty()
    } else {
        seq![node_view(s[0])] + nodes_view(s.drop_first())
    }
}

/// The view of a sequence of children is the sequence of their views.
pub broadcast proof fn lemma_nodes_view(s: Seq<FileOrFolder>)
    ensures
        (#[trigger] nodes_view(s)).len() == s.len(),
        forall|i: int| 0 <= i < s.len() ==> nodes_view(s)[i] == node_view(s[i]),
    decreases s.len(),
{
    if s.len() > 0 {
        lemma_nodes_view(s.drop_first());
    }
}

/// View of a folder, recursively over the whole subtree.
pub open spec fn folder_view(f: Folder) -> FolderV
    decreases f,
{
    FolderV {
        children: nodes_view(f.children@),
        name: f.name@,
        parent_id: match f.parent_id {
            Some(p) => Some(p as int),
            None => None,
        },
        id: f.folder_id as int,
    }
}

impl View for Folder {
    type V = FolderV;

    open spec fn view(&self) -> FolderV {
        folder_view(*self)
    }
}

impl View for FileOrFolder {
    type V = NodeV;

    open spec fn view(&self) -> NodeV {
        node_view(*self)
    }
}

impl PartialEq for Folder {
    fn eq(&self, other: &Self) -> (r: bool) {
        self.folder_id == other.folder_id
    }
}

impl vstd::std_specs::cmp::PartialEqSpecImpl for Folder {
    open spec fn obeys_eq_spec() -> bool {
        true
    }

    open spec fn eq_spec(&self, other: &Self) -> bool {
        self.folder_id == other.folder_id
    }
}

/// The id of a node, whichever kind it is.
pub open spec fn v_id(n: NodeV) -> int {
    match n {
        NodeV::File(f) => f.id,
        NodeV::Folder(f) => f.id,
    }
}

/// The folder carried by a folder node.
pub open spec fn v_folder(n: NodeV) -> FolderV
    recommends
        n is Folder,
{
    match n {
        NodeV::Folder(f) => f,
        NodeV::File(_) => arbitrary(),
    }
}

/// Two nodes are the same entity when they are of the same kind and their ids
/// are equal; no other field takes part in identity.
pub open spec fn v_same_identity(a: NodeV, b: NodeV) -> bool {
    (a is Folder <==> b is Folder) && v_id(a) == v_id(b)
}

/// Whether some entry of `s` is the same entity as `n`.
pub open spec fn v_contains(s: Seq<NodeV>, n: NodeV) -> bool {
    exists|i: int| 0 <= i < s.len() && v_same_identity(s[i], n)
}

/// The children after appending `n`: unchanged when an entry with `n`'s
/// identity is already present, otherwise `n` goes to the end.
pub open spec fn v_append(s: Seq<NodeV>, n: NodeV) -> Seq<NodeV> {
    if v_contains(s, n) {
        s
    } else {
        s.push(n)
    }
}

/// The children after appending each entry of `items` in order, each by the
/// idempotent append above.
pub open spec fn v_append_all(s: Seq<NodeV>, items: Seq<NodeV>) -> Seq<NodeV>
    decreases items.len(),
{
    if items.len() == 0 {
        s
    } else {
        v_append_all(v_append(s, items[0]), items.drop_first())
    }
}

/// The children after removing every entry with `n`'s identity, order of the
/// rest preserved.
pub open spec fn v_remove(s: Seq<NodeV>, n: NodeV) -> Seq<NodeV>
    decreases s.len(),
{
    if s.len() == 0 {
        Seq::<NodeV>::empty()
    } else {
        let rest = v_remove(s.drop_first(), n);
        if v_same_identity(s[0], n) {
            rest
        } else {
            seq![s[0]] + rest
        }
    }
}

/// Index of the first child that is a folder with id `id`, or -1 if none is.
pub open spec fn v_first_folder(s: Seq<NodeV>, id: int) -> int
    decreases s.len(),
{
    if s.len() == 0 {
        -1
    } else if s[0] is Folder && v_id(s[0]) == id {
        0
    } else {
        let r = v_first_folder(s.drop_first(), id);
        if r == -1 {
            -1
        } else {
            r + 1
        }
    }
}

/// The same folder with its children replaced.
pub open spec fn with_children(f: FolderV, c: Seq<NodeV>) -> FolderV {
    FolderV { children: c, ..f }
}

/// The tree after applying `t` to the children of the target folder: the
/// folder itself when its id matches, else the first direct child folder with
/// the target id; when neither matches, the tree is unchanged.
pub open spec fn v_edit_children(
    f: FolderV,
    target_id: int,
    t: spec_fn(Seq<NodeV>) -> Seq<NodeV>,
) -> FolderV {
    if f.id == target_id {
        with_children(f, t(f.children))
    } else {
        let i = v_first_folder(f.children, target_id);
        if i == -1 {
            f
        } else {
            let sub = v_folder(f.children[i]);
            with_children(f, f.children.update(i, NodeV::Folder(with_children(sub, t(sub.children)))))
        }
    }
}

/// The tree after inserting leaf `c` into the folder with id `folder_id`.
pub open spec fn v_add_file(f: FolderV, folder_id: int, c: FileV) -> FolderV {
    v_edit_children(f, folder_id, |s: Seq<NodeV>| v_append(s, NodeV::File(c)))
}

/// The tree after inserting folder `c` into the folder with id `folder_id`.
pub open spec fn v_add_folder(f: FolderV, folder_id: int, c: FolderV) -> FolderV {
    v_edit_children(f, folder_id, |s: Seq<NodeV>| v_append(s, NodeV::Folder(c)))
}

/// The tree after removing leaf `c` from the folder with id `folder_id`.
pub open spec fn v_remove_file(f: FolderV, folder_id: int, c: FileV) -> FolderV {
    v_edit_children(f, folder_id, |s: Seq<NodeV>| v_remove(s, NodeV::File(c)))
}

/// The tree after removing folder `c`, and its whole subtree with it, from
/// the folder with id `folder_id`.
pub open spec fn v_remove_folder(f: FolderV, folder_id: int, c: FolderV) -> FolderV {
    v_edit_children(f, folder_id, |s: Seq<NodeV>| v_remove(s, NodeV::Folder(c)))
}

/// The tree after removing folder `c` from the folder with id `folder_id`
/// while re-parenting `c`'s direct children into that same folder.
pub open spec fn v_remove_folder_keep_children(f: FolderV, folder_id: int, c: FolderV) -> FolderV {
    v_edit_children(
        f,
        folder_id,
        |s: Seq<NodeV>| v_append_all(v_remove(s, NodeV::Folder(c)), c.children),
    )
}

/// The direct children of the folder with id `id`, found by the search the
/// lookup uses: the folder itself when its id matches, else the first child
/// folder whose recursive result is non-empty.  A folder that is absent and
/// one that is present but empty both give the empty sequence.
pub open spec fn v_children_of(f: FolderV, id: int) -> Seq<NodeV>
    decreases f, f.children.len() + 1,
{
    if f.id == id {
        f.children
    } else {
        v_children_of_from(f, 0, id)
    }
}

/// The same search, over the children of `f` from position `i` on.
pub open spec fn v_children_of_from(f: FolderV, i: int, id: int) -> Seq<NodeV>
    decreases f, f.children.len() - i,
{
    if i < 0 || i >= f.children.len() {
        Seq::<NodeV>::empty()
    } else {
        match f.children[i] {
            NodeV::Folder(sub) => {
                let r = v_children_of(sub, id);
                if r.len() > 0 {
                    r
                } else {
                    v_children_of_from(f, i + 1, id)
                }
            },
            NodeV::File(_) => v_children_of_from(f, i + 1, id),
        }
    }
}

/// The first folder with id `id` in depth-first order: the folder itself
/// when its id matches, else the search descends every child folder in turn.
pub open spec fn v_find_folder(f: FolderV, id: int) -> Option<FolderV>
    decreases f, f.children.len() + 1,
{
    if f.id == id {
        Some(f)
    } else {
        v_find_folder_from(f, 0, id)
    }
}

/// The same search, over the children of `f` from position `i` on.
pub open spec fn v_find_folder_from(f: FolderV, i: int, id: int) -> Option<FolderV>
    decreases f, f.children.len() - i,
{
    if i < 0 || i >= f.children.len() {
        None
    } else {
        match f.children[i] {
            NodeV::Folder(sub) => match v_find_folder(sub, id) {
                Some(r) => Some(r),
                None => v_find_folder_from(f, i + 1, id),
            },
            NodeV::File(_) => v_find_folder_from(f, i + 1, id),
        }
    }
}

/// The parent id of the folder with id `id`, or -1 when that folder is
/// absent or is the root.
pub open spec fn v_get_parent_id(f: FolderV, id: int) -> int {
    match v_find_folder(f, id) {
        Some(f0) => match f0.parent_id {
            Some(p) => p,
            None => -1,
        },
        None => -1,
    }
}

/// What the item lookup returns: `item_id` when the item is found, else -1.
/// A leaf is looked for among this folder's direct leaves only; a folder is
/// looked for along the leftmost chain of child folders only, as the search
/// stops after the first child folder at every level.
pub open spec fn v_parent_by_item(f: FolderV, is_folder: bool, item_id: int) -> int
    decreases f, f.children.len() + 1,
{
    if is_folder {
        v_parent_by_folder_from(f, 0, item_id)
    } else {
        if exists|j: int|
            0 <= j < f.children.len() && !(#[trigger] f.children[j] is Folder) && v_id(
                f.children[j],
            ) == item_id {
            item_id
        } else {
            -1
        }
    }
}

/// The folder search above: files are skipped, and the first child folder
/// decides the result.
pub open spec fn v_parent_by_folder_from(f: FolderV, i: int, item_id: int) -> int
    decreases f, f.children.len() - i,
{
    if i < 0 || i >= f.children.len() {
        -1
    } else {
        match f.children[i] {
            NodeV::Folder(sub) => if sub.id == item_id {
                item_id
            } else {
                v_parent_by_item(sub, true, item_id)
            },
            NodeV::File(_) => v_parent_by_folder_from(f, i + 1, item_id),
        }
    }
}

/// The tree after moving leaf `c` to the folder with id `to_id`: a no-op
/// when `c` already sits there, else `c` leaves its old parent, takes the new
/// parent id, and is inserted at the destination.
pub open spec fn v_move_file(f: FolderV, to_id: int, c: FileV) -> FolderV {
    if c.parent_id == to_id {
        f
    } else {
        v_add_file(
            v_remove_file(f, c.parent_id, c),
            to_id,
            FileV { parent_id: to_id, ..c },
        )
    }
}

/// The tree after moving folder `c` to the folder with id `to_id`: a no-op
/// for the root or when `c` already sits there; otherwise `c` is extracted
/// from the direct children of the tree's top level only, takes the new
/// parent id, and is inserted at the destination.
pub open spec fn v_move_folder(f: FolderV, to_id: int, c: FolderV) -> FolderV {
    match c.parent_id {
        None => f,
        Some(p) => {
            if p == to_id {
                f
            } else {
                let i = v_first_folder(f.children, c.id);
                if i == -1 {
                    f
                } else {
                    let popped = v_folder(f.children[i]);
                    v_add_folder(
                        with_children(f, f.children.remove(i)),
                        to_id,
                        FolderV { parent_id: Some(to_id), ..popped },
                    )
                }
            }
        },
    }
}

/// The tree after moving `item` to the folder with id `to_id`.
pub open spec fn v_move(f: FolderV, to_id: int, item: NodeV) -> FolderV {
    match item {
        NodeV::File(c) => v_move_file(f, to_id, c),
        NodeV::Folder(c) => v_move_folder(f, to_id, c),
    }
}

// The view of a pushed, updated, removed or cut sequence of children is the
// view of the original pushed, updated, removed or cut the same way.

proof fn lemma_nodes_view_push(s: Seq<FileOrFolder>, x: FileOrFolder)
    ensures
        nodes_view(s.push(x)) =~= nodes_view(s).push(node_view(x)),
{
    broadcast use lemma_nodes_view;

}

proof fn lemma_nodes_view_update(s: Seq<FileOrFolder>, i: int, x: FileOrFolder)
    requires
        0 <= i < s.len(),
    ensures
        nodes_view(s.update(i, x)) =~= nodes_view(s).update(i, node_view(x)),
{
    broadcast use lemma_nodes_view;

}

proof fn lemma_nodes_view_remove(s: Seq<FileOrFolder>, i: int)
    requires
        0 <= i < s.len(),
    ensures
        nodes_view(s.remove(i)) =~= nodes_view(s).remove(i),
{
    broadcast use lemma_nodes_view;

}

proof fn lemma_nodes_view_subrange(s: Seq<FileOrFolder>, a: int, b: int)
    requires
        0 <= a <= b <= s.len(),
    ensures
        nodes_view(s.subrange(a, b)) =~= nodes_view(s).subrange(a, b),
{
    broadcast use lemma_nodes_view;

}

/// What `v_first_folder` returns: -1 exactly when no child is a folder with
/// the id, else the least index of one.
pub proof fn lemma_first_folder(s: Seq<NodeV>, id: int)
    ensures
        v_first_folder(s, id) == -1 ==> forall|i: int|
            0 <= i < s.len() ==> !(#[trigger] s[i] is Folder && v_id(s[i]) == id),
        v_first_folder(s, id) != -1 ==> {
            let r = v_first_folder(s, id);
            &&& 0 <= r < s.len()
            &&& s[r] is Folder
            &&& v_id(s[r]) == id
            &&& forall|i: int| 0 <= i < r ==> !(#[trigger] s[i] is Folder && v_id(s[i]) == id)
        },
    decreases s.len(),
{
    if s.len() > 0 {
        lemma_first_folder(s.drop_first(), id);
        assert forall|i: int| 1 <= i < s.len() implies s.drop_first()[i - 1] == s[i] by {}
    }
}

impl Folder {
    /// The empty tree: a root folder with id 0, named "root", and no children.
    pub fn default() -> (r: Self)
        ensures
            r@.children =~= Seq::<NodeV>::empty(),
            r@.name == "root"@,
            r@.parent_id is None,
            r@.id == 0,
    {
        Folder { children: vec![], name: "root".to_owned(), parent_id: None, folder_id: 0 }
    }

    /// Whether some direct child of this folder is the same entity as `child`
    /// (same kind, same id).
    pub fn contains(&self, child: &FileOrFolder) -> (r: bool)
        ensures
            r == v_contains(self@.children, node_view(*child)),
    {
        let mut i: usize = 0;
        while i < self.children.len()
            invariant
                i <= self.children@.len(),
                forall|j: int|
                    0 <= j < i ==> !v_same_identity(
                        node_view(#[trigger] self.children@[j]),
                        node_view(*child),
                    ),
            decreases self.children@.len() - i,
        {
            if same_identity(&self.children[i], child) {
                proof {
                    lemma_nodes_view(self.children@);
                    assert(v_same_identity(self@.children[i as int], node_view(*child)));
                }
                return true;
            }
            i += 1;
        }
        proof {
            lemma_nodes_view(self.children@);
            assert forall|k: int| 0 <= k < self@.children.len() implies !v_same_identity(
                self@.children[k],
                node_view(*child),
            ) by {
                assert(!v_same_identity(node_view(self.children@[k]), node_view(*child)));
            }
        }
        false
    }

    /// Append `child` to this folder's own children, unless a child with the
    /// same identity is already there: insertion is idempotent.
    pub fn append(&mut self, child: FileOrFolder)
        ensures
            final(self)@ == with_children(
                old(self)@,
                v_append(old(self)@.children, node_view(child)),
            ),
    {
        if self.contains(&child) {
            proof {
                assert(final(self)@ =~= with_children(old(self)@, old(self)@.children));
            }
            return;
        }
        proof {
            lemma_nodes_view_push(self.children@, child);
        }
        self.children.push(child);
        proof {
            assert(final(self)@ =~= with_children(
                old(self)@,
                old(self)@.children.push(node_view(child)),
            ));
        }
    }

    /// Remove from this folder's own children every entry with the same
    /// identity as `child`; the others keep their order.
    pub fn remove(&mut self, child: FileOrFolder)
        ensures
            final(self)@ == with_children(
                old(self)@,
                v_remove(old(self)@.children, node_view(child)),
            ),
    {
        let ghost orig: Seq<FileOrFolder> = self.children@;
        let mut kept: Vec<FileOrFolder> = Vec::new();
        while self.children.len() > 0
            invariant
                self.name == old(self).name,
                self.parent_id == old(self).parent_id,
                self.folder_id == old(self).folder_id,
                v_remove(nodes_view(orig), node_view(child)) =~= nodes_view(kept@) + v_remove(
                    nodes_view(self.children@),
                    node_view(child),
                ),
            decreases self.children@.len(),
        {
            let ghost pre: Seq<FileOrFolder> = self.children@;
            let x = self.children.remove(0);
            proof {
                assert(pre.remove(0) =~= pre.drop_first());
                lemma_nodes_view_subrange(pre, 1, pre.len() as int);
                assert(nodes_view(pre).drop_first() =~= nodes_view(pre.drop_first()));
                assert(nodes_view(pre)[0] == node_view(x));
            }
            if !same_identity(&x, &child) {
                proof {
                    lemma_nodes_view_push(kept@, x);
                    assert(nodes_view(kept@.push(x)) =~= nodes_view(kept@) + seq![node_view(x)]);
                    assert(nodes_view(kept@) + (seq![node_view(x)] + v_remove(
                        nodes_view(self.children@),
                        node_view(child),
                    )) =~= nodes_view(kept@.push(x)) + v_remove(
                        nodes_view(self.children@),
                        node_view(child),
                    ));
                }
                kept.push(x);
            }
        }
        self.children = kept;
        proof {
            assert(final(self)@ =~= with_children(
                old(self)@,
                v_remove(old(self)@.children, node_view(child)),
            ));
        }
    }

    /// Position of the first direct child that is a folder with id
    /// `folder_id`, if any.
    fn find_child_folder(&self, folder_id: i64) -> (r: Option<usize>)
        ensures
            match r {
                Some(i) => i < self.children@.len() && v_first_folder(
                    self@.children,
                    folder_id as int,
                ) == i,
                None => v_first_folder(self@.children, folder_id as int) == -1,
            },
    {
        let mut i: usize = 0;
        while i < self.children.len()
            invariant
                i <= self.children@.len(),
                forall|j: int|
                    0 <= j < i ==> !(node_view(#[trigger] self.children@[j]) is Folder && v_id(
                        node_view(self.children@[j]),
                    ) == folder_id as int),
            decreases self.children@.len() - i,
        {
            match &self.children[i] {
                FileOrFolder::Folder(fo) => {
                    if fo.folder_id == folder_id {
                        proof {
                            lemma_nodes_view(self.children@);
                            lemma_first_folder(self@.children, folder_id as int);
                            assert(self@.children[i as int] is Folder && v_id(
                                self@.children[i as int],
                            ) == folder_id as int);
                        }
                        return Some(i);
                    }
                }
                FileOrFolder::File(_) => {}
            }
            i += 1;
        }
        proof {
            lemma_nodes_view(self.children@);
            lemma_first_folder(self@.children, folder_id as int);
        }
        None
    }

    /// Append every entry of `items`, in order, to this folder's own
    /// children, each by the idempotent `append`.
    fn append_all(&mut self, items: Vec<FileOrFolder>)
        ensures
            final(self)@ == with_children(
                old(self)@,
                v_append_all(old(self)@.children, nodes_view(items@)),
            ),
    {
        let ghost full: Seq<FileOrFolder> = items@;
        let mut rest = items;
        while rest.len() > 0
            invariant
                v_append_all(old(self)@.children, nodes_view(full)) == v_append_all(
                    self@.children,
                    nodes_view(rest@),
                ),
                self@.name == old(self)@.name,
                self@.parent_id == old(self)@.parent_id,
                self@.id == old(self)@.id,
            decreases rest@.len(),
        {
            let ghost pre: Seq<FileOrFolder> = rest@;
            let ghost sc: Seq<NodeV> = self@.children;
            let x = rest.remove(0);
            self.append(x);
            proof {
                lemma_nodes_view(pre);
                assert(pre.remove(0) =~= pre.drop_first());
                lemma_nodes_view_subrange(pre, 1, pre.len() as int);
                assert(nodes_view(pre).drop_first() =~= nodes_view(pre.drop_first()));
                assert(v_append_all(sc, nodes_view(pre)) == v_append_all(
                    v_append(sc, node_view(x)),
                    nodes_view(rest@),
                ));
            }
        }
        proof {
            assert(nodes_view(rest@) =~= Seq::<NodeV>::empty());
            assert(v_append_all(self@.children, nodes_view(rest@)) == self@.children);
            assert(final(self)@ =~= with_children(
                old(self)@,
                v_append_all(old(self)@.children, nodes_view(full)),
            ));
        }
    }

    /// Insert leaf `child` into the folder with id `folder_id`: this folder
    /// itself, or else its first direct child folder with that id; when
    /// neither matches, the tree is unchanged.
    pub fn add_a_file_to_current_folder(&mut self, folder_id: i64, child: File)
        ensures
            final(self)@ == v_add_file(old(self)@, folder_id as int, child@),
    {
        if self.folder_id == folder_id {
            self.append(FileOrFolder::File(child));
            return;
        }
        match self.find_child_folder(folder_id) {
            None => {}
            Some(i) => {
                proof {
                    lemma_nodes_view(self.children@);
                    lemma_first_folder(self@.children, folder_id as int);
                }
                let ghost pre: Seq<FileOrFolder> = self.children@;
                let node = self.children.remove(i);
                match node {
                    FileOrFolder::Folder(mut fo) => {
                        proof {
                            assert(NodeV::Folder(folder_view(fo)) == old(self)@.children[i as int]);
                        }
                        fo.append(FileOrFolder::File(child));
                        self.children.insert(i, FileOrFolder::Folder(fo));
                        proof {
                            assert(self.children@ =~= pre.update(
                                i as int,
                                FileOrFolder::Folder(fo),
                            ));
                            lemma_nodes_view_update(pre, i as int, FileOrFolder::Folder(fo));
                            assert(self@ =~= v_add_file(old(self)@, folder_id as int, child@));
                        }
                    }
                    FileOrFolder::File(ff) => {
                        proof {
                            assert(false);
                        }
                        self.children.insert(i, FileOrFolder::File(ff));
                    }
                }
            }
        }
    }

    /// Insert folder `child` into the folder with id `folder_id`, as
    /// `add_a_file_to_current_folder` does for leaves.
    pub fn add_a_folder_to_current_folder(&mut self, folder_id: i64, child: Folder)
        ensures
            final(self)@ == v_add_folder(old(self)@, folder_id as int, child@),
    {
        if self.folder_id == folder_id {
            self.append(FileOrFolder::Folder(child));
            return;
        }
        match self.find_child_folder(folder_id) {
            None => {}
            Some(i) => {
                proof {
                    lemma_nodes_view(self.children@);
                    lemma_first_folder(self@.children, folder_id as int);
                }
                let ghost pre: Seq<FileOrFolder> = self.children@;
                let node = self.children.remove(i);
                match node {
                    FileOrFolder::Folder(mut fo) => {
                        proof {
                            assert(NodeV::Folder(folder_view(fo)) == old(self)@.children[i as int]);
                        }
                        fo.append(FileOrFolder::Folder(child));
                        self.children.insert(i, FileOrFolder::Folder(fo));
                        proof {
                            assert(self.children@ =~= pre.update(
                                i as int,
                                FileOrFolder::Folder(fo),
                            ));
                            lemma_nodes_view_update(pre, i as int, FileOrFolder::Folder(fo));
                            assert(self@ =~= v_add_folder(old(self)@, folder_id as int, child@));
                        }
                    }
                    FileOrFolder::File(ff) => {
                        proof {
                            assert(false);
                        }
                        self.children.insert(i, FileOrFolder::File(ff));
                    }
                }
            }
        }
    }

    /// Remove leaf `child` (by identity) from the folder with id `folder_id`:
    /// this folder itself, or else its first direct child folder with that
    /// id; when neither matches, the tree is unchanged.
    pub fn remove_a_file_from_current_folder(&mut self, folder_id: i64, child: File)
        ensures
            final(self)@ == v_remove_file(old(self)@, folder_id as int, child@),
    {
        if self.folder_id == folder_id {
            self.remove(FileOrFolder::File(child));
            return;
        }
        match self.find_child_folder(folder_id) {
            None => {}
            Some(i) => {
                proof {
                    lemma_nodes_view(self.children@);
                    lemma_first_folder(self@.children, folder_id as int);
                }
                let ghost pre: Seq<FileOrFolder> = self.children@;
                let node = self.children.remove(i);
                match node {
                    FileOrFolder::Folder(mut fo) => {
                        proof {
                            assert(NodeV::Folder(folder_view(fo)) == old(self)@.children[i as int]);
                        }
                        fo.remove(FileOrFolder::File(child));
                        self.children.insert(i, FileOrFolder::Folder(fo));
                        proof {
                            assert(self.children@ =~= pre.update(
                                i as int,
                                FileOrFolder::Folder(fo),
                            ));
                            lemma_nodes_view_update(pre, i as int, FileOrFolder::Folder(fo));
                            assert(self@ =~= v_remove_file(old(self)@, folder_id as int, child@));
                        }
                    }
                    FileOrFolder::File(ff) => {
                        proof {
                            assert(false);
                        }
                        self.children.insert(i, FileOrFolder::File(ff));
                    }
                }
            }
        }
    }

    /// Remove folder `child` (by identity) from the folder with id
    /// `folder_id`, discarding `child`'s whole subtree with it.
    pub fn remove_a_folder_from_current_folder_directly(&mut self, folder_id: i64, child: Folder)
        ensures
            final(self)@ == v_remove_folder(old(self)@, folder_id as int, child@),
    {
        if self.folder_id == folder_id {
            self.remove(FileOrFolder::Folder(child));
            return;
        }
        match self.find_child_folder(folder_id) {
            None => {}
            Some(i) => {
                proof {
                    lemma_nodes_view(self.children@);
                    lemma_first_folder(self@.children, folder_id as int);
                }
                let ghost pre: Seq<FileOrFolder> = self.children@;
                let node = self.children.remove(i);
                match node {
                    FileOrFolder::Folder(mut fo) => {
                        proof {
                            assert(NodeV::Folder(folder_view(fo)) == old(self)@.children[i as int]);
                        }
                        fo.remove(FileOrFolder::Folder(child));
                        self.children.insert(i, FileOrFolder::Folder(fo));
                        proof {
                            assert(self.children@ =~= pre.update(
                                i as int,
                                FileOrFolder::Folder(fo),
                            ));
                            lemma_nodes_view_update(pre, i as int, FileOrFolder::Folder(fo));
                            assert(self@ =~= v_remove_folder(old(self)@, folder_id as int, child@));
                        }
                    }
                    FileOrFolder::File(ff) => {
                        proof {
                            assert(false);
                        }
                        self.children.insert(i, FileOrFolder::File(ff));
                    }
                }
            }
        }
    }

    /// Remove folder `child` (by identity) from the folder with id
    /// `folder_id`, re-parenting `child`'s direct children into that folder:
    /// the tree is flattened by one level there, grandchildren stay put.
    pub fn remove_a_folder_from_current_folder_keep_children(
        &mut self,
        folder_id: i64,
        child: Folder,
    )
        ensures
            final(self)@ == v_remove_folder_keep_children(old(self)@, folder_id as int, child@),
    {
        if self.folder_id == folder_id {
            self.remove(FileOrFolder::Folder(child.clone()));
            self.append_all(child.children);
            proof {
                assert(self@ =~= v_remove_folder_keep_children(
                    old(self)@,
                    folder_id as int,
                    child@,
                ));
            }
            return;
        }
        match self.find_child_folder(folder_id) {
            None => {}
            Some(i) => {
                proof {
                    lemma_nodes_view(self.children@);
                    lemma_first_folder(self@.children, folder_id as int);
                }
                let ghost pre: Seq<FileOrFolder> = self.children@;
                let node = self.children.remove(i);
                match node {
                    FileOrFolder::Folder(mut fo) => {
                        proof {
                            assert(NodeV::Folder(folder_view(fo)) == old(self)@.children[i as int]);
                        }
                        fo.remove(FileOrFolder::Folder(child.clone()));
                        fo.append_all(child.children);
                        self.children.insert(i, FileOrFolder::Folder(fo));
                        proof {
                            assert(self.children@ =~= pre.update(
                                i as int,
                                FileOrFolder::Folder(fo),
                            ));
                            lemma_nodes_view_update(pre, i as int, FileOrFolder::Folder(fo));
                            assert(self@ =~= v_remove_folder_keep_children(
                                old(self)@,
                                folder_id as int,
                                child@,
                            ));
                        }
                    }
                    FileOrFolder::File(ff) => {
                        proof {
                            assert(false);
                        }
                        self.children.insert(i, FileOrFolder::File(ff));
                    }
                }
            }
        }
    }

    /// Remove and return the first direct child folder whose id equals
    /// `child`'s, or `None`, leaving the tree unchanged, when there is none.
    pub fn pop_folder(&mut self, child: Folder) -> (r: Option<Folder>)
        ensures
            v_first_folder(old(self)@.children, child@.id) == -1 ==> r is None && *final(self)
                == *old(self),
            v_first_folder(old(self)@.children, child@.id) != -1 ==> {
                let i = v_first_folder(old(self)@.children, child@.id);
                &&& r matches Some(fo) && NodeV::Folder(fo@) == old(self)@.children[i]
                &&& final(self)@ == with_children(old(self)@, old(self)@.children.remove(i))
            },
    {
        match self.find_child_folder(child.folder_id) {
            None => None,
            Some(i) => {
                proof {
                    lemma_nodes_view(self.children@);
                    lemma_first_folder(self@.children, child.folder_id as int);
                }
                let ghost pre: Seq<FileOrFolder> = self.children@;
                let node = self.children.remove(i);
                match node {
                    FileOrFolder::Folder(fo) => {
                        proof {
                            lemma_nodes_view_remove(pre, i as int);
                            assert(final(self)@ =~= with_children(
                                old(self)@,
                                old(self)@.children.remove(i as int),
                            ));
                        }
                        Some(fo)
                    }
                    FileOrFolder::File(ff) => {
                        proof {
                            assert(false);
                        }
                        self.children.insert(i, FileOrFolder::File(ff));
                        None
                    }
                }
            }
        }
    }

    /// Move `item` into the folder with id `to_id`.  Moving a node to the
    /// parent it already has is a no-op, and so is moving the root; a moved
    /// folder is extracted from the tree's top-level children only.
    pub fn move_item_to(&mut self, to_id: i64, item: FileOrFolder)
        ensures
            final(self)@ == v_move(old(self)@, to_id as int, node_view(item)),
            (item matches FileOrFolder::File(f) && f.parent_id == to_id) ==> *final(self) == *old(
                self,
            ),
            (item matches FileOrFolder::Folder(f) && (f.parent_id is None || f.parent_id
                == Some(to_id))) ==> *final(self) == *old(self),
    {
        match item {
            FileOrFolder::File(f) => {
                if to_id == f.parent_id {
                    return;
                }
                let pid = f.parent_id;
                let c = f.clone();
                self.remove_a_file_from_current_folder(pid, c);
                let mut f2 = f;
                f2.parent_id = to_id;
                self.add_a_file_to_current_folder(to_id, f2);
            }
            FileOrFolder::Folder(f) => {
                match f.parent_id {
                    None => {}
                    Some(p) => {
                        if p == to_id {
                            return;
                        }
                        let popped = self.pop_folder(f);
                        match popped {
                            Some(mut p0) => {
                                p0.parent_id = Some(to_id);
                                self.add_a_folder_to_current_folder(to_id, p0);
                            }
                            None => {}
                        }
                    }
                }
            }
        }
    }

    /// The direct children of the folder with id `folder_id`, as deep
    /// copies.  An absent folder and a present but empty one both give an
    /// empty vector.
    pub fn get_children(&self, folder_id: i64) -> (r: Vec<FileOrFolder>)
        ensures
            nodes_view(r@) == v_children_of(self@, folder_id as int),
        decreases *self, self.children@.len() + 1,
    {
        if self.folder_id == folder_id {
            let r = clone_nodes_from(&self.children, 0);
            proof {
                lemma_nodes_view(r@);
                lemma_nodes_view(self.children@);
                assert(nodes_view(r@) =~= self@.children);
            }
            return r;
        }
        self.get_children_from(0, folder_id)
    }

    /// The children lookup, over this folder's children from position `i` on.
    fn get_children_from(&self, i: usize, folder_id: i64) -> (r: Vec<FileOrFolder>)
        requires
            i <= self.children@.len(),
        ensures
            nodes_view(r@) == v_children_of_from(self@, i as int, folder_id as int),
        decreases *self, self.children@.len() - i,
    {
        if i == self.children.len() {
            let r: Vec<FileOrFolder> = Vec::new();
            proof {
                lemma_nodes_view(self.children@);
                assert(nodes_view(r@) =~= v_children_of_from(self@, i as int, folder_id as int));
            }
            return r;
        }
        proof {
            lemma_nodes_view(self.children@);
        }
        match &self.children[i] {
            FileOrFolder::Folder(fo) => {
                let r = fo.get_children(folder_id);
                proof {
                    lemma_nodes_view(r@);
                }
                if r.len() > 0 {
                    r
                } else {
                    self.get_children_from(i + 1, folder_id)
                }
            }
            FileOrFolder::File(_) => self.get_children_from(i + 1, folder_id),
        }
    }

    /// The first folder with id `current_id` in depth-first order, the tree's
    /// own root included, or `None` when the id is absent.
    pub fn get_folder_by_id(&self, current_id: i64) -> (r: Option<&Folder>)
        ensures
            match r {
                Some(fo) => v_find_folder(self@, current_id as int) == Some(fo@),
                None => v_find_folder(self@, current_id as int) is None,
            },
        decreases *self, self.children@.len() + 1,
    {
        if self.folder_id == current_id {
            return Some(self);
        }
        self.get_folder_from(0, current_id)
    }

    /// The folder search, over this folder's children from position `i` on.
    fn get_folder_from(&self, i: usize, current_id: i64) -> (r: Option<&Folder>)
        requires
            i <= self.children@.len(),
        ensures
            match r {
                Some(fo) => v_find_folder_from(self@, i as int, current_id as int) == Some(fo@),
                None => v_find_folder_from(self@, i as int, current_id as int) is None,
            },
        decreases *self, self.children@.len() - i,
    {
        if i == self.children.len() {
            proof {
                lemma_nodes_view(self.children@);
            }
            return None;
        }
        proof {
            lemma_nodes_view(self.children@);
        }
        match &self.children[i] {
            FileOrFolder::Folder(fo) => match fo.get_folder_by_id(current_id) {
                Some(r) => Some(r),
                None => self.get_folder_from(i + 1, current_id),
            },
            FileOrFolder::File(_) => self.get_folder_from(i + 1, current_id),
        }
    }

    /// The parent id of the folder with id `current_id`, or -1 when that
    /// folder is absent or is the root.
    pub fn get_parent_id(&self, current_id: i64) -> (r: i64)
        ensures
            r == v_get_parent_id(self@, current_id as int),
    {
        match self.get_folder_by_id(current_id) {
            Some(f0) => match f0.parent_id {
                Some(id) => id,
                None => -1,
            },
            None => -1,
        }
    }

    /// Look an item up by id and kind: a leaf among this folder's direct
    /// leaves only, a folder along the leftmost chain of child folders only.
    /// Returns the item's own id when found, else -1.
    pub fn get_parent_id_by_item_id(&self, is_folder: bool, item_id: i64) -> (r: i64)
        ensures
            r == v_parent_by_item(self@, is_folder, item_id as int),
        decreases *self,
    {
        proof {
            lemma_nodes_view(self.children@);
        }
        if is_folder {
            let mut i: usize = 0;
            while i < self.children.len()
                invariant
                    is_folder,
                    i <= self.children@.len(),
                    v_parent_by_folder_from(self@, 0, item_id as int) == v_parent_by_folder_from(
                        self@,
                        i as int,
                        item_id as int,
                    ),
                decreases self.children@.len() - i,
            {
                proof {
                    lemma_nodes_view(self.children@);
                }
                match &self.children[i] {
                    FileOrFolder::Folder(fo) => {
                        if fo.folder_id == item_id {
                            return item_id;
                        }
                        return fo.get_parent_id_by_item_id(true, item_id);
                    }
                    FileOrFolder::File(_) => {}
                }
                i += 1;
            }
            -1
        } else {
            let mut i: usize = 0;
            while i < self.children.len()
                invariant
                    !is_folder,
                    i <= self.children@.len(),
                    forall|j: int|
                        0 <= j < i ==> !(!(node_view(#[trigger] self.children@[j]) is Folder)
                            && v_id(node_view(self.children@[j])) == item_id as int),
                decreases self.children@.len() - i,
            {
                match &self.children[i] {
                    FileOrFolder::File(ff) => {
                        if ff.file_id == item_id {
                            proof {
                                lemma_nodes_view(self.children@);
                                assert(!(self@.children[i as int] is Folder) && v_id(
                                    self@.children[i as int],
                                ) == item_id as int);
                            }
                            return item_id;
                        }
                    }
                    FileOrFolder::Folder(_) => {}
                }
                i += 1;
            }
            proof {
                lemma_nodes_view(self.children@);
                assert forall|k: int| 0 <= k < self@.children.len() implies !(!(
                self@.children[k] is Folder) && v_id(self@.children[k]) == item_id as int) by {
                    assert(!(!(node_view(self.children@[k]) is Folder) && v_id(
                        node_view(self.children@[k]),
                    ) == item_id as int));
                }
            }
            -1
        }
    }

    /// Whether some direct child of this folder is a folder with id `id`.
    pub fn contains_id(&self, id: i64) -> (r: bool)
        ensures
            r == (v_first_folder(self@.children, id as int) != -1),
    {
        match self.find_child_folder(id) {
            Some(_) => true,
            None => false,
        }
    }

}

/// Deep copy of a child node; only the view is preserved, not the identity
/// of the heap allocations.
fn clone_node(n: &FileOrFolder) -> (r: FileOrFolder)
    ensures
        node_view(r) == node_view(*n),
    decreases *n, 0int,
{
    match n {
        FileOrFolder::File(f) => FileOrFolder::File(f.clone()),
        FileOrFolder::Folder(f) => FileOrFolder::Folder(clone_folder(f)),
    }
}

/// Deep copy of a folder and its whole subtree.
fn clone_folder(f: &Folder) -> (r: Folder)
    ensures
        folder_view(r) == folder_view(*f),
    decreases *f, 0int,
{
    let children = clone_nodes_from(&f.children, 0);
    let r = Folder {
        children,
        name: f.name.clone(),
        parent_id: f.parent_id,
        folder_id: f.folder_id,
    };
    proof {
        lemma_nodes_view(r.children@);
        lemma_nodes_view(f.children@);
        assert(nodes_view(r.children@) =~= nodes_view(f.children@));
        assert(folder_view(r) =~= folder_view(*f));
    }
    r
}

/// Deep copies of the children of `v` from position `i` on, in order.
fn clone_nodes_from(v: &Vec<FileOrFolder>, i: usize) -> (r: Vec<FileOrFolder>)
    requires
        i <= v@.len(),
    ensures
        r@.len() == v@.len() - i,
        forall|j: int| 0 <= j < r@.len() ==> node_view(#[trigger] r@[j]) == node_view(v@[j + i]),
    decreases v@, v@.len() - i,
{
    if i == v.len() {
        Vec::new()
    } else {
        let x = clone_node(&v[i]);
        let mut rest = clone_nodes_from(v, i + 1);
        rest.insert(0, x);
        rest
    }
}

impl Clone for FileOrFolder {
    /// Deep copy; the view of the copy equals the view of the original.
    fn clone(&self) -> (r: Self)
        ensures
            r@ == self@,
    {
        clone_node(self)
    }
}

impl Clone for Folder {
    /// Deep copy; the view of the copy equals the view of the original.
    fn clone(&self) -> (r: Self)
        ensures
            r@ == self@,
    {
        clone_folder(self)
    }
}

/// Whether two child nodes are the same entity: the kinds agree and the ids
/// are equal.
fn same_identity(a: &FileOrFolder, b: &FileOrFolder) -> (r: bool)
    ensures
        r == v_same_identity(node_view(*a), node_view(*b)),
{
    match (a, b) {
        (FileOrFolder::File(x), FileOrFolder::File(y)) => x.file_id == y.file_id,
        (FileOrFolder::Folder(x), FileOrFolder::Folder(y)) => x.folder_id == y.folder_id,
        _ => false,
    }
}

} // verus!

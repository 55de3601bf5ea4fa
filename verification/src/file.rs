use vstd::prelude::*;

verus! {

/// A leaf node of the tree: a file identified by `file_id`, holding a path
/// string and the id of the folder that owns it.
#[derive(Debug)]
pub struct File {
    pub path: String,
    pub parent_id: i64,
    pub file_id: i64,
}

/// Mathematical view of a leaf: its path text and its identifiers.
#[verifier::ext_equal]
pub ghost struct FileV {
    pub path: Seq<char>,
    pub parent_id: int,
    pub id: int,
}

impl View for File {
    type V = FileV;

    open spec fn view(&self) -> FileV {
        FileV { path: self.path@, parent_id: self.parent_id as int, id: self.file_id as int }
    }
}

impl Clone for File {
    fn clone(&self) -> (r: Self)
        ensures
            r == *self,
    {
        File { path: self.path.clone(), parent_id: self.parent_id, file_id: self.file_id }
    }
}

impl PartialEq for File {
    fn eq(&self, other: &Self) -> (r: bool) {
        self.file_id == other.file_id
    }
}

impl vstd::std_specs::cmp::PartialEqSpecImpl for File {
    open spec fn obeys_eq_spec() -> bool {
        true
    }

    open spec fn eq_spec(&self, other: &Self) -> bool {
        self.file_id == other.file_id
    }
}

} // verus!

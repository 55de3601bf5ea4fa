use folder_tree::file::File;
use folder_tree::folder::{FileOrFolder, Folder};

fn leaf(path: &str, parent_id: i64, file_id: i64) -> File {
    File { path: path.to_owned(), parent_id, file_id }
}

fn sub(name: &str, parent_id: i64, folder_id: i64) -> Folder {
    Folder { children: vec![], name: name.to_owned(), parent_id: Some(parent_id), folder_id }
}

#[test]
fn test_append() {
    {
        let f1 = leaf("aaaaa", 0, 2);
        let f2 = leaf("bbbb", 0, 3);
        println!("{:?}", f1 == f2);

        let mut root = Folder::default();
        let sub_folder = sub("sub", 0, 1);
        root.append(FileOrFolder::File(f1));
        root.append(FileOrFolder::File(f2));
        root.append(FileOrFolder::Folder(sub_folder));

        println!("{:?}", root.children.len());
    }

    println!("=========================================================");

    {
        let f1 = leaf("aaaaa", 0, 0);
        let f2 = leaf("bbbb", 0, 1);

        let mut root = Folder::default();
        let sub_folder = sub("sub", 0, 1);
        root.append(FileOrFolder::File(f1.clone()));
        root.append(FileOrFolder::File(f2.clone()));
        root.append(FileOrFolder::Folder(sub_folder.clone()));
        println!("{:?}", root.contains(&FileOrFolder::File(f1.clone())));
        println!("{:?}", root.contains(&FileOrFolder::File(f2)));
        println!("{:?}", root.contains(&FileOrFolder::Folder(sub_folder.clone())));

        println!("{:?}", sub_folder.contains(&FileOrFolder::File(f1)));
    }
}

#[test]
fn default_tree_is_an_empty_root() {
    let root = Folder::default();
    assert_eq!(root.folder_id, 0);
    assert_eq!(root.name, "root");
    assert!(root.parent_id.is_none());
    assert!(root.children.is_empty());
}

#[test]
fn equality_is_by_id_alone() {
    assert_eq!(leaf("x", 0, 5), leaf("y", 3, 5));
    assert_ne!(leaf("x", 0, 5), leaf("x", 0, 6));
    let a = sub("a", 0, 7);
    let mut b = sub("b", 2, 7);
    b.children.push(FileOrFolder::File(leaf("x", 7, 1)));
    assert_eq!(a, b);
    assert_ne!(a, sub("a", 0, 8));
}

#[test]
fn append_is_idempotent() {
    let mut root = Folder::default();
    root.append(FileOrFolder::File(leaf("first", 0, 4)));
    root.append(FileOrFolder::File(leaf("second", 0, 4)));
    assert_eq!(root.children.len(), 1);
    match &root.children[0] {
        FileOrFolder::File(f) => assert_eq!(f.path, "first"),
        FileOrFolder::Folder(_) => panic!("expected a file"),
    }
}

#[test]
fn scenario_children_and_direct_containment() {
    let mut root = Folder::default();
    root.add_a_file_to_current_folder(0, leaf("a", 0, 2));
    root.add_a_folder_to_current_folder(0, sub("sub", 0, 1));

    let children = root.get_children(0);
    assert_eq!(children.len(), 2);
    match &children[0] {
        FileOrFolder::File(f) => {
            assert_eq!(f.file_id, 2);
            assert_eq!(f.path, "a");
        }
        FileOrFolder::Folder(_) => panic!("expected the leaf first"),
    }
    match &children[1] {
        FileOrFolder::Folder(f) => assert_eq!(f.folder_id, 1),
        FileOrFolder::File(_) => panic!("expected the folder second"),
    }

    assert!(root.contains(&FileOrFolder::File(leaf("other", 9, 2))));
    assert!(root.contains(&FileOrFolder::Folder(sub("other", 9, 1))));
    let sub_folder = match &root.children[1] {
        FileOrFolder::Folder(f) => f,
        FileOrFolder::File(_) => panic!("expected the folder second"),
    };
    assert!(!sub_folder.contains(&FileOrFolder::File(leaf("a", 0, 2))));
}

#[test]
fn insert_into_missing_folder_is_a_noop() {
    let mut root = Folder::default();
    root.add_a_file_to_current_folder(42, leaf("lost", 42, 1));
    assert!(root.children.is_empty());
    root.add_a_folder_to_current_folder(42, sub("lost", 42, 2));
    assert!(root.children.is_empty());
}

#[test]
fn insert_reaches_a_direct_child_folder() {
    let mut root = Folder::default();
    root.add_a_folder_to_current_folder(0, sub("sub", 0, 1));
    root.add_a_file_to_current_folder(1, leaf("deep", 1, 9));
    assert_eq!(root.children.len(), 1);
    let inner = root.get_children(1);
    assert_eq!(inner.len(), 1);
    match &inner[0] {
        FileOrFolder::File(f) => assert_eq!(f.file_id, 9),
        FileOrFolder::Folder(_) => panic!("expected the leaf"),
    }
}

#[test]
fn remove_a_file_is_by_identity() {
    let mut root = Folder::default();
    root.add_a_file_to_current_folder(0, leaf("a", 0, 1));
    root.add_a_file_to_current_folder(0, leaf("b", 0, 2));
    root.remove_a_file_from_current_folder(0, leaf("different path", 7, 1));
    assert_eq!(root.children.len(), 1);
    match &root.children[0] {
        FileOrFolder::File(f) => assert_eq!(f.file_id, 2),
        FileOrFolder::Folder(_) => panic!("expected a file"),
    }
    root.remove_a_file_from_current_folder(0, leaf("absent", 0, 9));
    assert_eq!(root.children.len(), 1);
}

#[test]
fn cascade_removal_discards_the_whole_subtree() {
    let mut root = Folder::default();
    root.add_a_folder_to_current_folder(0, sub("c", 0, 1));
    root.add_a_folder_to_current_folder(1, sub("d", 1, 2));
    root.add_a_file_to_current_folder(1, leaf("x", 1, 7));

    root.remove_a_folder_from_current_folder_directly(0, sub("c", 0, 1));
    assert!(root.children.is_empty());
    assert!(root.get_folder_by_id(1).is_none());
    assert!(root.get_folder_by_id(2).is_none());
    assert!(root.get_children(1).is_empty());
}

#[test]
fn keep_children_removal_promotes_direct_children_only() {
    let mut root = Folder::default();
    let mut c = sub("c", 0, 1);
    let mut d = sub("d", 1, 2);
    d.append(FileOrFolder::File(leaf("grandchild", 2, 8)));
    c.append(FileOrFolder::File(leaf("child", 1, 7)));
    c.append(FileOrFolder::Folder(d));
    root.append(FileOrFolder::Folder(c.clone()));

    root.remove_a_folder_from_current_folder_keep_children(0, c);
    assert!(root.get_folder_by_id(1).is_none());
    assert_eq!(root.children.len(), 2);
    match &root.children[0] {
        FileOrFolder::File(f) => assert_eq!(f.file_id, 7),
        FileOrFolder::Folder(_) => panic!("expected the promoted leaf first"),
    }
    let promoted = match &root.children[1] {
        FileOrFolder::Folder(f) => f,
        FileOrFolder::File(_) => panic!("expected the promoted folder second"),
    };
    assert_eq!(promoted.folder_id, 2);
    assert_eq!(promoted.children.len(), 1);
}

#[test]
fn moving_a_leaf_to_its_parent_is_a_noop() {
    let mut root = Folder::default();
    root.add_a_file_to_current_folder(0, leaf("a", 0, 3));
    root.move_item_to(0, FileOrFolder::File(leaf("a", 0, 3)));
    assert_eq!(root.children.len(), 1);
    match &root.children[0] {
        FileOrFolder::File(f) => {
            assert_eq!(f.parent_id, 0);
            assert_eq!(f.path, "a");
        }
        FileOrFolder::Folder(_) => panic!("expected the leaf"),
    }
}

#[test]
fn moving_a_leaf_between_folders() {
    let mut root = Folder::default();
    root.add_a_folder_to_current_folder(0, sub("a", 0, 1));
    root.add_a_folder_to_current_folder(0, sub("b", 0, 2));
    root.add_a_file_to_current_folder(1, leaf("x", 1, 9));

    root.move_item_to(2, FileOrFolder::File(leaf("x", 1, 9)));
    assert!(root.get_children(1).is_empty());
    let in_b = root.get_children(2);
    assert_eq!(in_b.len(), 1);
    match &in_b[0] {
        FileOrFolder::File(f) => {
            assert_eq!(f.file_id, 9);
            assert_eq!(f.parent_id, 2);
        }
        FileOrFolder::Folder(_) => panic!("expected the moved leaf"),
    }
}

#[test]
fn moving_a_top_level_folder() {
    let mut root = Folder::default();
    root.add_a_folder_to_current_folder(0, sub("dest", 0, 2));
    root.add_a_folder_to_current_folder(0, sub("moved", 0, 3));

    root.move_item_to(2, FileOrFolder::Folder(sub("moved", 0, 3)));
    assert_eq!(root.children.len(), 1);
    let in_dest = root.get_children(2);
    assert_eq!(in_dest.len(), 1);
    match &in_dest[0] {
        FileOrFolder::Folder(f) => {
            assert_eq!(f.folder_id, 3);
            assert_eq!(f.parent_id, Some(2));
        }
        FileOrFolder::File(_) => panic!("expected the moved folder"),
    }
}

#[test]
fn moving_the_root_is_a_noop() {
    let mut root = Folder::default();
    root.add_a_folder_to_current_folder(0, sub("dest", 0, 2));
    let rootlike = Folder { children: vec![], name: "root".to_owned(), parent_id: None, folder_id: 0 };
    root.move_item_to(2, FileOrFolder::Folder(rootlike));
    assert_eq!(root.children.len(), 1);
}

#[test]
fn pop_folder_returns_the_match_or_leaves_the_tree_alone() {
    let mut root = Folder::default();
    root.add_a_file_to_current_folder(0, leaf("a", 0, 1));
    root.add_a_folder_to_current_folder(0, sub("s", 0, 5));

    let missing = root.pop_folder(sub("anything", 0, 9));
    assert!(missing.is_none());
    assert_eq!(root.children.len(), 2);

    let popped = root.pop_folder(sub("anything", 0, 5));
    let popped = popped.expect("the folder with id 5 is there");
    assert_eq!(popped.folder_id, 5);
    assert_eq!(popped.name, "s");
    assert_eq!(root.children.len(), 1);
}

#[test]
fn get_parent_id_of_root_sub_and_absent() {
    let mut root = Folder::default();
    root.add_a_folder_to_current_folder(0, sub("s", 0, 5));
    assert_eq!(root.get_parent_id(0), -1);
    assert_eq!(root.get_parent_id(5), 0);
    assert_eq!(root.get_parent_id(9), -1);
}

#[test]
fn get_parent_id_by_item_id_lookups() {
    let mut root = Folder::default();
    root.add_a_file_to_current_folder(0, leaf("a", 0, 4));
    root.add_a_folder_to_current_folder(0, sub("s", 0, 5));
    assert_eq!(root.get_parent_id_by_item_id(false, 4), 4);
    assert_eq!(root.get_parent_id_by_item_id(false, 9), -1);
    assert_eq!(root.get_parent_id_by_item_id(true, 5), 5);
    assert_eq!(root.get_parent_id_by_item_id(true, 9), -1);
}

#[test]
fn children_of_an_absent_and_of_an_empty_folder_agree() {
    let mut root = Folder::default();
    root.add_a_folder_to_current_folder(0, sub("empty", 0, 1));
    assert!(root.get_children(1).is_empty());
    assert!(root.get_children(42).is_empty());
}

#[test]
fn contains_id_checks_direct_child_folders_only() {
    let mut root = Folder::default();
    root.add_a_folder_to_current_folder(0, sub("s", 0, 1));
    root.add_a_folder_to_current_folder(1, sub("deep", 1, 2));
    assert!(root.contains_id(1));
    assert!(!root.contains_id(2));
    assert!(!root.contains_id(0));
}

#[test]
fn get_folder_by_id_finds_nested_folders() {
    let mut root = Folder::default();
    root.add_a_folder_to_current_folder(0, sub("s", 0, 1));
    root.add_a_folder_to_current_folder(1, sub("deep", 1, 2));
    assert_eq!(root.get_folder_by_id(0).expect("the root itself").folder_id, 0);
    let deep = root.get_folder_by_id(2).expect("nested folder is found");
    assert_eq!(deep.name, "deep");
    assert_eq!(deep.parent_id, Some(1));
    assert!(root.get_folder_by_id(3).is_none());
}

#[test]
fn insertion_into_a_child_folder_is_idempotent() {
    let mut root = Folder::default();
    root.add_a_folder_to_current_folder(0, sub("s", 0, 1));
    root.add_a_file_to_current_folder(1, leaf("once", 1, 9));
    root.add_a_file_to_current_folder(1, leaf("twice", 1, 9));
    let inner = root.get_children(1);
    assert_eq!(inner.len(), 1);
    match &inner[0] {
        FileOrFolder::File(f) => assert_eq!(f.path, "once"),
        FileOrFolder::Folder(_) => panic!("expected the leaf"),
    }
}

#[test]
fn remove_strips_every_leaf_with_the_id_but_no_folder() {
    let mut root = Folder::default();
    root.children.push(FileOrFolder::File(leaf("a", 0, 1)));
    root.children.push(FileOrFolder::File(leaf("b", 0, 1)));
    root.children.push(FileOrFolder::Folder(sub("s", 0, 1)));
    root.remove(FileOrFolder::File(leaf("c", 0, 1)));
    assert_eq!(root.children.len(), 1);
    match &root.children[0] {
        FileOrFolder::Folder(f) => assert_eq!(f.folder_id, 1),
        FileOrFolder::File(_) => panic!("the folder with the same id must stay"),
    }
}

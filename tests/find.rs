use dice::find::Child;
use dice::find::Directory;
use dice::find::DirectoryEntry;
use dice::find::DirectoryFindError;

// root(0): a -> dir 1, f -> leaf 5; dir 1: b -> leaf 7, c -> dir 2; dir 2: empty
fn tree() -> Directory {
    Directory {
        nodes: vec![
            vec![
                Child { name: 1, entry: DirectoryEntry::Dir(1) },
                Child { name: 6, entry: DirectoryEntry::Leaf(5) },
            ],
            vec![
                Child { name: 2, entry: DirectoryEntry::Leaf(7) },
                Child { name: 3, entry: DirectoryEntry::Dir(2) },
            ],
            vec![],
        ],
    }
}

#[test]
fn find_empty_path() {
    assert_eq!(tree().find(0, &vec![]), Err(DirectoryFindError::EmptyPath));
    assert_eq!(tree().find_prefix(0, &vec![]), Err(DirectoryFindError::EmptyPath));
}

#[test]
fn find_entries() {
    let t = tree();
    assert_eq!(t.find(0, &vec![1, 2]), Ok(Some(DirectoryEntry::Leaf(7))));
    assert_eq!(t.find(0, &vec![1, 3]), Ok(Some(DirectoryEntry::Dir(2))));
    assert_eq!(t.find(0, &vec![1]), Ok(Some(DirectoryEntry::Dir(1))));
    assert_eq!(t.find(0, &vec![9]), Ok(None));
    assert_eq!(t.find(0, &vec![1, 3, 4]), Ok(None));
}

#[test]
fn find_through_leaf() {
    let t = tree();
    assert_eq!(
        t.find(0, &vec![1, 2, 4, 5]),
        Err(DirectoryFindError::CannotTraverseLeaf { path: vec![1, 2, 4] })
    );
    assert_eq!(
        t.find_prefix(0, &vec![1, 2, 4, 5]),
        Ok(Some((DirectoryEntry::Leaf(7), Some(vec![4, 5]))))
    );
    assert_eq!(t.find_prefix(0, &vec![1, 2]), Ok(Some((DirectoryEntry::Leaf(7), None))));
    assert_eq!(t.find_prefix(0, &vec![8]), Ok(None));
}

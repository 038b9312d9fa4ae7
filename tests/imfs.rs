use std::cell::Cell;
use std::io;
use std::rc::Rc;

use imfs::path::{bytes_equal, parent_len, to_owned_bytes};
use imfs::{Imfs, ImfsDirectory, ImfsFetcher, ImfsFile, ImfsItem, PathMap};

#[derive(Clone)]
enum Node {
    File(Vec<u8>),
    Dir,
}

/// An in-memory backing store that counts the reads made through it.
struct Fixture {
    nodes: Vec<(Vec<u8>, Node)>,
    item_calls: Rc<Cell<usize>>,
    content_calls: Rc<Cell<usize>>,
    failing: Rc<Cell<bool>>,
}

impl Fixture {
    fn new(nodes: Vec<(&[u8], Node)>) -> Fixture {
        Fixture {
            nodes: nodes.into_iter().map(|(p, n)| (p.to_vec(), n)).collect(),
            item_calls: Rc::new(Cell::new(0)),
            content_calls: Rc::new(Cell::new(0)),
            failing: Rc::new(Cell::new(false)),
        }
    }

    fn find(&self, path: &[u8]) -> io::Result<Node> {
        if self.failing.get() {
            return Err(io::Error::new(io::ErrorKind::PermissionDenied, "denied"));
        }
        self.nodes
            .iter()
            .find(|(p, _)| p.as_slice() == path)
            .map(|(_, n)| n.clone())
            .ok_or_else(|| io::Error::new(io::ErrorKind::NotFound, "missing"))
    }
}

impl ImfsFetcher for Fixture {
    fn read_item(&self, path: &[u8]) -> io::Result<ImfsItem> {
        self.item_calls.set(self.item_calls.get() + 1);
        Ok(match self.find(path)? {
            Node::File(_) => ImfsItem::File(ImfsFile { path: path.to_vec(), contents: None }),
            Node::Dir => ImfsItem::Directory(ImfsDirectory {
                path: path.to_vec(),
                children_enumerated: false,
            }),
        })
    }

    fn read_children(&self, _path: &[u8]) -> io::Result<Vec<ImfsItem>> {
        Ok(Vec::new())
    }

    fn read_contents(&self, path: &[u8]) -> io::Result<Vec<u8>> {
        self.content_calls.set(self.content_calls.get() + 1);
        match self.find(path)? {
            Node::File(bytes) => Ok(bytes),
            Node::Dir => Err(io::Error::new(io::ErrorKind::Other, "directory")),
        }
    }

    fn create_directory(&self, _path: &[u8]) -> io::Result<()> {
        Ok(())
    }

    fn write_contents(&self, _path: &[u8], _contents: &[u8]) -> io::Result<()> {
        Ok(())
    }

    fn remove(&self, _path: &[u8]) -> io::Result<()> {
        Ok(())
    }
}

fn dir(path: &[u8], children_enumerated: bool) -> ImfsItem {
    ImfsItem::Directory(ImfsDirectory { path: path.to_vec(), children_enumerated })
}

fn sample() -> Fixture {
    Fixture::new(vec![
        (b"/", Node::Dir),
        (b"/a", Node::Dir),
        (b"/a/x", Node::File(b"x contents".to_vec())),
        (b"/a/y", Node::Dir),
        (b"/b", Node::Dir),
        (b"/b/z", Node::File(b"z".to_vec())),
        (b"/f", Node::File(b"hi".to_vec())),
    ])
}

#[test]
fn get_twice_gives_same_entry() {
    let fixture = sample();
    let calls = fixture.item_calls.clone();
    let mut imfs = Imfs::new(fixture);
    let first = imfs.get(b"/a/x").unwrap().unwrap();
    let second = imfs.get(b"/a/x").unwrap().unwrap();
    assert_eq!(first.path(), second.path());
    assert_eq!(first.is_file(), second.is_file());
    assert_eq!(first.path(), b"/a/x");
    assert!(first.is_file());
    assert_eq!(calls.get(), 1);
}

#[test]
fn get_contents_twice_reads_once() {
    let fixture = sample();
    let contents = fixture.content_calls.clone();
    let mut imfs = Imfs::new(fixture);
    let first = imfs.get_contents(b"/a/x").unwrap().unwrap().to_vec();
    let second = imfs.get_contents(b"/a/x").unwrap().unwrap().to_vec();
    assert_eq!(first, b"x contents".to_vec());
    assert_eq!(first, second);
    assert_eq!(contents.get(), 1);
}

#[test]
fn directory_has_no_contents() {
    let fixture = sample();
    let contents = fixture.content_calls.clone();
    let mut imfs = Imfs::new(fixture);
    assert!(imfs.get_contents(b"/a").unwrap().is_none());
    assert!(imfs.get_contents(b"/a").unwrap().is_none());
    let entry = imfs.get(b"/a").unwrap().unwrap();
    assert!(entry.is_directory());
    assert!(!entry.is_file());
    assert_eq!(contents.get(), 0);
}

#[test]
fn children_come_from_the_store_only() {
    let fixture = sample();
    let calls = fixture.item_calls.clone();
    let mut imfs = Imfs::new(fixture);
    imfs.get(b"/a").unwrap();
    assert_eq!(imfs.get_children(b"/a").unwrap().len(), 0);
    imfs.get(b"/a/y").unwrap();
    imfs.get(b"/b/z").unwrap();
    imfs.get(b"/a/x").unwrap();
    imfs.get(b"/b").unwrap();
    let before = calls.get();
    let children = imfs.get_children(b"/a").unwrap();
    let paths: Vec<Vec<u8>> = children.iter().map(|e| e.path().to_vec()).collect();
    assert_eq!(paths, vec![b"/a/y".to_vec(), b"/a/x".to_vec()]);
    assert!(children[0].is_directory());
    assert!(children[1].is_file());
    assert_eq!(calls.get(), before);
}

#[test]
fn unrelated_insert_does_not_change_children() {
    let mut imfs = Imfs::new(sample());
    imfs.get(b"/a").unwrap();
    imfs.get(b"/a/x").unwrap();
    let before: Vec<Vec<u8>> =
        imfs.get_children(b"/a").unwrap().iter().map(|e| e.path().to_vec()).collect();
    imfs.insert_item(b"/b/q", dir(b"/b/q", false));
    imfs.insert_item(b"/a/x/deep", dir(b"/a/x/deep", false));
    let after: Vec<Vec<u8>> =
        imfs.get_children(b"/a").unwrap().iter().map(|e| e.path().to_vec()).collect();
    assert_eq!(before, after);
    assert_eq!(after, vec![b"/a/x".to_vec()]);
}

#[test]
fn children_of_absent_path_is_none() {
    let fixture = sample();
    let calls = fixture.item_calls.clone();
    let mut imfs = Imfs::new(fixture);
    assert!(imfs.get_children(b"/a").is_none());
    assert_eq!(calls.get(), 0);
}

#[test]
fn children_of_root() {
    let mut imfs = Imfs::new(sample());
    imfs.get(b"/").unwrap();
    imfs.get(b"/f").unwrap();
    imfs.get(b"/a").unwrap();
    imfs.get(b"/a/x").unwrap();
    let children = imfs.get_children(b"/").unwrap();
    let paths: Vec<Vec<u8>> = children.iter().map(|e| e.path().to_vec()).collect();
    assert_eq!(paths, vec![b"/f".to_vec(), b"/a".to_vec()]);
}

#[test]
fn not_resident_without_entries() {
    let imfs = Imfs::new(sample());
    assert!(!imfs.would_be_resident(b"/a/b"));
}

#[test]
fn resident_under_unenumerated_directory() {
    let mut imfs = Imfs::new(sample());
    imfs.insert_item(b"/a", dir(b"/a", false));
    assert!(imfs.would_be_resident(b"/a/b"));
}

#[test]
fn not_resident_under_enumerated_directory() {
    let mut imfs = Imfs::new(sample());
    imfs.insert_item(b"/a", dir(b"/a", true));
    assert!(!imfs.would_be_resident(b"/a/b"));
}

#[test]
fn resident_when_present() {
    let mut imfs = Imfs::new(sample());
    imfs.insert_item(b"/a", dir(b"/a", true));
    imfs.insert_item(b"/a/b", dir(b"/a/b", true));
    assert!(imfs.would_be_resident(b"/a/b"));
    assert!(imfs.would_be_resident(b"/a"));
    assert!(!imfs.would_be_resident(b"/a/c"));
}

#[test]
fn not_resident_under_file() {
    let mut imfs = Imfs::new(sample());
    imfs.get(b"/f").unwrap();
    assert!(!imfs.would_be_resident(b"/f/g"));
    assert!(imfs.would_be_resident(b"/f"));
}

#[test]
fn resident_under_root_directory() {
    let mut imfs = Imfs::new(sample());
    imfs.get(b"/").unwrap();
    assert!(imfs.would_be_resident(b"/new"));
    assert!(!imfs.would_be_resident(b"relative"));
}

#[test]
fn miss_fill_on_first_access() {
    let fixture = Fixture::new(vec![(b"/f", Node::File(b"hi".to_vec()))]);
    let items = fixture.item_calls.clone();
    let contents = fixture.content_calls.clone();
    let mut imfs = Imfs::new(fixture);
    let entry = imfs.get(b"/f").unwrap().unwrap();
    assert!(entry.is_file());
    let bytes = imfs.get_contents(b"/f").unwrap().unwrap().to_vec();
    assert_eq!(bytes, b"hi".to_vec());
    assert_eq!(items.get(), 1);
    assert_eq!(contents.get(), 1);
}

#[test]
fn missing_path_gives_no_entry() {
    let fixture = sample();
    let calls = fixture.item_calls.clone();
    let mut imfs = Imfs::new(fixture);
    assert!(imfs.get(b"/nope").unwrap().is_none());
    assert!(imfs.get_contents(b"/nope").unwrap().is_none());
    assert!(!imfs.would_be_resident(b"/nope"));
    assert_eq!(calls.get(), 2);
}

#[test]
fn fetch_failure_is_returned() {
    let fixture = sample();
    let failing = fixture.failing.clone();
    let mut imfs = Imfs::new(fixture);
    failing.set(true);
    let err = imfs.get(b"/a").err().unwrap();
    assert_eq!(err.kind(), io::ErrorKind::PermissionDenied);
    assert!(!imfs.would_be_resident(b"/a"));
    failing.set(false);
    assert!(imfs.get(b"/a").unwrap().unwrap().is_directory());
}

#[test]
fn contents_failure_leaves_file_unread() {
    let fixture = sample();
    let failing = fixture.failing.clone();
    let contents = fixture.content_calls.clone();
    let mut imfs = Imfs::new(fixture);
    imfs.get(b"/f").unwrap();
    failing.set(true);
    assert!(imfs.get_contents(b"/f").is_err());
    failing.set(false);
    assert_eq!(imfs.get_contents(b"/f").unwrap().unwrap(), b"hi");
    assert_eq!(imfs.get_contents(b"/f").unwrap().unwrap(), b"hi");
    assert_eq!(contents.get(), 2);
}

#[test]
fn inserted_contents_are_not_fetched() {
    let fixture = sample();
    let contents = fixture.content_calls.clone();
    let mut imfs = Imfs::new(fixture);
    let file = ImfsFile { path: b"/g".to_vec(), contents: Some(b"kept".to_vec()) };
    imfs.insert_item(b"/g", ImfsItem::File(file));
    assert_eq!(imfs.get_contents(b"/g").unwrap().unwrap(), b"kept");
    assert_eq!(contents.get(), 0);
}

#[test]
fn entry_forwards_to_cache() {
    let mut imfs = Imfs::new(sample());
    let a = imfs.get(b"/a").unwrap().unwrap();
    let x = imfs.get(b"/a/x").unwrap().unwrap();
    assert_eq!(x.contents(&mut imfs).unwrap().unwrap(), b"x contents");
    assert!(a.contents(&mut imfs).unwrap().is_none());
    let children = a.children(&mut imfs).unwrap();
    assert_eq!(children.len(), 1);
    assert_eq!(children[0].path(), b"/a/x");
    assert_eq!(x.children(&mut imfs).unwrap().len(), 0);
}

#[test]
fn entry_reports_path_of_item() {
    let mut imfs = Imfs::new(sample());
    imfs.insert_item(b"/alias", dir(b"/a", false));
    let entry = imfs.get(b"/alias").unwrap().unwrap();
    assert_eq!(entry.path(), b"/a");
    assert!(entry.is_directory());
}

#[test]
fn item_path_of_each_kind() {
    let file = ImfsItem::File(ImfsFile { path: b"/f".to_vec(), contents: None });
    assert_eq!(file.path(), b"/f");
    assert_eq!(dir(b"/d", true).path(), b"/d");
}

#[test]
fn parent_lengths() {
    assert_eq!(parent_len(b"/a/b"), Some(2));
    assert_eq!(parent_len(b"/a"), Some(1));
    assert_eq!(parent_len(b"/"), None);
    assert_eq!(parent_len(b"abc"), None);
    assert_eq!(parent_len(b""), None);
    assert_eq!(parent_len(b"a/b"), Some(1));
    assert_eq!(parent_len(b"/a/bc/d"), Some(5));
}

#[test]
fn byte_helpers() {
    assert!(bytes_equal(b"/a", b"/a"));
    assert!(!bytes_equal(b"/a", b"/b"));
    assert!(!bytes_equal(b"/a", b"/a/"));
    assert!(bytes_equal(b"", b""));
    assert_eq!(to_owned_bytes(b"/a/b"), b"/a/b".to_vec());
}

#[test]
fn path_map_keeps_insertion_order() {
    let mut map: PathMap<u32> = PathMap::new();
    assert!(map.children(b"/").is_none());
    map.insert(b"/".to_vec(), 0);
    map.insert(b"/b".to_vec(), 1);
    map.insert(b"/a".to_vec(), 2);
    map.insert(b"/a/c".to_vec(), 3);
    map.insert(b"/b".to_vec(), 4);
    assert_eq!(map.get(b"/b"), Some(&4));
    assert_eq!(map.get(b"/c"), None);
    assert!(map.contains_key(b"/a/c"));
    assert_eq!(map.find(b"/a"), Some(2));
    assert_eq!(*map.value_at(3), 3);
    assert_eq!(map.children(b"/").unwrap(), vec![b"/b".to_vec(), b"/a".to_vec()]);
    assert_eq!(map.children(b"/a").unwrap(), vec![b"/a/c".to_vec()]);
}

#[test]
fn store_read_item_stores_what_was_read() {
    let mut imfs = Imfs::new(sample());
    let read = Ok(dir(b"/d", false));
    assert!(imfs.store_read_item(b"/d", read, false).unwrap());
    let entry = imfs.get(b"/d").unwrap().unwrap();
    assert_eq!(entry.path(), b"/d");
    assert!(entry.is_directory());
    assert!(imfs.would_be_resident(b"/d/e"));
}

#[test]
fn store_read_item_not_found_is_no_entry() {
    let mut imfs = Imfs::new(sample());
    let read = Err(io::Error::new(io::ErrorKind::NotFound, "missing"));
    assert!(!imfs.store_read_item(b"/d", read, true).unwrap());
    assert!(!imfs.would_be_resident(b"/d"));
}

#[test]
fn store_read_item_failure_is_handed_back() {
    let mut imfs = Imfs::new(sample());
    let read = Err(io::Error::new(io::ErrorKind::PermissionDenied, "denied"));
    let err = imfs.store_read_item(b"/d", read, false).err().unwrap();
    assert_eq!(err.kind(), io::ErrorKind::PermissionDenied);
    assert!(!imfs.would_be_resident(b"/d"));
}

#[test]
fn store_read_contents_keeps_bytes() {
    let fixture = sample();
    let contents = fixture.content_calls.clone();
    let mut imfs = Imfs::new(fixture);
    imfs.insert_item(b"/g", ImfsItem::File(ImfsFile { path: b"/g".to_vec(), contents: None }));
    imfs.store_read_contents(b"/g", Ok(b"abc".to_vec())).unwrap();
    assert_eq!(imfs.get_contents(b"/g").unwrap().unwrap(), b"abc");
    assert_eq!(imfs.get(b"/g").unwrap().unwrap().path(), b"/g");
    assert_eq!(contents.get(), 0);
}

#[test]
fn store_read_contents_failure_leaves_file_unread() {
    let fixture = sample();
    let contents = fixture.content_calls.clone();
    let mut imfs = Imfs::new(fixture);
    imfs.insert_item(b"/f", ImfsItem::File(ImfsFile { path: b"/f".to_vec(), contents: None }));
    let read = Err(io::Error::new(io::ErrorKind::Other, "broken"));
    let err = imfs.store_read_contents(b"/f", read).err().unwrap();
    assert_eq!(err.kind(), io::ErrorKind::Other);
    assert_eq!(imfs.get_contents(b"/f").unwrap().unwrap(), b"hi");
    assert_eq!(contents.get(), 1);
}

#[test]
fn uncached_directory_has_no_contents() {
    let fixture = sample();
    let items = fixture.item_calls.clone();
    let contents = fixture.content_calls.clone();
    let mut imfs = Imfs::new(fixture);
    assert!(imfs.get_contents(b"/b").unwrap().is_none());
    assert!(imfs.get(b"/b").unwrap().unwrap().is_directory());
    assert_eq!(items.get(), 1);
    assert_eq!(contents.get(), 0);
}

#[test]
fn uncached_file_reads_item_then_contents() {
    let fixture = sample();
    let items = fixture.item_calls.clone();
    let contents = fixture.content_calls.clone();
    let mut imfs = Imfs::new(fixture);
    assert_eq!(imfs.get_contents(b"/b/z").unwrap().unwrap(), b"z");
    imfs.get_contents(b"/f").unwrap();
    assert_eq!(imfs.get_contents(b"/b/z").unwrap().unwrap(), b"z");
    assert_eq!(items.get(), 2);
    assert_eq!(contents.get(), 2);
}

use std::rc::Rc;
use wnfs::blockstore::MemoryBlockStore;
use wnfs::codec::{decode_node, encode_node};
use wnfs::directory::PrivateDirectory;
use wnfs::error::FsError;
use wnfs::file::PrivateFile;
use wnfs::namefilter::Namefilter;
use wnfs::node::{PrivateLink, PrivateNode};
use wnfs::referenceable::{Referenceable, ReferenceableStore};
use wnfs::store::HamtStore;

fn seed(b: u8) -> [u8; 32] {
    [b; 32]
}

fn file_node(content: Vec<u8>) -> PrivateNode {
    PrivateNode::File(PrivateFile::new(None, vec![2], seed(9), 0, content))
}

fn value_link(node: PrivateNode) -> PrivateLink {
    PrivateLink::from(Rc::new(node))
}

#[test]
fn get_node_on_empty_path_is_invalid() {
    let dir = PrivateDirectory::new(None, vec![1], seed(7), 0);
    let mut hs = HamtStore::new(MemoryBlockStore::new());
    let res = dir.get_node(&Vec::<Vec<u8>>::new(), &mut hs);
    assert!(matches!(res, Err(FsError::InvalidPath)));
}

#[test]
fn get_node_finds_inserted_file() {
    let dir = PrivateDirectory::new(None, vec![1], seed(7), 0)
        .with_entry(b"report.txt".to_vec(), value_link(file_node(vec![1, 2, 3])));
    let mut hs = HamtStore::new(MemoryBlockStore::new());
    let found = dir.get_node(&vec![b"report.txt".to_vec()], &mut hs).unwrap().unwrap();
    match &*found {
        PrivateNode::File(f) => assert_eq!(f.main.content, vec![1, 2, 3]),
        PrivateNode::Dir(_) => panic!("expected a file"),
    }
}

#[test]
fn get_node_through_a_file_is_invalid() {
    let dir = PrivateDirectory::new(None, vec![1], seed(7), 0)
        .with_entry(b"a".to_vec(), value_link(file_node(vec![0])));
    let mut hs = HamtStore::new(MemoryBlockStore::new());
    let res = dir.get_node(&vec![b"a".to_vec(), b"b".to_vec()], &mut hs);
    assert!(matches!(res, Err(FsError::InvalidPath)));
}

#[test]
fn lookup_of_missing_entry_is_absence_not_error() {
    let mut dir = PrivateDirectory::new(None, vec![1], seed(7), 0)
        .with_entry(b"here".to_vec(), value_link(file_node(vec![0])));
    let mut hs = HamtStore::new(MemoryBlockStore::new());
    assert!(dir.get_node(&vec![b"missing".to_vec()], &mut hs).unwrap().is_none());
    assert!(dir.lookup_node(&b"missing".to_vec(), &mut hs).unwrap().is_none());
}

#[test]
fn nested_directories_resolve_by_path() {
    let inner = PrivateDirectory::new(None, vec![3], seed(8), 0)
        .with_entry(b"leaf".to_vec(), value_link(file_node(vec![42])));
    let dir = PrivateDirectory::new(None, vec![1], seed(7), 0)
        .with_entry(b"inner".to_vec(), value_link(PrivateNode::Dir(inner)));
    let mut hs = HamtStore::new(MemoryBlockStore::new());
    let found = dir
        .get_node(&vec![b"inner".to_vec(), b"leaf".to_vec()], &mut hs)
        .unwrap()
        .unwrap();
    match &*found {
        PrivateNode::File(f) => assert_eq!(f.main.content, vec![42]),
        PrivateNode::Dir(_) => panic!("expected a file"),
    }
}

#[test]
fn hamt_store_round_trips_a_node() {
    let mut hs = HamtStore::new(MemoryBlockStore::new());
    let node = Rc::new(file_node(vec![10, 20, 30]));
    let reference = hs.put_value(&node).unwrap();
    let back = hs.get_value(&reference).unwrap();
    match &*back {
        PrivateNode::File(f) => assert_eq!(f.main.content, vec![10, 20, 30]),
        PrivateNode::Dir(_) => panic!("expected a file"),
    }
}

#[test]
fn hamt_store_get_of_unknown_reference_fails() {
    let mut hs = HamtStore::new(MemoryBlockStore::new());
    let node = file_node(vec![1]);
    let header = match &node {
        PrivateNode::File(f) => &f.header,
        PrivateNode::Dir(d) => &d.header,
    };
    let reference = header.derive_private_ref();
    assert!(matches!(hs.get_value(&reference), Err(FsError::CidNotFound)));
}

#[test]
fn put_value_rejects_unresolved_directory_entries() {
    let mut hs = HamtStore::new(MemoryBlockStore::new());
    let dir = PrivateDirectory::new(None, vec![1], seed(7), 0)
        .with_entry(b"kid".to_vec(), value_link(file_node(vec![0])));
    let res = hs.put_value(&Rc::new(PrivateNode::Dir(dir)));
    assert!(matches!(res, Err(FsError::DecodeError)));
}

#[test]
fn directory_with_resolved_children_persists_and_reads_back() {
    let mut hs = HamtStore::new(MemoryBlockStore::new());
    let child = Rc::new(file_node(vec![1, 2, 3]));
    let child_ref = hs.put_value(&child).unwrap();
    let dir = PrivateDirectory::new(None, vec![1], seed(7), 0).with_entry(
        b"report.txt".to_vec(),
        Referenceable::Encoded { reference: child_ref, value_cache: None },
    );
    let found = dir
        .get_node(&vec![b"report.txt".to_vec()], &mut hs)
        .unwrap()
        .unwrap();
    match &*found {
        PrivateNode::File(f) => assert_eq!(f.main.content, vec![1, 2, 3]),
        PrivateNode::Dir(_) => panic!("expected a file"),
    }
}

#[test]
fn encrypted_layer_round_trips_records() {
    let mut hs = HamtStore::new(MemoryBlockStore::new());
    let mut name = Namefilter::new();
    name.add(&b"node".to_vec());
    let record = (vec![9, 9, 9], Vec::new());
    hs.set_encrypted(&name, record.clone()).unwrap();
    let got = hs.get_encrypted(&name).unwrap();
    assert_eq!(got.0, vec![9, 9, 9]);
    let removed = hs.remove_encrypted(&name).unwrap().unwrap();
    assert_eq!(removed.0, vec![9, 9, 9]);
    assert!(hs.get_encrypted(&name).is_none());
}

#[test]
fn node_codec_round_trips_without_the_store() {
    let child_header_file = file_node(vec![5, 6]);
    let child_ref = match &child_header_file {
        PrivateNode::File(f) => f.header.derive_private_ref(),
        PrivateNode::Dir(_) => panic!("expected a file"),
    };
    let dir = PrivateDirectory::new(None, vec![1], seed(7), 123).with_entry(
        b"kid".to_vec(),
        Referenceable::Encoded { reference: child_ref, value_cache: None },
    );
    let node = PrivateNode::Dir(dir);
    let bytes = encode_node(&node);
    let back = decode_node(&bytes).unwrap();
    match (&node, &back) {
        (PrivateNode::Dir(a), PrivateNode::Dir(b)) => {
            assert_eq!(a.main.metadata.created, b.main.metadata.created);
            assert_eq!(a.header.inumber, b.header.inumber);
            assert_eq!(a.header.ratchet_seed, b.header.ratchet_seed);
            assert_eq!(a.header.bare_name.as_bytes(), b.header.bare_name.as_bytes());
            assert_eq!(a.main.entries.len(), b.main.entries.len());
            assert_eq!(a.main.entries[0].0, b.main.entries[0].0);
        },
        _ => panic!("expected directories"),
    }
}

#[test]
fn derive_private_ref_is_deterministic() {
    let file = PrivateFile::new(None, vec![4], seed(5), 0, vec![]);
    let r1 = file.header.derive_private_ref();
    let r2 = file.header.derive_private_ref();
    assert_eq!(r1.saturated_name_hash, r2.saturated_name_hash);
    assert_eq!(r1.content_key.key, r2.content_key.key);
    assert_eq!(r1.enc_ratchet_key, r2.enc_ratchet_key);
}

#[test]
fn hamt_store_set_get_remove_by_reference() {
    let mut hs = HamtStore::new(MemoryBlockStore::new());
    let node = Rc::new(file_node(vec![7, 8]));
    let reference = match &*node {
        PrivateNode::File(f) => f.header.derive_private_ref(),
        PrivateNode::Dir(_) => panic!("expected a file"),
    };
    hs.set(&reference, Rc::clone(&node)).unwrap();
    let got = hs.get(&reference).unwrap().unwrap();
    match &*got {
        PrivateNode::File(f) => assert_eq!(f.main.content, vec![7, 8]),
        PrivateNode::Dir(_) => panic!("expected a file"),
    }
    let removed = hs.remove(&reference).unwrap();
    assert!(removed.is_some());
    assert!(hs.get(&reference).unwrap().is_none());
}

#[test]
fn with_entry_rebinds_an_existing_name() {
    let dir = PrivateDirectory::new(None, vec![1], seed(7), 0)
        .with_entry(b"report.txt".to_vec(), value_link(file_node(vec![1])))
        .with_entry(b"report.txt".to_vec(), value_link(file_node(vec![2])));
    assert_eq!(dir.main.entries.len(), 1);
    let mut hs = HamtStore::new(MemoryBlockStore::new());
    let found = dir.get_node(&vec![b"report.txt".to_vec()], &mut hs).unwrap().unwrap();
    match &*found {
        PrivateNode::File(f) => assert_eq!(f.main.content, vec![2]),
        PrivateNode::Dir(_) => panic!("expected a file"),
    }
}

#[test]
fn resolve_entries_prepares_a_directory_for_persistence() {
    let mut hs = HamtStore::new(MemoryBlockStore::new());
    let dir = PrivateDirectory::new(None, vec![1], seed(7), 0)
        .with_entry(b"a".to_vec(), value_link(file_node(vec![1])))
        .with_entry(b"b".to_vec(), value_link(file_node(vec![2])));
    let resolved = dir.resolve_entries(&mut hs).unwrap();
    let dref = hs.put_value(&Rc::new(PrivateNode::Dir(resolved))).unwrap();
    let back = hs.get(&dref).unwrap().unwrap();
    match &*back {
        PrivateNode::Dir(d) => assert_eq!(d.main.entries.len(), 2),
        _ => panic!("expected a directory"),
    }
}

#[test]
fn headers_with_equal_components_compare_equal() {
    let a = PrivateFile::new(None, vec![4], seed(5), 0, vec![]).header;
    let b = PrivateFile::new(None, vec![4], seed(5), 0, vec![]).header;
    let c = PrivateFile::new(None, vec![9], seed(5), 0, vec![]).header;
    assert!(a == b);
    assert!(!(a == c));
}

use rgb_validation::ids::OpId;
use rgb_validation::index::{OpIdSet, OpIndex};

fn id(first: u8, last: u8) -> OpId {
    let mut bytes = [0u8; 32];
    bytes[0] = first;
    bytes[31] = last;
    OpId(bytes)
}

#[test]
fn index_keeps_values() {
    let mut index: OpIndex<u8> = OpIndex::new();
    assert_eq!(index.get(id(1, 1)), None);
    index.insert(id(2, 0), 20);
    index.insert(id(1, 9), 19);
    index.insert(id(3, 0), 30);
    index.insert(id(1, 1), 11);
    assert_eq!(index.get(id(2, 0)), Some(&20));
    assert_eq!(index.get(id(1, 9)), Some(&19));
    assert_eq!(index.get(id(3, 0)), Some(&30));
    assert_eq!(index.get(id(1, 1)), Some(&11));
    assert_eq!(index.get(id(1, 2)), None);
}

#[test]
fn index_replaces_values() {
    let mut index: OpIndex<u8> = OpIndex::new();
    index.insert(id(1, 1), 1);
    index.insert(id(1, 1), 2);
    assert_eq!(index.get(id(1, 1)), Some(&2));
}

#[test]
fn set_of_operations() {
    let mut set: OpIdSet = OpIndex::new();
    for last in (0..100).rev() {
        set.insert(id(0, last), ());
    }
    for last in 0..100 {
        assert!(set.contains(id(0, last)));
        assert!(!set.contains(id(1, last)));
    }
}

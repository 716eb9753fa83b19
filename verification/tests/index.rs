use kvs::index::{CommandPos, Index};
use kvs::KvStoreInner;

fn text(s: &str) -> String {
    s.to_owned()
}

fn place(pos: u64, len: u64) -> CommandPos {
    CommandPos { pos, len }
}

#[test]
fn an_index_starts_empty() {
    let index = Index::new();
    assert_eq!(index.len(), 0);
    assert_eq!(index.get(&text("k")), None);
}

#[test]
fn insert_gives_back_the_place_before() {
    let mut index = Index::new();
    assert_eq!(index.insert(text("a"), place(0, 10)), None);
    assert_eq!(index.insert(text("b"), place(10, 20)), None);
    assert_eq!(index.insert(text("a"), place(30, 5)), Some(place(0, 10)));
    assert_eq!(index.len(), 2);
    assert_eq!(index.get(&text("a")), Some(place(30, 5)));
    assert_eq!(index.get(&text("b")), Some(place(10, 20)));
    assert_eq!(index.key_at(0), "a");
    assert_eq!(index.place_at(0), place(30, 5));
    assert_eq!(index.key_at(1), "b");
    assert_eq!(index.place_at(1), place(10, 20));
}

#[test]
fn remove_puts_the_last_entry_in_the_gap() {
    let mut index = Index::new();
    index.insert(text("a"), place(0, 1));
    index.insert(text("b"), place(1, 2));
    index.insert(text("c"), place(3, 3));
    assert_eq!(index.remove(&text("a")), Some(place(0, 1)));
    assert_eq!(index.len(), 2);
    assert_eq!(index.key_at(0), "c");
    assert_eq!(index.key_at(1), "b");
    assert_eq!(index.get(&text("a")), None);
    assert_eq!(index.get(&text("b")), Some(place(1, 2)));
    assert_eq!(index.get(&text("c")), Some(place(3, 3)));
    assert_eq!(index.remove(&text("a")), None);
    assert_eq!(index.remove(&text("b")), Some(place(1, 2)));
    assert_eq!(index.remove(&text("c")), Some(place(3, 3)));
    assert_eq!(index.len(), 0);
    assert_eq!(index.get(&text("c")), None);
}

#[test]
fn many_keys_are_found_again() {
    let mut index = Index::new();
    for i in 0..1000u64 {
        assert_eq!(index.insert(format!("key{}", i), place(i, i + 1)), None);
    }
    for i in (0..1000u64).step_by(3) {
        assert_eq!(index.remove(&format!("key{}", i)), Some(place(i, i + 1)));
    }
    for i in 0..1000u64 {
        let expected = if i % 3 == 0 { None } else { Some(place(i, i + 1)) };
        assert_eq!(index.get(&format!("key{}", i)), expected);
    }
    assert_eq!(index.len(), 666);
    for i in 0..index.len() {
        let key = index.key_at(i).clone();
        assert_eq!(index.get(&key), Some(index.place_at(i)));
    }
}

#[test]
fn compaction_writes_the_records_in_the_order_of_the_index() {
    let mut store = KvStoreInner::open(Vec::new()).unwrap();
    store.set(text("a"), text("1")).unwrap();
    store.set(text("b"), text("2")).unwrap();
    store.set(text("c"), text("3")).unwrap();
    store.remove(text("a")).unwrap();
    store.compact();
    assert_eq!(
        store.log().as_slice(),
        b"{\"Set\":{\"key\":\"c\",\"value\":\"3\"}}{\"Set\":{\"key\":\"b\",\"value\":\"2\"}}"
    );
    assert_eq!(store.get(text("b")).unwrap(), Some(text("2")));
    assert_eq!(store.get(text("c")).unwrap(), Some(text("3")));
}

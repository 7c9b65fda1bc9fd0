use fix_core::engine::{settle, Outcome};
use fix_core::names::{
    failure, BlobName, Data, Encode, Handle, Object, Ref, RuntimeValue, Thunk, TreeName,
};
use fix_core::selection::{answer, Query};
use fix_core::store::Store;

fn byte(i: u8) -> Handle {
    Handle::Data(Data::Ref(Ref::Blob(BlobName::literal(&[i]))))
}

fn tree_of_five(store: &mut Store, tag: bool) -> TreeName {
    TreeName::create(store, (0..5u8).map(byte).collect(), tag).unwrap()
}

fn is_failure(o: Outcome, message: &str) -> bool {
    match o {
        Outcome::Failure(e) => e.same(&failure(message)),
        _ => false,
    }
}

#[test]
fn truncate_to_empty_tells_the_kind_only() {
    for tag in [false, true] {
        let mut store = Store::new();
        let t = tree_of_five(&mut store, tag);
        assert_eq!(t.size(), 5);
        let o = answer(&store, Ref::Tree(t), Query::Truncate);
        match settle(&mut store, o) {
            Ok(RuntimeValue::Data(Data::Object(Object::Tree(empty)))) => {
                assert_eq!(empty.size(), 0);
                assert_eq!(empty.footprint(), 0);
                assert_eq!(empty.tag, tag);
            }
            _ => panic!("a tree was expected"),
        }
    }
}

#[test]
fn truncate_needs_no_content() {
    let mut store = Store::new();
    let mut t = tree_of_five(&mut store, true);
    t.name.low = 1234;
    match answer(&store, Ref::Tree(t), Query::Truncate) {
        Outcome::Tree(elems, tag) => {
            assert!(elems.is_empty());
            assert!(tag);
        }
        _ => panic!("a tree was expected"),
    }
    match answer(&store, Ref::Blob(BlobName::literal(b"abc")), Query::Truncate) {
        Outcome::Blob(bytes) => assert!(bytes.is_empty()),
        _ => panic!("a blob was expected"),
    }
}

#[test]
fn byte_range_of_a_blob() {
    let mut store = Store::new();
    let long: Vec<u8> = (0..100u8).collect();
    let stored = BlobName::create(&mut store, long.clone());
    match answer(&store, Ref::Blob(stored), Query::Bytes(10, 15)) {
        Outcome::Blob(bytes) => assert_eq!(bytes, vec![10, 11, 12, 13, 14]),
        _ => panic!("a blob was expected"),
    }
    match answer(&store, Ref::Blob(BlobName::literal(b"hello")), Query::Bytes(1, 5)) {
        Outcome::Blob(bytes) => assert_eq!(bytes, b"ello".to_vec()),
        _ => panic!("a blob was expected"),
    }
    match answer(&store, Ref::Blob(stored), Query::Bytes(100, 100)) {
        Outcome::Blob(bytes) => assert!(bytes.is_empty()),
        _ => panic!("a blob was expected"),
    }
    assert!(is_failure(answer(&store, Ref::Blob(stored), Query::Bytes(3, 101)), "out of range"));
    assert!(is_failure(answer(&store, Ref::Blob(stored), Query::Bytes(5, 4)), "out of range"));
}

#[test]
fn single_element_of_a_tree() {
    let mut store = Store::new();
    let th = Thunk::Identification(Data::Ref(Ref::Blob(BlobName::literal(b"t"))));
    let en = Encode { thunk: th, accessibility: None };
    let t = TreeName::create(
        &mut store,
        vec![byte(7), Handle::Thunk(th), Handle::Encode(en)],
        false,
    )
    .unwrap();
    match answer(&store, Ref::Tree(t), Query::Element(0)) {
        Outcome::Value(RuntimeValue::Data(d)) => assert!(Handle::Data(d).same(&byte(7))),
        _ => panic!("data was expected"),
    }
    match answer(&store, Ref::Tree(t), Query::Element(1)) {
        Outcome::Value(RuntimeValue::Thunk(x)) => assert!(x.same(&th)),
        _ => panic!("a thunk was expected"),
    }
    assert!(is_failure(answer(&store, Ref::Tree(t), Query::Element(2)), "type mismatch"));
    assert!(is_failure(answer(&store, Ref::Tree(t), Query::Element(3)), "out of range"));
}

#[test]
fn subrange_of_a_tree() {
    let mut store = Store::new();
    let t = tree_of_five(&mut store, true);
    match answer(&store, Ref::Tree(t), Query::Range(1, 4)) {
        Outcome::Tree(elems, tag) => {
            assert_eq!(elems.len(), 3);
            assert!(elems[0].same(&byte(1)));
            assert!(elems[2].same(&byte(3)));
            assert!(!tag);
        }
        _ => panic!("a tree was expected"),
    }
    match answer(&store, Ref::Tree(t), Query::Range(0, 2)) {
        Outcome::Tree(elems, tag) => {
            assert_eq!(elems.len(), 2);
            assert!(tag);
        }
        _ => panic!("a tree was expected"),
    }
    assert!(is_failure(answer(&store, Ref::Tree(t), Query::Range(2, 6)), "out of range"));
    assert!(is_failure(answer(&store, Ref::Tree(t), Query::Range(3, 2)), "out of range"));
}

#[test]
fn queries_of_the_wrong_kind_fail() {
    let mut store = Store::new();
    let t = tree_of_five(&mut store, false);
    let b = Ref::Blob(BlobName::literal(b"abc"));
    assert!(is_failure(answer(&store, b, Query::Element(0)), "type mismatch"));
    assert!(is_failure(answer(&store, b, Query::Range(0, 1)), "type mismatch"));
    assert!(is_failure(answer(&store, Ref::Tree(t), Query::Bytes(0, 1)), "type mismatch"));
}

#[test]
fn queries_on_content_that_is_not_held_fail() {
    let mut store = Store::new();
    let mut t = tree_of_five(&mut store, false);
    t.name.low = 99;
    assert!(is_failure(answer(&store, Ref::Tree(t), Query::Element(0)), "content not held"));
    assert!(is_failure(answer(&store, Ref::Tree(t), Query::Range(0, 0)), "content not held"));
    let mut blob = BlobName::create(&mut store, (0..64u8).collect());
    if let BlobName::Name((p, _)) = &mut blob {
        p.low = 5;
    }
    assert!(is_failure(answer(&store, Ref::Blob(blob), Query::Bytes(0, 1)), "content not held"));
}

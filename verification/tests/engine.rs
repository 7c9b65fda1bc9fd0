use fix_core::engine::{
    adjust, apply, eval, eval_tree, execute, proceed, select, settle, think, Backend, Outcome,
    Progress,
};
use fix_core::names::{
    failure, BlobName, Data, Encode, Handle, Object, Ref, RuntimeValue, Thunk, TreeName, Value,
};
use fix_core::selection::{answer, Query};
use fix_core::store::Store;

fn small(bytes: &[u8]) -> Data {
    Data::Ref(Ref::Blob(BlobName::literal(bytes)))
}

fn force(thunk: Thunk, accessibility: Option<bool>) -> Handle {
    Handle::Encode(Encode { thunk, accessibility })
}

/// A stand-in for the collaborators. A selection truncates the tree that
/// its first element names to no elements. An
/// application hands back its first argument: a thunk is the next step, data
/// is the result, and a combination without arguments fails.
struct Plain;

impl Backend for Plain {
    fn apply(&self, store: &Store, combination: TreeName) -> Outcome {
        match combination.load(store) {
            Some(elems) if !elems.is_empty() => match elems[0] {
                Handle::Data(d) => Outcome::Value(RuntimeValue::Data(d)),
                Handle::Thunk(t) => Outcome::Value(RuntimeValue::Thunk(t)),
                Handle::Encode(_) => Outcome::Failure(failure("encode in combination")),
            },
            _ => Outcome::Failure(failure("nothing to apply")),
        }
    }

    fn select(&self, store: &Store, spec: TreeName) -> Outcome {
        match spec.load(store) {
            Some(elems) if !elems.is_empty() => match elems[0] {
                Handle::Data(d) => answer(store, d.lower(), Query::Truncate),
                _ => Outcome::Failure(failure("bad selection")),
            },
            _ => Outcome::Failure(failure("bad selection")),
        }
    }
}

fn five(store: &mut Store, tag: bool) -> TreeName {
    let elems: Vec<Handle> = (0..5u8).map(|i| Handle::Data(small(&[i]))).collect();
    TreeName::create(store, elems, tag).unwrap()
}

#[test]
fn think_identification_is_unchanged() {
    let mut store = Store::new();
    let mut budget: u64 = 0;
    let data = small(b"ok");
    match data {
        Data::Ref(Ref::Blob(BlobName::Literal((storage, length)))) => {
            assert_eq!(&storage[0..2], b"ok");
            assert_eq!(length, 2);
        }
        _ => panic!("a literal was expected"),
    }
    match think(&Plain, &mut store, &mut budget, Thunk::Identification(data)) {
        Ok(RuntimeValue::Data(d)) => assert!(d.same(&data)),
        _ => panic!("data was expected"),
    }
    assert_eq!(budget, 0);
}

#[test]
fn select_truncate_to_empty_keeps_the_kind() {
    for tag in [false, true] {
        let mut store = Store::new();
        let target = five(&mut store, tag);
        assert_eq!(target.size(), 5);
        let spec = TreeName::create(
            &mut store,
            vec![Handle::Data(Data::Object(Object::Tree(target)))],
            false,
        )
        .unwrap();
        let mut budget: u64 = 10;
        match think(&Plain, &mut store, &mut budget, Thunk::Selection(spec)) {
            Ok(RuntimeValue::Data(Data::Object(Object::Tree(t)))) => {
                assert_eq!(t.size(), 0);
                assert_eq!(t.footprint(), 0);
                assert_eq!(t.tag, tag);
                assert!(t.eq);
                assert_eq!(t.load(&store).map(|e| e.len()), Some(0));
            }
            _ => panic!("a tree was expected"),
        }
        match select(&Plain, &mut store, spec) {
            Ok(RuntimeValue::Data(Data::Object(Object::Tree(t)))) => assert_eq!(t.size(), 0),
            _ => panic!("a tree was expected"),
        }
    }
}

#[test]
fn create_names_equal_content_once() {
    let mut store = Store::new();
    let a = five(&mut store, false);
    let b = five(&mut store, true);
    assert!(a.name.same(&b.name));
    assert!(!a.same(&b));
    assert!(b.tag);
    let other = TreeName::create(&mut store, vec![Handle::Data(small(b"x"))], false).unwrap();
    assert!(!other.name.same(&a.name));
    let found = TreeName::name(&store, &[Handle::Data(small(b"x"))]).unwrap();
    assert!(found.same(&other));
    assert!(TreeName::name(&store, &[Handle::Data(small(b"y"))]).is_none());
    let loaded = a.load(&store).unwrap();
    assert_eq!(loaded.len(), 5);
    assert!(loaded[3].same(&Handle::Data(small(&[3]))));
}

#[test]
fn create_refuses_an_unheld_accessible_tree() {
    let mut store = Store::new();
    let held = five(&mut store, false);
    let mut missing = held;
    missing.name.low = 77;
    let bad = vec![Handle::Data(Data::Object(Object::Tree(missing)))];
    match TreeName::create(&mut store, bad, false) {
        Err(e) => assert!(e.same(&failure("tree element not held"))),
        Ok(_) => panic!("a failure was expected"),
    }
    // a reference to the same name is not looked into
    let fine = vec![Handle::Data(Data::Ref(Ref::Tree(missing)))];
    assert!(TreeName::create(&mut store, fine, false).is_ok());
    assert!(missing.load(&store).is_none());
}

#[test]
fn blobs_are_named_by_content() {
    let mut store = Store::new();
    let long: Vec<u8> = (0..100u8).collect();
    assert!(BlobName::name(&store, &long).is_none());
    let a = BlobName::create(&mut store, long.clone());
    let b = BlobName::create(&mut store, long.clone());
    assert!(a.same(&b));
    assert_eq!(a.size(), 100);
    assert!(matches!(a, BlobName::Name(_)));
    assert_eq!(a.load(&store), Some(long.clone()));
    assert!(BlobName::name(&store, &long).unwrap().same(&a));
    let other: Vec<u8> = (1..101u8).collect();
    let c = BlobName::create(&mut store, other.clone());
    assert!(!c.same(&a));
    assert_eq!(c.load(&store), Some(other));
    let short = BlobName::create(&mut store, b"short".to_vec());
    assert!(short.same(&BlobName::literal(b"short")));
    let mut dangling = a;
    if let BlobName::Name((p, _)) = &mut dangling {
        p.low = 50;
    }
    assert!(dangling.load(&store).is_none());
}

#[test]
fn lower_then_lift_names_the_same_content() {
    let mut store = Store::new();
    let t = five(&mut store, true);
    let o = Object::Tree(t);
    let back = o.lower().lift(&store);
    assert!(back.same(&o));
    let long: Vec<u8> = (0..64u8).collect();
    let b = Object::Blob(BlobName::create(&mut store, long));
    assert!(b.lower().lift(&store).same(&b));
    let l = Object::Blob(BlobName::literal(b"abc"));
    assert!(l.lower().lift(&store).same(&l));
    assert!(Data::Object(o).lift(&store).same(&o));
    assert!(Data::Ref(o.lower()).lift(&store).lower().same(&o.lower()));
}

#[test]
fn lift_derives_the_metadata_again() {
    let mut store = Store::new();
    let t = five(&mut store, true);
    let mut vague = t;
    vague.size = 0;
    vague.footprint = 99;
    vague.eq = false;
    match Ref::Tree(vague).lift(&store) {
        Object::Tree(y) => assert!(y.same(&t)),
        Object::Blob(_) => panic!("a tree was expected"),
    }
    assert!(store.is_known(&Ref::Tree(vague)));
    vague.name.middle = 1;
    assert!(!store.is_known(&Ref::Tree(vague)));
}

#[test]
fn adjust_follows_the_request() {
    let mut store = Store::new();
    let t = five(&mut store, false);
    let r = Data::Ref(Ref::Tree(t));
    let o = Data::Object(Object::Tree(t));
    assert!(adjust(&store, r, None).unwrap().same(&r));
    assert!(adjust(&store, o, None).unwrap().same(&o));
    assert!(adjust(&store, r, Some(true)).unwrap().same(&o));
    assert!(adjust(&store, o, Some(true)).unwrap().same(&o));
    assert!(adjust(&store, o, Some(false)).unwrap().same(&r));
    assert!(adjust(&store, r, Some(false)).unwrap().same(&r));
    let mut missing = t;
    missing.name.low = 9;
    match adjust(&store, Data::Ref(Ref::Tree(missing)), Some(true)) {
        Err(e) => assert!(e.same(&failure("content not held"))),
        Ok(_) => panic!("a failure was expected"),
    }
}

#[test]
fn execute_drains_a_chain_of_thunks() {
    let mut store = Store::new();
    let inner = Thunk::Identification(small(b"done"));
    // applying hands back the first element: a thunk, which is stepped next
    let combination = TreeName::create(&mut store, vec![Handle::Thunk(inner)], false).unwrap();
    let mut budget: u64 = 10;
    let e = Encode { thunk: Thunk::Application(combination), accessibility: None };
    let got = execute(&Plain, &mut store, &mut budget, e).unwrap();
    assert!(got.same(&small(b"done")));
    assert_eq!(budget, 8);
}

#[test]
fn execute_adjusts_accessibility() {
    let mut store = Store::new();
    let t = five(&mut store, false);
    let mut budget: u64 = 3;
    let up = Encode { thunk: Thunk::Identification(Data::Ref(Ref::Tree(t))), accessibility: Some(true) };
    let got = execute(&Plain, &mut store, &mut budget, up).unwrap();
    assert!(got.same(&Data::Object(Object::Tree(t))));
    assert_eq!(budget, 2);
    let down = Encode {
        thunk: Thunk::Identification(Data::Object(Object::Tree(t))),
        accessibility: Some(false),
    };
    let got = execute(&Plain, &mut store, &mut budget, down).unwrap();
    assert!(got.same(&Data::Ref(Ref::Tree(t))));
    assert_eq!(budget, 1);
}

#[test]
fn execute_without_budget_fails() {
    let mut store = Store::new();
    let mut budget: u64 = 0;
    let e = Encode { thunk: Thunk::Identification(small(b"x")), accessibility: None };
    match execute(&Plain, &mut store, &mut budget, e) {
        Err(d) => assert!(d.same(&failure("out of fuel"))),
        Ok(_) => panic!("a failure was expected"),
    }
}

#[test]
fn failures_pass_through_unchanged() {
    let mut store = Store::new();
    let empty = TreeName::create(&mut store, Vec::new(), false).unwrap();
    let mut budget: u64 = 10;
    match think(&Plain, &mut store, &mut budget, Thunk::Application(empty)) {
        Err(d) => assert!(d.same(&failure("nothing to apply"))),
        Ok(_) => panic!("a failure was expected"),
    }
    match apply(&Plain, &mut store, empty) {
        Err(d) => assert!(d.same(&failure("nothing to apply"))),
        Ok(_) => panic!("a failure was expected"),
    }
    let e = Encode { thunk: Thunk::Application(empty), accessibility: Some(true) };
    match eval(&Plain, &mut store, &mut budget, Handle::Encode(e)) {
        Err(d) => assert!(d.same(&failure("nothing to apply"))),
        Ok(_) => panic!("a failure was expected"),
    }
    let mut missing = empty;
    missing.name.low = 40;
    match think(&Plain, &mut store, &mut budget, Thunk::Application(missing)) {
        Err(d) => assert!(d.same(&failure("content not held"))),
        Ok(_) => panic!("a failure was expected"),
    }
}

#[test]
fn settle_names_new_content() {
    let mut store = Store::new();
    match settle(&mut store, Outcome::Blob(b"tiny".to_vec())) {
        Ok(RuntimeValue::Data(Data::Object(Object::Blob(b)))) => {
            assert!(b.same(&BlobName::literal(b"tiny")))
        }
        _ => panic!("a blob was expected"),
    }
    match settle(&mut store, Outcome::Tree(vec![Handle::Data(small(b"a"))], true)) {
        Ok(RuntimeValue::Data(Data::Object(Object::Tree(t)))) => {
            assert_eq!(t.size(), 1);
            assert!(t.tag);
            assert!(t.eq);
            assert_eq!(t.footprint(), 1);
        }
        _ => panic!("a tree was expected"),
    }
    match settle(&mut store, Outcome::Failure(small(b"no"))) {
        Err(d) => assert!(d.same(&small(b"no"))),
        Ok(_) => panic!("a failure was expected"),
    }
    let th = Thunk::Identification(small(b"v"));
    match settle(&mut store, Outcome::Value(RuntimeValue::Thunk(th))) {
        Ok(RuntimeValue::Thunk(t)) => assert!(t.same(&th)),
        _ => panic!("a thunk was expected"),
    }
}

#[test]
fn eval_leaves_references_blobs_and_thunks() {
    let mut store = Store::new();
    let t = five(&mut store, false);
    let mut budget: u64 = 0;
    let cases = [
        Handle::Data(small(b"r")),
        Handle::Data(Data::Ref(Ref::Tree(t))),
        Handle::Data(Data::Object(Object::Blob(BlobName::literal(b"b")))),
        Handle::Thunk(Thunk::Application(t)),
        Handle::Thunk(Thunk::Identification(small(b"i"))),
    ];
    for h in cases {
        let v = eval(&Plain, &mut store, &mut budget, h).unwrap();
        assert!(v.relax().same(&h));
    }
    assert_eq!(budget, 0);
}

fn no_accessible_encode(store: &Store, h: &Handle) -> bool {
    match h {
        Handle::Encode(_) => false,
        Handle::Data(Data::Object(Object::Tree(t))) => match t.load(store) {
            Some(elems) => elems.iter().all(|e| no_accessible_encode(store, e)),
            None => false,
        },
        _ => true,
    }
}

#[test]
fn eval_forces_encodes_inside_accessible_trees() {
    let mut store = Store::new();
    let inner = TreeName::create(
        &mut store,
        vec![force(Thunk::Identification(small(b"deep")), None), Handle::Data(small(b"flat"))],
        false,
    )
    .unwrap();
    let bare = Handle::Thunk(Thunk::Identification(small(b"kept")));
    let outer = TreeName::create(
        &mut store,
        vec![
            Handle::Data(Data::Object(Object::Tree(inner))),
            force(Thunk::Identification(small(b"top")), Some(true)),
            bare,
        ],
        true,
    )
    .unwrap();
    assert!(!outer.eq);
    let h = Handle::Data(Data::Object(Object::Tree(outer)));
    assert!(!no_accessible_encode(&store, &h));
    let mut budget: u64 = 100;
    let v = eval(&Plain, &mut store, &mut budget, h).unwrap();
    assert!(no_accessible_encode(&store, &v.relax()));
    let t = match v {
        Value::Data(Data::Object(Object::Tree(t))) => t,
        _ => panic!("a tree was expected"),
    };
    assert!(t.tag);
    assert_eq!(t.size(), 3);
    let elems = t.load(&store).unwrap().to_vec();
    assert!(elems[1].same(&Handle::Data(Data::Object(Object::Blob(BlobName::literal(b"top"))))));
    assert!(elems[2].same(&bare));
    match elems[0] {
        Handle::Data(Data::Object(Object::Tree(i))) => {
            let inner_elems = i.load(&store).unwrap();
            assert!(inner_elems[0].same(&Handle::Data(small(b"deep"))));
            assert!(inner_elems[1].same(&Handle::Data(small(b"flat"))));
        }
        _ => panic!("a tree was expected"),
    }
    // evaluating the value again gives the same value and costs nothing
    let left = budget;
    assert_eq!(left, 98);
    let again = eval(&Plain, &mut store, &mut budget, v.relax()).unwrap();
    assert!(again.relax().same(&v.relax()));
    assert_eq!(budget, left);
    let mut none: u64 = 0;
    let third = eval(&Plain, &mut store, &mut none, v.relax()).unwrap();
    assert!(third.relax().same(&v.relax()));
}

#[test]
fn eval_runs_out_of_budget() {
    let mut store = Store::new();
    let t = five(&mut store, false);
    let mut budget: u64 = 0;
    // a tree without encodes needs no step
    let plain = Handle::Data(Data::Object(Object::Tree(t)));
    assert!(eval(&Plain, &mut store, &mut budget, plain).unwrap().relax().same(&plain));
    let holder = TreeName::create(
        &mut store,
        vec![force(Thunk::Identification(small(b"x")), None)],
        false,
    )
    .unwrap();
    match eval(&Plain, &mut store, &mut budget, Handle::Data(Data::Object(Object::Tree(holder)))) {
        Err(d) => assert!(d.same(&failure("out of fuel"))),
        Ok(_) => panic!("a failure was expected"),
    }
    match eval(&Plain, &mut store, &mut budget, force(Thunk::Identification(small(b"x")), None)) {
        Err(d) => assert!(d.same(&failure("out of fuel"))),
        Ok(_) => panic!("a failure was expected"),
    }
    // two steps are needed: one unit does not reach the data
    let mut budget: u64 = 50;
    let again = TreeName::create(
        &mut store,
        vec![Handle::Thunk(Thunk::Identification(small(b"end")))],
        false,
    )
    .unwrap();
    let e = Encode { thunk: Thunk::Application(again), accessibility: None };
    let mut tight: u64 = 1;
    match execute(&Plain, &mut store, &mut tight, e) {
        Err(d) => assert!(d.same(&failure("out of fuel"))),
        Ok(_) => panic!("a failure was expected"),
    }
    assert!(execute(&Plain, &mut store, &mut budget, e).is_ok());
}

#[test]
fn try_map_keeps_the_tag_and_maps_in_order() {
    let mut store = Store::new();
    let t = five(&mut store, true);
    let wrap = |h: Handle| -> Result<Handle, Data> {
        match h {
            Handle::Data(d) => Ok(Handle::Thunk(Thunk::Identification(d))),
            other => Ok(other),
        }
    };
    let mapped = t.try_map(&mut store, wrap).unwrap();
    assert!(mapped.tag);
    assert!(!mapped.eq);
    assert_eq!(mapped.size(), 5);
    let elems = mapped.load(&store).unwrap();
    for i in 0..5u8 {
        assert!(elems[i as usize].same(&Handle::Thunk(Thunk::Identification(small(&[i])))));
    }
    let plain = five(&mut store, false);
    let same = plain.try_map(&mut store, |h: Handle| -> Result<Handle, Data> { Ok(h) }).unwrap();
    assert!(same.same(&plain));
    let failing = |h: Handle| -> Result<Handle, Data> {
        if h.same(&Handle::Data(small(&[2]))) {
            Err(small(b"two"))
        } else {
            Ok(h)
        }
    };
    match t.try_map(&mut store, failing) {
        Err(d) => assert!(d.same(&small(b"two"))),
        Ok(_) => panic!("a failure was expected"),
    }
    let mut missing = t;
    missing.name.high = 1;
    match missing.try_map(&mut store, |h: Handle| -> Result<Handle, Data> { Ok(h) }) {
        Err(d) => assert!(d.same(&failure("content not held"))),
        Ok(_) => panic!("a failure was expected"),
    }
}

#[test]
fn proceed_decides_what_follows_a_step() {
    let mut store = Store::new();
    let t = five(&mut store, false);
    let th = Thunk::Selection(t);
    match proceed(&store, Ok(RuntimeValue::Thunk(th)), Some(true)) {
        Progress::Again(next) => assert!(next.same(&th)),
        Progress::Done(_) => panic!("another step was expected"),
    }
    match proceed(&store, Err(small(b"bad")), Some(true)) {
        Progress::Done(Err(e)) => assert!(e.same(&small(b"bad"))),
        _ => panic!("the failure was expected"),
    }
    match proceed(&store, Ok(RuntimeValue::Data(Data::Ref(Ref::Tree(t)))), Some(true)) {
        Progress::Done(Ok(d)) => assert!(d.same(&Data::Object(Object::Tree(t)))),
        _ => panic!("an object was expected"),
    }
    match proceed(&store, Ok(RuntimeValue::Data(Data::Object(Object::Tree(t)))), Some(false)) {
        Progress::Done(Ok(d)) => assert!(d.same(&Data::Ref(Ref::Tree(t)))),
        _ => panic!("a reference was expected"),
    }
    match proceed(&store, Ok(RuntimeValue::Data(small(b"d"))), None) {
        Progress::Done(Ok(d)) => assert!(d.same(&small(b"d"))),
        _ => panic!("data was expected"),
    }
}

#[test]
fn eval_forces_and_lowers_an_identified_literal() {
    let mut store = Store::new();
    let ok = BlobName::literal(b"ok");
    let h = force(Thunk::Identification(Data::Object(Object::Blob(ok))), Some(false));
    let mut budget: u64 = 9;
    let v = eval(&Plain, &mut store, &mut budget, h).unwrap();
    assert!(v.relax().same(&Handle::Data(Data::Ref(Ref::Blob(ok)))));
    assert_eq!(budget, 8);
    let h = force(Thunk::Identification(Data::Object(Object::Blob(ok))), None);
    let v = eval(&Plain, &mut store, &mut budget, h).unwrap();
    assert!(v.relax().same(&Handle::Data(Data::Object(Object::Blob(ok)))));
    assert_eq!(budget, 7);
    let h = force(Thunk::Identification(Data::Ref(Ref::Blob(ok))), Some(true));
    let v = eval(&Plain, &mut store, &mut budget, h).unwrap();
    assert!(v.relax().same(&Handle::Data(Data::Object(Object::Blob(ok)))));
    let mut missing = five(&mut store, false);
    missing.name.low = 31;
    let h = force(Thunk::Identification(Data::Ref(Ref::Tree(missing))), Some(true));
    match eval(&Plain, &mut store, &mut budget, h) {
        Err(e) => assert!(e.same(&failure("content not held"))),
        Ok(_) => panic!("a failure was expected"),
    }
}

#[test]
fn execute_hands_on_the_failure_of_a_later_step() {
    let mut store = Store::new();
    let empty = TreeName::create(&mut store, Vec::new(), false).unwrap();
    // the first step gives the thunk that the combination holds; the second fails
    let outer = TreeName::create(
        &mut store,
        vec![Handle::Thunk(Thunk::Application(empty))],
        false,
    )
    .unwrap();
    for request in [None, Some(true), Some(false)] {
        let mut budget: u64 = 10;
        let e = Encode { thunk: Thunk::Application(outer), accessibility: request };
        match execute(&Plain, &mut store, &mut budget, e) {
            Err(d) => assert!(d.same(&failure("nothing to apply"))),
            Ok(_) => panic!("a failure was expected"),
        }
        assert_eq!(budget, 8);
    }
}

#[test]
fn eval_tree_names_a_settled_tree_at_no_cost() {
    let mut store = Store::new();
    let t = five(&mut store, true);
    let mut vague = t;
    vague.size = 1;
    vague.footprint = 40;
    vague.eq = false;
    let mut budget: u64 = 0;
    let named = eval_tree(&Plain, &mut store, &mut budget, vague).unwrap();
    assert!(named.same(&t));
    assert_eq!(budget, 0);
    let again = eval_tree(&Plain, &mut store, &mut budget, t).unwrap();
    assert!(again.same(&t));
}

#[test]
fn eval_returns_the_failure_of_the_first_failing_element() {
    let mut store = Store::new();
    let empty = TreeName::create(&mut store, Vec::new(), false).unwrap();
    let mut missing = empty;
    missing.name.low = 77;
    let tree = TreeName::create(
        &mut store,
        vec![
            Handle::Data(small(b"fine")),
            force(Thunk::Application(empty), None),
            force(Thunk::Application(missing), None),
        ],
        false,
    )
    .unwrap();
    let mut budget: u64 = 10;
    match eval(&Plain, &mut store, &mut budget, Handle::Data(Data::Object(Object::Tree(tree)))) {
        Err(d) => assert!(d.same(&failure("nothing to apply"))),
        Ok(_) => panic!("a failure was expected"),
    }
    // the element behind the failing one was not executed
    assert_eq!(budget, 9);
}

#[test]
fn think_applies_a_settled_combination_at_no_cost() {
    let mut store = Store::new();
    let c = five(&mut store, true);
    let mut budget: u64 = 0;
    match think(&Plain, &mut store, &mut budget, Thunk::Application(c)) {
        Ok(RuntimeValue::Data(d)) => assert!(d.same(&small(&[0]))),
        _ => panic!("the first element was expected"),
    }
    assert_eq!(budget, 0);
}

#[test]
fn try_map_refuses_a_result_that_is_not_held() {
    let mut store = Store::new();
    let t = five(&mut store, false);
    let mut missing = t;
    missing.name.low = 500;
    let before = TreeName::name(&store, &[Handle::Data(small(b"probe"))]).is_none();
    let to_missing = move |h: Handle| -> Result<Handle, Data> {
        if h.same(&Handle::Data(small(&[4]))) {
            Ok(Handle::Data(Data::Object(Object::Tree(missing))))
        } else {
            Ok(h)
        }
    };
    match t.try_map(&mut store, to_missing) {
        Err(d) => assert!(d.same(&failure("tree element not held"))),
        Ok(_) => panic!("a failure was expected"),
    }
    assert!(before);
    // the first failure is the one returned
    let two_failures = |h: Handle| -> Result<Handle, Data> {
        if h.same(&Handle::Data(small(&[1]))) {
            Err(small(b"first"))
        } else if h.same(&Handle::Data(small(&[3]))) {
            Err(small(b"second"))
        } else {
            Ok(h)
        }
    };
    match t.try_map(&mut store, two_failures) {
        Err(d) => assert!(d.same(&small(b"first"))),
        Ok(_) => panic!("a failure was expected"),
    }
}

//! End-to-end tests: building procedures, routing, merging, and dispatching.

use rspc::executor::{DispatchError, Dispatched};
use rspc::procedure::Procedure;
use rspc::resolver::{ConstResolver, CountResolver, FailResolver};
use rspc::router::{Router, RouterError};
use rspc::store::TypeDescriptorStore;
use rspc::types::{Field, Location, TypeDefinition, TypeShape};
use rspc::value::{DecodeError, Value};

fn field(name: &str, ty: &str) -> Field {
    Field { name: name.to_string(), ty: ty.to_string() }
}

fn def(name: &str, fields: Vec<Field>, file: &str, line: u64) -> TypeDefinition {
    TypeDefinition {
        name: name.to_string(),
        generics: Vec::new(),
        shape: TypeShape::Struct { fields },
        location: Location { file: file.to_string(), line },
    }
}

fn const_proc(
    store: &mut TypeDescriptorStore,
    input: u64,
    output: u64,
    value: Value,
) -> Procedure<ConstResolver> {
    let input_def = def("In", vec![field("x", "i32")], "a.rs", 1);
    let output_def = def("Out", vec![field("y", "i32")], "a.rs", 2);
    Procedure::<ConstResolver>::builder()
        .types(store, input, input_def, output, output_def)
        .unwrap()
        .resolver(ConstResolver { output: value })
}

#[test]
fn builder_stages_produce_procedure() {
    let mut store = TypeDescriptorStore::new();
    let p = const_proc(&mut store, 1, 2, Value::Int(7));
    assert_eq!(p.input_type, 1);
    assert_eq!(p.output_type, 2);
    assert!(store.lookup(1).is_some());
    assert!(store.lookup(2).is_some());
    assert!(store.lookup(3).is_none());
}

#[test]
fn insert_twice_same_name_fails() {
    let mut store = TypeDescriptorStore::new();
    let p1 = const_proc(&mut store, 1, 2, Value::Int(1));
    let p2 = const_proc(&mut store, 1, 2, Value::Int(2));
    let mut router: Router<ConstResolver> = Router::new();
    assert!(router.insert("a".to_string(), p1).is_ok());
    match router.insert("a".to_string(), p2) {
        Err(RouterError::DuplicateProcedureName { existing, incoming }) => {
            assert_eq!(existing, "a");
            assert_eq!(incoming, "a");
        },
        _ => panic!("duplicate insert must fail with DuplicateProcedureName"),
    }
}

#[test]
fn dispatch_missing_name_fails() {
    let mut store = TypeDescriptorStore::new();
    let p = const_proc(&mut store, 1, 2, Value::Int(1));
    let mut router: Router<ConstResolver> = Router::new();
    router.typ_store = store;
    router.insert("present".to_string(), p).unwrap();
    let (ex, _types) = router.build();
    let r = ex.dispatch(&"missing".to_string(), &(), Ok(Value::Null));
    assert!(matches!(r, Err(DispatchError::ProcedureNotFound)));
}

#[test]
fn dispatch_on_empty_executor_fails() {
    let router: Router<ConstResolver> = Router::new();
    let (ex, _types) = router.build();
    let r = ex.dispatch(&"anything".to_string(), &(), Ok(Value::Null));
    assert!(matches!(r, Err(DispatchError::ProcedureNotFound)));
}

#[test]
fn merge_prefixes_names_and_dispatch_picks_merged_resolver() {
    let mut store = TypeDescriptorStore::new();
    let pa = const_proc(&mut store, 1, 2, Value::Int(1));
    let pb = const_proc(&mut store, 1, 2, Value::Text("x".to_string()));
    let mut router: Router<ConstResolver> = Router::new();
    router.typ_store = store;
    router.insert("a".to_string(), pa).unwrap();
    router.insert("b".to_string(), pb).unwrap();

    let mut sub_store = TypeDescriptorStore::new();
    let sub_a = const_proc(&mut sub_store, 1, 2, Value::Int(2));
    let mut sub: Router<ConstResolver> = Router::new();
    sub.typ_store = sub_store;
    sub.insert("a".to_string(), sub_a).unwrap();

    router.merge("sub", sub).unwrap();
    let (ex, _types) = router.build();

    match ex.dispatch(&"a".to_string(), &(), Ok(Value::Null)) {
        Ok(Dispatched::Value(v)) => assert_eq!(v, Value::Int(1)),
        _ => panic!("dispatch to a must return the first router's value"),
    }
    match ex.dispatch(&"b".to_string(), &(), Ok(Value::Null)) {
        Ok(Dispatched::Value(v)) => assert_eq!(v, Value::Text("x".to_string())),
        _ => panic!("dispatch to b must return the first router's value"),
    }
    match ex.dispatch(&"sub.a".to_string(), &(), Ok(Value::Null)) {
        Ok(Dispatched::Value(v)) => assert_eq!(v, Value::Int(2)),
        _ => panic!("dispatch to sub.a must invoke the merged router's resolver"),
    }
}

#[test]
fn merge_collision_fails_and_leaves_table_unchanged() {
    let mut store = TypeDescriptorStore::new();
    let pa = const_proc(&mut store, 1, 2, Value::Int(1));
    let p_sub_a = const_proc(&mut store, 1, 2, Value::Int(9));
    let mut router: Router<ConstResolver> = Router::new();
    router.typ_store = store;
    router.insert("a".to_string(), pa).unwrap();
    router.insert("sub.a".to_string(), p_sub_a).unwrap();

    let mut other_store = TypeDescriptorStore::new();
    let other_a = const_proc(&mut other_store, 1, 2, Value::Int(5));
    let other_b = const_proc(&mut other_store, 1, 2, Value::Int(6));
    let mut other: Router<ConstResolver> = Router::new();
    other.typ_store = other_store;
    other.insert("b".to_string(), other_b).unwrap();
    other.insert("a".to_string(), other_a).unwrap();

    match router.merge("sub", other) {
        Err(RouterError::DuplicateProcedureName { existing, incoming }) => {
            assert_eq!(existing, "sub.a");
            assert_eq!(incoming, "a");
        },
        _ => panic!("colliding merge must fail with DuplicateProcedureName"),
    }
    // Atomicity: nothing of the failed merge is visible, not even "sub.b".
    let (ex, _types) = router.build();
    assert!(matches!(
        ex.dispatch(&"sub.b".to_string(), &(), Ok(Value::Null)),
        Err(DispatchError::ProcedureNotFound)
    ));
    match ex.dispatch(&"sub.a".to_string(), &(), Ok(Value::Null)) {
        Ok(Dispatched::Value(v)) => assert_eq!(v, Value::Int(9)),
        _ => panic!("the original sub.a must be untouched"),
    }
}

#[test]
fn dispatch_surfaces_decode_error() {
    let mut store = TypeDescriptorStore::new();
    let p = const_proc(&mut store, 1, 2, Value::Int(1));
    let mut router: Router<ConstResolver> = Router::new();
    router.typ_store = store;
    router.insert("a".to_string(), p).unwrap();
    let (ex, _types) = router.build();
    let bad = DecodeError { message: "bad payload".to_string() };
    match ex.dispatch(&"a".to_string(), &(), Err(bad)) {
        Err(DispatchError::Decode(d)) => assert_eq!(d.message, "bad payload"),
        _ => panic!("a decode failure must surface as DispatchError::Decode"),
    }
}

#[test]
fn dispatch_surfaces_resolver_error() {
    let mut store = TypeDescriptorStore::new();
    let input_def = def("In", vec![field("x", "i32")], "a.rs", 1);
    let output_def = def("Out", vec![field("y", "i32")], "a.rs", 2);
    let p = Procedure::<FailResolver>::builder()
        .types(&mut store, 1, input_def, 2, output_def)
        .unwrap()
        .resolver(FailResolver { message: "boom".to_string() });
    let mut router: Router<FailResolver> = Router::new();
    router.typ_store = store;
    router.insert("a".to_string(), p).unwrap();
    let (ex, _types) = router.build();
    match ex.dispatch(&"a".to_string(), &(), Ok(Value::Null)) {
        Err(DispatchError::Resolver(e)) => assert_eq!(e.message, "boom"),
        _ => panic!("a resolver failure must surface as DispatchError::Resolver"),
    }
}

#[test]
fn cancelled_stream_produces_nothing_further() {
    let mut store = TypeDescriptorStore::new();
    let input_def = def("In", vec![field("x", "i32")], "a.rs", 1);
    let output_def = def("Out", vec![field("y", "i32")], "a.rs", 2);
    let p = Procedure::<CountResolver>::builder()
        .types(&mut store, 1, input_def, 2, output_def)
        .unwrap()
        .resolver(CountResolver { limit: 3 });
    let mut router: Router<CountResolver> = Router::new();
    router.typ_store = store;
    router.insert("count".to_string(), p).unwrap();
    let (ex, _types) = router.build();
    let mut stream = match ex.dispatch(&"count".to_string(), &(), Ok(Value::Null)) {
        Ok(Dispatched::Stream(s)) => s,
        _ => panic!("a streaming procedure must dispatch to a stream"),
    };
    assert_eq!(stream.next(), Some(Value::Int(1)));
    stream.cancel();
    assert_eq!(stream.next(), None);
    assert_eq!(stream.next(), None);
    // The source was never pulled again: only the one value was produced.
    assert_eq!(stream.source_ref().produced, 1);
}

#[test]
fn uncancelled_stream_produces_all_values_then_ends() {
    let mut store = TypeDescriptorStore::new();
    let input_def = def("In", vec![field("x", "i32")], "a.rs", 1);
    let output_def = def("Out", vec![field("y", "i32")], "a.rs", 2);
    let p = Procedure::<CountResolver>::builder()
        .types(&mut store, 1, input_def, 2, output_def)
        .unwrap()
        .resolver(CountResolver { limit: 2 });
    let mut router: Router<CountResolver> = Router::new();
    router.typ_store = store;
    router.insert("count".to_string(), p).unwrap();
    let (ex, _types) = router.build();
    let mut stream = match ex.dispatch(&"count".to_string(), &(), Ok(Value::Null)) {
        Ok(Dispatched::Stream(s)) => s,
        _ => panic!("a streaming procedure must dispatch to a stream"),
    };
    assert_eq!(stream.next(), Some(Value::Int(1)));
    assert_eq!(stream.next(), Some(Value::Int(2)));
    assert_eq!(stream.next(), None);
}

#[test]
fn merge_fails_on_type_identity_conflict_between_stores() {
    let mut store = TypeDescriptorStore::new();
    store.insert(1, def("In", vec![field("x", "i32")], "a.rs", 1)).unwrap();
    let mut router: Router<ConstResolver> = Router::new();
    router.typ_store = store;

    let mut other_store = TypeDescriptorStore::new();
    other_store.insert(1, def("Other", vec![field("z", "u8")], "b.rs", 4)).unwrap();
    let other_a = const_proc(&mut other_store, 2, 3, Value::Int(5));
    let mut other: Router<ConstResolver> = Router::new();
    other.typ_store = other_store;
    other.insert("a".to_string(), other_a).unwrap();

    match router.merge("sub", other) {
        Err(RouterError::TypeIdentityMismatch { id }) => assert_eq!(id, 1),
        _ => panic!("conflicting stores must fail the merge with TypeIdentityMismatch"),
    }
    // Atomicity: neither the table nor the store changed.
    assert!(router.entries.is_empty());
    assert_eq!(router.typ_store.entries.len(), 1);
}

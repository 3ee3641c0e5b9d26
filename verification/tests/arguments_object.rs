use arguments_object::arguments::{
    make_alias_accessors, AliasAccessorPair, Arguments, ArgumentsObject, ParameterMap,
};
use arguments_object::environment::Environment;
use arguments_object::mapper::compute_parameter_map;
use arguments_object::property::{Property, PropertyKey};
use arguments_object::value::{Intrinsics, TypeError, Value};

fn intrinsics() -> Intrinsics {
    Intrinsics { values_iterator: 7, throw_type_error: 9 }
}

fn parameter_map_of(obj: &ArgumentsObject) -> ParameterMap {
    match &obj.data {
        Arguments::Mapped(m) => m.parameter_map(),
        Arguments::Unmapped => panic!("expected a mapped arguments object"),
    }
}

fn unmapped(args: Vec<Value>) -> ArgumentsObject {
    Arguments::create_unmapped_arguments_object(&args, &intrinsics())
}

fn mapped(formals: Vec<u64>, args: Vec<Value>, env: &Environment) -> ArgumentsObject {
    Arguments::create_mapped_arguments_object(
        Value::Func(42),
        &formals,
        &args,
        env,
        1,
        &intrinsics(),
    )
}

#[test]
fn length_is_exact_writable_hidden_configurable() {
    let env = Environment::new(vec![Value::Undefined, Value::Int(1)]);
    let obj = unmapped(vec![Value::Int(1), Value::Int(2), Value::Int(3)]);
    assert_eq!(
        obj.get_own_property(PropertyKey::Length),
        Some(Property::Data {
            value: Value::Int(3),
            writable: true,
            enumerable: false,
            configurable: true,
        })
    );
    let obj0 = unmapped(vec![]);
    assert_eq!(
        obj0.get_own_property(PropertyKey::Length),
        Some(Property::Data {
            value: Value::Int(0),
            writable: true,
            enumerable: false,
            configurable: true,
        })
    );
    let mobj = mapped(vec![1], vec![Value::Int(5)], &env);
    assert_eq!(
        mobj.get_own_property(PropertyKey::Length),
        Some(Property::Data {
            value: Value::Int(1),
            writable: true,
            enumerable: false,
            configurable: true,
        })
    );
}

#[test]
fn length_is_writable() {
    let mut env = Environment::new(vec![]);
    let mut obj = unmapped(vec![Value::Int(1)]);
    assert_eq!(obj.set(PropertyKey::Length, Value::Int(99), &mut env), Ok(()));
    assert_eq!(obj.get(PropertyKey::Length, &env), Ok(Value::Int(99)));
}

#[test]
fn fresh_indices_hold_arguments_unmapped() {
    let env = Environment::new(vec![]);
    let obj = unmapped(vec![Value::Int(10), Value::Bool(true), Value::Undefined]);
    assert_eq!(obj.get(PropertyKey::Index(0), &env), Ok(Value::Int(10)));
    assert_eq!(obj.get(PropertyKey::Index(1), &env), Ok(Value::Bool(true)));
    assert_eq!(obj.get(PropertyKey::Index(2), &env), Ok(Value::Undefined));
    assert_eq!(obj.get(PropertyKey::Index(3), &env), Ok(Value::Undefined));
}

#[test]
fn fresh_indices_hold_arguments_mapped() {
    // parameters (a, b), slot 0 reserved: a -> slot 1, b -> slot 2
    let env = Environment::new(vec![Value::Undefined, Value::Int(10), Value::Int(20)]);
    let obj = mapped(vec![1, 2], vec![Value::Int(10), Value::Int(20)], &env);
    assert_eq!(obj.get(PropertyKey::Index(0), &env), Ok(Value::Int(10)));
    assert_eq!(obj.get(PropertyKey::Index(1), &env), Ok(Value::Int(20)));
}

#[test]
fn unmapped_never_touches_environment() {
    let mut env = Environment::new(vec![Value::Int(5)]);
    let mut obj = unmapped(vec![Value::Int(1)]);
    assert_eq!(obj.set(PropertyKey::Index(0), Value::Int(77), &mut env), Ok(()));
    assert_eq!(env.get(0), Value::Int(5));
    env.set(0, Value::Int(99));
    assert_eq!(obj.get(PropertyKey::Index(0), &env), Ok(Value::Int(77)));
}

#[test]
fn mapped_single_parameter_aliases_both_ways() {
    // parameter (a), called with one argument: index 0 aliases slot 1
    let mut env = Environment::new(vec![Value::Undefined, Value::Int(0)]);
    let mut obj = mapped(vec![1], vec![Value::Int(0)], &env);
    env.set(1, Value::Int(1));
    assert_eq!(obj.get(PropertyKey::Index(0), &env), Ok(Value::Int(1)));
    assert_eq!(obj.set(PropertyKey::Index(0), Value::Int(2), &mut env), Ok(()));
    assert_eq!(env.get(1), Value::Int(2));
    // keep alternating
    env.set(1, Value::Int(3));
    assert_eq!(obj.get(PropertyKey::Index(0), &env), Ok(Value::Int(3)));
    assert_eq!(obj.set(PropertyKey::Index(0), Value::Int(4), &mut env), Ok(()));
    assert_eq!(env.get(1), Value::Int(4));
    assert_eq!(obj.get(PropertyKey::Index(0), &env), Ok(Value::Int(4)));
}

#[test]
fn duplicate_names_alias_only_last_occurrence() {
    // parameters (a, a, b) with 3 arguments: a -> slot 1, b -> slot 2;
    // aliased property indices are 1 (last a) and 2 (b)
    let mut env = Environment::new(vec![Value::Undefined, Value::Int(20), Value::Int(30)]);
    let obj = mapped(
        vec![1, 1, 2],
        vec![Value::Int(10), Value::Int(20), Value::Int(30)],
        &env,
    );
    let pm = parameter_map_of(&obj);
    assert_eq!(pm.lookup(0), None);
    assert_eq!(pm.lookup(1), Some(AliasAccessorPair { binding_index: 1 }));
    assert_eq!(pm.lookup(2), Some(AliasAccessorPair { binding_index: 2 }));
    // every accessor is installed non-enumerable and configurable
    for entry in &pm.entries {
        assert!(!entry.enumerable);
        assert!(entry.configurable);
    }
    // index 0 is a plain data value: mutating a never affects it
    env.set(1, Value::Int(77));
    assert_eq!(obj.get(PropertyKey::Index(0), &env), Ok(Value::Int(10)));
    assert_eq!(obj.get(PropertyKey::Index(1), &env), Ok(Value::Int(77)));
    assert_eq!(obj.get(PropertyKey::Index(2), &env), Ok(Value::Int(30)));
}

#[test]
fn fewer_arguments_than_parameters() {
    // parameters (a, b) called with 1 argument: only index 0 is aliased
    let env = Environment::new(vec![Value::Undefined, Value::Int(10)]);
    let obj = mapped(vec![1, 2], vec![Value::Int(10)], &env);
    let pm = parameter_map_of(&obj);
    assert_eq!(pm.lookup(0), Some(AliasAccessorPair { binding_index: 1 }));
    assert_eq!(pm.lookup(1), None);
    assert_eq!(pm.entries.len(), 1);
}

#[test]
fn more_arguments_than_parameters() {
    // parameter (a) called with 3 arguments: indices 1 and 2 stay plain data
    let mut env = Environment::new(vec![Value::Undefined, Value::Int(10)]);
    let mut obj = mapped(
        vec![1],
        vec![Value::Int(10), Value::Int(20), Value::Int(30)],
        &env,
    );
    let pm = parameter_map_of(&obj);
    assert_eq!(pm.lookup(0), Some(AliasAccessorPair { binding_index: 1 }));
    assert_eq!(pm.lookup(1), None);
    assert_eq!(pm.lookup(2), None);
    assert_eq!(obj.set(PropertyKey::Index(1), Value::Int(21), &mut env), Ok(()));
    assert_eq!(env.get(0), Value::Undefined);
    assert_eq!(env.get(1), Value::Int(10));
    assert_eq!(obj.get(PropertyKey::Index(1), &env), Ok(Value::Int(21)));
    assert_eq!(obj.get(PropertyKey::Index(2), &env), Ok(Value::Int(30)));
}

#[test]
fn unmapped_callee_is_poisoned() {
    let mut env = Environment::new(vec![]);
    let mut obj = unmapped(vec![Value::Int(1)]);
    assert_eq!(obj.get(PropertyKey::Callee, &env), Err(TypeError));
    assert_eq!(obj.set(PropertyKey::Callee, Value::Int(1), &mut env), Err(TypeError));
    assert_eq!(
        obj.get_own_property(PropertyKey::Callee),
        Some(Property::Accessor { get: 9, set: 9, enumerable: false, configurable: false })
    );
    // the rejected write changed nothing
    assert_eq!(obj.get(PropertyKey::Callee, &env), Err(TypeError));
}

#[test]
fn mapped_callee_holds_function_and_is_writable() {
    let mut env = Environment::new(vec![Value::Undefined, Value::Int(1)]);
    let mut obj = mapped(vec![1], vec![Value::Int(1)], &env);
    assert_eq!(obj.get(PropertyKey::Callee, &env), Ok(Value::Func(42)));
    assert_eq!(
        obj.get_own_property(PropertyKey::Callee),
        Some(Property::Data {
            value: Value::Func(42),
            writable: true,
            enumerable: false,
            configurable: true,
        })
    );
    assert_eq!(obj.set(PropertyKey::Callee, Value::Int(1), &mut env), Ok(()));
    assert_eq!(obj.get(PropertyKey::Callee, &env), Ok(Value::Int(1)));
}

#[test]
fn iterator_property_is_shared() {
    let env = Environment::new(vec![Value::Undefined, Value::Int(1)]);
    let u = unmapped(vec![Value::Int(1)]);
    let m = mapped(vec![1], vec![Value::Int(1)], &env);
    let from_unmapped = u.get(PropertyKey::IterSym, &env);
    let from_mapped = m.get(PropertyKey::IterSym, &env);
    assert_eq!(from_unmapped, Ok(Value::Func(7)));
    assert_eq!(from_unmapped, from_mapped);
    assert_eq!(
        u.get_own_property(PropertyKey::IterSym),
        Some(Property::Data {
            value: Value::Func(7),
            writable: true,
            enumerable: false,
            configurable: true,
        })
    );
}

#[test]
fn empty_argument_lists() {
    let env = Environment::new(vec![Value::Undefined]);
    let u = unmapped(vec![]);
    assert_eq!(u.get(PropertyKey::Length, &env), Ok(Value::Int(0)));
    assert_eq!(u.get(PropertyKey::Index(0), &env), Ok(Value::Undefined));
    let m = mapped(vec![], vec![], &env);
    assert_eq!(m.get(PropertyKey::Length, &env), Ok(Value::Int(0)));
    let pm = parameter_map_of(&m);
    assert_eq!(pm.lookup(0), None);
    assert_eq!(pm.entries.len(), 0);
}

#[test]
fn no_alias_at_or_beyond_argument_count() {
    // parameters (a, b, c) called with 2 arguments: the scan stops at 2
    let env = Environment::new(
        vec![Value::Undefined, Value::Int(1), Value::Int(2), Value::Int(3)],
    );
    let obj = mapped(vec![1, 2, 3], vec![Value::Int(1), Value::Int(2)], &env);
    let pm = parameter_map_of(&obj);
    assert_eq!(pm.lookup(0), Some(AliasAccessorPair { binding_index: 1 }));
    assert_eq!(pm.lookup(1), Some(AliasAccessorPair { binding_index: 2 }));
    assert_eq!(pm.lookup(2), None);
    assert_eq!(pm.entries.len(), 2);
}

#[test]
fn mapper_handles_duplicates_and_truncation() {
    // names (a, a, b): binding for a fixed at first occurrence, property
    // index at the last one
    let pairs = compute_parameter_map(&vec![1, 1, 2], 3, 1);
    let mut sorted = pairs.clone();
    sorted.sort();
    assert_eq!(sorted, vec![(1, 1), (2, 2)]);
    // scan stops at the argument count
    let pairs = compute_parameter_map(&vec![1, 2, 3], 1, 1);
    assert_eq!(pairs, vec![(1, 0)]);
    // a different base offset shifts every binding index
    let pairs = compute_parameter_map(&vec![1, 2], 2, 5);
    let mut sorted = pairs.clone();
    sorted.sort();
    assert_eq!(sorted, vec![(5, 0), (6, 1)]);
    // nothing to scan
    assert_eq!(compute_parameter_map(&vec![], 3, 1), vec![]);
    assert_eq!(compute_parameter_map(&vec![1], 0, 1), vec![]);
}

#[test]
fn alias_accessor_pair_reads_and_writes_its_slot() {
    let mut env = Environment::new(vec![Value::Int(1), Value::Int(2)]);
    let pair = make_alias_accessors(1);
    assert_eq!(pair.get_value(&env), Value::Int(2));
    assert_eq!(pair.set_value(&mut env, &vec![Value::Int(9)]), Value::Undefined);
    assert_eq!(env.get(1), Value::Int(9));
    assert_eq!(env.get(0), Value::Int(1));
    // the setter defaults to undefined when its argument is omitted
    assert_eq!(pair.set_value(&mut env, &vec![]), Value::Undefined);
    assert_eq!(env.get(1), Value::Undefined);
}

#[test]
fn writes_replace_values_but_keep_attributes() {
    let mut env = Environment::new(vec![]);
    let mut obj = unmapped(vec![Value::Int(1)]);
    assert_eq!(obj.set(PropertyKey::Index(0), Value::Bool(false), &mut env), Ok(()));
    assert_eq!(
        obj.get_own_property(PropertyKey::Index(0)),
        Some(Property::Data {
            value: Value::Bool(false),
            writable: true,
            enumerable: true,
            configurable: true,
        })
    );
    // a write to an absent key creates an ordinary data property
    assert_eq!(obj.set(PropertyKey::Index(8), Value::Int(8), &mut env), Ok(()));
    assert_eq!(obj.get(PropertyKey::Index(8), &env), Ok(Value::Int(8)));
}

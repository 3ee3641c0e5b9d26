use vstd::prelude::*;
use crate::value::{Value, Intrinsics, TypeError};
use crate::property::{PropertyKey, Property};
use crate::arguments::{ObjModel, ArgumentsObject, spec_get, set_permitted, props_after_set,
    env_after_set};

verus! {

/// Reading `length` on an object carrying the standard length property yields
/// the argument count it was built with, whatever the environment holds.
pub proof fn lemma_length_reads_count(m: ObjModel, n: nat, env: Seq<Value>)
    requires
        m.props.contains_pair(PropertyKey::Length, ArgumentsObject::length_property(n)),
    ensures
        (spec_get(m, PropertyKey::Length, env) == Ok::<Value, TypeError>(Value::Int(n as i64))),
{
}

/// On a freshly constructed object, every index below the argument count
/// reads the original argument: unaliased indices from their stored data
/// property, aliased ones through an environment that parameter binding has
/// just filled (each live binding slot holds the argument of its name's last
/// occurrence).
pub proof fn lemma_fresh_index_reads_argument(
    m: ObjModel,
    args: Seq<Value>,
    env: Seq<Value>,
    i: int,
)
    requires
        args.len() <= u64::MAX,
        0 <= i < args.len(),
        m.props.contains_pair(
            PropertyKey::Index(i as u64),
            ArgumentsObject::index_property(args[i]),
        ),
        forall|p: u64| #[trigger]
            m.pmap.dom().contains(p) ==> m.pmap[p] < env.len() && (p as int) < args.len()
                && env[m.pmap[p] as int] == args[p as int],
    ensures
        (spec_get(m, PropertyKey::Index(i as u64), env) == Ok::<Value, TypeError>(args[i])),
{
    let p = i as u64;
    if m.pmap.dom().contains(p) {
        assert(env[m.pmap[p] as int] == args[p as int]);
        assert(p as int == i);
    }
}

/// Unmapped objects never write the environment: no property write, to any
/// key and of any value, changes any binding.
pub proof fn lemma_unmapped_set_preserves_environment(
    m: ObjModel,
    key: PropertyKey,
    v: Value,
    env: Seq<Value>,
)
    requires
        !m.mapped,
    ensures
        env_after_set(m, key, v, env) == env,
{
}

/// Unmapped objects never read the environment: a property read returns the
/// same result whatever the bindings hold, so mutating a bound identifier is
/// invisible through the object.
pub proof fn lemma_unmapped_get_ignores_environment(
    m: ObjModel,
    key: PropertyKey,
    env1: Seq<Value>,
    env2: Seq<Value>,
)
    requires
        !m.mapped,
    ensures
        spec_get(m, key, env1) == spec_get(m, key, env2),
{
}

/// Writing an aliased index of a mapped object is observable by reading the
/// aliased binding, and the index itself then reads that same value back.
/// The premises speak only of the current state, so the law keeps holding
/// through any sequence of alternating writes.
pub proof fn lemma_alias_write_then_read(m: ObjModel, p: u64, v: Value, env: Seq<Value>)
    requires
        m.mapped,
        m.pmap.dom().contains(p),
        (m.pmap[p] as int) < env.len(),
        set_permitted(m, PropertyKey::Index(p)),
    ensures
        (env_after_set(m, PropertyKey::Index(p), v, env)[m.pmap[p] as int] == v),
        ({
            let m2 = ObjModel {
                mapped: m.mapped,
                pmap: m.pmap,
                props: props_after_set(m, PropertyKey::Index(p), v),
            };
            spec_get(m2, PropertyKey::Index(p), env_after_set(m, PropertyKey::Index(p), v, env))
                == Ok::<Value, TypeError>(v)
        }),
{
}

/// Writing the aliased binding directly in the environment is observable by
/// reading the aliased index of the mapped object. Together with
/// `lemma_alias_write_then_read` this gives both directions of the aliasing,
/// for arbitrarily many alternating writes.
pub proof fn lemma_environment_write_then_read(m: ObjModel, p: u64, v: Value, env: Seq<Value>)
    requires
        m.mapped,
        m.pmap.dom().contains(p),
        (m.pmap[p] as int) < env.len(),
    ensures
        (spec_get(m, PropertyKey::Index(p), env.update(m.pmap[p] as int, v))
            == Ok::<Value, TypeError>(v)),
{
}

/// A non-aliased index of a mapped object behaves as plain data: writes to it
/// never touch the environment, and its reads ignore the environment.
pub proof fn lemma_unaliased_index_is_plain(
    m: ObjModel,
    p: u64,
    v: Value,
    env1: Seq<Value>,
    env2: Seq<Value>,
)
    requires
        !m.pmap.dom().contains(p),
    ensures
        env_after_set(m, PropertyKey::Index(p), v, env1) == env1,
        spec_get(m, PropertyKey::Index(p), env1) == spec_get(m, PropertyKey::Index(p), env2),
{
}

/// The poison `callee` of an unmapped object fails with the type-error
/// condition on both read and write, and a rejected write changes nothing.
pub proof fn lemma_poison_callee(m: ObjModel, intr: Intrinsics, v: Value, env: Seq<Value>)
    requires
        m.props.contains_pair(
            PropertyKey::Callee,
            ArgumentsObject::poison_callee_property(intr),
        ),
    ensures
        (spec_get(m, PropertyKey::Callee, env) == Err::<Value, TypeError>(TypeError)),
        !set_permitted(m, PropertyKey::Callee),
        env_after_set(m, PropertyKey::Callee, v, env) == env,
        props_after_set(m, PropertyKey::Callee, v) == m.props,
{
}

/// The `callee` of a mapped object reads as the function reference and is an
/// ordinary writable property.
pub proof fn lemma_mapped_callee(m: ObjModel, func: Value, env: Seq<Value>)
    requires
        m.props.contains_pair(PropertyKey::Callee, ArgumentsObject::mapped_callee_property(func)),
    ensures
        (spec_get(m, PropertyKey::Callee, env) == Ok::<Value, TypeError>(func)),
        set_permitted(m, PropertyKey::Callee),
{
}

/// Both variants expose the well-known iterator property as the same shared
/// values-iterator function reference: two objects built over the same
/// intrinsics resolve it identically.
pub proof fn lemma_iterator_shared(
    m1: ObjModel,
    m2: ObjModel,
    intr: Intrinsics,
    env1: Seq<Value>,
    env2: Seq<Value>,
)
    requires
        m1.props.contains_pair(PropertyKey::IterSym, ArgumentsObject::iterator_property(intr)),
        m2.props.contains_pair(PropertyKey::IterSym, ArgumentsObject::iterator_property(intr)),
    ensures
        (spec_get(m1, PropertyKey::IterSym, env1) == Ok::<Value, TypeError>(
            Value::Func(intr.values_iterator),
        )),
        spec_get(m1, PropertyKey::IterSym, env1) == spec_get(m2, PropertyKey::IterSym, env2),
{
}

} // verus!

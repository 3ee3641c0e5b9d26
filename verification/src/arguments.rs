use vstd::prelude::*;
use vstd::pervasive::VecAdditionalExecFns;
use crate::value::{Value, Intrinsics, TypeError};
use crate::property::{PropertyKey, Property, props_map, distinct_keys};
use crate::property::{lemma_props_map_push, lemma_props_map_contains, lemma_props_map_dom,
    lemma_props_map_update};
use crate::environment::Environment;
use crate::mapper::{scanned_prefix, aliased_at, alias_binding, compute_parameter_map,
    lemma_binding_rank_below_distinct};

verus! {

/// A getter/setter closure pair bound to an environment binding index. The
/// shared environment itself is supplied at each call, so the pair carries
/// only the copied index.
#[derive(Clone, Copy, Debug, PartialEq, Eq, Structural)]
pub struct AliasAccessorPair {
    pub binding_index: u64,
}

/// The alias accessor factory: builds the getter/setter pair for one
/// environment binding index.
pub fn make_alias_accessors(binding_index: u64) -> (pair: AliasAccessorPair)
    ensures
        pair.binding_index == binding_index,
{
    AliasAccessorPair { binding_index }
}

impl AliasAccessorPair {
    /// The getter closure: zero arguments beside the environment; reads and
    /// returns the value at the captured binding index.
    pub fn get_value(&self, env: &Environment) -> (v: Value)
        requires
            self.binding_index < env.slots@.len(),
        ensures
            v == env.slots@[self.binding_index as int],
    {
        proof {
            assert(env.slots@.len() == env.slots.len());
        }
        env.get(self.binding_index as usize)
    }

    /// The setter closure: writes its first argument (the undefined value when
    /// omitted) into the captured binding index and returns undefined.
    pub fn set_value(&self, env: &mut Environment, args: &Vec<Value>) -> (r: Value)
        requires
            self.binding_index < old(env).slots@.len(),
        ensures
            final(env).slots@ == old(env).slots@.update(
                self.binding_index as int,
                if args@.len() > 0 { args@[0] } else { Value::Undefined },
            ),
            r == Value::Undefined,
    {
        let value = if args.len() > 0 {
            args[0]
        } else {
            Value::Undefined
        };
        proof {
            assert(env.slots@.len() == env.slots.len());
        }
        env.set(self.binding_index as usize, value);
        Value::Undefined
    }
}

/// One own property of the parameter map: a non-enumerable, configurable
/// accessor pair keyed by the stringified property index.
#[derive(Clone, Copy, Debug, PartialEq, Eq, Structural)]
pub struct ParameterMapEntry {
    pub property_index: u64,
    pub accessor: AliasAccessorPair,
    pub enumerable: bool,
    pub configurable: bool,
}

/// The prototype-less backing object of a mapped arguments object. Its own
/// properties are exclusively the alias accessor pairs, keyed by property
/// index; script code never observes it directly.
#[derive(Clone, Debug)]
pub struct ParameterMap {
    pub entries: Vec<ParameterMapEntry>,
}

/// The parameter map's entries folded into a map from property index to the
/// aliased binding index.
pub open spec fn entries_map(s: Seq<ParameterMapEntry>) -> Map<u64, u64>
    decreases s.len(),
{
    if s.len() == 0 {
        Map::empty()
    } else {
        entries_map(s.drop_last()).insert(s.last().property_index, s.last().accessor.binding_index)
    }
}

/// No two entries of the parameter map share a property index.
pub open spec fn distinct_indices(s: Seq<ParameterMapEntry>) -> bool {
    forall|i: int, j: int| 0 <= i < j < s.len() ==> s[i].property_index != s[j].property_index
}

/// Every accessor of the parameter map is installed non-enumerable and
/// configurable.
pub open spec fn accessors_hidden_configurable(s: Seq<ParameterMapEntry>) -> bool {
    forall|i: int|
        0 <= i < s.len() ==> !(#[trigger] s[i]).enumerable && s[i].configurable
}

pub proof fn lemma_entries_map_contains(s: Seq<ParameterMapEntry>, i: int)
    requires
        distinct_indices(s),
        0 <= i < s.len(),
    ensures
        entries_map(s).contains_pair(s[i].property_index, s[i].accessor.binding_index),
    decreases s.len(),
{
    if i < s.len() - 1 {
        lemma_entries_map_contains(s.drop_last(), i);
        assert(s.drop_last()[i] == s[i]);
    }
}

pub proof fn lemma_entries_map_dom(s: Seq<ParameterMapEntry>, p: u64)
    ensures
        entries_map(s).dom().contains(p) <==> exists|i: int|
            0 <= i < s.len() && (#[trigger] s[i]).property_index == p,
    decreases s.len(),
{
    if s.len() > 0 {
        lemma_entries_map_dom(s.drop_last(), p);
        if s.last().property_index == p {
            assert(s[s.len() - 1].property_index == p);
        } else if entries_map(s.drop_last()).dom().contains(p) {
            let i = choose|i: int|
                0 <= i < s.drop_last().len() && (#[trigger] s.drop_last()[i]).property_index == p;
            assert(s[i].property_index == p);
        } else if exists|i: int| 0 <= i < s.len() && (#[trigger] s[i]).property_index == p {
            let i = choose|i: int| 0 <= i < s.len() && (#[trigger] s[i]).property_index == p;
            assert(s.drop_last()[i].property_index == p);
        }
    }
}

impl ParameterMap {
    /// The aliases held: property index to binding index.
    pub open spec fn contents(self) -> Map<u64, u64> {
        entries_map(self.entries@)
    }

    /// Looks up the accessor pair installed for `property_index`, if any.
    pub fn lookup(&self, property_index: u64) -> (r: Option<AliasAccessorPair>)
        requires
            distinct_indices(self.entries@),
        ensures
            r == if self.contents().dom().contains(property_index) {
                Some((AliasAccessorPair { binding_index: self.contents()[property_index] }))
            } else {
                None::<AliasAccessorPair>
            },
    {
        let n = self.entries.len();
        let mut i: usize = 0;
        while i < n
            invariant
                n == self.entries@.len(),
                i <= n,
                distinct_indices(self.entries@),
                forall|j: int| 0 <= j < i ==> (#[trigger] self.entries@[j]).property_index != property_index,
            decreases n - i,
        {
            if self.entries[i].property_index == property_index {
                proof {
                    lemma_entries_map_contains(self.entries@, i as int);
                }
                return Some(self.entries[i].accessor);
            }
            i += 1;
        }
        proof {
            lemma_entries_map_dom(self.entries@, property_index);
        }
        None
    }
}

/// The handle a mapped arguments object keeps on its parameter map.
#[derive(Clone, Debug)]
pub struct MappedArguments(pub ParameterMap);

impl MappedArguments {
    /// Hands out the parameter map, as the property-access traps of the
    /// object model consult it.
    pub fn parameter_map(&self) -> (r: ParameterMap)
        ensures
            r.entries@ == self.0.entries@,
            r.contents() == self.0.contents(),
    {
        let n = self.0.entries.len();
        let mut entries: Vec<ParameterMapEntry> = Vec::new();
        let mut i: usize = 0;
        while i < n
            invariant
                n == self.0.entries@.len(),
                i <= n,
                entries@ == self.0.entries@.take(i as int),
            decreases n - i,
        {
            entries.push(self.0.entries[i]);
            proof {
                assert(entries@ =~= self.0.entries@.take(i as int + 1));
            }
            i += 1;
        }
        proof {
            assert(entries@ =~= self.0.entries@);
        }
        ParameterMap { entries }
    }
}

/// The exotic tag carried by an arguments object: the simple kind, or the
/// legacy-aliasing kind with its parameter map.
#[derive(Clone, Debug)]
pub enum Arguments {
    Unmapped,
    Mapped(MappedArguments),
}

/// An arguments object: its exotic tag and its own-property table.
#[derive(Clone, Debug)]
pub struct ArgumentsObject {
    pub data: Arguments,
    pub properties: Vec<(PropertyKey, Property)>,
}

/// The state of an arguments object that the access rules read: the exotic
/// tag, the parameter map's aliases, and the own properties.
pub struct ObjModel {
    pub mapped: bool,
    pub pmap: Map<u64, u64>,
    pub props: Map<PropertyKey, Property>,
}

/// The binding index a read or write of `key` is routed through, if the
/// object is mapped and its parameter map holds an accessor at that index.
pub open spec fn routed_binding(m: ObjModel, key: PropertyKey) -> Option<u64> {
    match key {
        PropertyKey::Index(p) => if m.mapped && m.pmap.dom().contains(p) {
            Some(m.pmap[p])
        } else {
            None
        },
        _ => None,
    }
}

/// What a property read returns: an aliased numeric index reads the
/// environment binding; otherwise a data property yields its value, an
/// accessor pair (always the poison pair on these objects) fails with a type
/// error, and an absent property reads as undefined.
pub open spec fn spec_get(m: ObjModel, key: PropertyKey, env: Seq<Value>) -> Result<Value, TypeError> {
    match routed_binding(m, key) {
        Some(b) => Ok(env[b as int]),
        None => if !m.props.dom().contains(key) {
            Ok(Value::Undefined)
        } else {
            match m.props[key] {
                Property::Data { value, .. } => Ok(value),
                Property::Accessor { .. } => Err(TypeError),
            }
        },
    }
}

/// Whether a write to `key` succeeds: always on an absent property, on a data
/// property only if writable, never through an accessor pair.
pub open spec fn set_permitted(m: ObjModel, key: PropertyKey) -> bool {
    if !m.props.dom().contains(key) {
        true
    } else {
        match m.props[key] {
            Property::Data { writable, .. } => writable,
            Property::Accessor { .. } => false,
        }
    }
}

/// The own-property table after a write: the stored value is replaced (its
/// attributes kept), an absent property is created with default attributes,
/// and a rejected write changes nothing.
pub open spec fn props_after_set(m: ObjModel, key: PropertyKey, v: Value) -> Map<
    PropertyKey,
    Property,
> {
    if !m.props.dom().contains(key) {
        m.props.insert(
            key,
            Property::Data { value: v, writable: true, enumerable: true, configurable: true },
        )
    } else {
        match m.props[key] {
            Property::Data { value: _, writable, enumerable, configurable } => if writable {
                m.props.insert(
                    key,
                    Property::Data { value: v, writable, enumerable, configurable },
                )
            } else {
                m.props
            },
            Property::Accessor { .. } => m.props,
        }
    }
}

/// The environment after a write: a permitted write to an aliased index is
/// routed through the alias setter into its binding slot; every other write
/// leaves the environment untouched.
pub open spec fn env_after_set(m: ObjModel, key: PropertyKey, v: Value, env: Seq<Value>) -> Seq<
    Value,
> {
    if set_permitted(m, key) {
        match routed_binding(m, key) {
            Some(b) => env.update(b as int, v),
            None => env,
        }
    } else {
        env
    }
}

/// Finds the position of the own property stored under `key`.
fn find_index(properties: &Vec<(PropertyKey, Property)>, key: PropertyKey) -> (r: Option<usize>)
    requires
        distinct_keys(properties@),
    ensures
        match r {
            Some(i) => 0 <= i < properties@.len() && properties@[i as int].0 == key
                && props_map(properties@).contains_pair(key, properties@[i as int].1),
            None => !props_map(properties@).dom().contains(key) && forall|j: int|
                0 <= j < properties@.len() ==> (#[trigger] properties@[j]).0 != key,
        },
{
    let n = properties.len();
    let mut i: usize = 0;
    while i < n
        invariant
            n == properties@.len(),
            i <= n,
            distinct_keys(properties@),
            forall|j: int| 0 <= j < i ==> (#[trigger] properties@[j]).0 != key,
        decreases n - i,
    {
        if properties[i].0 == key {
            proof {
                lemma_props_map_contains(properties@, i as int);
            }
            return Some(i);
        }
        i += 1;
    }
    proof {
        lemma_props_map_dom(properties@, key);
    }
    None
}

impl ArgumentsObject {
    /// The own-property table, as a map.
    pub open spec fn props(self) -> Map<PropertyKey, Property> {
        props_map(self.properties@)
    }

    pub open spec fn is_mapped(self) -> bool {
        match self.data {
            Arguments::Unmapped => false,
            Arguments::Mapped(_) => true,
        }
    }

    /// The aliases of the parameter map; empty for the unmapped kind.
    pub open spec fn pmap(self) -> Map<u64, u64> {
        match self.data {
            Arguments::Unmapped => Map::empty(),
            Arguments::Mapped(m) => entries_map(m.0.entries@),
        }
    }

    /// The parameter map's accessor entries; empty for the unmapped kind.
    pub open spec fn pmap_entries(self) -> Seq<ParameterMapEntry> {
        match self.data {
            Arguments::Unmapped => Seq::empty(),
            Arguments::Mapped(m) => m.0.entries@,
        }
    }

    pub open spec fn model(self) -> ObjModel {
        ObjModel { mapped: self.is_mapped(), pmap: self.pmap(), props: self.props() }
    }

    /// Well-formedness: property keys and parameter-map indices are distinct.
    pub open spec fn wf(self) -> bool {
        &&& distinct_keys(self.properties@)
        &&& match self.data {
            Arguments::Unmapped => true,
            Arguments::Mapped(m) => distinct_indices(m.0.entries@),
        }
    }

    /// Every alias targets a binding slot that `env` actually has.
    pub open spec fn valid_for(self, env: Environment) -> bool {
        forall|p: u64| #[trigger]
            self.pmap().dom().contains(p) ==> self.pmap()[p] < env.slots@.len()
    }

    /// The own property stored under `key`, if any, with its attributes.
    pub fn get_own_property(&self, key: PropertyKey) -> (r: Option<Property>)
        requires
            self.wf(),
        ensures
            r == if self.props().dom().contains(key) {
                Some(self.props()[key])
            } else {
                None::<Property>
            },
    {
        match find_index(&self.properties, key) {
            Some(i) => Some(self.properties[i].1),
            None => None,
        }
    }

    /// A property read, routed through the parameter map for aliased indices.
    ///
    /// In the full runtime this dispatch belongs to the generic property-trap
    /// machinery; it is stated here because the builders' objects are only
    /// meaningful together with it.
    pub fn get(&self, key: PropertyKey, env: &Environment) -> (r: Result<Value, TypeError>)
        requires
            self.wf(),
            self.valid_for(*env),
        ensures
            r == spec_get(self.model(), key, env.slots@),
    {
        if let Arguments::Mapped(m) = &self.data {
            if let PropertyKey::Index(p) = key {
                if let Some(accessor) = m.0.lookup(p) {
                    return Ok(accessor.get_value(env));
                }
            }
        }
        match find_index(&self.properties, key) {
            None => Ok(Value::Undefined),
            Some(i) => match self.properties[i].1 {
                Property::Data { value, .. } => Ok(value),
                Property::Accessor { .. } => Err(TypeError),
            },
        }
    }

    /// A property write. A permitted write replaces the stored value and, on
    /// an aliased index of a mapped object, is also routed into the aliased
    /// environment binding; a write through an accessor pair or to a
    /// non-writable data property fails with a type error and changes nothing.
    pub fn set(&mut self, key: PropertyKey, value: Value, env: &mut Environment) -> (r: Result<
        (),
        TypeError,
    >)
        requires
            old(self).wf(),
            old(self).valid_for(*old(env)),
        ensures
            final(self).wf(),
            final(self).data == old(self).data,
            final(self).pmap() == old(self).pmap(),
            final(self).is_mapped() == old(self).is_mapped(),
            final(self).props() == props_after_set(old(self).model(), key, value),
            final(env).slots@ == env_after_set(old(self).model(), key, value, old(env).slots@),
            r is Ok <==> set_permitted(old(self).model(), key),
            final(self).valid_for(*final(env)),
    {
        let pos = find_index(&self.properties, key);
        match pos {
            Some(i) => {
                match self.properties[i].1 {
                    Property::Accessor { .. } => Err(TypeError),
                    Property::Data { value: _, writable, enumerable, configurable } => {
                        if !writable {
                            Err(TypeError)
                        } else {
                            proof {
                                lemma_props_map_update(
                                    self.properties@,
                                    i as int,
                                    Property::Data { value, writable, enumerable, configurable },
                                );
                            }
                            self.properties.set(
                                i,
                                (
                                    key,
                                    Property::Data { value, writable, enumerable, configurable },
                                ),
                            );
                            self.route_write(key, value, env);
                            Ok(())
                        }
                    },
                }
            },
            None => {
                proof {
                    lemma_props_map_push(
                        self.properties@,
                        key,
                        Property::Data { value, writable: true, enumerable: true, configurable: true },
                    );
                }
                self.properties.push(
                    (
                        key,
                        Property::Data { value, writable: true, enumerable: true, configurable: true },
                    ),
                );
                self.route_write(key, value, env);
                Ok(())
            },
        }
    }

    /// The `length` own property: the actual argument count, writable,
    /// non-enumerable, configurable.
    pub open spec fn length_property(n: nat) -> Property {
        Property::Data { value: Value::Int(n as i64), writable: true, enumerable: false, configurable: true }
    }

    /// A numeric index's own property: the argument value it was created
    /// with, writable, enumerable, configurable.
    pub open spec fn index_property(v: Value) -> Property {
        Property::Data { value: v, writable: true, enumerable: true, configurable: true }
    }

    /// The well-known iterator property: the shared values-iterator function
    /// reference, writable, non-enumerable, configurable.
    pub open spec fn iterator_property(intr: Intrinsics) -> Property {
        Property::Data {
            value: Value::Func(intr.values_iterator),
            writable: true,
            enumerable: false,
            configurable: true,
        }
    }

    /// The unmapped variant's `callee`: a poison accessor pair,
    /// non-enumerable, non-configurable.
    pub open spec fn poison_callee_property(intr: Intrinsics) -> Property {
        Property::Accessor {
            get: intr.throw_type_error,
            set: intr.throw_type_error,
            enumerable: false,
            configurable: false,
        }
    }

    /// The mapped variant's `callee`: the function reference itself, writable,
    /// non-enumerable, configurable.
    pub open spec fn mapped_callee_property(func: Value) -> Property {
        Property::Data { value: func, writable: true, enumerable: false, configurable: true }
    }

    /// The own properties both variants share: `length`, one data property per
    /// index holding the original argument, and the iterator property.
    pub open spec fn standard_properties(
        args: Seq<Value>,
        intr: Intrinsics,
        props: Map<PropertyKey, Property>,
    ) -> bool {
        &&& props.contains_pair(PropertyKey::Length, Self::length_property(args.len()))
        &&& forall|i: int|
            0 <= i < args.len() ==> props.contains_pair(
                PropertyKey::Index(i as u64),
                Self::index_property(#[trigger] args[i]),
            )
        &&& props.contains_pair(PropertyKey::IterSym, Self::iterator_property(intr))
    }

    /// The exact key set of a freshly built arguments object.
    pub open spec fn arguments_keys(len: nat) -> Set<PropertyKey> {
        Set::new(
            |k: PropertyKey|
                match k {
                    PropertyKey::Index(i) => (i as nat) < len,
                    _ => true,
                },
        )
    }

    /// Routes a permitted write of an aliased numeric index into the
    /// environment, through the parameter map's alias setter.
    fn route_write(&self, key: PropertyKey, value: Value, env: &mut Environment)
        requires
            self.wf(),
            self.valid_for(*old(env)),
        ensures
            final(env).slots@ == match routed_binding(self.model(), key) {
                Some(b) => old(env).slots@.update(b as int, value),
                None => old(env).slots@,
            },
    {
        if let Arguments::Mapped(m) = &self.data {
            if let PropertyKey::Index(p) = key {
                if let Some(accessor) = m.0.lookup(p) {
                    let mut args: Vec<Value> = Vec::new();
                    args.push(value);
                    accessor.set_value(env, &args);
                }
            }
        }
    }
}

/// A freshly built property table: `length` first, one entry per index, then
/// the iterator property and `callee`. Folds to the advertised map.
proof fn lemma_standard_shape(
    s: Seq<(PropertyKey, Property)>,
    args: Seq<Value>,
    intr: Intrinsics,
    callee: Property,
)
    requires
        args.len() <= i64::MAX,
        s.len() == args.len() + 3,
        s[0] == (PropertyKey::Length, ArgumentsObject::length_property(args.len())),
        forall|j: int|
            1 <= j < args.len() + 1 ==> #[trigger] s[j] == (
                PropertyKey::Index((j - 1) as u64),
                ArgumentsObject::index_property(args[j - 1]),
            ),
        s[args.len() as int + 1] == (PropertyKey::IterSym, ArgumentsObject::iterator_property(intr)),
        s[args.len() as int + 2] == (PropertyKey::Callee, callee),
    ensures
        distinct_keys(s),
        ArgumentsObject::standard_properties(args, intr, props_map(s)),
        props_map(s).contains_pair(PropertyKey::Callee, callee),
        props_map(s).dom() == ArgumentsObject::arguments_keys(args.len()),
{
    let n = args.len() as int;
    assert forall|i: int, j: int| 0 <= i < j < s.len() implies s[i].0 != s[j].0 by {
        if 1 <= i < n + 1 {
            assert(s[i].0 == PropertyKey::Index((i - 1) as u64));
        }
        if 1 <= j < n + 1 {
            assert(s[j].0 == PropertyKey::Index((j - 1) as u64));
        }
    }
    lemma_props_map_contains(s, 0);
    lemma_props_map_contains(s, n + 1);
    lemma_props_map_contains(s, n + 2);
    assert forall|i: int| 0 <= i < n implies props_map(s).contains_pair(
        PropertyKey::Index(i as u64),
        ArgumentsObject::index_property(#[trigger] args[i]),
    ) by {
        lemma_props_map_contains(s, i + 1);
        assert(s[i + 1] == (
            PropertyKey::Index(i as u64),
            ArgumentsObject::index_property(args[i]),
        ));
    }
    assert forall|k: PropertyKey| props_map(s).dom().contains(k)
        <==> ArgumentsObject::arguments_keys(args.len()).contains(k) by {
        lemma_props_map_dom(s, k);
        match k {
            PropertyKey::Length => {
                assert(s[0].0 == k);
            },
            PropertyKey::IterSym => {
                assert(s[n + 1].0 == k);
            },
            PropertyKey::Callee => {
                assert(s[n + 2].0 == k);
            },
            PropertyKey::Index(i) => {
                if (i as int) < n {
                    assert(s[i as int + 1].0 == k);
                } else {
                    if exists|j: int| 0 <= j < s.len() && s[j].0 == k {
                        let j = choose|j: int| 0 <= j < s.len() && s[j].0 == k;
                        if 1 <= j < n + 1 {
                            assert(s[j].0 == PropertyKey::Index((j - 1) as u64));
                        }
                        assert(false);
                    }
                }
            },
        }
    }
    assert(props_map(s).dom() =~= ArgumentsObject::arguments_keys(args.len()));
}

impl Arguments {
    /// Creates a new unmapped arguments object: a plain array-like object
    /// whose numbered slots have no tie to any environment binding, whose
    /// `callee` is poisoned, and which carries the shared iterator property.
    pub fn create_unmapped_arguments_object(
        arguments_list: &Vec<Value>,
        intrinsics: &Intrinsics,
    ) -> (obj: ArgumentsObject)
        requires
            arguments_list@.len() <= i64::MAX,
        ensures
            obj.wf(),
            !obj.is_mapped(),
            (obj.pmap() == Map::<u64, u64>::empty()),
            ArgumentsObject::standard_properties(arguments_list@, *intrinsics, obj.props()),
            obj.props().contains_pair(
                PropertyKey::Callee,
                ArgumentsObject::poison_callee_property(*intrinsics),
            ),
            obj.props().dom() == ArgumentsObject::arguments_keys(arguments_list@.len()),
            forall|env: Environment| obj.valid_for(env),
    {
        let len = arguments_list.len();
        let mut properties: Vec<(PropertyKey, Property)> = Vec::new();
        properties.push(
            (
                PropertyKey::Length,
                Property::Data {
                    value: Value::Int(len as i64),
                    writable: true,
                    enumerable: false,
                    configurable: true,
                },
            ),
        );
        let mut index: usize = 0;
        while index < len
            invariant
                len == arguments_list@.len(),
                len <= i64::MAX,
                index <= len,
                properties@.len() == 1 + index,
                (properties@[0] == (
                    PropertyKey::Length,
                    ArgumentsObject::length_property(len as nat),
                )),
                forall|j: int|
                    1 <= j < properties@.len() ==> #[trigger] properties@[j] == (
                        PropertyKey::Index((j - 1) as u64),
                        ArgumentsObject::index_property(arguments_list@[j - 1]),
                    ),
            decreases len - index,
        {
            properties.push(
                (
                    PropertyKey::Index(index as u64),
                    Property::Data {
                        value: arguments_list[index],
                        writable: true,
                        enumerable: true,
                        configurable: true,
                    },
                ),
            );
            index += 1;
        }
        properties.push(
            (
                PropertyKey::IterSym,
                Property::Data {
                    value: Value::Func(intrinsics.values_iterator),
                    writable: true,
                    enumerable: false,
                    configurable: true,
                },
            ),
        );
        properties.push(
            (
                PropertyKey::Callee,
                Property::Accessor {
                    get: intrinsics.throw_type_error,
                    set: intrinsics.throw_type_error,
                    enumerable: false,
                    configurable: false,
                },
            ),
        );
        proof {
            lemma_standard_shape(
                properties@,
                arguments_list@,
                *intrinsics,
                ArgumentsObject::poison_callee_property(*intrinsics),
            );
        }
        ArgumentsObject { data: Arguments::Unmapped, properties }
    }

    /// Creates a new mapped arguments object. Beyond the unmapped shape, its
    /// parameter map aliases every property index that is the last occurrence
    /// (below the argument count) of a formal name, routing reads and writes
    /// of that index to the binding slot fixed at the name's first occurrence;
    /// `callee` is an ordinary data property holding the function reference.
    ///
    /// The formal list must already be simple: no rest parameter, binding
    /// pattern or initializer (the caller asserts this); duplicates are fine.
    /// Binding indices start at the caller-supplied `base` offset of the
    /// environment's slot layout, which holds one slot per distinct scanned
    /// name above that offset (duplicates reuse their first slot), so every
    /// alias falls inside `env`.
    pub fn create_mapped_arguments_object(
        func: Value,
        formals: &Vec<u64>,
        arguments_list: &Vec<Value>,
        env: &Environment,
        base: u64,
        intrinsics: &Intrinsics,
    ) -> (obj: ArgumentsObject)
        requires
            arguments_list@.len() <= i64::MAX,
            base + scanned_prefix(formals@, arguments_list@.len()).len() <= u64::MAX,
            base + scanned_prefix(formals@, arguments_list@.len()).to_set().len()
                <= env.slots@.len(),
        ensures
            obj.wf(),
            obj.is_mapped(),
            ArgumentsObject::standard_properties(arguments_list@, *intrinsics, obj.props()),
            obj.props().contains_pair(
                PropertyKey::Callee,
                ArgumentsObject::mapped_callee_property(func),
            ),
            obj.props().dom() == ArgumentsObject::arguments_keys(arguments_list@.len()),
            forall|p: u64|
                obj.pmap().dom().contains(p) <==> aliased_at(
                    scanned_prefix(formals@, arguments_list@.len()),
                    p as int,
                ),
            forall|p: u64| #[trigger]
                obj.pmap().dom().contains(p) ==> obj.pmap()[p] as int == alias_binding(
                    scanned_prefix(formals@, arguments_list@.len()),
                    base as int,
                    p as int,
                ),
            obj.valid_for(*env),
            accessors_hidden_configurable(obj.pmap_entries()),
    {
        let len = arguments_list.len();
        let ghost prefix = scanned_prefix(formals@, len as nat);

        // which slots alias which bindings
        let pairs = compute_parameter_map(formals, len, base);
        let mut entries: Vec<ParameterMapEntry> = Vec::new();
        let mut j: usize = 0;
        while j < pairs.len()
            invariant
                j <= pairs@.len(),
                entries@.len() == j,
                forall|i: int|
                    0 <= i < j ==> #[trigger] entries@[i] == (ParameterMapEntry {
                        property_index: pairs@[i].1,
                        accessor: AliasAccessorPair { binding_index: pairs@[i].0 },
                        enumerable: false,
                        configurable: true,
                    }),
            decreases pairs@.len() - j,
        {
            let (b, p) = pairs[j];
            let accessor = make_alias_accessors(b);
            entries.push(
                ParameterMapEntry { property_index: p, accessor, enumerable: false, configurable: true },
            );
            j += 1;
        }

        let ghost pm = entries_map(entries@);
        proof {
            assert(crate::mapper::mapper_post(prefix, base as int, pairs@));
            assert forall|p: u64| pm.dom().contains(p) <==> aliased_at(prefix, p as int) by {
                lemma_entries_map_dom(entries@, p);
                if exists|i: int| 0 <= i < entries@.len() && (#[trigger] entries@[i]).property_index
                    == p {
                    let i = choose|i: int|
                        0 <= i < entries@.len() && (#[trigger] entries@[i]).property_index == p;
                    assert(pairs@[i].1 == p);
                }
                if aliased_at(prefix, p as int) {
                    let i = choose|i: int|
                        0 <= i < pairs@.len() && (#[trigger] pairs@[i]).1 as int == p as int;
                    assert(entries@[i].property_index == p);
                }
            }
            assert(distinct_indices(entries@));
            assert forall|p: u64| #[trigger] pm.dom().contains(p) implies pm[p] as int
                == alias_binding(prefix, base as int, p as int) && pm[p] < env.slots@.len() by {
                lemma_entries_map_dom(entries@, p);
                let i = choose|i: int|
                    0 <= i < entries@.len() && (#[trigger] entries@[i]).property_index == p;
                lemma_entries_map_contains(entries@, i);
                assert(pm[p] == pairs@[i].0);
                assert(aliased_at(prefix, p as int));
                let name = prefix[p as int];
                assert(prefix.contains(name));
                lemma_binding_rank_below_distinct(prefix, name);
            }
            assert(accessors_hidden_configurable(entries@));
        }

        // the object's own properties, identical to the unmapped shape but
        // for `callee`
        let mut properties: Vec<(PropertyKey, Property)> = Vec::new();
        properties.push(
            (
                PropertyKey::Length,
                Property::Data {
                    value: Value::Int(len as i64),
                    writable: true,
                    enumerable: false,
                    configurable: true,
                },
            ),
        );
        let mut index: usize = 0;
        while index < len
            invariant
                len == arguments_list@.len(),
                len <= i64::MAX,
                index <= len,
                properties@.len() == 1 + index,
                (properties@[0] == (
                    PropertyKey::Length,
                    ArgumentsObject::length_property(len as nat),
                )),
                forall|j2: int|
                    1 <= j2 < properties@.len() ==> #[trigger] properties@[j2] == (
                        PropertyKey::Index((j2 - 1) as u64),
                        ArgumentsObject::index_property(arguments_list@[j2 - 1]),
                    ),
            decreases len - index,
        {
            properties.push(
                (
                    PropertyKey::Index(index as u64),
                    Property::Data {
                        value: arguments_list[index],
                        writable: true,
                        enumerable: true,
                        configurable: true,
                    },
                ),
            );
            index += 1;
        }
        properties.push(
            (
                PropertyKey::IterSym,
                Property::Data {
                    value: Value::Func(intrinsics.values_iterator),
                    writable: true,
                    enumerable: false,
                    configurable: true,
                },
            ),
        );
        properties.push(
            (
                PropertyKey::Callee,
                Property::Data { value: func, writable: true, enumerable: false, configurable: true },
            ),
        );
        proof {
            lemma_standard_shape(
                properties@,
                arguments_list@,
                *intrinsics,
                ArgumentsObject::mapped_callee_property(func),
            );
        }
        ArgumentsObject {
            data: Arguments::Mapped(MappedArguments(ParameterMap { entries })),
            properties,
        }
    }
}

} // verus!

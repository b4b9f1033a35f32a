//! The entity-component store: which entities exist, which kinds of component
//! each one carries, the names that identify entities, the queries over them,
//! and the queue of mutations deferred while components are borrowed.
//!
//! Component payloads are kept by the caller, keyed by `EntityId`; this store
//! decides membership and identity.
use crate::slots::{
    canonical_key, key_set_contains, key_set_insert, key_set_keys, key_set_len, key_set_new,
    key_set_remove, key_slot, lemma_canonical_idempotent, link_map_clear, link_map_get,
    link_map_insert, link_map_len, link_map_new, link_map_set, slot_keys, slot_links, KeySet,
    LinkTable,
};
use crate::components::Component;
use crate::text::{chars_of, str_eq, string_from_chars};
use std::collections::HashMap;
use vstd::prelude::*;

verus! {

broadcast use vstd::std_specs::hash::group_hash_axioms;

/// The number of component kinds.
pub const NUM_KINDS: usize = 24;

/// The kinds of component an entity may carry.
#[derive(Clone, Copy, PartialEq, Eq, Structural, Debug, Hash)]
pub enum ComponentKind {
    Name,
    Position,
    Velocity,
    Collision,
    SfxEmitter,
    SpriteComp,
    Facing,
    Walking,
    Pathing,
    Camera,
    AnimationComp,
    CharacterAnims,
    DualStateAnims,
    NamedAnims,
    InteractionTrigger,
    CollisionTrigger,
    AreaTrigger,
    OverheadText,
    CameraShake,
    SineOffsetAnimation,
    Singing,
    Tweens,
    LerpCameraZoom,
    LerpCameraOverlayColor,
}

/// The position of a kind in the presence table of an entity.
pub open spec fn kind_index(k: ComponentKind) -> int {
    match k {
        ComponentKind::Name => 0,
        ComponentKind::Position => 1,
        ComponentKind::Velocity => 2,
        ComponentKind::Collision => 3,
        ComponentKind::SfxEmitter => 4,
        ComponentKind::SpriteComp => 5,
        ComponentKind::Facing => 6,
        ComponentKind::Walking => 7,
        ComponentKind::Pathing => 8,
        ComponentKind::Camera => 9,
        ComponentKind::AnimationComp => 10,
        ComponentKind::CharacterAnims => 11,
        ComponentKind::DualStateAnims => 12,
        ComponentKind::NamedAnims => 13,
        ComponentKind::InteractionTrigger => 14,
        ComponentKind::CollisionTrigger => 15,
        ComponentKind::AreaTrigger => 16,
        ComponentKind::OverheadText => 17,
        ComponentKind::CameraShake => 18,
        ComponentKind::SineOffsetAnimation => 19,
        ComponentKind::Singing => 20,
        ComponentKind::Tweens => 21,
        ComponentKind::LerpCameraZoom => 22,
        ComponentKind::LerpCameraOverlayColor => 23,
    }
}

/// The unique name of each kind, as scripts and data files spell it.
pub open spec fn kind_name(k: ComponentKind) -> Seq<char> {
    match k {
        ComponentKind::Name => "Name"@,
        ComponentKind::Position => "Position"@,
        ComponentKind::Velocity => "Velocity"@,
        ComponentKind::Collision => "Collision"@,
        ComponentKind::SfxEmitter => "SfxEmitter"@,
        ComponentKind::SpriteComp => "SpriteComp"@,
        ComponentKind::Facing => "Facing"@,
        ComponentKind::Walking => "Walking"@,
        ComponentKind::Pathing => "Pathing"@,
        ComponentKind::Camera => "Camera"@,
        ComponentKind::AnimationComp => "AnimationComp"@,
        ComponentKind::CharacterAnims => "CharacterAnims"@,
        ComponentKind::DualStateAnims => "DualStateAnims"@,
        ComponentKind::NamedAnims => "NamedAnims"@,
        ComponentKind::InteractionTrigger => "InteractionTrigger"@,
        ComponentKind::CollisionTrigger => "CollisionTrigger"@,
        ComponentKind::AreaTrigger => "AreaTrigger"@,
        ComponentKind::OverheadText => "OverheadText"@,
        ComponentKind::CameraShake => "CameraShake"@,
        ComponentKind::SineOffsetAnimation => "SineOffsetAnimation"@,
        ComponentKind::Singing => "Singing"@,
        ComponentKind::Tweens => "Tweens"@,
        ComponentKind::LerpCameraZoom => "LerpCameraZoom"@,
        ComponentKind::LerpCameraOverlayColor => "LerpCameraOverlayColor"@,
    }
}

/// The data kind spelled `s`, if there is one.
pub open spec fn data_kind_named(s: Seq<char>) -> Option<ComponentKind> {
    if s == "Name"@ {
        Some(ComponentKind::Name)
    } else if s == "Position"@ {
        Some(ComponentKind::Position)
    } else if s == "Velocity"@ {
        Some(ComponentKind::Velocity)
    } else if s == "Collision"@ {
        Some(ComponentKind::Collision)
    } else if s == "SfxEmitter"@ {
        Some(ComponentKind::SfxEmitter)
    } else if s == "SpriteComp"@ {
        Some(ComponentKind::SpriteComp)
    } else if s == "Facing"@ {
        Some(ComponentKind::Facing)
    } else if s == "Walking"@ {
        Some(ComponentKind::Walking)
    } else if s == "Pathing"@ {
        Some(ComponentKind::Pathing)
    } else if s == "Camera"@ {
        Some(ComponentKind::Camera)
    } else if s == "AnimationComp"@ {
        Some(ComponentKind::AnimationComp)
    } else if s == "CharacterAnims"@ {
        Some(ComponentKind::CharacterAnims)
    } else if s == "DualStateAnims"@ {
        Some(ComponentKind::DualStateAnims)
    } else if s == "NamedAnims"@ {
        Some(ComponentKind::NamedAnims)
    } else if s == "InteractionTrigger"@ {
        Some(ComponentKind::InteractionTrigger)
    } else if s == "CollisionTrigger"@ {
        Some(ComponentKind::CollisionTrigger)
    } else if s == "AreaTrigger"@ {
        Some(ComponentKind::AreaTrigger)
    } else if s == "OverheadText"@ {
        Some(ComponentKind::OverheadText)
    } else {
        None
    }
}

impl ComponentKind {
    pub fn index(self) -> (i: usize)
        ensures
            i == kind_index(self),
            i < NUM_KINDS,
    {
        match self {
            ComponentKind::Name => 0,
            ComponentKind::Position => 1,
            ComponentKind::Velocity => 2,
            ComponentKind::Collision => 3,
            ComponentKind::SfxEmitter => 4,
            ComponentKind::SpriteComp => 5,
            ComponentKind::Facing => 6,
            ComponentKind::Walking => 7,
            ComponentKind::Pathing => 8,
            ComponentKind::Camera => 9,
            ComponentKind::AnimationComp => 10,
            ComponentKind::CharacterAnims => 11,
            ComponentKind::DualStateAnims => 12,
            ComponentKind::NamedAnims => 13,
            ComponentKind::InteractionTrigger => 14,
            ComponentKind::CollisionTrigger => 15,
            ComponentKind::AreaTrigger => 16,
            ComponentKind::OverheadText => 17,
            ComponentKind::CameraShake => 18,
            ComponentKind::SineOffsetAnimation => 19,
            ComponentKind::Singing => 20,
            ComponentKind::Tweens => 21,
            ComponentKind::LerpCameraZoom => 22,
            ComponentKind::LerpCameraOverlayColor => 23,
        }
    }

    /// The unique name of the kind.
    pub fn name(self) -> (s: &'static str)
        ensures
            s@ == kind_name(self),
    {
        match self {
            ComponentKind::Name => "Name",
            ComponentKind::Position => "Position",
            ComponentKind::Velocity => "Velocity",
            ComponentKind::Collision => "Collision",
            ComponentKind::SfxEmitter => "SfxEmitter",
            ComponentKind::SpriteComp => "SpriteComp",
            ComponentKind::Facing => "Facing",
            ComponentKind::Walking => "Walking",
            ComponentKind::Pathing => "Pathing",
            ComponentKind::Camera => "Camera",
            ComponentKind::AnimationComp => "AnimationComp",
            ComponentKind::CharacterAnims => "CharacterAnims",
            ComponentKind::DualStateAnims => "DualStateAnims",
            ComponentKind::NamedAnims => "NamedAnims",
            ComponentKind::InteractionTrigger => "InteractionTrigger",
            ComponentKind::CollisionTrigger => "CollisionTrigger",
            ComponentKind::AreaTrigger => "AreaTrigger",
            ComponentKind::OverheadText => "OverheadText",
            ComponentKind::CameraShake => "CameraShake",
            ComponentKind::SineOffsetAnimation => "SineOffsetAnimation",
            ComponentKind::Singing => "Singing",
            ComponentKind::Tweens => "Tweens",
            ComponentKind::LerpCameraZoom => "LerpCameraZoom",
            ComponentKind::LerpCameraOverlayColor => "LerpCameraOverlayColor",
        }
    }

    /// The data kind with the given name, for adding and removing components
    /// by name; `None` for any other name.
    pub fn from_name(s: &str) -> (k: Option<ComponentKind>)
        ensures
            k == data_kind_named(s@),
    {
        if str_eq(s, "Name") {
            Some(ComponentKind::Name)
        } else if str_eq(s, "Position") {
            Some(ComponentKind::Position)
        } else if str_eq(s, "Velocity") {
            Some(ComponentKind::Velocity)
        } else if str_eq(s, "Collision") {
            Some(ComponentKind::Collision)
        } else if str_eq(s, "SfxEmitter") {
            Some(ComponentKind::SfxEmitter)
        } else if str_eq(s, "SpriteComp") {
            Some(ComponentKind::SpriteComp)
        } else if str_eq(s, "Facing") {
            Some(ComponentKind::Facing)
        } else if str_eq(s, "Walking") {
            Some(ComponentKind::Walking)
        } else if str_eq(s, "Pathing") {
            Some(ComponentKind::Pathing)
        } else if str_eq(s, "Camera") {
            Some(ComponentKind::Camera)
        } else if str_eq(s, "AnimationComp") {
            Some(ComponentKind::AnimationComp)
        } else if str_eq(s, "CharacterAnims") {
            Some(ComponentKind::CharacterAnims)
        } else if str_eq(s, "DualStateAnims") {
            Some(ComponentKind::DualStateAnims)
        } else if str_eq(s, "NamedAnims") {
            Some(ComponentKind::NamedAnims)
        } else if str_eq(s, "InteractionTrigger") {
            Some(ComponentKind::InteractionTrigger)
        } else if str_eq(s, "CollisionTrigger") {
            Some(ComponentKind::CollisionTrigger)
        } else if str_eq(s, "AreaTrigger") {
            Some(ComponentKind::AreaTrigger)
        } else if str_eq(s, "OverheadText") {
            Some(ComponentKind::OverheadText)
        } else {
            None
        }
    }
}


/// The identity of an entity: a handle of the entity table. Two identities
/// name the same entity exactly when their keys are equal.
#[derive(Clone, Copy, PartialEq, Eq, Structural, Debug, Hash, PartialOrd, Ord)]
pub struct EntityId {
    raw: u64,
}

impl EntityId {
    /// The handle, in the canonical form that the entity table issues.
    pub closed spec fn key(self) -> u64 {
        canonical_key(self.raw)
    }

    /// The identity encoded by `v` (as produced by `as_ffi`).
    pub fn from_ffi(v: u64) -> (id: EntityId)
        ensures
            id.key() == canonical_key(v),
    {
        let raw = v | 0x1_0000_0000u64;
        proof {
            lemma_canonical_idempotent(v);
        }
        EntityId { raw }
    }

    /// The 64-bit encoding of the identity.
    pub fn as_ffi(self) -> (v: u64)
        ensures
            v == self.key(),
    {
        self.raw | 0x1_0000_0000u64
    }

    /// Whether two identities name the same entity.
    pub fn same(self, other: EntityId) -> (b: bool)
        ensures
            b == (self.key() == other.key()),
    {
        self.as_ffi() == other.as_ffi()
    }

    /// An id's key is already in the form slot maps give back.
    pub proof fn lemma_key_canonical(self)
        ensures
            canonical_key(self.key()) == self.key(),
    {
        lemma_canonical_idempotent(self.raw);
    }
}

/// A handle for an entity that a deferred mutation will create; it resolves
/// to the real entity once the mutations are flushed, and to nothing after.
#[derive(Clone, Copy, PartialEq, Eq, Structural, Debug, Hash)]
pub struct DeferredEntityId {
    raw: u64,
}

impl DeferredEntityId {
    /// The handle, in canonical form.
    pub closed spec fn key(self) -> u64 {
        canonical_key(self.raw)
    }

    fn from_ffi(v: u64) -> (id: DeferredEntityId)
        ensures
            id.key() == canonical_key(v),
    {
        let raw = v | 0x1_0000_0000u64;
        proof {
            lemma_canonical_idempotent(v);
        }
        DeferredEntityId { raw }
    }

    fn as_ffi(self) -> (v: u64)
        ensures
            v == self.key(),
    {
        self.raw | 0x1_0000_0000u64
    }
}

/// An entity that exists now, or one that a deferred mutation will create.
#[derive(Clone, Copy, PartialEq, Eq, Structural, Debug)]
pub enum RealOrDeferredEntityId {
    Real(EntityId),
    Deferred(DeferredEntityId),
}

/// A change to the store queued while components are borrowed, applied by
/// `flush_deferred_mutations` in the order it was queued.
pub enum DeferredMutation {
    AddEntity(DeferredEntityId),
    RemoveEntity(EntityId),
    AddComponent(RealOrDeferredEntityId, ComponentKind),
    AddName(RealOrDeferredEntityId, String),
    RemoveComponent(EntityId, ComponentKind),
}

/// The observable state of the store.
#[verifier::ext_equal]
pub struct EcsState {
    pub entities: Set<u64>,
    pub components: Set<(u64, ComponentKind)>,
    pub names: Map<Seq<char>, u64>,
    pub links: Map<u64, Option<u64>>,
}

/// The entity a target of a deferred mutation stands for in state `s`.
pub open spec fn resolve_target(s: EcsState, t: RealOrDeferredEntityId) -> Option<u64> {
    match t {
        RealOrDeferredEntityId::Real(id) => Some(id.key()),
        RealOrDeferredEntityId::Deferred(d) => if s.links.contains_key(d.key()) {
            s.links[d.key()]
        } else {
            None
        },
    }
}

/// The names of `names` that do not name entity `e`.
pub open spec fn names_without(names: Map<Seq<char>, u64>, e: u64) -> Map<Seq<char>, u64> {
    names.restrict(names.dom().filter(|s: Seq<char>| names[s] != e))
}

/// The state after applying one deferred mutation to `s`, where `out` is the
/// entity the mutation acted on (for `AddEntity`, the entity it created,
/// which must be fresh); `None` when `out` does not fit the mutation.
pub open spec fn step(s: EcsState, op: DeferredMutation, out: Option<u64>) -> Option<EcsState> {
    match op {
        DeferredMutation::AddEntity(d) => match out {
            Some(k) => if !s.entities.contains(k) {
                Some(EcsState {
                    entities: s.entities.insert(k),
                    links: if s.links.contains_key(d.key()) { s.links.insert(d.key(), Some(k)) } else { s.links },
                    ..s
                })
            } else {
                None
            },
            None => None,
        },
        DeferredMutation::RemoveEntity(id) => if out == Some(id.key()) {
            Some(EcsState { entities: s.entities.remove(id.key()), ..s })
        } else {
            None
        },
        DeferredMutation::AddComponent(t, kind) => if out == resolve_target(s, t) {
            match out {
                Some(e) => Some(EcsState { components: s.components.insert((e, kind)), ..s }),
                None => Some(s),
            }
        } else {
            None
        },
        DeferredMutation::AddName(t, name) => if out == resolve_target(s, t) {
            match out {
                Some(e) => Some(EcsState {
                    components: s.components.insert((e, ComponentKind::Name)),
                    names: s.names.insert(name@, e),
                    ..s
                }),
                None => Some(s),
            }
        } else {
            None
        },
        DeferredMutation::RemoveComponent(id, kind) => if out == Some(id.key()) {
            Some(EcsState {
                components: s.components.remove((id.key(), kind)),
                names: if kind == ComponentKind::Name { names_without(s.names, id.key()) } else { s.names },
                ..s
            })
        } else {
            None
        },
    }
}

/// The state after applying `ops` in order to `s`, with `outs[i]` the entity
/// that `ops[i]` acted on; `None` when some `outs[i]` does not fit.
pub open spec fn replay(s: EcsState, ops: Seq<DeferredMutation>, outs: Seq<Option<u64>>) -> Option<EcsState>
    decreases ops.len(),
{
    if ops.len() != outs.len() {
        None
    } else if ops.len() == 0 {
        Some(s)
    } else {
        match replay(s, ops.drop_last(), outs.drop_last()) {
            Some(s1) => step(s1, ops.last(), outs.last()),
            None => None,
        }
    }
}

/// How a query or a lookup names its entity.
pub enum EntityIdentifier {
    Id(EntityId),
    Name(String),
}

/// Why `query_one` found nothing.
#[derive(Clone, Copy, PartialEq, Eq, Structural, Debug)]
pub enum QueryOneError {
    /// No live entity has the identifier.
    NoEntity,
    /// The entity lacks a component that the query needs, or has one it
    /// excludes.
    MissingComponents,
}

impl QueryOneError {
    /// The message the game shows for the error.
    pub fn message(&self) -> (s: &'static str)
        ensures
            *self == QueryOneError::NoEntity ==> s@ == "queried entity doesn't exist"@,
            *self == QueryOneError::MissingComponents ==> s@ == "missing queried components"@,
    {
        match self {
            QueryOneError::NoEntity => "queried entity doesn't exist",
            QueryOneError::MissingComponents => "missing queried components",
        }
    }
}

/// A component name that names no component loadable from data.
#[derive(Clone, Debug, PartialEq, Eq)]
pub struct InvalidComponentName(pub String);

impl InvalidComponentName {
    /// The message the game shows for the error.
    pub fn message(&self) -> (s: String)
        ensures
            s@ == "invalid component name `"@ + self.0@ + "`"@,
    {
        let mut v = chars_of("invalid component name `");
        let name = chars_of(self.0.as_str());
        let mut i: usize = 0;
        let ghost head = v@;
        while i < name.len()
            invariant
                i <= name@.len(),
                v@ == head + name@.take(i as int),
            decreases name@.len() - i,
        {
            v.push(name[i]);
            i = i + 1;
            assert(v@ =~= head + name@.take(i as int));
        }
        v.push('`');
        proof {
            reveal_strlit("`");
            assert(name@.take(name@.len() as int) =~= name@);
            assert(v@ =~= head + name@ + "`"@);
        }
        string_from_chars(&v)
    }
}

/// One element of a query: what it asks of an entity.
#[derive(Clone, Copy, PartialEq, Eq, Structural, Debug)]
pub enum QueryTerm {
    /// The entity's identity; asks nothing.
    Id,
    /// A shared borrow of a component; the entity must carry it.
    Ref(ComponentKind),
    /// An exclusive borrow of a component; the entity must carry it.
    Mut(ComponentKind),
    /// The component if present; asks nothing.
    Maybe(ComponentKind),
    /// The entity must carry the component (nothing is borrowed).
    With(ComponentKind),
    /// The entity must not carry the component.
    Without(ComponentKind),
}

/// The entity-component store.
pub struct Ecs {
    entity_ids: KeySet,
    components: HashMap<u64, Vec<bool>>,
    names: Vec<(String, EntityId)>,
    deferred_mutations: Vec<DeferredMutation>,
    deferred_entity_ids: LinkTable,
}

/// The registered names of a name list: each name maps to the entity of the
/// entry that holds it (entries hold distinct names).
pub open spec fn names_map(v: Seq<(String, EntityId)>) -> Map<Seq<char>, u64> {
    Map::new(
        |s: Seq<char>| exists|i: int| 0 <= i < v.len() && (#[trigger] v[i]).0@ == s,
        |s: Seq<char>| v[choose|i: int| 0 <= i < v.len() && (#[trigger] v[i]).0@ == s].1.key(),
    )
}

/// Entries of a name list hold distinct names.
pub open spec fn names_distinct(v: Seq<(String, EntityId)>) -> bool {
    forall|i: int, j: int|
        0 <= i < v.len() && 0 <= j < v.len() && i != j ==> (#[trigger] v[i]).0@ != (#[trigger] v[j]).0@
}

proof fn lemma_names_at(v: Seq<(String, EntityId)>, i: int)
    requires
        names_distinct(v),
        0 <= i < v.len(),
    ensures
        names_map(v).contains_key(v[i].0@),
        names_map(v)[v[i].0@] == v[i].1.key(),
{
    let s = v[i].0@;
    assert(exists|j: int| 0 <= j < v.len() && (#[trigger] v[j]).0@ == s);
    let j = choose|j: int| 0 <= j < v.len() && (#[trigger] v[j]).0@ == s;
    assert(i == j);
}

/// The values of one component type, by entity. The entity table records
/// which entities carry the type; the store holds what they carry.
pub struct ComponentStore<C> {
    values: HashMap<u64, C>,
}

impl<C> View for ComponentStore<C> {
    type V = Map<u64, C>;

    closed spec fn view(&self) -> Map<u64, C> {
        self.values@
    }
}

impl<C> ComponentStore<C> {
    /// A store holding no value.
    pub fn new() -> (s: ComponentStore<C>)
        ensures
            s@ == Map::<u64, C>::empty(),
    {
        ComponentStore { values: HashMap::new() }
    }

    /// The value stored for an entity, if any (whether or not the entity
    /// carries the component).
    pub fn get(&self, id: EntityId) -> (r: Option<&C>)
        ensures
            r == (if self@.contains_key(id.key()) { Some(&self@[id.key()]) } else { None }),
    {
        self.values.get(&id.as_ffi())
    }

    /// Stores a value for an entity, replacing any stored before.
    pub fn insert(&mut self, id: EntityId, c: C)
        ensures
            final(self)@ == old(self)@.insert(id.key(), c),
    {
        self.values.insert(id.as_ffi(), c);
    }

    /// Takes out the value stored for an entity, if any.
    pub fn remove(&mut self, id: EntityId) -> (r: Option<C>)
        ensures
            r == (if old(self)@.contains_key(id.key()) { Some(old(self)@[id.key()]) } else { None }),
            final(self)@ == old(self)@.remove(id.key()),
    {
        self.values.remove(&id.as_ffi())
    }
}

/// The component of kind `kind` that entity `e` carries, with its value in
/// `store`: present when the entity is live, carries the kind and a value is
/// stored for it.
pub open spec fn component_value<C>(ecs: Ecs, store: Map<u64, C>, e: u64, kind: ComponentKind) -> Option<C> {
    if ecs.entities().contains(e) && ecs.has(e, kind) && store.contains_key(e) {
        Some(store[e])
    } else {
        None
    }
}

/// The component kinds written out when an entity's components are saved,
/// in the order they are written (runtime state such as pathing and
/// overhead text is left out).
pub open spec fn saved_kinds() -> Seq<ComponentKind> {
    seq![
        ComponentKind::Name, ComponentKind::Position, ComponentKind::Velocity, ComponentKind::Collision,
        ComponentKind::SfxEmitter, ComponentKind::SpriteComp, ComponentKind::Facing, ComponentKind::Walking,
        ComponentKind::Camera, ComponentKind::AnimationComp, ComponentKind::CharacterAnims,
        ComponentKind::DualStateAnims, ComponentKind::NamedAnims, ComponentKind::InteractionTrigger,
        ComponentKind::CollisionTrigger, ComponentKind::AreaTrigger,
    ]
}

/// How many of the queued mutations create an entity.
pub open spec fn entity_adds(ops: Seq<DeferredMutation>) -> nat
    decreases ops.len(),
{
    if ops.len() == 0 {
        0
    } else {
        entity_adds(ops.drop_last()) + (if ops.last() is AddEntity { 1nat } else { 0nat })
    }
}

proof fn lemma_entity_adds_prefix(ops: Seq<DeferredMutation>, i: int)
    requires
        0 <= i <= ops.len(),
    ensures
        entity_adds(ops.take(i)) <= entity_adds(ops),
    decreases ops.len() - i,
{
    if i < ops.len() {
        lemma_entity_adds_prefix(ops, i + 1);
        assert(ops.take(i + 1).drop_last() =~= ops.take(i));
    } else {
        assert(ops.take(i) =~= ops);
    }
}

impl Ecs {
    /// The live entities.
    pub closed spec fn entities(&self) -> Set<u64> {
        slot_keys(self.entity_ids)
    }

    /// Whether entity `e` carries a component of kind `k`.
    pub closed spec fn has(&self, e: u64, k: ComponentKind) -> bool {
        &&& self.components@.contains_key(e)
        &&& self.components@[e]@[kind_index(k)]
    }

    /// The registered names and the entities they name.
    pub closed spec fn names(&self) -> Map<Seq<char>, u64> {
        names_map(self.names@)
    }

    /// The mutations queued and not yet applied.
    pub closed spec fn pending(&self) -> Seq<DeferredMutation> {
        self.deferred_mutations@
    }

    /// The deferred handles given out since the last flush, each with the
    /// entity it resolved to (none until the flush creates it).
    pub closed spec fn links(&self) -> Map<u64, Option<u64>> {
        slot_links(self.deferred_entity_ids)
    }

    /// The observable state.
    pub open spec fn state(&self) -> EcsState {
        EcsState {
            entities: self.entities(),
            components: Set::new(|p: (u64, ComponentKind)| self.has(p.0, p.1)),
            names: self.names(),
            links: self.links(),
        }
    }

    /// The internal consistency of the store.
    pub closed spec fn wf(&self) -> bool {
        &&& self.links().dom().finite()
        &&& forall|d: u64| #[trigger] self.links().contains_key(d) && self.links()[d] is Some
            ==> canonical_key(self.links()[d].unwrap()) == self.links()[d].unwrap()
        &&& forall|i: int| 0 <= i < self.pending().len() ==> match #[trigger] self.pending()[i] {
            DeferredMutation::AddEntity(d) => self.links().contains_key(d.key()),
            DeferredMutation::AddComponent(_, k) => k != ComponentKind::Name,
            _ => true,
        }
        &&& self.entities().finite()
        &&& forall|e: u64| #[trigger] self.entities().contains(e) ==> canonical_key(e) == e
        &&& forall|e: u64| #[trigger] self.components@.contains_key(e)
            ==> self.components@[e]@.len() == NUM_KINDS
        &&& names_distinct(self.names@)
    }

    /// Whether term `t` admits entity `e`.
    pub open spec fn term_holds(&self, t: QueryTerm, e: u64) -> bool {
        match t {
            QueryTerm::Id => true,
            QueryTerm::Ref(k) => self.has(e, k),
            QueryTerm::Mut(k) => self.has(e, k),
            QueryTerm::Maybe(k) => true,
            QueryTerm::With(k) => self.has(e, k),
            QueryTerm::Without(k) => !self.has(e, k),
        }
    }

    /// Whether every term of a query admits entity `e`.
    pub open spec fn matches(&self, terms: Seq<QueryTerm>, e: u64) -> bool {
        forall|i: int| 0 <= i < terms.len() ==> self.term_holds(#[trigger] terms[i], e)
    }

    /// The entity an identifier names, if any (whether or not it is live).
    pub open spec fn resolve(&self, identifier: EntityIdentifier) -> Option<u64> {
        match identifier {
            EntityIdentifier::Id(id) => Some(id.key()),
            EntityIdentifier::Name(n) => if self.names().contains_key(n@) {
                Some(self.names()[n@])
            } else {
                None
            },
        }
    }

    /// The outcome of `query_one` for an identifier and a query.
    pub open spec fn query_one_outcome(&self, terms: Seq<QueryTerm>, identifier: EntityIdentifier) -> Result<u64, QueryOneError> {
        match self.resolve(identifier) {
            None => Err(QueryOneError::NoEntity),
            Some(e) => if !self.entities().contains(e) {
                Err(QueryOneError::NoEntity)
            } else if !self.matches(terms, e) {
                Err(QueryOneError::MissingComponents)
            } else {
                Ok(e)
            },
        }
    }

    /// An empty store.
    pub fn new() -> (ecs: Ecs)
        ensures
            ecs.wf(),
            ecs.entities() == Set::<u64>::empty(),
            forall|e: u64, k: ComponentKind| !ecs.has(e, k),
            ecs.names() == Map::<Seq<char>, u64>::empty(),
            ecs.pending().len() == 0,
            ecs.links().dom() == Set::<u64>::empty(),
    {
        let ecs = Ecs {
            entity_ids: key_set_new(),
            components: HashMap::new(),
            names: Vec::new(),
            deferred_mutations: Vec::new(),
            deferred_entity_ids: link_map_new(),
        };
        assert(ecs.names() =~= Map::<Seq<char>, u64>::empty());
        ecs
    }

    /// The number of live entities.
    pub fn len(&self) -> (n: usize)
        ensures
            n == self.entities().len(),
    {
        key_set_len(&self.entity_ids)
    }

    /// Whether the entity is live.
    pub fn contains_entity(&self, id: EntityId) -> (b: bool)
        ensures
            b == self.entities().contains(id.key()),
    {
        proof { id.lemma_key_canonical(); }
        key_set_contains(&self.entity_ids, id.as_ffi())
    }

    /// Whether the entity carries a component of the kind.
    pub fn has_component(&self, id: EntityId, kind: ComponentKind) -> (b: bool)
        requires
            self.wf(),
        ensures
            b == self.has(id.key(), kind),
    {
        match self.components.get(&id.as_ffi()) {
            Some(row) => row[kind.index()],
            None => false,
        }
    }

    /// Creates an entity, with an identity that no live entity has.
    pub fn add_entity(&mut self) -> (id: EntityId)
        requires
            old(self).wf(),
            old(self).entities().len() + 2 < 0x1_0000_0000,
        ensures
            final(self).wf(),
            final(self).pending() == old(self).pending(),
            final(self).links() == old(self).links(),
            !old(self).entities().contains(id.key()),
            final(self).entities() == old(self).entities().insert(id.key()),
            forall|e: u64, k: ComponentKind| final(self).has(e, k) == old(self).has(e, k),
            final(self).names() == old(self).names(),
    {
        let k = key_set_insert(&mut self.entity_ids);
        let id = EntityId::from_ffi(k);
        id
    }

    /// Destroys an entity. Its components and names stay recorded but are
    /// unreachable, since only live entities are queried.
    pub fn remove_entity(&mut self, id: EntityId)
        requires
            old(self).wf(),
        ensures
            final(self).wf(),
            final(self).pending() == old(self).pending(),
            final(self).links() == old(self).links(),
            final(self).entities() == old(self).entities().remove(id.key()),
            forall|e: u64, k: ComponentKind| final(self).has(e, k) == old(self).has(e, k),
            final(self).names() == old(self).names(),
    {
        proof { id.lemma_key_canonical(); }
        key_set_remove(&mut self.entity_ids, id.as_ffi());
    }

    /// The live entities, each once, in the order of their slots.
    pub fn entity_ids(&self) -> (ids: Vec<EntityId>)
        requires
            self.wf(),
        ensures
            forall|i: int| 0 <= i < ids@.len() ==> self.entities().contains(#[trigger] ids@[i].key()),
            forall|e: u64| self.entities().contains(e) ==> exists|i: int| 0 <= i < ids@.len() && (#[trigger] ids@[i]).key() == e,
            forall|i: int, j: int| 0 <= i < j < ids@.len() ==> key_slot((#[trigger] ids@[i]).key()) < key_slot((#[trigger] ids@[j]).key()),
    {
        let keys = key_set_keys(&self.entity_ids);
        let mut ids: Vec<EntityId> = Vec::new();
        let mut i: usize = 0;
        while i < keys.len()
            invariant
                self.wf(),
                keys@.to_set() == self.entities(),
                i <= keys@.len(),
                ids@.len() == i,
                forall|j: int| 0 <= j < i ==> (#[trigger] ids@[j]).key() == keys@[j],
            decreases keys.len() - i,
        {
            assert(keys@.to_set().contains(keys@[i as int]));
            let id = EntityId::from_ffi(keys[i]);
            ids.push(id);
            i = i + 1;
        }
        assert forall|e: u64| self.entities().contains(e) implies exists|i: int| 0 <= i < ids@.len() && (#[trigger] ids@[i]).key() == e by {
            assert(keys@.to_set().contains(e));
            let j = choose|j: int| 0 <= j < keys@.len() && keys@[j] == e;
            assert(ids@[j].key() == e);
        }
        assert forall|i: int| 0 <= i < ids@.len() implies self.entities().contains(#[trigger] ids@[i].key()) by {
            assert(keys@.to_set().contains(keys@[i]));
        }
        ids
    }

    /// Attaches a component of the given kind (not `Name`, see `add_name`).
    /// Adding a kind the entity already carries replaces the payload only.
    pub fn add_component(&mut self, id: EntityId, kind: ComponentKind)
        requires
            old(self).wf(),
            kind != ComponentKind::Name,
        ensures
            final(self).wf(),
            final(self).pending() == old(self).pending(),
            final(self).links() == old(self).links(),
            final(self).entities() == old(self).entities(),
            final(self).names() == old(self).names(),
            forall|e: u64, k: ComponentKind| #[trigger] final(self).has(e, k) == (old(self).has(e, k) || (e == id.key() && k == kind)),
    {
        self.set_presence(id.as_ffi(), kind, true);
    }

    /// Attaches a `Name` component and registers the name as naming the
    /// entity (a name registered before for another entity now names this
    /// one).
    pub fn add_name(&mut self, id: EntityId, name: String)
        requires
            old(self).wf(),
        ensures
            final(self).wf(),
            final(self).pending() == old(self).pending(),
            final(self).links() == old(self).links(),
            final(self).entities() == old(self).entities(),
            final(self).names() == old(self).names().insert(name@, id.key()),
            forall|e: u64, k: ComponentKind| #[trigger] final(self).has(e, k) == (old(self).has(e, k) || (e == id.key() && k == ComponentKind::Name)),
    {
        self.register_name(name, id);
        self.set_presence(id.as_ffi(), ComponentKind::Name, true);
    }

    /// Detaches a component. Detaching `Name` also unregisters every name that
    /// names the entity.
    pub fn remove_component(&mut self, id: EntityId, kind: ComponentKind)
        requires
            old(self).wf(),
        ensures
            final(self).wf(),
            final(self).pending() == old(self).pending(),
            final(self).links() == old(self).links(),
            final(self).entities() == old(self).entities(),
            forall|e: u64, k: ComponentKind| #[trigger] final(self).has(e, k) == (old(self).has(e, k) && !(e == id.key() && k == kind)),
            kind == ComponentKind::Name ==> final(self).names() == old(self).names().restrict(
                old(self).names().dom().filter(|s: Seq<char>| old(self).names()[s] != id.key()),
            ),
            kind != ComponentKind::Name ==> final(self).names() == old(self).names(),
    {
        if kind == ComponentKind::Name {
            self.unregister_entity(id);
        }
        self.set_presence(id.as_ffi(), kind, false);
    }

    /// Detaches the component named `component_name`, as `remove_component`
    /// does; a name that names no data component is refused and changes
    /// nothing.
    pub fn remove_component_with_name(&mut self, id: EntityId, component_name: &str) -> (r: Result<(), InvalidComponentName>)
        requires
            old(self).wf(),
        ensures
            final(self).wf(),
            match data_kind_named(component_name@) {
                None => r matches Err(e) && e.0@ == component_name@ && final(self).pending() == old(self).pending()
                    && final(self).links() == old(self).links() && final(self).entities() == old(self).entities()
                    && final(self).names() == old(self).names()
                    && (forall|e: u64, k: ComponentKind| #[trigger] final(self).has(e, k) == old(self).has(e, k)),
                Some(kind) => r is Ok && final(self).pending() == old(self).pending()
                    && final(self).links() == old(self).links() && final(self).entities() == old(self).entities()
                    && (forall|e: u64, k: ComponentKind| #[trigger] final(self).has(e, k) == (old(self).has(e, k) && !(e == id.key() && k == kind)))
                    && (kind == ComponentKind::Name ==> final(self).names() == old(self).names().restrict(
                        old(self).names().dom().filter(|s: Seq<char>| old(self).names()[s] != id.key()),
                    ))
                    && (kind != ComponentKind::Name ==> final(self).names() == old(self).names()),
            },
    {
        match ComponentKind::from_name(component_name) {
            Some(kind) => {
                self.remove_component(id, kind);
                Ok(())
            },
            None => Err(InvalidComponentName(component_name.to_string())),
        }
    }

    /// Attaches component `c` to an entity: its type is marked present and
    /// its value stored, replacing any earlier one. Reading it back gives `c`
    /// while the entity is live; other entities and other types are left as
    /// they were.
    pub fn add_component_value<C: Component>(&mut self, store: &mut ComponentStore<C>, id: EntityId, c: C)
        requires
            old(self).wf(),
            C::kind_spec() != ComponentKind::Name,
        ensures
            final(self).wf(),
            final(store)@ == old(store)@.insert(id.key(), c),
            final(self).pending() == old(self).pending(),
            final(self).links() == old(self).links(),
            final(self).entities() == old(self).entities(),
            final(self).names() == old(self).names(),
            forall|e: u64, k: ComponentKind| #[trigger] final(self).has(e, k) == (old(self).has(e, k) || (e == id.key() && k == C::kind_spec())),
            final(self).entities().contains(id.key()) ==> component_value(*final(self), final(store)@, id.key(), C::kind_spec()) == Some(c),
            forall|e: u64| e != id.key() ==> #[trigger] component_value(*final(self), final(store)@, e, C::kind_spec())
                == component_value(*old(self), old(store)@, e, C::kind_spec()),
    {
        let kind = C::kind();
        self.add_component(id, kind);
        store.insert(id, c);
    }

    /// Detaches component type `C` from an entity and drops its stored
    /// value; reading it afterwards gives nothing.
    pub fn remove_component_value<C: Component>(&mut self, store: &mut ComponentStore<C>, id: EntityId)
        requires
            old(self).wf(),
            C::kind_spec() != ComponentKind::Name,
        ensures
            final(self).wf(),
            final(store)@ == old(store)@.remove(id.key()),
            final(self).pending() == old(self).pending(),
            final(self).links() == old(self).links(),
            final(self).entities() == old(self).entities(),
            final(self).names() == old(self).names(),
            forall|e: u64, k: ComponentKind| #[trigger] final(self).has(e, k) == (old(self).has(e, k) && !(e == id.key() && k == C::kind_spec())),
            component_value(*final(self), final(store)@, id.key(), C::kind_spec()) is None,
            forall|e: u64| e != id.key() ==> #[trigger] component_value(*final(self), final(store)@, e, C::kind_spec())
                == component_value(*old(self), old(store)@, e, C::kind_spec()),
    {
        let kind = C::kind();
        self.remove_component(id, kind);
        store.remove(id);
    }

    /// The component of type `C` that an entity carries: its stored value
    /// when the entity is live and carries the type, nothing otherwise.
    pub fn component<'a, C: Component>(&self, store: &'a ComponentStore<C>, id: EntityId) -> (r: Option<&'a C>)
        requires
            self.wf(),
        ensures
            match component_value(*self, store@, id.key(), C::kind_spec()) {
                Some(v) => r == Some(&v),
                None => r is None,
            },
    {
        if !self.contains_entity(id) || !self.has_component(id, C::kind()) {
            return None;
        }
        store.get(id)
    }

    /// The kinds of an entity's components that saving writes out, in the
    /// order they are written: those of `saved_kinds` that the entity
    /// carries, none if it is not live.
    pub fn saved_component_kinds(&self, id: EntityId) -> (r: Vec<ComponentKind>)
        requires
            self.wf(),
        ensures
            r@ == saved_kinds().filter(|k: ComponentKind| self.entities().contains(id.key()) && self.has(id.key(), k)),
    {
        let all: Vec<ComponentKind> = vec![
            ComponentKind::Name, ComponentKind::Position, ComponentKind::Velocity, ComponentKind::Collision,
            ComponentKind::SfxEmitter, ComponentKind::SpriteComp, ComponentKind::Facing, ComponentKind::Walking,
            ComponentKind::Camera, ComponentKind::AnimationComp, ComponentKind::CharacterAnims,
            ComponentKind::DualStateAnims, ComponentKind::NamedAnims, ComponentKind::InteractionTrigger,
            ComponentKind::CollisionTrigger, ComponentKind::AreaTrigger,
        ];
        assert(all@ =~= saved_kinds());
        let ghost pred = |k: ComponentKind| self.entities().contains(id.key()) && self.has(id.key(), k);
        let live = self.contains_entity(id);
        let mut r: Vec<ComponentKind> = Vec::new();
        let mut i: usize = 0;
        while i < all.len()
            invariant
                self.wf(),
                live == self.entities().contains(id.key()),
                i <= all@.len(),
                pred == (|k: ComponentKind| self.entities().contains(id.key()) && self.has(id.key(), k)),
                r@ == all@.take(i as int).filter(pred),
            decreases all@.len() - i,
        {
            let k = all[i];
            proof {
                reveal(Seq::filter);
                assert(all@.take(i + 1).drop_last() =~= all@.take(i as int));
            }
            if live && self.has_component(id, k) {
                r.push(k);
            }
            i = i + 1;
        }
        assert(all@.take(all@.len() as int) =~= all@);
        r
    }

    /// The entity a name is registered for, if any (live or not).
    pub fn id_of_name(&self, name: &str) -> (r: Option<EntityId>)
        requires
            self.wf(),
        ensures
            r is Some <==> self.names().contains_key(name@),
            r matches Some(id) ==> id.key() == self.names()[name@],
    {
        let mut i: usize = 0;
        while i < self.names.len()
            invariant
                self.wf(),
                i <= self.names@.len(),
                forall|j: int| 0 <= j < i ==> (#[trigger] self.names@[j]).0@ != name@,
            decreases self.names.len() - i,
        {
            if str_eq(self.names[i].0.as_str(), name) {
                proof { lemma_names_at(self.names@, i as int); }
                return Some(self.names[i].1);
            }
            i = i + 1;
        }
        None
    }

    fn register_name(&mut self, name: String, id: EntityId)
        requires
            old(self).wf(),
        ensures
            final(self).wf(),
            final(self).pending() == old(self).pending(),
            final(self).links() == old(self).links(),
            final(self).entities() == old(self).entities(),
            final(self).components@ == old(self).components@,
            final(self).names() == old(self).names().insert(name@, id.key()),
    {
        let ghost old_names = self.names@;
        let mut i: usize = 0;
        while i < self.names.len()
            invariant
                self.names@ == old_names,
                old_names == old(self).names@,
                old(self).wf(),
                self.entity_ids == old(self).entity_ids,
                self.components@ == old(self).components@,
                self.deferred_mutations@ == old(self).deferred_mutations@,
                self.deferred_entity_ids == old(self).deferred_entity_ids,
                names_distinct(old_names),
                i <= old_names.len(),
                forall|j: int| 0 <= j < i ==> (#[trigger] old_names[j]).0@ != name@,
            decreases self.names.len() - i,
        {
            if str_eq(self.names[i].0.as_str(), name.as_str()) {
                self.names.set(i, (name, id));
                proof {
                    let nv = self.names@;
                    assert(names_distinct(nv)) by {
                        assert forall|a: int, b: int| 0 <= a < nv.len() && 0 <= b < nv.len() && a != b implies (#[trigger] nv[a]).0@ != (#[trigger] nv[b]).0@ by {
                            if a != i && b != i {
                                assert(nv[a] == old_names[a]);
                                assert(nv[b] == old_names[b]);
                            } else if a == i {
                                assert(nv[b] == old_names[b]);
                            } else {
                                assert(nv[a] == old_names[a]);
                            }
                        }
                    }
                    assert(names_map(nv) =~= names_map(old_names).insert(name@, id.key())) by {
                        assert forall|s: Seq<char>| #[trigger] names_map(nv).contains_key(s) == names_map(old_names).insert(name@, id.key()).contains_key(s) by {
                            if names_map(nv).contains_key(s) {
                                let a = choose|a: int| 0 <= a < nv.len() && (#[trigger] nv[a]).0@ == s;
                                if a != i { assert(old_names[a].0@ == s); }
                            }
                            if names_map(old_names).contains_key(s) && s != name@ {
                                let a = choose|a: int| 0 <= a < old_names.len() && (#[trigger] old_names[a]).0@ == s;
                                assert(nv[a] == old_names[a]);
                            }
                            if s == name@ {
                                assert(nv[i as int].0@ == s);
                            }
                        }
                        assert forall|s: Seq<char>| #[trigger] names_map(nv).contains_key(s) implies names_map(nv)[s] == names_map(old_names).insert(name@, id.key())[s] by {
                            let a = choose|a: int| 0 <= a < nv.len() && (#[trigger] nv[a]).0@ == s;
                            lemma_names_at(nv, a);
                            if a != i {
                                assert(nv[a] == old_names[a]);
                                lemma_names_at(old_names, a);
                            }
                        }
                    }
                }
                return;
            }
            i = i + 1;
        }
        self.names.push((name, id));
        proof {
            let nv = self.names@;
            let n = old_names.len();
            assert(names_distinct(nv)) by {
                assert forall|a: int, b: int| 0 <= a < nv.len() && 0 <= b < nv.len() && a != b implies (#[trigger] nv[a]).0@ != (#[trigger] nv[b]).0@ by {
                    if a < n && b < n {
                        assert(nv[a] == old_names[a]);
                        assert(nv[b] == old_names[b]);
                    } else if a < n {
                        assert(nv[a] == old_names[a]);
                    } else {
                        assert(nv[b] == old_names[b]);
                    }
                }
            }
            assert(names_map(nv) =~= names_map(old_names).insert(name@, id.key())) by {
                assert forall|s: Seq<char>| #[trigger] names_map(nv).contains_key(s) == names_map(old_names).insert(name@, id.key()).contains_key(s) by {
                    if names_map(nv).contains_key(s) {
                        let a = choose|a: int| 0 <= a < nv.len() && (#[trigger] nv[a]).0@ == s;
                        if a < n { assert(old_names[a].0@ == s); }
                    }
                    if names_map(old_names).contains_key(s) {
                        let a = choose|a: int| 0 <= a < old_names.len() && (#[trigger] old_names[a]).0@ == s;
                        assert(nv[a] == old_names[a]);
                    }
                    if s == name@ {
                        assert(nv[n as int].0@ == s);
                    }
                }
                assert forall|s: Seq<char>| #[trigger] names_map(nv).contains_key(s) implies names_map(nv)[s] == names_map(old_names).insert(name@, id.key())[s] by {
                    let a = choose|a: int| 0 <= a < nv.len() && (#[trigger] nv[a]).0@ == s;
                    lemma_names_at(nv, a);
                    if a < n {
                        assert(nv[a] == old_names[a]);
                        lemma_names_at(old_names, a);
                    }
                }
            }
        }
    }

    fn unregister_entity(&mut self, id: EntityId)
        requires
            old(self).wf(),
        ensures
            final(self).wf(),
            final(self).pending() == old(self).pending(),
            final(self).links() == old(self).links(),
            final(self).entities() == old(self).entities(),
            final(self).components@ == old(self).components@,
            final(self).names() == old(self).names().restrict(
                old(self).names().dom().filter(|s: Seq<char>| old(self).names()[s] != id.key()),
            ),
    {
        let ghost old_names = self.names@;
        let mut kept: Vec<(String, EntityId)> = Vec::new();
        let mut i: usize = 0;
        let ghost mut from: Seq<int> = Seq::empty();
        while i < self.names.len()
            invariant
                self.names@ == old_names,
                old_names == old(self).names@,
                old(self).wf(),
                self.entity_ids == old(self).entity_ids,
                self.components@ == old(self).components@,
                self.deferred_mutations@ == old(self).deferred_mutations@,
                self.deferred_entity_ids == old(self).deferred_entity_ids,
                names_distinct(old_names),
                i <= old_names.len(),
                kept@.len() == from.len(),
                forall|j: int| 0 <= j < from.len() ==> 0 <= #[trigger] from[j] < i,
                forall|j: int| 0 <= j < from.len() ==> kept@[j] == old_names[#[trigger] from[j]],
                forall|a: int, b: int| 0 <= a < b < from.len() ==> #[trigger] from[a] < #[trigger] from[b],
                forall|j: int| 0 <= j < i && old_names[j].1.key() != id.key() ==> exists|a: int| 0 <= a < from.len() && #[trigger] from[a] == j,
                forall|j: int| 0 <= j < from.len() ==> (#[trigger] kept@[j]).1.key() != id.key(),
            decreases self.names.len() - i,
        {
            let ghost from0 = from;
            if !self.names[i].1.same(id) {
                let entry = (self.names[i].0.clone(), self.names[i].1);
                kept.push(entry);
                proof { from = from.push(i as int); }
            }
            proof {
                assert forall|j: int| 0 <= j < i + 1 && old_names[j].1.key() != id.key() implies exists|a: int| 0 <= a < from.len() && #[trigger] from[a] == j by {
                    if j == i {
                        assert(from[from.len() - 1] == j);
                    } else {
                        let a = choose|a: int| 0 <= a < from0.len() && #[trigger] from0[a] == j;
                        assert(from[a] == j);
                    }
                }
            }
            i = i + 1;
        }
        self.names = kept;
        proof {
            let nv = self.names@;
            let om = names_map(old_names);
            let target = om.restrict(om.dom().filter(|s: Seq<char>| om[s] != id.key()));
            assert(names_distinct(nv)) by {
                assert forall|a: int, b: int| 0 <= a < nv.len() && 0 <= b < nv.len() && a != b implies (#[trigger] nv[a]).0@ != (#[trigger] nv[b]).0@ by {
                    assert(from[a] != from[b]) by {
                        if a < b { assert(from[a] < from[b]); } else { assert(from[b] < from[a]); }
                    }
                }
            }
            assert(names_map(nv) =~= target) by {
                assert forall|s: Seq<char>| #[trigger] names_map(nv).contains_key(s) == target.contains_key(s) by {
                    if names_map(nv).contains_key(s) {
                        let a = choose|a: int| 0 <= a < nv.len() && (#[trigger] nv[a]).0@ == s;
                        lemma_names_at(old_names, from[a]);
                    }
                    if target.contains_key(s) {
                        let j = choose|j: int| 0 <= j < old_names.len() && (#[trigger] old_names[j]).0@ == s;
                        lemma_names_at(old_names, j);
                        let a = choose|a: int| 0 <= a < from.len() && #[trigger] from[a] == j;
                        assert(nv[a].0@ == s);
                    }
                }
                assert forall|s: Seq<char>| #[trigger] names_map(nv).contains_key(s) implies names_map(nv)[s] == target[s] by {
                    let a = choose|a: int| 0 <= a < nv.len() && (#[trigger] nv[a]).0@ == s;
                    lemma_names_at(nv, a);
                    lemma_names_at(old_names, from[a]);
                }
            }
        }
    }

    /// Whether the entity meets every term of the query.
    pub fn entity_matches(&self, terms: &[QueryTerm], id: EntityId) -> (b: bool)
        requires
            self.wf(),
        ensures
            b == self.matches(terms@, id.key()),
    {
        let mut i: usize = 0;
        while i < terms.len()
            invariant
                self.wf(),
                i <= terms@.len(),
                forall|j: int| 0 <= j < i ==> self.term_holds(#[trigger] terms@[j], id.key()),
            decreases terms.len() - i,
        {
            let ok = match terms[i] {
                QueryTerm::Id => true,
                QueryTerm::Ref(k) => self.has_component(id, k),
                QueryTerm::Mut(k) => self.has_component(id, k),
                QueryTerm::Maybe(_) => true,
                QueryTerm::With(k) => self.has_component(id, k),
                QueryTerm::Without(k) => !self.has_component(id, k),
            };
            if !ok {
                return false;
            }
            i = i + 1;
        }
        true
    }

    /// The live entities that meet the query, other than `except` when one is
    /// given, each once, in the order of their slots.
    fn filter(&self, terms: &[QueryTerm], except: Option<EntityId>) -> (ids: Vec<EntityId>)
        requires
            self.wf(),
        ensures
            forall|i: int| 0 <= i < ids@.len() ==> {
                &&& self.entities().contains(#[trigger] ids@[i].key())
                &&& self.matches(terms@, ids@[i].key())
                &&& (except matches Some(x) ==> ids@[i].key() != x.key())
            },
            forall|e: u64| self.entities().contains(e) && self.matches(terms@, e) && (except matches Some(x) ==> e != x.key())
                ==> exists|i: int| 0 <= i < ids@.len() && (#[trigger] ids@[i]).key() == e,
            forall|i: int, j: int| 0 <= i < j < ids@.len() ==> key_slot((#[trigger] ids@[i]).key()) < key_slot((#[trigger] ids@[j]).key()),
    {
        let keys = key_set_keys(&self.entity_ids);
        let mut ids: Vec<EntityId> = Vec::new();
        let ghost mut from: Seq<int> = Seq::empty();
        let mut i: usize = 0;
        while i < keys.len()
            invariant
                self.wf(),
                keys@.to_set() == self.entities(),
                forall|a: int, b: int| 0 <= a < b < keys@.len() ==> key_slot(#[trigger] keys@[a]) < key_slot(#[trigger] keys@[b]),
                i <= keys@.len(),
                ids@.len() == from.len(),
                forall|j: int| 0 <= j < from.len() ==> 0 <= #[trigger] from[j] < i,
                forall|j: int| 0 <= j < from.len() ==> (#[trigger] ids@[j]).key() == keys@[from[j]],
                forall|a: int, b: int| 0 <= a < b < from.len() ==> #[trigger] from[a] < #[trigger] from[b],
                forall|j: int| 0 <= j < ids@.len() ==> {
                    &&& self.matches(terms@, (#[trigger] ids@[j]).key())
                    &&& (except matches Some(x) ==> ids@[j].key() != x.key())
                },
                forall|j: int| 0 <= j < i && self.matches(terms@, keys@[j]) && (except matches Some(x) ==> keys@[j] != x.key())
                    ==> exists|a: int| 0 <= a < from.len() && #[trigger] from[a] == j,
            decreases keys.len() - i,
        {
            assert(keys@.to_set().contains(keys@[i as int]));
            let id = EntityId::from_ffi(keys[i]);
            assert(id.key() == keys@[i as int]);
            let excluded = match except {
                Some(x) => id.same(x),
                None => false,
            };
            let ghost from0 = from;
            if !excluded && self.entity_matches(terms, id) {
                ids.push(id);
                proof { from = from.push(i as int); }
            }
            proof {
                assert forall|j: int| 0 <= j < i + 1 && self.matches(terms@, keys@[j]) && (except matches Some(x) ==> keys@[j] != x.key())
                    implies exists|a: int| 0 <= a < from.len() && #[trigger] from[a] == j by {
                    if j == i {
                        assert(from[from.len() - 1] == j);
                    } else {
                        let a = choose|a: int| 0 <= a < from0.len() && #[trigger] from0[a] == j;
                        assert(from[a] == j);
                    }
                }
            }
            i = i + 1;
        }
        assert forall|e: u64| self.entities().contains(e) && self.matches(terms@, e) && (except matches Some(x) ==> e != x.key())
            implies exists|i: int| 0 <= i < ids@.len() && (#[trigger] ids@[i]).key() == e by {
            assert(keys@.to_set().contains(e));
            let j = choose|j: int| 0 <= j < keys@.len() && keys@[j] == e;
            let a = choose|a: int| 0 <= a < from.len() && #[trigger] from[a] == j;
            assert(ids@[a].key() == e);
        }
        assert forall|i: int| 0 <= i < ids@.len() implies self.entities().contains(#[trigger] ids@[i].key()) by {
            assert(keys@.to_set().contains(keys@[from[i]]));
        }
        assert forall|a: int, b: int| 0 <= a < b < ids@.len() implies key_slot((#[trigger] ids@[a]).key()) < key_slot((#[trigger] ids@[b]).key()) by {
            assert(from[a] < from[b]);
        }
        ids
    }

    /// The live entities that meet the query, each once, in the order of
    /// their slots.
    pub fn query(&self, terms: &[QueryTerm]) -> (ids: Vec<EntityId>)
        requires
            self.wf(),
        ensures
            forall|i: int| 0 <= i < ids@.len() ==> self.entities().contains(#[trigger] ids@[i].key()) && self.matches(terms@, ids@[i].key()),
            forall|e: u64| self.entities().contains(e) && self.matches(terms@, e) ==> exists|i: int| 0 <= i < ids@.len() && (#[trigger] ids@[i]).key() == e,
            forall|i: int, j: int| 0 <= i < j < ids@.len() ==> key_slot((#[trigger] ids@[i]).key()) < key_slot((#[trigger] ids@[j]).key()),
    {
        self.filter(terms, None)
    }

    /// Like `query`, leaving out the entity `except`; borrowing its
    /// components alongside the results then never borrows twice.
    pub fn query_except(&self, terms: &[QueryTerm], except: EntityId) -> (ids: Vec<EntityId>)
        requires
            self.wf(),
        ensures
            forall|i: int| 0 <= i < ids@.len() ==> {
                &&& self.entities().contains(#[trigger] ids@[i].key())
                &&& self.matches(terms@, ids@[i].key())
                &&& ids@[i].key() != except.key()
            },
            forall|e: u64| self.entities().contains(e) && self.matches(terms@, e) && e != except.key()
                ==> exists|i: int| 0 <= i < ids@.len() && (#[trigger] ids@[i]).key() == e,
            forall|i: int, j: int| 0 <= i < j < ids@.len() ==> key_slot((#[trigger] ids@[i]).key()) < key_slot((#[trigger] ids@[j]).key()),
    {
        self.filter(terms, Some(except))
    }

    /// The entity named by the identifier, if it is live and meets the query.
    pub fn query_one(&self, terms: &[QueryTerm], identifier: &EntityIdentifier) -> (r: Result<EntityId, QueryOneError>)
        requires
            self.wf(),
        ensures
            r is Ok <==> self.query_one_outcome(terms@, *identifier) is Ok,
            r matches Ok(x) ==> self.query_one_outcome(terms@, *identifier) == Ok::<u64, QueryOneError>(x.key()),
            r matches Err(e) ==> self.query_one_outcome(terms@, *identifier) == Err::<u64, QueryOneError>(e),
    {
        let id = match identifier {
            EntityIdentifier::Id(id) => *id,
            EntityIdentifier::Name(name) => match self.id_of_name(name.as_str()) {
                Some(id) => id,
                None => return Err(QueryOneError::NoEntity),
            },
        };
        if !self.contains_entity(id) {
            return Err(QueryOneError::NoEntity);
        }
        if !self.entity_matches(terms, id) {
            return Err(QueryOneError::MissingComponents);
        }
        Ok(id)
    }

    /// Queues the creation of an entity and returns the handle that stands
    /// for it until the next flush.
    pub fn add_entity_deferred(&mut self) -> (d: DeferredEntityId)
        requires
            old(self).wf(),
            old(self).links().dom().len() + 2 < 0x1_0000_0000,
        ensures
            final(self).wf(),
            final(self).state() == (EcsState { links: old(self).links().insert(d.key(), None), ..old(self).state() }),
            !old(self).links().contains_key(d.key()),
            final(self).pending() == old(self).pending().push(DeferredMutation::AddEntity(d)),
    {
        let k = link_map_insert(&mut self.deferred_entity_ids, None);
        let d = DeferredEntityId::from_ffi(k);
        self.deferred_mutations.push(DeferredMutation::AddEntity(d));
        proof {
            assert forall|i: int| 0 <= i < self.pending().len() implies match #[trigger] self.pending()[i] {
                DeferredMutation::AddEntity(d2) => self.links().contains_key(d2.key()),
                DeferredMutation::AddComponent(_, k) => k != ComponentKind::Name,
                _ => true,
            } by {
                if i < old(self).pending().len() {
                    assert(self.pending()[i] == old(self).pending()[i]);
                }
            }
            assert(self.state() =~= (EcsState { links: old(self).links().insert(d.key(), None), ..old(self).state() }));
        }
        d
    }

    fn queue(&mut self, op: DeferredMutation)
        requires
            old(self).wf(),
            op matches DeferredMutation::AddEntity(d) ==> old(self).links().contains_key(d.key()),
            op matches DeferredMutation::AddComponent(_, k) ==> k != ComponentKind::Name,
        ensures
            final(self).wf(),
            final(self).state() == old(self).state(),
            final(self).pending() == old(self).pending().push(op),
    {
        let ghost op_copy = op;
        self.deferred_mutations.push(op);
        proof {
            assert forall|i: int| 0 <= i < self.pending().len() implies match #[trigger] self.pending()[i] {
                DeferredMutation::AddEntity(d2) => self.links().contains_key(d2.key()),
                DeferredMutation::AddComponent(_, k) => k != ComponentKind::Name,
                _ => true,
            } by {
                if i < old(self).pending().len() {
                    assert(self.pending()[i] == old(self).pending()[i]);
                } else {
                    assert(self.pending()[i] == op_copy);
                }
            }
            assert(self.state() =~= old(self).state());
        }
    }

    /// Queues the destruction of an entity.
    pub fn remove_entity_deferred(&mut self, id: EntityId)
        requires
            old(self).wf(),
        ensures
            final(self).wf(),
            final(self).state() == old(self).state(),
            final(self).pending() == old(self).pending().push(DeferredMutation::RemoveEntity(id)),
    {
        self.queue(DeferredMutation::RemoveEntity(id));
    }

    /// Queues attaching a component (not `Name`, see `add_name_deferred`).
    pub fn add_component_deferred(&mut self, target: RealOrDeferredEntityId, kind: ComponentKind)
        requires
            old(self).wf(),
            kind != ComponentKind::Name,
        ensures
            final(self).wf(),
            final(self).state() == old(self).state(),
            final(self).pending() == old(self).pending().push(DeferredMutation::AddComponent(target, kind)),
    {
        self.queue(DeferredMutation::AddComponent(target, kind));
    }

    /// Queues attaching a `Name` component with the given name.
    pub fn add_name_deferred(&mut self, target: RealOrDeferredEntityId, name: String)
        requires
            old(self).wf(),
        ensures
            final(self).wf(),
            final(self).state() == old(self).state(),
            final(self).pending() == old(self).pending().push(DeferredMutation::AddName(target, name)),
    {
        self.queue(DeferredMutation::AddName(target, name));
    }

    /// Queues detaching a component.
    pub fn remove_component_deferred(&mut self, id: EntityId, kind: ComponentKind)
        requires
            old(self).wf(),
        ensures
            final(self).wf(),
            final(self).state() == old(self).state(),
            final(self).pending() == old(self).pending().push(DeferredMutation::RemoveComponent(id, kind)),
    {
        self.queue(DeferredMutation::RemoveComponent(id, kind));
    }

    /// Applies the queued mutations in order, then forgets every deferred
    /// handle. The result holds, for each mutation in order, the entity it
    /// acted on: the created entity, the target, or `None` for a deferred
    /// target that no longer resolves (such a mutation does nothing).
    pub fn flush_deferred_mutations(&mut self) -> (outs: Vec<Option<EntityId>>)
        requires
            old(self).wf(),
            old(self).entities().len() + entity_adds(old(self).pending()) + 2 < 0x1_0000_0000,
        ensures
            final(self).wf(),
            final(self).pending().len() == 0,
            final(self).links().dom() == Set::<u64>::empty(),
            outs@.len() == old(self).pending().len(),
            match replay(old(self).state(), old(self).pending(), Seq::new(outs@.len(), |i: int| match outs@[i] {
                Some(id) => Some(id.key()),
                None => None,
            })) {
                Some(s) => s == (EcsState { links: s.links, ..final(self).state() }),
                None => false,
            },
    {
        let ghost s0 = old(self).state();
        let mut ops: Vec<DeferredMutation> = Vec::new();
        std::mem::swap(&mut ops, &mut self.deferred_mutations);
        let ghost all_ops = ops@;
        let mut outs: Vec<Option<EntityId>> = Vec::new();
        let ghost mut outs_key: Seq<Option<u64>> = Seq::empty();
        let mut i: usize = 0;
        assert(all_ops.take(0) =~= Seq::<DeferredMutation>::empty());
        assert(self.state() =~= s0);
        while i < ops.len()
            invariant
                self.wf(),
                ops@ == all_ops,
                all_ops == old(self).pending(),
                s0 == old(self).state(),
                self.pending().len() == 0,
                i <= ops@.len(),
                outs@.len() == i,
                outs_key.len() == i,
                forall|j: int| 0 <= j < i ==> #[trigger] outs_key[j] == match outs@[j] {
                    Some(id) => Some(id.key()),
                    None => None,
                },
                self.entities().len() <= s0.entities.len() + entity_adds(all_ops.take(i as int)),
                s0.entities.len() + entity_adds(all_ops) + 2 < 0x1_0000_0000,
                forall|j: int| 0 <= j < all_ops.len() ==> match #[trigger] all_ops[j] {
                    DeferredMutation::AddComponent(_, k) => k != ComponentKind::Name,
                    _ => true,
                },
                replay(s0, all_ops.take(i as int), outs_key) == Some(self.state()),
            decreases ops.len() - i,
        {
            let ghost before = self.state();
            proof {
                assert(all_ops.take(i + 1).drop_last() =~= all_ops.take(i as int));
                lemma_entity_adds_prefix(all_ops, i + 1);
            }
            let out: Option<EntityId> = match &ops[i] {
                DeferredMutation::AddEntity(d) => {
                    let id = self.add_entity();
                    proof {
                        id.lemma_key_canonical();
                    }
                    let _found = link_map_set(&mut self.deferred_entity_ids, d.as_ffi(), Some(id.as_ffi()));
                    Some(id)
                },
                DeferredMutation::RemoveEntity(id) => {
                    self.remove_entity(*id);
                    Some(*id)
                },
                DeferredMutation::AddComponent(t, kind) => {
                    let target = self.resolve_deferred(*t);
                    if let Some(e) = target {
                        self.add_component(e, *kind);
                    }
                    target
                },
                DeferredMutation::AddName(t, name) => {
                    let target = self.resolve_deferred(*t);
                    if let Some(e) = target {
                        self.add_name(e, name.clone());
                    }
                    target
                },
                DeferredMutation::RemoveComponent(id, kind) => {
                    self.remove_component(*id, *kind);
                    Some(*id)
                },
            };
            let ghost out_key = match out {
                Some(id) => Some(id.key()),
                None => None,
            };
            proof {
                let op = all_ops[i as int];
                assert(all_ops.take(i + 1).drop_last() =~= all_ops.take(i as int));
                assert(outs_key.push(out_key).drop_last() =~= outs_key);
                match op {
                    DeferredMutation::AddEntity(d) => {
                        lemma_canonical_idempotent(d.raw);
                        assert(self.state() =~= step(before, op, out_key).unwrap());
                    },
                    DeferredMutation::RemoveEntity(id) => {
                        assert(self.state() =~= step(before, op, out_key).unwrap());
                    },
                    DeferredMutation::AddComponent(t, kind) => {
                        assert(self.state() =~= step(before, op, out_key).unwrap());
                    },
                    DeferredMutation::AddName(t, name) => {
                        assert(self.state() =~= step(before, op, out_key).unwrap());
                    },
                    DeferredMutation::RemoveComponent(id, kind) => {
                        assert(self.state() =~= step(before, op, out_key).unwrap());
                    },
                }
                outs_key = outs_key.push(out_key);
            }
            outs.push(out);
            i = i + 1;
        }
        link_map_clear(&mut self.deferred_entity_ids);
        proof {
            assert(all_ops.take(all_ops.len() as int) =~= all_ops);
            let sq = Seq::new(outs@.len(), |j: int| match outs@[j] {
                Some(id) => Some(id.key()),
                None => None,
            });
            assert(sq =~= outs_key);
        }
        outs
    }

    /// The entity that a deferred-mutation target stands for now.
    fn resolve_deferred(&self, t: RealOrDeferredEntityId) -> (r: Option<EntityId>)
        requires
            self.wf(),
        ensures
            r is Some <==> resolve_target(self.state(), t) is Some,
            r matches Some(x) ==> resolve_target(self.state(), t) == Some(x.key()),
    {
        proof {
            if let RealOrDeferredEntityId::Deferred(d) = t {
                lemma_canonical_idempotent(d.raw);
            }
        }
        match t {
            RealOrDeferredEntityId::Real(id) => Some(id),
            RealOrDeferredEntityId::Deferred(d) => match link_map_get(&self.deferred_entity_ids, d.as_ffi()) {
                Some(Some(k)) => Some(EntityId::from_ffi(k)),
                _ => None,
            },
        }
    }

    fn set_presence(&mut self, e: u64, kind: ComponentKind, present: bool)
        requires
            old(self).wf(),
        ensures
            final(self).wf(),
            final(self).pending() == old(self).pending(),
            final(self).links() == old(self).links(),
            final(self).entities() == old(self).entities(),
            final(self).names() == old(self).names(),
            forall|e2: u64, k: ComponentKind| #[trigger] final(self).has(e2, k) == (if e2 == e && k == kind {
                present
            } else {
                old(self).has(e2, k)
            }),
    {
        let mut row: Vec<bool> = match self.components.get(&e) {
            Some(r) => r.clone(),
            None => vec![false; NUM_KINDS],
        };
        let i = kind.index();
        row.set(i, present);
        self.components.insert(e, row);
        assert forall|e2: u64, k: ComponentKind| #[trigger] self.has(e2, k) == (if e2 == e && k == kind {
            present
        } else {
            old(self).has(e2, k)
        }) by {
            if e2 == e && kind_index(k) == kind_index(kind) {
                assert(k == kind);
            }
        }
    }
}


// ------------------------------------------------------------------
// Laws
// ------------------------------------------------------------------

/// A live entity that carries what a query asks for is what `query_one`
/// gives for its id.
pub proof fn law_query_one_finds_match(ecs: Ecs, terms: Seq<QueryTerm>, id: EntityId)
    requires
        ecs.entities().contains(id.key()),
        ecs.matches(terms, id.key()),
    ensures
        ecs.query_one_outcome(terms, EntityIdentifier::Id(id)) == Ok::<u64, QueryOneError>(id.key()),
{
}

/// An entity that is not live (removed, or never created) is never found,
/// whatever the query.
pub proof fn law_removed_entity_not_found(ecs: Ecs, terms: Seq<QueryTerm>, id: EntityId)
    requires
        !ecs.entities().contains(id.key()),
    ensures
        ecs.query_one_outcome(terms, EntityIdentifier::Id(id)) == Err::<u64, QueryOneError>(QueryOneError::NoEntity),
{
}

/// A name resolves to the entity it was last given to.
pub proof fn law_name_resolves_to_last(ecs: Ecs, name: String, id: EntityId)
    requires
        ecs.names().contains_key(name@),
        ecs.names()[name@] == id.key(),
    ensures
        ecs.resolve(EntityIdentifier::Name(name)) == Some(id.key()),
{
}

/// Flushing an empty queue changes nothing.
pub proof fn law_flush_nothing(s: EcsState)
    ensures
        replay(s, Seq::<DeferredMutation>::empty(), Seq::<Option<u64>>::empty()) == Some(s),
{
}

/// An entity created through the queue, and a component queued for it by
/// its deferred handle, come out of the flush together: the new entity is
/// live and carries the component.
pub proof fn law_deferred_entity_gets_component(s: EcsState, d: DeferredEntityId, kind: ComponentKind, k: u64)
    requires
        s.links.contains_key(d.key()),
        !s.entities.contains(k),
    ensures
        replay(
            s,
            seq![DeferredMutation::AddEntity(d), DeferredMutation::AddComponent(RealOrDeferredEntityId::Deferred(d), kind)],
            seq![Some(k), Some(k)],
        ) matches Some(t) && t.entities.contains(k) && t.components.contains((k, kind)),
{
    reveal_with_fuel(replay, 3);
    let ops = seq![DeferredMutation::AddEntity(d), DeferredMutation::AddComponent(RealOrDeferredEntityId::Deferred(d), kind)];
    let outs = seq![Some(k), Some(k)];
    assert(ops.drop_last() =~= seq![DeferredMutation::AddEntity(d)]);
    assert(outs.drop_last() =~= seq![Some(k)]);
    assert(ops.drop_last().drop_last() =~= Seq::<DeferredMutation>::empty());
    assert(outs.drop_last().drop_last() =~= Seq::<Option<u64>>::empty());
    let s1 = step(s, DeferredMutation::AddEntity(d), Some(k));
    assert(s1 is Some);
    assert(replay(s, ops.drop_last(), outs.drop_last()) == s1);
    let t1 = s1->0;
    assert(resolve_target(t1, RealOrDeferredEntityId::Deferred(d)) == Some(k));
}

/// Queued mutations apply in order: a component queued to be added and then
/// queued to be removed is absent after the flush.
pub proof fn law_deferred_add_then_remove(s: EcsState, id: EntityId, kind: ComponentKind)
    ensures
        replay(
            s,
            seq![DeferredMutation::AddComponent(RealOrDeferredEntityId::Real(id), kind), DeferredMutation::RemoveComponent(id, kind)],
            seq![Some(id.key()), Some(id.key())],
        ) matches Some(t) && !t.components.contains((id.key(), kind)),
{
    reveal_with_fuel(replay, 3);
    let ops = seq![DeferredMutation::AddComponent(RealOrDeferredEntityId::Real(id), kind), DeferredMutation::RemoveComponent(id, kind)];
    let outs = seq![Some(id.key()), Some(id.key())];
    assert(ops.drop_last() =~= seq![DeferredMutation::AddComponent(RealOrDeferredEntityId::Real(id), kind)]);
    assert(outs.drop_last() =~= seq![Some(id.key())]);
    assert(ops.drop_last().drop_last() =~= Seq::<DeferredMutation>::empty());
    assert(outs.drop_last().drop_last() =~= Seq::<Option<u64>>::empty());
    assert(replay(s, ops.drop_last(), outs.drop_last()) is Some);
}

} // verus!

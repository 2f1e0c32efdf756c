//! Entities, named by the bits that identify them.
use bevy::ecs::entity::EntityHashSet;
use vstd::prelude::*;

verus! {

/// Whether `bits` identify an entity: the row, in the low 32 bits, is never zero.
pub open spec fn is_entity_bits(bits: u64) -> bool {
    bits % 0x1_0000_0000 != 0
}

/// An entity of the simulation world.
#[derive(Clone, Copy, Debug, PartialEq, Eq, Structural, Hash)]
pub struct Entity {
    bits: u64,
}

impl Entity {
    #[verifier::type_invariant]
    spec fn valid(self) -> bool {
        is_entity_bits(self.bits)
    }

    /// The identifying bits.
    pub closed spec fn bits_spec(self) -> u64 {
        self.bits
    }

    /// The entity that `bits` identify.
    pub fn from_bits(bits: u64) -> (entity: Entity)
        requires
            is_entity_bits(bits),
        ensures
            entity.bits_spec() == bits,
    {
        Entity { bits }
    }

    /// The entity that `bits` identify, if they identify one.
    pub fn try_from_bits(bits: u64) -> (entity: Option<Entity>)
        ensures
            entity is Some <==> is_entity_bits(bits),
            entity is Some ==> entity->0.bits_spec() == bits,
    {
        if bits % 0x1_0000_0000 != 0 {
            Some(Entity { bits })
        } else {
            None
        }
    }

    pub fn to_bits(self) -> (bits: u64)
        ensures
            bits == self.bits_spec(),
            is_entity_bits(bits),
    {
        proof {
            use_type_invariant(&self);
        }
        self.bits
    }
}

/// Two entities with the same bits are the same entity.
pub proof fn law_bits_identify_entity(a: Entity, b: Entity)
    requires
        a.bits_spec() == b.bits_spec(),
    ensures
        a == b,
{
}

/// `bevy::ecs::entity::EntityHashSet`, a set of entities.
#[verifier::external_type_specification]
#[verifier::external_body]
pub struct ExEntityHashSet(EntityHashSet);

/// The bits of the entities that a set holds.
pub uninterp spec fn entity_set_bits(set: EntityHashSet) -> Set<u64>;

/// `EntityHashSet::new`: a set without members.
#[verifier::external_body]
fn entity_hash_set_new() -> (set: EntityHashSet)
    ensures
        entity_set_bits(set) == Set::<u64>::empty(),
{
    EntityHashSet::new()
}

/// `EntityHashSet::insert`: adds the entity with the given bits, and says whether it was missing.
///
/// The bits are turned into an entity by `Entity::from_bits`, which panics where the row is zero.
#[verifier::external_body]
fn entity_hash_set_insert(set: &mut EntityHashSet, bits: u64) -> (inserted: bool)
    requires
        is_entity_bits(bits),
    ensures
        inserted == !entity_set_bits(*old(set)).contains(bits),
        entity_set_bits(*final(set)) == entity_set_bits(*old(set)).insert(bits),
{
    set.insert(bevy::ecs::entity::Entity::from_bits(bits))
}

/// `EntityHashSet::contains`: whether the entity with the given bits is a member.
#[verifier::external_body]
fn entity_hash_set_contains(set: &EntityHashSet, bits: u64) -> (member: bool)
    requires
        is_entity_bits(bits),
    ensures
        member == entity_set_bits(*set).contains(bits),
{
    set.contains(&bevy::ecs::entity::Entity::from_bits(bits))
}

/// A set of entities.
pub struct EntitySet {
    members: EntityHashSet,
}

impl EntitySet {
    /// Whether `entity` is a member.
    pub closed spec fn has(&self, entity: Entity) -> bool {
        entity_set_bits(self.members).contains(entity.bits)
    }

    pub fn new() -> (set: EntitySet)
        ensures
            forall|e: Entity| !set.has(e),
    {
        EntitySet { members: entity_hash_set_new() }
    }

    /// Adds `entity` and says whether it was missing.
    pub fn insert(&mut self, entity: Entity) -> (inserted: bool)
        ensures
            inserted == !old(self).has(entity),
            forall|e: Entity| final(self).has(e) <==> e == entity || old(self).has(e),
    {
        let bits: u64 = entity.to_bits();
        entity_hash_set_insert(&mut self.members, bits)
    }

    pub fn contains(&self, entity: Entity) -> (member: bool)
        ensures
            member == self.has(entity),
    {
        let bits: u64 = entity.to_bits();
        entity_hash_set_contains(&self.members, bits)
    }
}

impl Default for EntitySet {
    fn default() -> (set: EntitySet)
        ensures
            forall|e: Entity| !set.has(e),
    {
        EntitySet::new()
    }
}

/// Bits name an entity unless their lower half is zero.
pub proof fn law_entities_have_a_row(bits: u64)
    ensures
        is_entity_bits(bits) <==> bits % 0x1_0000_0000 != 0,
{
}

} // verus!

//! Collision layers, and which map instances collide.
use crate::map::types::MapInstanceId;
use vstd::prelude::*;

verus! {

/// The layers that colliders are on.
#[derive(Clone, Copy, Debug, PartialEq, Eq, Structural)]
pub enum GameLayer {
    Default,
    Character,
    Hitbox,
    Projectile,
    Terrain,
    Damageable,
}

impl Default for GameLayer {
    fn default() -> (layer: GameLayer)
        ensures
            layer == GameLayer::Default,
    {
        GameLayer::Default
    }
}

/// The layer of a collider and the layers that it collides with.
#[derive(Debug)]
pub struct CollisionLayers {
    pub membership: GameLayer,
    pub filters: Vec<GameLayer>,
}

/// Whether colliders on layer `a` look for those on layer `b`.
pub open spec fn layer_filters(a: GameLayer, b: GameLayer) -> bool {
    match a {
        GameLayer::Default => false,
        GameLayer::Character => b != GameLayer::Default,
        GameLayer::Terrain => b == GameLayer::Character,
        GameLayer::Projectile => b == GameLayer::Character || b == GameLayer::Damageable,
        GameLayer::Hitbox => b == GameLayer::Character || b == GameLayer::Damageable,
        GameLayer::Damageable => b == GameLayer::Character || b == GameLayer::Hitbox || b
            == GameLayer::Projectile,
    }
}

/// Whether `layers` is the configuration of `layer`.
pub open spec fn is_layer_config(layers: CollisionLayers, layer: GameLayer) -> bool {
    &&& layers.membership == layer
    &&& layers.filters@.no_duplicates()
    &&& forall|other: GameLayer| #[trigger]
        layers.filters@.contains(other) <==> layer_filters(layer, other)
}

/// Collision layers of characters.
pub fn character_collision_layers() -> (layers: CollisionLayers)
    ensures
        is_layer_config(layers, GameLayer::Character),
{
    let filters = vec![
        GameLayer::Character,
        GameLayer::Terrain,
        GameLayer::Hitbox,
        GameLayer::Projectile,
        GameLayer::Damageable,
    ];
    assert(filters@[0] == GameLayer::Character && filters@[1] == GameLayer::Terrain && filters@[2]
        == GameLayer::Hitbox && filters@[3] == GameLayer::Projectile && filters@[4]
        == GameLayer::Damageable);
    CollisionLayers { membership: GameLayer::Character, filters }
}

/// Collision layers of terrain.
pub fn terrain_collision_layers() -> (layers: CollisionLayers)
    ensures
        is_layer_config(layers, GameLayer::Terrain),
{
    let filters = vec![GameLayer::Character];
    assert(filters@[0] == GameLayer::Character);
    CollisionLayers { membership: GameLayer::Terrain, filters }
}

/// Collision layers of projectiles.
pub fn projectile_collision_layers() -> (layers: CollisionLayers)
    ensures
        is_layer_config(layers, GameLayer::Projectile),
{
    let filters = vec![GameLayer::Character, GameLayer::Damageable];
    assert(filters@[0] == GameLayer::Character && filters@[1] == GameLayer::Damageable);
    CollisionLayers { membership: GameLayer::Projectile, filters }
}

/// Collision layers of melee and area hitboxes.
pub fn hitbox_collision_layers() -> (layers: CollisionLayers)
    ensures
        is_layer_config(layers, GameLayer::Hitbox),
{
    let filters = vec![GameLayer::Character, GameLayer::Damageable];
    assert(filters@[0] == GameLayer::Character && filters@[1] == GameLayer::Damageable);
    CollisionLayers { membership: GameLayer::Hitbox, filters }
}

/// Collision layers of world objects that can be damaged.
pub fn damageable_collision_layers() -> (layers: CollisionLayers)
    ensures
        is_layer_config(layers, GameLayer::Damageable),
{
    let filters = vec![GameLayer::Character, GameLayer::Hitbox, GameLayer::Projectile];
    assert(filters@[0] == GameLayer::Character && filters@[1] == GameLayer::Hitbox && filters@[2]
        == GameLayer::Projectile);
    CollisionLayers { membership: GameLayer::Damageable, filters }
}

/// Layers look for each other or not at all.
pub proof fn law_layer_filters_are_mutual(a: GameLayer, b: GameLayer)
    ensures
        layer_filters(a, b) == layer_filters(b, a),
{
}

/// Whether two entities may collide: they are on one map. Every collider has a map.
pub fn filter_pairs(a: Option<MapInstanceId>, b: Option<MapInstanceId>) -> (collide: bool)
    requires
        a is Some,
        b is Some,
    ensures
        collide == (a == b),
{
    match (a, b) {
        (Some(a), Some(b)) => a == b,
        _ => false,
    }
}

/// Whether two overlapping entities collide. Who is on a map is asked for the map of the other;
/// entities of which neither is on a map are not kept apart. An entity on a map meets none that is
/// not.
pub fn may_collide(a: Option<MapInstanceId>, b: Option<MapInstanceId>) -> (collide: bool)
    requires
        a is Some <==> b is Some,
    ensures
        collide == (a == b),
{
    if a.is_none() && b.is_none() {
        true
    } else {
        filter_pairs(a, b)
    }
}

/// The collider that a chunk of a map gets: it is terrain on the map of the chunk's parent.
#[derive(Debug)]
pub struct ChunkCollider {
    /// Whether it takes the place of another.
    pub replaces: bool,
    pub layers: CollisionLayers,
    pub map_id: MapInstanceId,
}

/// The collider for a chunk whose mesh has changed. There is none while the mesh cannot be had, or
/// where no shape can be made of it.
pub fn attach_chunk_collider(
    has_shape: bool,
    has_collider: bool,
    parent_map: Option<MapInstanceId>,
) -> (collider: Option<ChunkCollider>)
    requires
        has_shape ==> parent_map is Some,
    ensures
        collider is Some <==> has_shape,
        collider matches Some(collider) ==> collider.replaces == has_collider && is_layer_config(
            collider.layers,
            GameLayer::Terrain,
        ) && Some(collider.map_id) == parent_map,
{
    if !has_shape {
        return None;
    }
    match parent_map {
        Some(map_id) => Some(
            ChunkCollider { replaces: has_collider, layers: terrain_collision_layers(), map_id },
        ),
        None => vstd::pervasive::unreached(),
    }
}

/// What each layer collides with. Characters meet everything but the default layer; terrain meets
/// characters only; what hits meets characters and what can be damaged; and what can be damaged meets
/// characters and what hits.
pub proof fn law_layers_meet(layers: CollisionLayers, layer: GameLayer)
    requires
        is_layer_config(layers, layer),
    ensures
        layers.membership == layer,
        layers.filters@.no_duplicates(),
        !layers.filters@.contains(GameLayer::Default),
        layers.filters@.contains(GameLayer::Character) <==> layer != GameLayer::Default,
        layers.filters@.contains(GameLayer::Terrain) <==> layer == GameLayer::Character,
        layers.filters@.contains(GameLayer::Hitbox) <==> layer == GameLayer::Character || layer
            == GameLayer::Damageable,
        layers.filters@.contains(GameLayer::Projectile) <==> layer == GameLayer::Character || layer
            == GameLayer::Damageable,
        layers.filters@.contains(GameLayer::Damageable) <==> layer == GameLayer::Character || layer
            == GameLayer::Hitbox || layer == GameLayer::Projectile,
{
}

} // verus!

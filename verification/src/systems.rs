//! What runs once per frame over the entities: collisions, lifecycle, spawning.

pub mod asteroid_controller;
pub mod collision_detection;
pub mod entity_controller;

pub use asteroid_controller::{
    get_asteroid_spawn_location, get_asteroid_velocity, AsteroidController,
};
pub use collision_detection::{
    apply_damage_to_uuid, get_capped_collision_summary, get_collision_summary,
    get_positions_with_overlaps, run_collision_detection, CollisionOutcome, CollisionResult, CollisionResults,
    CollisionSummary, MinimalDrawableDetails, Summary, PLAYER_ENEMY_COLLISION_DAMAGE,
};
pub use entity_controller::EntityController;

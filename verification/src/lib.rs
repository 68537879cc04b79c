//! Game rules of a top-down arena shooter: health and hits, scoring,
//! bullet matching, the game-over state machine, the health display,
//! enemy spawning and the chunked prop world around the player.

pub mod collision;
pub mod enemy;
pub mod game_state;
pub mod health_ui;
pub mod player;
pub mod projectile;
pub mod props;
pub mod rng;
pub mod score;
pub mod timer;

pub use collision::{ContactReport, detect_player_enemy_collisions};
pub use enemy::{SpawnTimer, SpawnEdge, SpawnPlan, enemy_spawn_due, choose_spawn_edge, edge_from_index, spawn_plan};
pub use game_state::{GameState, restart};
pub use health_ui::{displayed_health, pip_active, pip_left_px};
pub use player::{Health, MAX_HEALTH, input_direction};
pub use projectile::{match_bullets_to_enemies, FireCooldown, fire_ready, fire};
pub use props::{SpawnedChunks, ChunkUpdate, PropKind, manage_chunks, choose_prop_kind, prop_kind_from_index};
pub use score::{Score, increment_score, score_text};

//! A deterministic turn-based battle simulator between two rosters of
//! creatures, each creature drawn from a closed species catalog with fixed
//! combat stats (health, attack, defense, heal, splash, infight).
//!
//! Each round both sides are transformed simultaneously from a snapshot of
//! the pre-round state: the active creature heals its teammates, the enemy's
//! active creature deals damage to every slot, and the active creature then
//! inflicts friendly-fire damage on teammates of its own species. Dead
//! creatures are removed at once; the order of survivors never changes. The
//! battle loop drives rounds until one or both rosters are empty.

pub mod battle;
pub mod dino;
pub mod team;

pub use dino::Dino;
pub use dino::Species;
pub use dino::TEAM_CAP;
pub use team::Team;
pub use battle::Battle;
pub use battle::BattleResult;

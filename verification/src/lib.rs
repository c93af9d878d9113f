//! A deterministic ecology simulation on a five-element ring.
use vstd::prelude::*;

pub mod fx;
pub mod element;
pub mod hash;
pub mod sums;
pub mod order;
pub mod text;
pub mod numeral;
pub mod tile;
pub mod rand;
pub mod race;
pub mod governor;
pub mod entity;
pub mod diffusion;
pub mod terrain;
pub mod spatial;
pub mod apportion;
pub mod climate;
pub mod ecology;
pub mod behavior;
pub mod input;
pub mod world;
pub mod recipes;
pub mod commands;
pub mod aging;
pub mod movement;
pub mod collisions;
pub mod feeding;
pub mod flora;
pub mod ground;
pub mod tick;
pub mod ledger;
pub mod replay;
pub mod fate;
pub mod geometry;
pub mod motion;
pub mod parting;
pub mod jostling;
pub mod hunting;
pub mod seeding;
pub mod meal;
pub mod soil;
pub mod lifetime;
pub mod labour;
pub mod rhythm;
pub mod fairness;
pub mod weather;
pub mod limits;
pub mod chance;
pub mod tuning;
pub mod table;
pub mod keys;
pub mod term;
pub mod console;
pub mod atlas;
pub mod frame;
pub mod controls;
pub mod roster;
pub mod typing;
pub mod lettering;
pub mod picture;
pub mod fingerprint;
pub mod logbook;
pub mod panels;

pub use behavior::{BehaviorTuning, Drive};
pub use climate::ClimateTuning;
pub use ecology::EcologyTuning;
pub use element::{Element, PerElement};
pub use fx::{Fx, V2};
pub use governor::{Governor, Grant};
pub use input::{CmdKind, Command, InputLog};
pub use race::{attrs, RaceAttrs, RateBand, TERRAIN_PERIOD};
pub use replay::{record, verify, Divergence, Trace};
pub use terrain::{Terrain, TerrainTuning};
pub use world::World;

//! Game rules of a procedurally generated galaxy: star labels, point hashing,
//! star classification, materials, buildings and fleet battles.

pub mod text;
pub mod star_id;
pub mod hasher;
pub mod generator;
pub mod buildings;
pub mod battle;
pub mod resources;
pub mod ships;
pub mod requests;

//! The strategic layer of the island simulation.
use vstd::prelude::*;

pub mod action;
pub mod building;
pub mod clocks;
pub mod directive;
pub mod dungeon;
pub mod dungeon_content;
pub mod elimination;
pub mod expedition;
pub mod faction;
pub mod force;
pub mod geography;
pub mod journal;
pub mod keyed;
pub mod production;
pub mod refusal_text;
pub mod recruitment;
pub mod site_rule;
pub mod text;
pub mod tick;
pub mod utility;
pub mod world;

verus! {
} // verus!

//! Evolves combatant builds for a dice-based tabletop combat ruleset: stress
//! dice, point-bought characteristics, virtues, combat resolution and a
//! generational optimizer driven by simulated fights.

pub mod dies;
pub mod stats;
pub mod equipment;
pub mod character;
pub mod combat;
pub mod island;

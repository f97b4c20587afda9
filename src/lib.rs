//! Simulation-and-evolution core of an orbital screensaver: collision layers and swept
//! pair detection, the planning of inelastic merges and the overlap-resolution fixed
//! point, deferred deletion, the world generator's decisions, the run driver, a
//! score-ranked scenario archive with lineage, and the scoring expression language.

pub mod collision;
pub mod config;
pub mod deletion;
pub mod draw;
pub mod driver;
pub mod expression;
pub mod generator;
pub mod gravity;
pub mod lexer;
pub mod merge;
pub mod parser;
pub mod score;
pub mod sqlite;
pub mod storage;

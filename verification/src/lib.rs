//! A village economy: villages produce food and wood, keep workers fed and
//! sheltered, build and maintain houses, and trade through a double auction.
pub mod auction;
pub mod decimal;
pub mod fp;
pub mod events;
pub mod types;
pub mod village;
pub mod simulation;
pub mod scenario;
pub mod strategies;
pub mod auction_builder;
pub mod laws;
pub mod analysis;
pub mod ui;
pub mod text;
pub mod metrics;
pub mod world;
pub mod cli;
pub mod visualization;
pub mod money;

//! Verified core of an evolutionary predator/prey simulation: diets and
//! feeding rules, the hall of fame ("zoo") of long-lived animals, the
//! population census, log line layout and configuration parsing.

pub mod config;
pub mod diet;
pub mod feeding;
pub mod frame;
pub mod logging;
pub mod population;
pub mod rng;
pub mod text;
pub mod zoo;

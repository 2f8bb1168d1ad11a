//! The core of a consumer bridge for a topic-routing message broker:
//! settings, the topology to provision, each queue's consumer, and the
//! supervisor that runs them all and reports how they ended.

pub mod config;
pub mod consumer;
pub mod delivery;
pub mod supervisor;
pub mod topology;

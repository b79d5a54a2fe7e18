pub mod orchestrator;
pub mod tile;

pub mod cache;
pub mod cycle_laws;
pub mod denote;
pub mod editor;
pub mod eval;
pub mod eval_laws;
pub mod graph;
pub mod library;
pub mod model;
pub mod model_mono;
pub mod node_laws;
pub mod pack_laws;
pub mod snarl_graph;
pub mod text;
pub mod types;
pub mod typing;

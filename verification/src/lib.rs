//! Motivic development for multi-agent systems: short patterns of integer
//! values ("motifs") that are measured, transformed, chained into
//! developmental sequences, grouped into families and detected in longer
//! behaviour traces.
pub mod chain;
pub mod detector;
pub mod development;
pub mod family;
pub mod laws;
pub mod motif;
pub mod text;
pub mod transform;

pub use chain::MotifChain;
pub use detector::{DetectedPattern, MotifDetector, PatternView};
pub use development::{
    standard_development_plan, standard_plan_is_applicable, trend_is_ascending, StagePlan,
};
pub use family::MotifFamily;
pub use motif::{Direction, Motif, MotifView};
pub use transform::MotifTransform;

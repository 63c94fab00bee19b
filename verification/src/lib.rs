//! Deterministic corpus archiving, promotion decisions and record validation.
use vstd::prelude::*;

pub mod ability_promotion;
pub mod actions;
pub mod analysis_bundle;
pub mod analysis_config;
pub mod archive;
pub mod archive_laws;
pub mod archive_model_laws;
pub mod archive_order;
pub mod archive_spec;
pub mod artifact_bundle;
pub mod artifact_summary;
pub mod asymmetry_rows;
pub mod canonical_aggregates;
pub mod canonical_routes;
pub mod cell_order;
pub mod checks;
pub mod decoded_artifact;
pub mod demand;
pub mod direct_aggregates;
pub mod diversity_laws;
pub mod front;
pub mod gate_validation;
pub mod identity;
pub mod landing;
pub mod landing_checks;
pub mod metric_aggregates;
pub mod metrics;
pub mod operational_cost;
pub mod positive_witness;
pub mod projection_order;
pub mod promotion_gate;
pub mod promotion_laws;
pub mod rehydrated_bundle;
pub mod room_construction;
pub mod room_evidence;
pub mod room_record;
pub mod selection;
pub mod selection_laws;
pub mod selection_order;
pub mod selection_spec;
pub mod target_rows;
pub mod terrain;
pub mod witness_record;
pub mod witness_refs;

verus! {
} // verus!

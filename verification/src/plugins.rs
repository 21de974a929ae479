//! The engine plugin's data.
mod engine;

pub use engine::{
    lemma_deregister_by_entity_id_keeps_inverse, lemma_deregister_by_stable_id_keeps_inverse, lemma_empty_is_inverse,
    lemma_register_keeps_inverse,
    health_from_args, integer_option, is_short_id, is_url_safe, mutually_inverse, radial_vision_from_args,
    EntityRegistry, Health, RadialVision, StableId,
};

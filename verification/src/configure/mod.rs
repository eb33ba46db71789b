//! The configuration/reflection layer: per-sampler option metadata, get
//! and set by name, and bulk parsing of option text.

mod building;
mod configurable;
mod metadata;
mod value;

pub use building::{configure_sampler_kind, BuildSamplersError, SamplerChainBuilder, SamplerSlot};
pub use configurable::{configure, get_option, set_option, ConfigurableSampler};
pub use metadata::{key_matches, lemma_match_count_nonneg_pub, lemma_match_count_two, lemma_match_count_zero, match_count, SamplerMetadata, SamplerOptionMetadata, SamplerOptions};
pub use value::{
    all_digits, lemma_digits_val_in_u64, chars_to_string, colon_index, digits_val, eq_index, fx_of_decimal, parse_bool_spec,
    parse_fx_spec, parse_value_spec, seg_key, seg_val, str_chars, trimmed,
    ConfigureSamplerError, SamplerOptionType, SamplerOptionValue,
};

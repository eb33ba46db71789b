//! Convenient re-exports: the container, the samplers, the chain, the
//! resource providers, and the configuration layer.

pub use crate::chain::{SamplerChain, SamplerKind};
pub use crate::configure::{
    configure, get_option, set_option, BuildSamplersError, ConfigurableSampler,
    ConfigureSamplerError, SamplerChainBuilder, SamplerMetadata, SamplerOptionMetadata,
    SamplerOptionType, SamplerOptionValue, SamplerOptions, SamplerSlot,
};
pub use crate::fixed::Fx;
pub use crate::resource::{HasSamplerResources, NilSamplerResources, SimpleSamplerResources};
pub use crate::samplers::{
    SampleFlatBias, SampleFreqPresence, SampleGreedy, SampleLocallyTypical, SampleMinP,
    SampleMirostat1, SampleMirostat2, SampleRandDistrib, SampleRepetition, SampleSeqRepetition,
    SampleTailFree, SampleTemperature, SampleTopA, SampleTopK, SampleTopP, SampleTypical,
};
pub use crate::types::{Logit, Logits, LogitsError, SamplerError, TID};

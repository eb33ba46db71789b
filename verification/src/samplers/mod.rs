//! The concrete samplers: rank and probability filters, history-aware
//! penalizers, adaptive entropy-controlled selectors, and the plain
//! selectors.

mod flat_bias;
mod freq_presence;
mod greedy;
mod history;
pub use history::{count_in, window_spec};
mod locally_typical;
mod min_p;
mod mirostat;
mod rand_distrib;
mod repetition;
mod sequence_repetition;
mod tail_free;
mod temperature;
mod top_a;
mod top_k;
mod top_p;
mod typical;

pub use flat_bias::{bias_for, SampleFlatBias};
pub use freq_presence::fp_deduction;
pub use freq_presence::SampleFreqPresence;
pub use greedy::{argmax_first, max_bits, SampleGreedy};
pub use locally_typical::{lt_result, SampleLocallyTypical};
pub use min_p::{threshold_cut, SampleMinP};
pub use mirostat::{m1_k, m2_cut, mu_next, SampleMirostat1, SampleMirostat2};
pub use rand_distrib::SampleRandDistrib;
pub use repetition::{rep_penalized, SampleRepetition};
pub use sequence_repetition::{pen_of, seq_deduction, SampleSeqRepetition};
pub use tail_free::{tf_cut_from, tf_ssum, SampleTailFree};
pub use temperature::SampleTemperature;
pub use top_a::SampleTopA;
pub use top_k::{top_k_keep, SampleTopK};
pub use top_p::{top_p_cut, SampleTopP};
pub use typical::SampleTypical;

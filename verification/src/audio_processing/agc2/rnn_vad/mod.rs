//! Voice activity detection.
pub mod auto_correlation;
pub mod common;
pub mod feature_laws;
pub mod features_extraction;
pub mod lp_residual;
pub mod lp_residual_laws;
pub mod pitch_search;
pub mod pitch_search_internal;
pub mod pitch_search_laws;
pub mod ring_buffer;
pub mod rnn;
pub mod rnn_fc;
pub mod rnn_gru;
pub mod sequence_buffer;
pub mod spectral_features;
pub mod spectral_features_internal;
pub mod symmetric_matrix_buffer;
pub mod vector_math;

//! Echo canceller.
pub mod adaptive_fir_filter_erl;
pub mod aec3_common;
pub mod aec_state;
pub mod binary32;
pub mod block;
pub mod block_buffer;
pub mod circular_index;
pub mod config_selector;
pub mod delay_estimate;
pub mod downsampled_render_buffer;
pub mod echo_path_variability;
pub mod fft_data;
pub mod frame_blocker;
pub mod histogram;
pub mod matched_filter;
pub mod matched_filter_lag_aggregator;
pub mod multi_channel_content_detector;
pub mod spectrum_buffer;
pub mod vector_math;

//! Verified core of the hyprgram spectrogram tool: STFT framing and hop
//! policy, parallel chunk planning, the sample ring, built-in profiles, the
//! live view's history bookkeeping and the text control protocol.
pub mod dsp;
pub mod chunks;
pub mod decimal;
pub mod cli;
pub mod error;
pub mod framing;
pub mod ipc;
pub mod live;
pub mod numbers;
pub mod profiles;
pub mod render;
pub mod ring;
pub mod text;

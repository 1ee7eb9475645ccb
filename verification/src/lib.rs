//! Core of a small e-paper firmware: a two-plane grayscale framebuffer with
//! its drawing primitives, and the pure state machines that drive wireless
//! association, a blocking-style socket over a cooperative network stack, and
//! the overall phase sequence from power-on to "image on glass".

pub mod font;
pub mod frame;
pub mod laws;
pub mod line;
pub mod net;
pub mod orchestrator;
pub mod socket;

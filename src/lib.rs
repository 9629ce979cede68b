// A stereo audio pipeline with a live spectrum display: packets of samples
// move through bounded queues to the output device and on to the analyzer.
pub mod config;
pub mod packet;
pub mod queue;
pub mod render;
pub mod spectrum;

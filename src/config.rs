use vstd::prelude::*;

verus! {

/// Stereo frames per packet.
pub const PACKET_SIZE: usize = 256;

/// Packets each pipeline queue can hold.
pub const QUEUE_CAPACITY: usize = 100;

/// Output channels; samples are interleaved.
pub const CHANNELS: usize = 2;

/// Output sample rate in frames per second.
pub const SAMPLE_RATE: u32 = 44100;

/// Frames the output device asks for per callback: a whole number of packets.
pub const FRAMES_PER_BLOCK: usize = 1024;

/// Screen columns of the spectrum, one bar each.
pub const COLUMN_COUNT: u32 = 512;

/// Screen height in pixels.
pub const SCREEN_HEIGHT: u32 = 384;

/// Samples in the transform window per screen column.
pub const MULTIPLIER: u32 = 2;

/// Samples in the transform window.
pub const WINDOW_LEN: usize = 1024;

/// Samples the analyzer wants per drawn frame: a fifth more than one frame
/// lasts at sixty frames per second.
pub const SAMPLES_PER_FRAME: usize = 882;

/// The sizes the pipeline runs with, fixed once at start-up.
pub struct Config {
    pub packet_size: usize,
    pub queue_capacity: usize,
    pub frames_per_block: usize,
    pub column_count: u32,
    pub multiplier: u32,
    pub samples_per_frame: usize,
}

impl Config {
    /// Sizes that every stage can work with: non-empty packets that divide the
    /// output block and fit in one analyzer frame, a transform window of
    /// `column_count * multiplier` samples, and counts that stay clear of
    /// overflow.
    pub open spec fn wf(&self) -> bool {
        &&& self.packet_size > 0
        &&& self.queue_capacity > 0
        &&& self.frames_per_block % self.packet_size == 0
        &&& self.frames_per_block <= usize::MAX / 2
        &&& self.column_count > 0
        &&& self.multiplier > 0
        &&& self.column_count * self.multiplier <= u32::MAX
        &&& self.samples_per_frame >= self.packet_size
    }

    /// The number of samples in the transform window.
    pub open spec fn window_len_spec(&self) -> nat {
        (self.column_count * self.multiplier) as nat
    }

    /// The sizes of a 512-column display fed from 44.1 kHz stereo.
    pub fn standard() -> (c: Self)
        ensures
            c.wf(),
            c.packet_size == PACKET_SIZE,
            c.queue_capacity == QUEUE_CAPACITY,
            c.frames_per_block == FRAMES_PER_BLOCK,
            c.column_count == COLUMN_COUNT,
            c.multiplier == MULTIPLIER,
            c.samples_per_frame == SAMPLES_PER_FRAME,
            c.window_len_spec() == WINDOW_LEN,
    {
        Config {
            packet_size: PACKET_SIZE,
            queue_capacity: QUEUE_CAPACITY,
            frames_per_block: FRAMES_PER_BLOCK,
            column_count: COLUMN_COUNT,
            multiplier: MULTIPLIER,
            samples_per_frame: SAMPLES_PER_FRAME,
        }
    }

    /// The number of samples in the transform window.
    pub fn window_len(&self) -> (r: usize)
        requires
            self.wf(),
        ensures
            r == self.window_len_spec(),
    {
        (self.column_count * self.multiplier) as usize
    }
}

} // verus!

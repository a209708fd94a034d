//! A streaming pipeline that turns an endless supply of generated spiral
//! points into fixed-size epochs and fixed-shape training batches.
//!
//! Samples flow from the point source through producers into a bounded
//! channel, and from there through a dataset into batches:
//!
//! - [`point`]: the sample, and the traits that read buffers as points;
//! - [`channel`]: the bounded first-in, first-out channel;
//! - [`generate`]: the producer, a state machine run by the application;
//! - [`workers`]: the pool that holds one stream per configuration;
//! - [`pool`]: what the pool is, mathematically, and the laws of the pipeline;
//! - [`data`]: the epoch-sized dataset and the batcher;
//! - [`tensor`]: shaped buffers of numbers and their devices;
//! - [`loss`]: the loss terms of the model that is trained on the batches.
//!
//! The library never blocks and never starts a thread.  Where a producer or
//! a consumer would have to wait, it says so in what it returns; the
//! application holds the pool behind a lock, waits, and calls again.

pub mod channel;
pub mod data;
pub mod generate;
pub mod loss;
pub mod point;
pub mod pool;
pub mod tensor;
pub mod workers;

pub use data::{get_data, SpiralBatch, SpiralBatcher, SpiralDataset};
pub use point::{Point, SpiralItem, ToPoints, ToVec, INPUT_DIM, LABEL_DIM};

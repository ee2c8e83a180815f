//! Learning engine of a recurrent chord-sequence network.
//!
//! The element type of every matrix is left open: shapes, layouts, layer
//! chaining, the recurrent state and the order of every accumulation are
//! fixed and verified here, while element arithmetic is passed in by the
//! caller as closures.

// Dense matrices and their row operations.
pub mod matrix;
pub mod matrix_math;

// Gates: layer shapes, forward pass and backpropagation.
pub mod activation;
pub mod gate;
pub mod forward;
pub mod backprop;

// The recurrent network and its training bookkeeping.
pub mod cesure;
pub mod training;
pub mod bptt;
pub mod search;
pub mod music;
pub mod error_calculation;

// Text: the saved-parameter format and the console commands.
pub mod text;
pub mod text_format;
pub mod serial;
pub mod console;

// Plumbing shared with the program around the library.
pub mod io;

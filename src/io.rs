use vstd::prelude::*;
use std::sync::mpsc::{Receiver, Sender};
use std::sync::{Arc, Mutex};

verus! {

#[verifier::external_type_specification]
#[verifier::external_body]
#[verifier::reject_recursive_types(T)]
pub struct ExSender<T>(Sender<T>);

#[verifier::external_type_specification]
#[verifier::external_body]
#[verifier::reject_recursive_types(T)]
pub struct ExReceiver<T>(Receiver<T>);

#[verifier::external_type_specification]
#[verifier::external_body]
#[verifier::reject_recursive_types(T)]
pub struct ExMutex<T: ?Sized>(Mutex<T>);

/// Relies on `std::sync::mpsc::channel`: a new channel, as its two ends.
#[verifier::external_body]
fn i32_channel() -> (r: (Sender<i32>, Receiver<i32>)) {
    std::sync::mpsc::channel()
}

/// Relies on `std::sync::Mutex::new`: a new unlocked mutex holding the value.
#[verifier::external_body]
fn new_mutex(reader: AsyncStdinReader) -> (r: Mutex<AsyncStdinReader>) {
    Mutex::new(reader)
}

/// An ASCII control character (general category Cc within ASCII).
pub open spec fn is_control_byte(b: u8) -> bool {
    b < 32 || b == 127
}

/// One end of a two-way link carrying `i32` values: it sends on one channel
/// and receives on the other.
pub struct DoubleI32Channel {
    pub sender: Sender<i32>,
    pub receiver: Receiver<i32>,
}

impl DoubleI32Channel {
    /// Two ends linked crosswise: what one sends, the other receives.
    pub fn new() -> (r: (DoubleI32Channel, DoubleI32Channel)) {
        let (s1, r1) = i32_channel();
        let (s2, r2) = i32_channel();
        let c1 = DoubleI32Channel { sender: s1, receiver: r2 };
        let c2 = DoubleI32Channel { sender: s2, receiver: r1 };
        (c1, c2)
    }
}

/// State of a line read from standard input without blocking the caller:
/// a background reader fills `buffer` and marks the line finished.
pub struct AsyncStdinReader {
    pub started_reading: bool,
    pub finished_reading: bool,
    pub buffer: Vec<u8>,
}

/// What a poll of the reader asks its driver to do.
pub enum ReadPoll {
    /// No read is running: start a background read of one line.
    StartReading,
    /// A read is running and has not finished yet.
    Pending,
    /// A line was completed; these are its bytes.
    Line(Vec<u8>),
}

impl AsyncStdinReader {
    /// A reader with no read running, shared behind a mutex.
    pub fn new() -> (r: Arc<Mutex<AsyncStdinReader>>) {
        let reader = AsyncStdinReader { started_reading: false, finished_reading: false, buffer: Vec::new() };
        Arc::new(new_mutex(reader))
    }

    /// One poll: hands out a finished line and resets, asks for a read to be
    /// started when none runs, and otherwise reports that the read is pending.
    pub fn poll(&mut self) -> (r: ReadPoll)
        ensures
            old(self).started_reading && old(self).finished_reading ==> r == ReadPoll::Line(old(self).buffer)
                && !final(self).started_reading && !final(self).finished_reading && final(self).buffer@.len() == 0,
            old(self).started_reading && !old(self).finished_reading ==> r == ReadPoll::Pending && *final(self) == *old(self),
            !old(self).started_reading ==> r == ReadPoll::StartReading && final(self).started_reading
                && final(self).finished_reading == old(self).finished_reading && final(self).buffer == old(self).buffer,
    {
        if self.started_reading {
            if self.finished_reading {
                let mut line: Vec<u8> = Vec::new();
                core::mem::swap(&mut line, &mut self.buffer);
                self.started_reading = false;
                self.finished_reading = false;
                ReadPoll::Line(line)
            } else {
                ReadPoll::Pending
            }
        } else {
            self.started_reading = true;
            ReadPoll::StartReading
        }
    }

    /// The background read got one more byte of the line; a control
    /// character is dropped.
    pub fn push_byte(&mut self, b: u8)
        ensures
            final(self).buffer@ == if is_control_byte(b) { old(self).buffer@ } else { old(self).buffer@.push(b) },
            final(self).started_reading == old(self).started_reading,
            final(self).finished_reading == old(self).finished_reading,
    {
        if !(b < 32 || b == 127) {
            self.buffer.push(b);
        }
    }

    /// The background read reached the end of the line.
    pub fn finish(&mut self)
        ensures
            final(self).finished_reading,
            final(self).started_reading == old(self).started_reading,
            final(self).buffer == old(self).buffer,
    {
        self.finished_reading = true;
    }
}

} // verus!

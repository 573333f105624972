//! Writing serialized records out.
//!
//! The [`WriteEvent`] trait is what a destination implements; the library
//! provides a warning decorator and the channel-backed [`NonBlocking`]
//! writer. Destinations that sit on process streams or files live with the
//! program that owns them; the non-blocking writer's worker thread does
//! too, and talks to [`NonBlocking`] over the channel built here.
use vstd::prelude::*;
use crate::event::Event;
use crate::format::SerdeFormat;
use std::io::Write as _;

verus! {

/// Why a write was not accepted.
#[derive(Copy, Clone, Debug, PartialEq, Eq, Structural)]
pub enum WriteError {
    /// The destination failed to take the bytes.
    Io,
    /// The worker behind the channel is gone.
    Closed,
}

/// Serializes a record with the given format driver and hands the bytes to
/// a destination. Takes a shared reference: implementations synchronize
/// themselves, so one writer may be driven from several threads.
pub trait WriteEvent {
    /// Serialize `event` with `fmt` and write it out.
    fn write<F: SerdeFormat>(&self, fmt: &F, event: &Event) -> Result<(), WriteError>;
}

/// A decorator that reports a failed write as a diagnostic on the standard
/// error stream and otherwise swallows it.
pub struct WarnOnError<T>(pub T);

impl<T: WriteEvent> WarnOnError<T> {
    /// Wrap a writer, warning whenever it fails.
    pub fn new(inner: T) -> (r: WarnOnError<T>)
        ensures
            r.0 == inner,
    {
        WarnOnError(inner)
    }
}

impl<T: WriteEvent> WriteEvent for WarnOnError<T> {
    /// Delegates to the wrapped writer and swallows its failure: a lost
    /// log line must not reach the caller as an error.
    fn write<F: SerdeFormat>(&self, fmt: &F, event: &Event) -> (r: Result<(), WriteError>)
        ensures
            r is Ok,
    {
        match self.0.write(fmt, event) {
            Ok(u) => Ok(u),
            Err(_) => {
                warn_write_failed();
                Ok(())
            },
        }
    }
}

/// Relies on `writeln!` to standard error: prints the diagnostic a failed
/// write leaves behind.
#[verifier::external_body]
fn warn_write_failed() {
    let _ = writeln!(&mut std::io::stderr(), "tracing: failed to write to log");
}

/// One message on the channel to the worker: a serialized record, or the
/// request to drain and stop.
#[derive(Debug, Clone, PartialEq, Eq)]
pub enum Message {
    /// The bytes of one serialized record.
    Record(Vec<u8>),
    /// Drain what is queued, flush the destination, and exit.
    Shutdown,
}

#[verifier::external_type_specification]
#[verifier::external_body]
#[verifier::reject_recursive_types(T)]
pub struct ExSender<T>(flume::Sender<T>);

/// Relies on `flume::Sender::clone`: another handle to the same channel.
pub assume_specification<T>[ <flume::Sender<T> as Clone>::clone ](s: &flume::Sender<T>) -> flume::Sender<T>;

/// What a non-blocking hand-off attempt came to.
#[derive(Copy, Clone, Debug, PartialEq, Eq, Structural)]
pub enum SendTry {
    /// The message is on the channel.
    Sent,
    /// The channel was full; the message was dropped.
    Full,
    /// All receivers are gone; the message was dropped.
    Closed,
}

/// Relies on `flume::Sender::send`: blocks while the bounded channel is
/// full, delivers in channel order, and fails only when every receiver is
/// gone. Which message a concurrent receiver sees next cannot be promised
/// here, so nothing more is stated.
#[verifier::external_body]
fn send_message(s: &flume::Sender<Message>, m: Message) -> bool {
    s.send(m).is_ok()
}

/// Relies on `flume::Sender::try_send`: never blocks; tells a full channel
/// apart from one whose receivers are gone.
#[verifier::external_body]
fn try_send_message(s: &flume::Sender<Message>, m: Message) -> SendTry {
    match s.try_send(m) {
        Ok(()) => SendTry::Sent,
        Err(flume::TrySendError::Full(_)) => SendTry::Full,
        Err(flume::TrySendError::Disconnected(_)) => SendTry::Closed,
    }
}

/// The default bound on buffered records.
pub const DEFAULT_BUFFERED_RECORDS_LIMIT: usize = 128000;

/// Configures a [`NonBlocking`] writer.
#[derive(Clone, Debug)]
pub struct NonBlockingBuilder {
    lossy: bool,
    max_buffered_records: usize,
}

impl Default for NonBlockingBuilder {
    /// The default configuration: blocking hand-off, the default bound.
    fn default() -> (r: NonBlockingBuilder)
        ensures
            !r.is_lossy_config(),
            r.capacity() == DEFAULT_BUFFERED_RECORDS_LIMIT,
    {
        NonBlockingBuilder { lossy: false, max_buffered_records: DEFAULT_BUFFERED_RECORDS_LIMIT }
    }
}

impl NonBlockingBuilder {
    /// Whether records are dropped when the buffer is full.
    pub closed spec fn is_lossy_config(&self) -> bool {
        self.lossy
    }

    /// The configured bound on buffered records.
    pub closed spec fn capacity(&self) -> usize {
        self.max_buffered_records
    }

    /// Bound the number of buffered records.
    pub fn buf_size(self, sz: usize) -> (r: NonBlockingBuilder)
        ensures
            r.capacity() == sz,
            r.is_lossy_config() == self.is_lossy_config(),
    {
        NonBlockingBuilder { max_buffered_records: sz, ..self }
    }

    /// Drop records when the buffer is full instead of blocking.
    pub fn lossy(self, lossy: bool) -> (r: NonBlockingBuilder)
        ensures
            r.is_lossy_config() == lossy,
            r.capacity() == self.capacity(),
    {
        NonBlockingBuilder { lossy, ..self }
    }

    /// The configured bound, for whoever builds the channel.
    pub fn capacity_value(&self) -> (r: usize)
        ensures
            r == self.capacity(),
    {
        self.max_buffered_records
    }

    /// Whether the lossy policy was chosen, for whoever builds the writer.
    pub fn lossy_value(&self) -> (r: bool)
        ensures
            r == self.is_lossy_config(),
    {
        self.lossy
    }
}

/// Start configuring a non-blocking writer.
pub fn nonblocking() -> (r: NonBlockingBuilder)
    ensures
        !r.is_lossy_config(),
        r.capacity() == DEFAULT_BUFFERED_RECORDS_LIMIT,
{
    NonBlockingBuilder { lossy: false, max_buffered_records: DEFAULT_BUFFERED_RECORDS_LIMIT }
}

/// A writer that hands each serialized record to a dedicated worker over a
/// bounded channel. With the lossy policy the hand-off never blocks and
/// records are dropped when the channel is full; otherwise the producer
/// waits for room, and delivered records keep their order.
#[derive(Clone)]
pub struct NonBlocking {
    sender: flume::Sender<Message>,
    lossy: bool,
    message_buf_initial_capacity: usize,
}

impl NonBlocking {
    /// Start configuring a non-blocking writer.
    pub fn new() -> (r: NonBlockingBuilder)
        ensures
            !r.is_lossy_config(),
            r.capacity() == DEFAULT_BUFFERED_RECORDS_LIMIT,
    {
        nonblocking()
    }

    /// Whether this writer drops records when its channel is full.
    pub closed spec fn is_lossy(&self) -> bool {
        self.lossy
    }

    /// Assemble a writer around the sending half of a channel whose
    /// receiving half a worker drains.
    pub fn from_parts(sender: flume::Sender<Message>, lossy: bool, capacity: usize) -> (r:
        NonBlocking)
        ensures
            r.is_lossy() == lossy,
    {
        NonBlocking { sender, lossy, message_buf_initial_capacity: capacity }
    }

    /// Hand one serialized record to the worker.
    ///
    /// Under the lossy policy a full channel drops the record and reports
    /// success; otherwise the call waits for room. Success cannot be
    /// promised over a channel another thread drains, but a failure can
    /// only mean the worker is gone, never a write fault.
    pub fn send_payload(&self, buf: Vec<u8>) -> (r: Result<(), WriteError>)
        ensures
            r matches Err(e) ==> e == WriteError::Closed,
    {
        if self.lossy {
            match try_send_message(&self.sender, Message::Record(buf)) {
                SendTry::Sent => Ok(()),
                SendTry::Full => Ok(()),
                SendTry::Closed => Err(WriteError::Closed),
            }
        } else {
            if send_message(&self.sender, Message::Record(buf)) {
                Ok(())
            } else {
                Err(WriteError::Closed)
            }
        }
    }

    /// Ask the worker to drain what is queued, flush, and exit.
    pub fn send_shutdown(&self) -> bool {
        send_message(&self.sender, Message::Shutdown)
    }
}

impl WriteEvent for NonBlocking {
    fn write<F: SerdeFormat>(&self, fmt: &F, event: &Event) -> Result<(), WriteError> {
        let buf = fmt.serialize(event);
        self.send_payload(buf)
    }
}

} // verus!

//! The subscriber layer: the decisions behind each host-framework
//! callback.
//!
//! The host framework drives the layer through its lifecycle callbacks;
//! the thin glue that talks to the host registry hands this module plain
//! values (the span fragments it stores, the visited fields, names, ids,
//! source locations), and this module decides what record, if any, each
//! callback emits, and assembles it. Every decision and every assembled
//! field is pinned by contract.
use vstd::prelude::*;
use crate::event::{Event, EventKind, EventModel};
use crate::format::SerdeFormat;
use crate::level::Level;
use crate::span::{SpanList, group_spans};
use crate::time::{Clock, SpanTime, UnixTime};
use crate::value::FieldList;
use crate::writer::WriteEvent;

verus! {

/// The bit that asks for a record when a span is created.
pub const NEW: u8 = 1;

/// The bit that asks for a record when a span is entered.
pub const ENTER: u8 = 2;

/// The bit that asks for a record when a span is exited.
pub const EXIT: u8 = 4;

/// The bit that asks for a record when a span is closed.
pub const CLOSE: u8 = 8;

/// A set of span lifecycle moments at which synthesised records are
/// emitted, as a bitmask over [`NEW`], [`ENTER`], [`EXIT`] and [`CLOSE`].
#[derive(Copy, Clone, Debug, PartialEq, Eq, Structural)]
pub struct SpanEvents {
    /// The mask itself.
    pub bits: u8,
}

impl SpanEvents {
    /// No synthesised records.
    pub fn none() -> (r: SpanEvents)
        ensures
            r.bits == 0,
    {
        SpanEvents { bits: 0 }
    }

    /// The moments named by a mask.
    pub fn from_bits(bits: u8) -> (r: SpanEvents)
        ensures
            r.bits == bits,
    {
        SpanEvents { bits }
    }

    /// Whether span creation is recorded.
    pub open spec fn has_new(self) -> bool {
        self.bits & NEW != 0
    }

    /// Whether span entry is recorded.
    pub open spec fn has_enter(self) -> bool {
        self.bits & ENTER != 0
    }

    /// Whether span exit is recorded.
    pub open spec fn has_exit(self) -> bool {
        self.bits & EXIT != 0
    }

    /// Whether span closing is recorded.
    pub open spec fn has_close(self) -> bool {
        self.bits & CLOSE != 0
    }
}

/// Configuration for a [`SerdeLayer`].
pub struct SerdeLayerBuilder<F, C, W> {
    /// Whether source locations are recorded.
    pub source_location: bool,
    /// Which span lifecycle moments emit records.
    pub span_events: SpanEvents,
    /// Whether spans' busy and idle time is measured.
    pub time_spans: bool,
    /// The wire format.
    pub fmt: F,
    /// The destination.
    pub writer: W,
    /// The clock that stamps records.
    pub clock: C,
    /// Whether thread names are recorded.
    pub thread_name: bool,
    /// Whether thread ids are recorded.
    pub thread_id: bool,
}

/// A layer that serializes each record it assembles into a writer.
///
/// `F` is the wire format, `C` the clock that stamps records, `W` the
/// destination.
pub struct SerdeLayer<F, C, W> {
    thread_name: bool,
    thread_id: bool,
    source_location: bool,
    record_span_enter: bool,
    record_span_exit: bool,
    record_span_create: bool,
    record_span_close: bool,
    time_spans: bool,
    fmt: F,
    writer: W,
    clock: C,
}

impl<F: SerdeFormat, C: Clock, W: WriteEvent> SerdeLayerBuilder<F, C, W> {
    /// Begin configuring a layer, around a format, a clock and a writer.
    /// Source locations are recorded by default; no synthesised span
    /// records, no span timing, no thread information.
    pub fn start(fmt: F, clock: C, writer: W) -> (r: SerdeLayerBuilder<F, C, W>)
        ensures
            r.source_location,
            r.span_events.bits == 0,
            !r.time_spans,
            !r.thread_name,
            !r.thread_id,
    {
        SerdeLayerBuilder {
            source_location: true,
            span_events: SpanEvents { bits: 0 },
            time_spans: false,
            fmt,
            writer,
            clock,
            thread_name: false,
            thread_id: false,
        }
    }

    /// Output records through another writer.
    pub fn with_writer<W2: WriteEvent>(self, writer: W2) -> (r: SerdeLayerBuilder<F, C, W2>)
        ensures
            r.source_location == self.source_location,
            r.span_events == self.span_events,
            r.time_spans == self.time_spans,
            r.thread_name == self.thread_name,
            r.thread_id == self.thread_id,
    {
        SerdeLayerBuilder {
            source_location: self.source_location,
            span_events: self.span_events,
            time_spans: self.time_spans,
            fmt: self.fmt,
            writer,
            clock: self.clock,
            thread_name: self.thread_name,
            thread_id: self.thread_id,
        }
    }

    /// Stamp records with the given clock.
    pub fn with_clock<C2: Clock>(self, clock: C2) -> (r: SerdeLayerBuilder<F, C2, W>)
        ensures
            r.source_location == self.source_location,
            r.span_events == self.span_events,
            r.time_spans == self.time_spans,
            r.thread_name == self.thread_name,
            r.thread_id == self.thread_id,
    {
        SerdeLayerBuilder {
            source_location: self.source_location,
            span_events: self.span_events,
            time_spans: self.time_spans,
            fmt: self.fmt,
            writer: self.writer,
            clock,
            thread_name: self.thread_name,
            thread_id: self.thread_id,
        }
    }

    /// Measure spans' busy and idle time. Enabling this always enables the
    /// close record.
    pub fn with_time_spans(self, enable: bool) -> (r: SerdeLayerBuilder<F, C, W>)
        ensures
            r.time_spans == enable,
            r.span_events == self.span_events,
            r.source_location == self.source_location,
            r.thread_name == self.thread_name,
            r.thread_id == self.thread_id,
    {
        SerdeLayerBuilder { time_spans: enable, ..self }
    }

    /// Choose the span lifecycle moments that emit synthesised records.
    pub fn with_span_events(self, e: SpanEvents) -> (r: SerdeLayerBuilder<F, C, W>)
        ensures
            r.span_events == e,
            r.time_spans == self.time_spans,
            r.source_location == self.source_location,
            r.thread_name == self.thread_name,
            r.thread_id == self.thread_id,
    {
        SerdeLayerBuilder { span_events: e, ..self }
    }

    /// Record thread names and thread ids.
    pub fn with_thread_info(self, names: bool, ids: bool) -> (r: SerdeLayerBuilder<F, C, W>)
        ensures
            r.thread_name == names,
            r.thread_id == ids,
            r.span_events == self.span_events,
            r.time_spans == self.time_spans,
            r.source_location == self.source_location,
    {
        SerdeLayerBuilder { thread_name: names, thread_id: ids, ..self }
    }

    /// Record the source file and line of each record.
    pub fn with_source_location(self, enabled: bool) -> (r: SerdeLayerBuilder<F, C, W>)
        ensures
            r.source_location == enabled,
            r.span_events == self.span_events,
            r.time_spans == self.time_spans,
            r.thread_name == self.thread_name,
            r.thread_id == self.thread_id,
    {
        SerdeLayerBuilder { source_location: enabled, ..self }
    }

    /// Finish configuration. Each lifecycle bit becomes one flag of the
    /// layer; span timing forces the close record on.
    pub fn finish(self) -> (r: SerdeLayer<F, C, W>)
        ensures
            r.wants_span_create() == self.span_events.has_new(),
            r.wants_span_enter() == self.span_events.has_enter(),
            r.wants_span_exit() == self.span_events.has_exit(),
            r.wants_span_close() == (self.span_events.has_close() || self.time_spans),
            r.times_spans() == self.time_spans,
            r.source_location_flag() == self.source_location,
            r.thread_name_flag() == self.thread_name,
            r.thread_id_flag() == self.thread_id,
    {
        SerdeLayer {
            record_span_create: self.span_events.bits & NEW != 0,
            record_span_close: (self.span_events.bits & CLOSE != 0) || self.time_spans,
            record_span_enter: self.span_events.bits & ENTER != 0,
            record_span_exit: self.span_events.bits & EXIT != 0,
            thread_id: self.thread_id,
            thread_name: self.thread_name,
            source_location: self.source_location,
            time_spans: self.time_spans,
            writer: self.writer,
            clock: self.clock,
            fmt: self.fmt,
        }
    }
}

impl<F: SerdeFormat, C: Clock, W: WriteEvent> SerdeLayer<F, C, W> {
    /// Whether span creation emits a record.
    pub closed spec fn wants_span_create(&self) -> bool {
        self.record_span_create
    }

    /// Whether span entry emits a record.
    pub closed spec fn wants_span_enter(&self) -> bool {
        self.record_span_enter
    }

    /// Whether span exit emits a record.
    pub closed spec fn wants_span_exit(&self) -> bool {
        self.record_span_exit
    }

    /// Whether span closing emits a record.
    pub closed spec fn wants_span_close(&self) -> bool {
        self.record_span_close
    }

    /// Whether spans' busy and idle time is measured.
    pub closed spec fn times_spans(&self) -> bool {
        self.time_spans
    }

    /// Whether source locations are recorded.
    pub closed spec fn source_location_flag(&self) -> bool {
        self.source_location
    }

    /// Whether thread names are recorded.
    pub closed spec fn thread_name_flag(&self) -> bool {
        self.thread_name
    }

    /// Whether thread ids are recorded.
    pub closed spec fn thread_id_flag(&self) -> bool {
        self.thread_id
    }

    /// Executable view of the span-timing flag, for the glue that manages
    /// per-span timers.
    pub fn timing_enabled(&self) -> (r: bool)
        ensures
            r == self.times_spans(),
    {
        self.time_spans
    }

    /// Executable view of the enter flag.
    pub fn enter_enabled(&self) -> (r: bool)
        ensures
            r == self.wants_span_enter(),
    {
        self.record_span_enter
    }

    /// Executable view of the exit flag.
    pub fn exit_enabled(&self) -> (r: bool)
        ensures
            r == self.wants_span_exit(),
    {
        self.record_span_exit
    }

    /// Executable view of the close flag.
    pub fn close_enabled(&self) -> (r: bool)
        ensures
            r == self.wants_span_close(),
    {
        self.record_span_close
    }

    /// The current timestamp, from the configured clock.
    pub fn current_time(&self) -> Option<UnixTime> {
        self.clock.time()
    }

    /// Assemble one record.
    ///
    /// The span stack is the grouped form of the flat fragment
    /// concatenation; thread and source details appear exactly when their
    /// flags are on and the datum was handed in.
    pub fn make_event(
        &self,
        kind: EventKind,
        level: Level,
        target: String,
        stack: &SpanList,
        thread_id: Option<u64>,
        thread_name: Option<String>,
        src_file: Option<String>,
        src_line: Option<u32>,
        time: Option<UnixTime>,
    ) -> (r: Event)
        requires
            stack.wf(),
        ensures
            r@ == (EventModel {
                kind: kind@,
                level: level,
                spans: group_spans(stack@),
                target: target@,
                thread_id: if self.thread_id_flag() {
                    thread_id
                } else {
                    None
                },
                thread_name: if self.thread_name_flag() {
                    crate::event::opt_str_view(thread_name)
                } else {
                    None
                },
                src_line: if self.source_location_flag() {
                    src_line
                } else {
                    None
                },
                src_file: if self.source_location_flag() {
                    crate::event::opt_str_view(src_file)
                } else {
                    None
                },
                time: time,
            }),
    {
        let spans = stack.to_spans();
        Event {
            kind,
            level,
            spans,
            target,
            thread_id: if self.thread_id {
                thread_id
            } else {
                None
            },
            thread_name: if self.thread_name {
                thread_name
            } else {
                None
            },
            src_line: if self.source_location {
                src_line
            } else {
                None
            },
            src_file: if self.source_location {
                src_file
            } else {
                None
            },
            time,
        }
    }

    /// The record a span-creation callback emits: one `SpanCreate` record
    /// exactly when the creation bit is set.
    pub fn record_on_new_span(
        &self,
        level: Level,
        target: String,
        stack: &SpanList,
        thread_id: Option<u64>,
        thread_name: Option<String>,
        src_file: Option<String>,
        src_line: Option<u32>,
        time: Option<UnixTime>,
    ) -> (r: Option<Event>)
        requires
            stack.wf(),
        ensures
            r is Some <==> self.wants_span_create(),
            r matches Some(e) ==> e@.kind == crate::event::KindModel::SpanCreate && e@.spans
                == group_spans(stack@) && e@.level == level && e@.target == target@,
    {
        if self.record_span_create {
            Some(
                self.make_event(
                    EventKind::SpanCreate,
                    level,
                    target,
                    stack,
                    thread_id,
                    thread_name,
                    src_file,
                    src_line,
                    time,
                ),
            )
        } else {
            None
        }
    }

    /// The record an event callback emits: always one regular record, with
    /// the visited fields in order.
    pub fn record_on_event(
        &self,
        fields: FieldList,
        level: Level,
        target: String,
        stack: &SpanList,
        thread_id: Option<u64>,
        thread_name: Option<String>,
        src_file: Option<String>,
        src_line: Option<u32>,
        time: Option<UnixTime>,
    ) -> (r: Event)
        requires
            stack.wf(),
        ensures
            r@.kind == crate::event::KindModel::Event(crate::value::fields_view(fields)),
            r@.spans == group_spans(stack@),
            r@.level == level,
            r@.target == target@,
    {
        self.make_event(
            EventKind::Event(fields),
            level,
            target,
            stack,
            thread_id,
            thread_name,
            src_file,
            src_line,
            time,
        )
    }

    /// The record a span-entry callback emits: one `SpanEnter` record
    /// exactly when the entry bit is set.
    pub fn record_on_enter(
        &self,
        level: Level,
        target: String,
        stack: &SpanList,
        thread_id: Option<u64>,
        thread_name: Option<String>,
        src_file: Option<String>,
        src_line: Option<u32>,
        time: Option<UnixTime>,
    ) -> (r: Option<Event>)
        requires
            stack.wf(),
        ensures
            r is Some <==> self.wants_span_enter(),
            r matches Some(e) ==> e@.kind == crate::event::KindModel::SpanEnter && e@.spans
                == group_spans(stack@) && e@.level == level && e@.target == target@,
    {
        if self.record_span_enter {
            Some(
                self.make_event(
                    EventKind::SpanEnter,
                    level,
                    target,
                    stack,
                    thread_id,
                    thread_name,
                    src_file,
                    src_line,
                    time,
                ),
            )
        } else {
            None
        }
    }

    /// The record a span-exit callback emits: one `SpanExit` record exactly
    /// when the exit bit is set. The stack handed in ends with the exiting
    /// span's fragment.
    pub fn record_on_exit(
        &self,
        level: Level,
        target: String,
        stack: &SpanList,
        thread_id: Option<u64>,
        thread_name: Option<String>,
        src_file: Option<String>,
        src_line: Option<u32>,
        time: Option<UnixTime>,
    ) -> (r: Option<Event>)
        requires
            stack.wf(),
        ensures
            r is Some <==> self.wants_span_exit(),
            r matches Some(e) ==> e@.kind == crate::event::KindModel::SpanExit && e@.spans
                == group_spans(stack@) && e@.level == level && e@.target == target@,
    {
        if self.record_span_exit {
            Some(
                self.make_event(
                    EventKind::SpanExit,
                    level,
                    target,
                    stack,
                    thread_id,
                    thread_name,
                    src_file,
                    src_line,
                    time,
                ),
            )
        } else {
            None
        }
    }

    /// The record a span-close callback emits: one `SpanClose` record
    /// exactly when the close flag is on, carrying the timer's counters
    /// exactly when span timing is on.
    pub fn record_on_close(
        &self,
        times: Option<SpanTime>,
        level: Level,
        target: String,
        stack: &SpanList,
        thread_id: Option<u64>,
        thread_name: Option<String>,
        src_file: Option<String>,
        src_line: Option<u32>,
        time: Option<UnixTime>,
    ) -> (r: Option<Event>)
        requires
            stack.wf(),
        ensures
            r is Some <==> self.wants_span_close(),
            r matches Some(e) ==> e@.kind == crate::event::KindModel::SpanClose(
                if self.times_spans() {
                    times
                } else {
                    None
                },
            ) && e@.spans == group_spans(stack@) && e@.level == level && e@.target == target@,
    {
        if self.record_span_close {
            let carried = if self.time_spans {
                times
            } else {
                None
            };
            Some(
                self.make_event(
                    EventKind::SpanClose(carried),
                    level,
                    target,
                    stack,
                    thread_id,
                    thread_name,
                    src_file,
                    src_line,
                    time,
                ),
            )
        } else {
            None
        }
    }

    /// Serialize a record and hand it to the writer. A failed write is
    /// swallowed: losing a log line must not abort the program.
    pub fn emit(&self, event: &Event) {
        let _ = self.writer.write(&self.fmt, event);
    }
}

} // verus!

//! The event record: the top-level value one serialized record describes.
use vstd::prelude::*;
use crate::level::Level;
use crate::span::{Span, SpanModel};
use crate::time::{SpanTime, UnixTime};
use crate::value::{FieldList, FieldModel, fields_view, same_fields};

verus! {

/// The model of an event kind.
pub enum KindModel {
    Event(Seq<FieldModel>),
    SpanCreate,
    SpanClose(Option<SpanTime>),
    SpanEnter,
    SpanExit,
}

/// The type of event which occurred.
#[derive(Debug, Clone)]
pub enum EventKind {
    /// A regular tracing event, with its fields in visit order. A message
    /// handed to the host framework appears as the field named `message`.
    Event(FieldList),
    /// A synthesised event marking the creation of a span.
    SpanCreate,
    /// A synthesised event marking the destruction of a span, carrying the
    /// busy and idle times when span timing was enabled.
    SpanClose(Option<SpanTime>),
    /// A synthesised event produced when a span is (re-)entered.
    SpanEnter,
    /// A synthesised event produced when a span is exited.
    SpanExit,
}

impl View for EventKind {
    type V = KindModel;

    open spec fn view(&self) -> KindModel {
        match self {
            EventKind::Event(fields) => KindModel::Event(fields_view(*fields)),
            EventKind::SpanCreate => KindModel::SpanCreate,
            EventKind::SpanClose(t) => KindModel::SpanClose(*t),
            EventKind::SpanEnter => KindModel::SpanEnter,
            EventKind::SpanExit => KindModel::SpanExit,
        }
    }
}

impl EventKind {
    /// Pointwise equality, fields in order, floats bit-exact.
    pub fn same_as(&self, other: &EventKind) -> (r: bool)
        ensures
            r == (self@ == other@),
    {
        match (self, other) {
            (EventKind::Event(a), EventKind::Event(b)) => same_fields(a, b),
            (EventKind::SpanCreate, EventKind::SpanCreate) => true,
            (EventKind::SpanClose(a), EventKind::SpanClose(b)) => match (a, b) {
                (Some(x), Some(y)) => x.busy == y.busy && x.idle == y.idle,
                (None, None) => true,
                _ => false,
            },
            (EventKind::SpanEnter, EventKind::SpanEnter) => true,
            (EventKind::SpanExit, EventKind::SpanExit) => true,
            _ => false,
        }
    }
}

/// The model of an event record.
pub struct EventModel {
    pub kind: KindModel,
    pub level: Level,
    pub spans: Seq<SpanModel>,
    pub target: Seq<char>,
    pub thread_id: Option<u64>,
    pub thread_name: Option<Seq<char>>,
    pub src_line: Option<u32>,
    pub src_file: Option<Seq<char>>,
    pub time: Option<UnixTime>,
}

/// A (de)serializable tracing event: the top-level record.
#[derive(Debug, Clone)]
pub struct Event {
    /// The type of event; a regular event carries its fields here.
    pub kind: EventKind,
    /// The log level of the event or span.
    pub level: Level,
    /// The stack of spans in which the event occurred, outermost first.
    /// For a synthesised span event the last element is the span that was
    /// created, destroyed, entered or exited.
    pub spans: Vec<Span>,
    /// Target of the event, by default the module path where it occurred.
    pub target: String,
    /// Id of the thread that produced the event; never zero when present.
    pub thread_id: Option<u64>,
    /// Name of the thread that produced the event.
    pub thread_name: Option<String>,
    /// Line in the source file where the event was produced.
    pub src_line: Option<u32>,
    /// The source file where the event was produced.
    pub src_file: Option<String>,
    /// The timestamp of the event.
    pub time: Option<UnixTime>,
}

/// The model of an optional string.
pub open spec fn opt_str_view(o: Option<String>) -> Option<Seq<char>> {
    match o {
        Some(s) => Some(s@),
        None => None,
    }
}

impl View for Event {
    type V = EventModel;

    open spec fn view(&self) -> EventModel {
        EventModel {
            kind: self.kind@,
            level: self.level,
            spans: self.spans@.map_values(|s: Span| s@),
            target: self.target@,
            thread_id: self.thread_id,
            thread_name: opt_str_view(self.thread_name),
            src_line: self.src_line,
            src_file: opt_str_view(self.src_file),
            time: self.time,
        }
    }
}

/// Equality of two optional strings by their text.
fn same_opt_str(a: &Option<String>, b: &Option<String>) -> (r: bool)
    ensures
        r == (opt_str_view(*a) == opt_str_view(*b)),
{
    match (a, b) {
        (Some(x), Some(y)) => x.eq(y),
        (None, None) => true,
        _ => false,
    }
}

/// Pointwise equality of two events: kind, level, target, time, thread id
/// and name, source location, and spans compared element by element (name,
/// id, ordered fields), floats bit-exact.
pub fn eq_event(a: &Event, b: &Event) -> (r: bool)
    ensures
        r == (a@ == b@),
{
    if !a.kind.same_as(&b.kind) {
        return false;
    }
    if !(a.level == b.level) {
        return false;
    }
    if !a.target.eq(&b.target) {
        return false;
    }
    let tid_eq = match (a.thread_id, b.thread_id) {
        (Some(x), Some(y)) => x == y,
        (None, None) => true,
        _ => false,
    };
    if !tid_eq {
        return false;
    }
    if !same_opt_str(&a.thread_name, &b.thread_name) {
        return false;
    }
    let srl_eq = match (a.src_line, b.src_line) {
        (Some(x), Some(y)) => x == y,
        (None, None) => true,
        _ => false,
    };
    if !srl_eq {
        return false;
    }
    if !same_opt_str(&a.src_file, &b.src_file) {
        return false;
    }
    let time_eq = match (a.time, b.time) {
        (Some(x), Some(y)) => x.seconds == y.seconds && x.nanos == y.nanos,
        (None, None) => true,
        _ => false,
    };
    if !time_eq {
        return false;
    }
    if a.spans.len() != b.spans.len() {
        proof {
            assert(a@.spans.len() != b@.spans.len());
        }
        return false;
    }
    let n = a.spans.len();
    for i in 0..n
        invariant
            n == a.spans.len() == b.spans.len(),
            forall|j: int| 0 <= j < i ==> a@.spans[j] == b@.spans[j],
    {
        if !a.spans[i].same_as(&b.spans[i]) {
            proof {
                assert(a@.spans[i as int] != b@.spans[i as int]);
            }
            return false;
        }
    }
    proof {
        assert(a@.spans =~= b@.spans);
    }
    true
}

} // verus!

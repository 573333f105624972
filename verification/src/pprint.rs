//! A pretty printer over typed records, without the colour codes.
//!
//! Each record renders as a five-letter level tag, the record's own line
//! (the message and fields of a regular record, or the affected span and an
//! action verb for a synthesised one), one continuation line per remaining
//! span from innermost to outermost up to a configured cap, and an optional
//! trailing line with the target and source location. Span ids, when shown,
//! pass through a three-round multiply-and-shift mixer and render as twelve
//! base64 characters of the mixed value's first nine big-endian bytes.
use vstd::prelude::*;
use vstd::string::StrSliceExecFns;
use crate::dec::dec_digits;
use crate::event::{Event, EventKind, KindModel};
use crate::span::{Span, SpanModel};
use crate::value::{FieldValue, FieldModel, ValueModel};

verus! {

/// The base64 alphabet.
pub open spec fn b64_alphabet() -> Seq<char> {
    "ABCDEFGHIJKLMNOPQRSTUVWXYZabcdefghijklmnopqrstuvwxyz0123456789+/"@
}

/// One round of the mixer: xor with a right shift, then a wrapping
/// multiply.
pub open spec fn mix_round(x: u64, sh: u64, m: int) -> u64 {
    ((((x ^ (x >> sh)) as int) * m) % 0x1_0000_0000_0000_0000) as u64
}

/// The mixed form of a span id: three multiply-and-shift rounds.
pub open spec fn mix64(id: u64) -> u64 {
    let a = mix_round(id, 30, 0xbf58476d1ce4e5b9);
    let b = mix_round(a, 27, 0x94d049bb133111eb);
    (b ^ (b >> 31)) as u64
}

/// The big-endian byte of a 64-bit value at an index from the left.
pub open spec fn be_byte(x: u64, i: int) -> int {
    ((x >> ((56 - 8 * i) as u64)) & 0xff) as int
}

/// The four base64 characters of one 24-bit group.
pub open spec fn b64_group(x: int) -> Seq<char> {
    seq![
        b64_alphabet()[x / 262144],
        b64_alphabet()[(x / 4096) % 64],
        b64_alphabet()[(x / 64) % 64],
        b64_alphabet()[x % 64],
    ]
}

/// The twelve characters a span id renders as: the mixed value's eight
/// big-endian bytes and one zero byte, base64 encoded.
pub open spec fn span_id_chars(id: u64) -> Seq<char> {
    let m = mix64(id);
    b64_group(be_byte(m, 0) * 65536 + be_byte(m, 1) * 256 + be_byte(m, 2)) + b64_group(
        be_byte(m, 3) * 65536 + be_byte(m, 4) * 256 + be_byte(m, 5),
    ) + b64_group(be_byte(m, 6) * 65536 + be_byte(m, 7) * 256)
}

/// One character of the base64 alphabet.
fn b64_char(v: u64) -> (c: char)
    requires
        v < 64,
    ensures
        c == b64_alphabet()[v as int],
{
    proof {
        reveal_strlit("ABCDEFGHIJKLMNOPQRSTUVWXYZabcdefghijklmnopqrstuvwxyz0123456789+/");
    }
    "ABCDEFGHIJKLMNOPQRSTUVWXYZabcdefghijklmnopqrstuvwxyz0123456789+/".get_char(v as usize)
}

/// Append the four characters of one 24-bit group.
fn push_b64_group(out: &mut Vec<char>, x: u64)
    requires
        x < 0x1000000,
    ensures
        final(out)@ == old(out)@ + b64_group(x as int),
{
    let ghost pre = out@;
    out.push(b64_char(x / 262144));
    out.push(b64_char((x / 4096) % 64));
    out.push(b64_char((x / 64) % 64));
    out.push(b64_char(x % 64));
    proof {
        assert(out@ =~= pre + b64_group(x as int));
    }
}

/// Mix a span id and append its twelve base64 characters.
pub fn push_span_id(out: &mut Vec<char>, id: u64)
    ensures
        final(out)@ == old(out)@ + span_id_chars(id),
{
    let ghost pre = out@;
    let a = (id ^ (id >> 30u64)).wrapping_mul(0xbf58476d1ce4e5b9);
    let b = (a ^ (a >> 27u64)).wrapping_mul(0x94d049bb133111eb);
    let m = b ^ (b >> 31u64);
    proof {
        assert(m == mix64(id));
    }
    let b0 = (m >> 56u64) & 0xff;
    let b1 = (m >> 48u64) & 0xff;
    let b2 = (m >> 40u64) & 0xff;
    let b3 = (m >> 32u64) & 0xff;
    let b4 = (m >> 24u64) & 0xff;
    let b5 = (m >> 16u64) & 0xff;
    let b6 = (m >> 8u64) & 0xff;
    let b7 = (m >> 0u64) & 0xff;
    proof {
        assert(b0 < 256 && b1 < 256 && b2 < 256 && b3 < 256 && b4 < 256 && b5 < 256 && b6 < 256
            && b7 < 256) by (bit_vector)
            requires
                b0 == (m >> 56u64) & 0xff && b1 == (m >> 48u64) & 0xff && b2 == (m >> 40u64) & 0xff
                    && b3 == (m >> 32u64) & 0xff && b4 == (m >> 24u64) & 0xff && b5 == (m >> 16u64)
                    & 0xff && b6 == (m >> 8u64) & 0xff && b7 == (m >> 0u64) & 0xff,
        ;
    }
    push_b64_group(out, b0 * 65536 + b1 * 256 + b2);
    push_b64_group(out, b3 * 65536 + b4 * 256 + b5);
    push_b64_group(out, b6 * 65536 + b7 * 256);
    proof {
        assert(out@ =~= pre + span_id_chars(id));
    }
}

/// Configuration of pretty formatting.
#[derive(Debug, Copy, Clone)]
pub struct PrettyPrinter {
    /// Show the source file and line.
    pub source: bool,
    /// Show the record's target.
    pub target: bool,
    /// Show busy and idle times on close records.
    pub span_times: bool,
    /// How many spans of the stack to show at most.
    pub limit_spans: usize,
    /// Show mixed span ids.
    pub span_ids: bool,
}

impl Default for PrettyPrinter {
    /// Source, target and times shown; ids hidden; no cap on spans.
    fn default() -> (r: PrettyPrinter)
        ensures
            r.source && r.target && r.span_times && !r.span_ids,
            r.limit_spans == usize::MAX,
    {
        PrettyPrinter {
            source: true,
            target: true,
            span_times: true,
            span_ids: false,
            limit_spans: usize::MAX,
        }
    }
}

impl PrettyPrinter {
    /// Cap the number of spans printed per record; the innermost come
    /// first.
    pub fn limit_spans(self, limit: usize) -> (r: PrettyPrinter)
        ensures
            r == (PrettyPrinter { limit_spans: limit, ..self }),
    {
        PrettyPrinter { limit_spans: limit, ..self }
    }

    /// Show or hide source locations.
    pub fn show_source(self, on: bool) -> (r: PrettyPrinter)
        ensures
            r == (PrettyPrinter { source: on, ..self }),
    {
        PrettyPrinter { source: on, ..self }
    }

    /// Show or hide mixed span ids.
    pub fn show_span_ids(self, on: bool) -> (r: PrettyPrinter)
        ensures
            r == (PrettyPrinter { span_ids: on, ..self }),
    {
        PrettyPrinter { span_ids: on, ..self }
    }

    /// Show or hide the target.
    pub fn show_target(self, on: bool) -> (r: PrettyPrinter)
        ensures
            r == (PrettyPrinter { target: on, ..self }),
    {
        PrettyPrinter { target: on, ..self }
    }

    /// Show or hide busy and idle times on close records.
    pub fn show_span_times(self, on: bool) -> (r: PrettyPrinter)
        ensures
            r == (PrettyPrinter { span_times: on, ..self }),
    {
        PrettyPrinter { span_times: on, ..self }
    }
}

/// The five-letter tag of a level.
pub open spec fn level_tag(l: crate::level::Level) -> Seq<char> {
    match l {
        crate::level::Level::Trace => "TRACE"@,
        crate::level::Level::Debug => "DEBUG"@,
        crate::level::Level::Info => " INFO"@,
        crate::level::Level::Warn => " WARN"@,
        crate::level::Level::Error => "ERROR"@,
    }
}

/// A field value as shown: strings bare, numbers in their wire text.
pub open spec fn pretty_value(v: ValueModel) -> Seq<char> {
    match v {
        ValueModel::Str(s) => s,
        _ => crate::json::json_of_value(v),
    }
}

/// Fields as shown: `name= value`, comma separated.
pub open spec fn pretty_fields(fs: Seq<FieldModel>) -> Seq<char>
    decreases fs.len(),
{
    if fs.len() == 0 {
        Seq::empty()
    } else if fs.len() == 1 {
        fs[0].0 + "= "@ + pretty_value(fs[0].1)
    } else {
        fs[0].0 + "= "@ + pretty_value(fs[0].1) + ", "@ + pretty_fields(fs.skip(1))
    }
}

/// A span as shown: its mixed id when enabled, its name, its fields in
/// braces.
pub open spec fn pretty_span(p: PrettyPrinter, sp: SpanModel) -> Seq<char> {
    (if p.span_ids {
        match sp.id {
            Some(id) => span_id_chars(id) + seq![' '],
            None => Seq::empty(),
        }
    } else {
        Seq::empty()
    }) + sp.name + seq!['{'] + pretty_fields(sp.fields) + seq!['}']
}

/// Append a field value as shown.
fn push_pretty_value(out: &mut Vec<char>, v: &FieldValue)
    ensures
        final(out)@ == old(out)@ + pretty_value(v@),
{
    match v {
        FieldValue::Str(s) => {
            crate::strio::push_lit(out, s.as_str());
        },
        _ => {
            crate::json::push_value(out, v);
        },
    }
}

/// Append fields as shown.
fn push_pretty_fields(out: &mut Vec<char>, fs: &Vec<(String, FieldValue)>, from: usize)
    requires
        from <= fs@.len(),
    ensures
        final(out)@ == old(out)@ + pretty_fields(crate::value::fields_view(*fs).skip(from as int)),
    decreases fs@.len() - from,
{
    let ghost pre = out@;
    let ghost model = crate::value::fields_view(*fs).skip(from as int);
    if from == fs.len() {
        proof {
            assert(out@ =~= pre + pretty_fields(model));
        }
        return ;
    }
    crate::strio::push_lit(out, fs[from].0.as_str());
    crate::strio::push_lit(out, "= ");
    push_pretty_value(out, &fs[from].1);
    if from + 1 < fs.len() {
        crate::strio::push_lit(out, ", ");
        push_pretty_fields(out, fs, from + 1);
        proof {
            assert(model[0] == (fs@[from as int].0@, fs@[from as int].1@));
            assert(model.skip(1) =~= crate::value::fields_view(*fs).skip(from + 1));
            assert(out@ =~= pre + pretty_fields(model));
        }
    } else {
        proof {
            assert(model.len() == 1);
            assert(model[0] == (fs@[from as int].0@, fs@[from as int].1@));
            assert(out@ =~= pre + pretty_fields(model));
        }
    }
}

/// Append a span as shown.
fn push_pretty_span(out: &mut Vec<char>, p: &PrettyPrinter, sp: &Span)
    ensures
        final(out)@ == old(out)@ + pretty_span(*p, sp@),
{
    let ghost pre = out@;
    if p.span_ids {
        match sp.id {
            Some(id) => {
                push_span_id(out, id);
                out.push(' ');
            },
            None => {},
        }
    }
    crate::strio::push_lit(out, sp.name.as_str());
    out.push('{');
    push_pretty_fields(out, &sp.fields, 0);
    out.push('}');
    proof {
        assert(crate::value::fields_view(sp.fields).skip(0) =~= crate::value::fields_view(
            sp.fields,
        ));
        assert(out@ =~= pre + pretty_span(*p, sp@));
    }
}

/// The first field named `message`, if any, at or after an index.
pub open spec fn find_message(fs: Seq<FieldModel>, from: int) -> Option<ValueModel>
    decreases fs.len() - from,
    when 0 <= from <= fs.len()
{
    if from == fs.len() {
        None
    } else if fs[from].0 == "message"@ {
        Some(fs[from].1)
    } else {
        find_message(fs, from + 1)
    }
}

/// Whether any field at or after an index is not named `message`.
pub open spec fn has_plain_field(fs: Seq<FieldModel>, from: int) -> bool
    decreases fs.len() - from,
    when 0 <= from <= fs.len()
{
    if from == fs.len() {
        false
    } else if fs[from].0 == "message"@ {
        has_plain_field(fs, from + 1)
    } else {
        true
    }
}

/// The fields other than `message`, joined with commas; `first` says
/// whether a separator is still owed.
pub open spec fn pretty_plain_fields(fs: Seq<FieldModel>, from: int, first: bool) -> Seq<char>
    decreases fs.len() - from,
    when 0 <= from <= fs.len()
{
    if from == fs.len() {
        Seq::empty()
    } else if fs[from].0 == "message"@ {
        pretty_plain_fields(fs, from + 1, first)
    } else {
        (if first {
            Seq::<char>::empty()
        } else {
            ", "@
        }) + fs[from].0 + "= "@ + pretty_value(fs[from].1) + pretty_plain_fields(
            fs,
            from + 1,
            false,
        )
    }
}

/// The line a regular record renders after its tag: its message first when
/// it has one, the other fields on a continuation line.
pub open spec fn pretty_event_head(fs: Seq<FieldModel>) -> Seq<char> {
    match find_message(fs, 0) {
        Some(v) => pretty_value(v) + (if has_plain_field(fs, 0) {
            "\n  | "@ + pretty_plain_fields(fs, 0, true)
        } else {
            Seq::<char>::empty()
        }) + seq!['\n'],
        None => pretty_fields(fs) + seq!['\n'],
    }
}

/// The verb of a synthesised record.
pub open spec fn kind_verb(k: KindModel) -> Seq<char> {
    match k {
        KindModel::SpanCreate => "create"@,
        KindModel::SpanEnter => "enter"@,
        KindModel::SpanExit => "exit"@,
        _ => "close"@,
    }
}

/// The line a synthesised record renders after its tag: the affected span
/// when one is shown, the verb, and for a timed close its counters.
pub open spec fn pretty_span_head(p: PrettyPrinter, em: crate::event::EventModel) -> Seq<char> {
    (if em.spans.len() > 0 && p.limit_spans > 0 {
        pretty_span(p, em.spans.last()) + seq![' ']
    } else {
        Seq::<char>::empty()
    }) + kind_verb(em.kind) + (match em.kind {
        KindModel::SpanClose(Some(t)) => if p.span_times {
            ": "@ + dec_digits(t.busy as int) + "ns busy, "@ + dec_digits(t.idle as int)
                + "ns idle"@
        } else {
            Seq::<char>::empty()
        },
        _ => Seq::<char>::empty(),
    }) + seq!['\n']
}

/// The continuation lines of the remaining spans, innermost first: `k`
/// counts from the innermost, `remaining` is what the cap still allows.
pub open spec fn pretty_ctx(
    p: PrettyPrinter,
    ss: Seq<SpanModel>,
    k: int,
    remaining: int,
) -> Seq<char>
    decreases ss.len() - k,
    when 0 <= k <= ss.len()
{
    if k == ss.len() || remaining <= 0 {
        Seq::empty()
    } else {
        "  | in "@ + pretty_span(p, ss[ss.len() - 1 - k]) + seq!['\n'] + pretty_ctx(
            p,
            ss,
            k + 1,
            remaining - 1,
        )
    }
}

/// The trailing line with the target and the source location, when either
/// is shown.
pub open spec fn pretty_tail(p: PrettyPrinter, em: crate::event::EventModel) -> Seq<char> {
    if p.target || p.source {
        "  | "@ + (if p.target {
            "target "@ + em.target + seq![' ']
        } else {
            Seq::<char>::empty()
        }) + (if p.source {
            match em.src_file {
                Some(f) => "at "@ + f + (match em.src_line {
                    Some(l) => seq![':'] + dec_digits(l as int),
                    None => Seq::<char>::empty(),
                }),
                None => Seq::<char>::empty(),
            }
        } else {
            Seq::<char>::empty()
        }) + seq!['\n']
    } else {
        Seq::empty()
    }
}

/// Everything a record renders as.
pub open spec fn pretty_event(p: PrettyPrinter, em: crate::event::EventModel) -> Seq<char> {
    level_tag(em.level) + ": "@ + (match em.kind {
        KindModel::Event(fs) => pretty_event_head(fs) + pretty_ctx(
            p,
            em.spans,
            0,
            p.limit_spans as int,
        ),
        _ => pretty_span_head(p, em) + (if em.spans.len() > 0 && p.limit_spans > 0 {
            pretty_ctx(p, em.spans, 1, p.limit_spans - 1)
        } else {
            pretty_ctx(p, em.spans, 0, p.limit_spans as int)
        }),
    }) + pretty_tail(p, em)
}

/// Append the fields other than `message`, from an index on.
fn push_plain_fields(
    out: &mut Vec<char>,
    fs: &Vec<(String, FieldValue)>,
    from: usize,
    first: bool,
)
    requires
        from <= fs@.len(),
    ensures
        final(out)@ == old(out)@ + pretty_plain_fields(
            crate::value::fields_view(*fs),
            from as int,
            first,
        ),
    decreases fs@.len() - from,
{
    let ghost pre = out@;
    let ghost model = crate::value::fields_view(*fs);
    if from == fs.len() {
        proof {
            assert(out@ =~= pre + pretty_plain_fields(model, from as int, first));
        }
        return ;
    }
    if crate::strio::string_is(&fs[from].0, "message") {
        push_plain_fields(out, fs, from + 1, first);
        proof {
            assert(model[from as int].0 == "message"@);
            assert(out@ =~= pre + pretty_plain_fields(model, from as int, first));
        }
    } else {
        if !first {
            crate::strio::push_lit(out, ", ");
        }
        crate::strio::push_lit(out, fs[from].0.as_str());
        crate::strio::push_lit(out, "= ");
        push_pretty_value(out, &fs[from].1);
        push_plain_fields(out, fs, from + 1, false);
        proof {
            assert(model[from as int] == (fs@[from as int].0@, fs@[from as int].1@));
            assert(out@ =~= pre + pretty_plain_fields(model, from as int, first));
        }
    }
}

/// The first `message` field, if any, from an index on.
fn find_message_field(fs: &Vec<(String, FieldValue)>, from: usize) -> (r: Option<FieldValue>)
    requires
        from <= fs@.len(),
    ensures
        match r {
            Some(v) => find_message(crate::value::fields_view(*fs), from as int) == Some(v@),
            None => find_message(crate::value::fields_view(*fs), from as int) is None,
        },
    decreases fs@.len() - from,
{
    let ghost model = crate::value::fields_view(*fs);
    if from == fs.len() {
        return None;
    }
    if crate::strio::string_is(&fs[from].0, "message") {
        proof {
            assert(model[from as int] == (fs@[from as int].0@, fs@[from as int].1@));
        }
        return Some(fs[from].1.clone_value());
    }
    proof {
        assert(model[from as int].0 == fs@[from as int].0@);
    }
    find_message_field(fs, from + 1)
}

/// Whether any field from an index on is not named `message`.
fn has_plain_field_exec(fs: &Vec<(String, FieldValue)>, from: usize) -> (r: bool)
    requires
        from <= fs@.len(),
    ensures
        r == has_plain_field(crate::value::fields_view(*fs), from as int),
    decreases fs@.len() - from,
{
    let ghost model = crate::value::fields_view(*fs);
    if from == fs.len() {
        return false;
    }
    proof {
        assert(model[from as int].0 == fs@[from as int].0@);
    }
    if crate::strio::string_is(&fs[from].0, "message") {
        has_plain_field_exec(fs, from + 1)
    } else {
        true
    }
}

/// Append the continuation lines of the remaining spans.
fn push_ctx(
    out: &mut Vec<char>,
    p: &PrettyPrinter,
    spans: &Vec<Span>,
    k: usize,
    remaining: usize,
)
    requires
        k <= spans@.len(),
    ensures
        final(out)@ == old(out)@ + pretty_ctx(
            *p,
            spans@.map_values(|s: Span| s@),
            k as int,
            remaining as int,
        ),
    decreases spans@.len() - k,
{
    let ghost pre = out@;
    let ghost model = spans@.map_values(|s: Span| s@);
    if k == spans.len() || remaining == 0 {
        proof {
            assert(out@ =~= pre + pretty_ctx(*p, model, k as int, remaining as int));
        }
        return ;
    }
    crate::strio::push_lit(out, "  | in ");
    push_pretty_span(out, p, &spans[spans.len() - 1 - k]);
    out.push('\n');
    push_ctx(out, p, spans, k + 1, remaining - 1);
    proof {
        assert(model[model.len() - 1 - k] == spans@[spans@.len() - 1 - k as int]@);
        assert(out@ =~= pre + pretty_ctx(*p, model, k as int, remaining as int));
    }
}

/// Append the line a regular record renders after its tag.
fn push_regular_head(out: &mut Vec<char>, fs: &Vec<(String, FieldValue)>)
    ensures
        final(out)@ == old(out)@ + pretty_event_head(crate::value::fields_view(*fs)),
{
    let ghost pre = out@;
    match find_message_field(fs, 0) {
        Some(v) => {
            push_pretty_value(out, &v);
            if has_plain_field_exec(fs, 0) {
                crate::strio::push_lit(out, "\n  | ");
                push_plain_fields(out, fs, 0, true);
            }
            out.push('\n');
        },
        None => {
            push_pretty_fields(out, fs, 0);
            out.push('\n');
            proof {
                assert(crate::value::fields_view(*fs).skip(0) =~= crate::value::fields_view(*fs));
            }
        },
    }
    proof {
        assert(out@ =~= pre + pretty_event_head(crate::value::fields_view(*fs)));
    }
}

/// Append the line a synthesised record renders after its tag.
fn push_synth_head(out: &mut Vec<char>, p: &PrettyPrinter, e: &Event)
    requires
        !(e.kind is Event),
    ensures
        final(out)@ == old(out)@ + pretty_span_head(*p, e@),
{
    let ghost pre = out@;
    if e.spans.len() > 0 && p.limit_spans > 0 {
        push_pretty_span(out, p, &e.spans[e.spans.len() - 1]);
        out.push(' ');
        proof {
            assert(e.spans@.map_values(|s: Span| s@).last() == e.spans@[e.spans@.len() - 1]@);
        }
    }
    match &e.kind {
        EventKind::SpanCreate => crate::strio::push_lit(out, "create"),
        EventKind::SpanEnter => crate::strio::push_lit(out, "enter"),
        EventKind::SpanExit => crate::strio::push_lit(out, "exit"),
        _ => crate::strio::push_lit(out, "close"),
    }
    match &e.kind {
        EventKind::SpanClose(Some(t)) => {
            if p.span_times {
                crate::strio::push_lit(out, ": ");
                crate::dec::push_u64(out, t.busy);
                crate::strio::push_lit(out, "ns busy, ");
                crate::dec::push_u64(out, t.idle);
                crate::strio::push_lit(out, "ns idle");
            }
        },
        _ => {},
    }
    out.push('\n');
    proof {
        assert(out@ =~= pre + pretty_span_head(*p, e@));
    }
}

/// Append the trailing line with the target and the source location.
fn push_tail(out: &mut Vec<char>, p: &PrettyPrinter, e: &Event)
    ensures
        final(out)@ == old(out)@ + pretty_tail(*p, e@),
{
    let ghost pre = out@;
    if p.target || p.source {
        crate::strio::push_lit(out, "  | ");
        if p.target {
            crate::strio::push_lit(out, "target ");
            crate::strio::push_lit(out, e.target.as_str());
            out.push(' ');
        }
        if p.source {
            match &e.src_file {
                Some(f) => {
                    crate::strio::push_lit(out, "at ");
                    crate::strio::push_lit(out, f.as_str());
                    match e.src_line {
                        Some(l) => {
                            out.push(':');
                            crate::dec::push_u64(out, l as u64);
                        },
                        None => {},
                    }
                },
                None => {},
            }
        }
        out.push('\n');
    }
    proof {
        assert(out@ =~= pre + pretty_tail(*p, e@));
    }
}

impl PrettyPrinter {
    /// Render one record as plain text, exactly as [`pretty_event`] lays it
    /// out.
    #[verifier::rlimit(100)]
    pub fn format_event(&self, e: &Event) -> (r: String)
        ensures
            r@ == pretty_event(*self, e@),
    {
        let mut out: Vec<char> = Vec::new();
        match e.level {
            crate::level::Level::Trace => crate::strio::push_lit(&mut out, "TRACE"),
            crate::level::Level::Debug => crate::strio::push_lit(&mut out, "DEBUG"),
            crate::level::Level::Info => crate::strio::push_lit(&mut out, " INFO"),
            crate::level::Level::Warn => crate::strio::push_lit(&mut out, " WARN"),
            crate::level::Level::Error => crate::strio::push_lit(&mut out, "ERROR"),
        }
        crate::strio::push_lit(&mut out, ": ");
        proof {
            assert(out@ =~= Seq::<char>::empty() + level_tag(e@.level) + ": "@);
        }
        match &e.kind {
            EventKind::Event(fs) => {
                push_regular_head(&mut out, fs);
                push_ctx(&mut out, self, &e.spans, 0, self.limit_spans);
            },
            _ => {
                push_synth_head(&mut out, self, e);
                if e.spans.len() > 0 && self.limit_spans > 0 {
                    push_ctx(&mut out, self, &e.spans, 1, self.limit_spans - 1);
                } else {
                    push_ctx(&mut out, self, &e.spans, 0, self.limit_spans);
                }
            },
        }
        push_tail(&mut out, self, e);
        proof {
            assert(out@ =~= pretty_event(*self, e@));
        }
        crate::strio::chars_to_string(&out)
    }
}

} // verus!

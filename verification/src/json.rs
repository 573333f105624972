//! The line-delimited JSON wire form of a record, and its verified writer.
//!
//! One record is one compact JSON object followed by a newline. Keys are
//! the short aliases (`ty`, `l`, `s`, `t`, `tid`, `tn`, `srl`, `srf`,
//! `tm`); optional fields are omitted when absent; field values are
//! untagged primitives. A finite float appears as its exact decimal
//! expansion — a plain JSON number, longer than the shortest form other
//! writers may choose but equal to it in value — and the non-finite ones
//! as the bare tokens `NaN`, `inf` and `-inf`, which scan back bit-exactly
//! where a `null` never could.
use vstd::prelude::*;
use crate::dec::dec_digits;
use crate::event::{Event, EventKind, EventModel, KindModel};
use crate::jstr::json_str;
use crate::level::Level;
use crate::span::{Span, SpanModel};
use crate::time::{SpanTime, UnixTime};
use crate::value::{FieldValue, FieldModel, ValueModel};

verus! {

/// The wire text of a signed integer.
pub open spec fn json_of_int(i: int) -> Seq<char> {
    if i < 0 {
        seq!['-'] + dec_digits(-i)
    } else {
        dec_digits(i)
    }
}

/// The wire text of one untagged field value.
pub open spec fn json_of_value(v: ValueModel) -> Seq<char> {
    match v {
        ValueModel::Bool(b) => if b {
            "true"@
        } else {
            "false"@
        },
        ValueModel::Int(i) => json_of_int(i as int),
        ValueModel::Float(bits) => crate::fdec::float_token(bits),
        ValueModel::Str(s) => json_str(s),
    }
}

/// One `"name":value` entry of a field map.
pub open spec fn json_of_field(f: FieldModel) -> Seq<char> {
    json_str(f.0) + seq![':'] + json_of_value(f.1)
}

/// The remaining entries of a field map, each preceded by a comma.
pub open spec fn json_of_fields_rest(fs: Seq<FieldModel>) -> Seq<char>
    decreases fs.len(),
{
    if fs.len() == 0 {
        Seq::empty()
    } else {
        seq![','] + json_of_field(fs[0]) + json_of_fields_rest(fs.skip(1))
    }
}

/// The wire text of a field map: entries in order, duplicates kept.
pub open spec fn json_of_fields(fs: Seq<FieldModel>) -> Seq<char> {
    if fs.len() == 0 {
        "{}"@
    } else {
        seq!['{'] + json_of_field(fs[0]) + json_of_fields_rest(fs.skip(1)) + seq!['}']
    }
}

/// The wire text of one span: its name, its id when present, its fields.
pub open spec fn json_of_span(sp: SpanModel) -> Seq<char> {
    "{\"n\":"@ + json_str(sp.name) + (match sp.id {
        Some(id) => ",\"i\":"@ + dec_digits(id as int),
        None => Seq::empty(),
    }) + ",\"f\":"@ + json_of_fields(sp.fields) + seq!['}']
}

/// The remaining spans of the stack, each preceded by a comma.
pub open spec fn json_of_spans_rest(ss: Seq<SpanModel>) -> Seq<char>
    decreases ss.len(),
{
    if ss.len() == 0 {
        Seq::empty()
    } else {
        seq![','] + json_of_span(ss[0]) + json_of_spans_rest(ss.skip(1))
    }
}

/// The wire text of the span stack, outermost first.
pub open spec fn json_of_spans(ss: Seq<SpanModel>) -> Seq<char> {
    if ss.len() == 0 {
        "[]"@
    } else {
        seq!['['] + json_of_span(ss[0]) + json_of_spans_rest(ss.skip(1)) + seq![']']
    }
}

/// The wire text of the busy and idle counters.
pub open spec fn json_of_span_time(t: SpanTime) -> Seq<char> {
    "{\"busy\":"@ + dec_digits(t.busy as int) + ",\"idle\":"@ + dec_digits(t.idle as int) + seq![
        '}',
    ]
}

/// The wire text of the event kind, externally tagged in snake case.
pub open spec fn json_of_kind(k: KindModel) -> Seq<char> {
    match k {
        KindModel::Event(fs) => "{\"event\":"@ + json_of_fields(fs) + seq!['}'],
        KindModel::SpanCreate => "\"span_create\""@,
        KindModel::SpanEnter => "\"span_enter\""@,
        KindModel::SpanExit => "\"span_exit\""@,
        KindModel::SpanClose(None) => "{\"span_close\":null}"@,
        KindModel::SpanClose(Some(t)) => "{\"span_close\":"@ + json_of_span_time(t) + seq!['}'],
    }
}

/// The wire text of a timestamp.
pub open spec fn json_of_time(t: UnixTime) -> Seq<char> {
    "{\"s\":"@ + dec_digits(t.seconds as int) + ",\"n\":"@ + dec_digits(t.nanos as int) + seq![
        '}',
    ]
}

/// The optional trailing fields of a record, in their fixed order, each
/// omitted when absent.
pub open spec fn json_of_options(e: EventModel) -> Seq<char> {
    (match e.thread_id {
        Some(tid) => ",\"tid\":"@ + dec_digits(tid as int),
        None => Seq::empty(),
    }) + (match e.thread_name {
        Some(tn) => ",\"tn\":"@ + json_str(tn),
        None => Seq::empty(),
    }) + (match e.src_line {
        Some(srl) => ",\"srl\":"@ + dec_digits(srl as int),
        None => Seq::empty(),
    }) + (match e.src_file {
        Some(srf) => ",\"srf\":"@ + json_str(srf),
        None => Seq::empty(),
    }) + (match e.time {
        Some(tm) => ",\"tm\":"@ + json_of_time(tm),
        None => Seq::empty(),
    })
}

/// The wire text of one whole record, without the trailing newline.
pub open spec fn json_of_event(e: EventModel) -> Seq<char> {
    "{\"ty\":"@ + json_of_kind(e.kind) + ",\"l\":"@ + dec_digits(e.level.rank() as int) + ",\"s\":"@
        + json_of_spans(e.spans) + ",\"t\":"@ + json_str(e.target) + json_of_options(e) + seq![
        '}',
    ]
}

/// The wire text of one record line: the record and a newline.
pub open spec fn json_line_of_event(e: EventModel) -> Seq<char> {
    json_of_event(e) + seq!['\n']
}

/// Appending one more field extends the tail entries by a comma and the
/// entry.
pub proof fn lemma_fields_rest_push(fs: Seq<FieldModel>, f: FieldModel)
    ensures
        json_of_fields_rest(fs.push(f)) == json_of_fields_rest(fs) + seq![','] + json_of_field(f),
    decreases fs.len(),
{
    if fs.len() == 0 {
        assert(fs.push(f)[0] == f);
        assert(fs.push(f).skip(1) =~= Seq::<FieldModel>::empty());
        assert(json_of_fields_rest(fs.push(f).skip(1)) =~= Seq::<char>::empty());
        assert(json_of_fields_rest(fs.push(f)) == seq![','] + json_of_field(fs.push(f)[0])
            + json_of_fields_rest(fs.push(f).skip(1)));
        assert(json_of_fields_rest(fs.push(f)) =~= seq![','] + json_of_field(f));
        assert(json_of_fields_rest(fs) =~= Seq::<char>::empty());
        assert(json_of_fields_rest(fs) + seq![','] + json_of_field(f) =~= seq![','] + json_of_field(
            f,
        ));
    } else {
        assert(fs.push(f).skip(1) =~= fs.skip(1).push(f));
        lemma_fields_rest_push(fs.skip(1), f);
        assert(json_of_fields_rest(fs.push(f)) =~= json_of_fields_rest(fs) + seq![',']
            + json_of_field(f));
    }
}

/// Appending one more span extends the tail entries by a comma and the
/// span.
pub proof fn lemma_spans_rest_push(ss: Seq<SpanModel>, sp: SpanModel)
    ensures
        json_of_spans_rest(ss.push(sp)) == json_of_spans_rest(ss) + seq![','] + json_of_span(sp),
    decreases ss.len(),
{
    if ss.len() == 0 {
        assert(ss.push(sp)[0] == sp);
        assert(ss.push(sp).skip(1) =~= Seq::<SpanModel>::empty());
        assert(json_of_spans_rest(ss.push(sp).skip(1)) =~= Seq::<char>::empty());
        assert(json_of_spans_rest(ss.push(sp)) == seq![','] + json_of_span(ss.push(sp)[0])
            + json_of_spans_rest(ss.push(sp).skip(1)));
        assert(json_of_spans_rest(ss.push(sp)) =~= seq![','] + json_of_span(sp));
        assert(json_of_spans_rest(ss) + seq![','] + json_of_span(sp) =~= seq![','] + json_of_span(
            sp,
        ));
    } else {
        assert(ss.push(sp).skip(1) =~= ss.skip(1).push(sp));
        lemma_spans_rest_push(ss.skip(1), sp);
        assert(json_of_spans_rest(ss.push(sp)) =~= json_of_spans_rest(ss) + seq![',']
            + json_of_span(sp));
    }
}

/// Append the wire text of one field value.
pub fn push_value(out: &mut Vec<char>, v: &FieldValue)
    ensures
        final(out)@ == old(out)@ + json_of_value(v@),
{
    let ghost pre = out@;
    match v {
        FieldValue::Bool(b) => {
            if *b {
                crate::strio::push_lit(out, "true");
            } else {
                crate::strio::push_lit(out, "false");
            }
        },
        FieldValue::Int(i) => {
            let i = *i;
            if i < 0 {
                out.push('-');
                let mag: u64 = if i == i64::MIN {
                    9223372036854775808u64
                } else {
                    (-i) as u64
                };
                crate::dec::push_u64(out, mag);
                proof {
                    assert(out@ =~= pre + json_of_int(i as int));
                }
            } else {
                crate::dec::push_u64(out, i as u64);
            }
        },
        FieldValue::Float(bits) => {
            crate::fdec::push_float(out, *bits);
        },
        FieldValue::Str(s) => {
            crate::jstr::push_json_str(out, s.as_str());
        },
    }
}

/// Append the wire text of a field map.
pub fn push_fields(out: &mut Vec<char>, fs: &Vec<(String, FieldValue)>)
    ensures
        final(out)@ == old(out)@ + json_of_fields(crate::value::fields_view(*fs)),
{
    let ghost pre = out@;
    let ghost model = crate::value::fields_view(*fs);
    out.push('{');
    let n = fs.len();
    if n == 0 {
        out.push('}');
        proof {
            reveal_strlit("{}");
            assert(out@ =~= pre + "{}"@);
        }
        return ;
    }
    crate::jstr::push_json_str(out, fs[0].0.as_str());
    out.push(':');
    push_value(out, &fs[0].1);
    proof {
        assert(model[0] == (fs[0].0@, fs[0].1@));
        assert(out@ =~= pre + seq!['{'] + json_of_field(model[0]));
    }
    for i in 1..n
        invariant
            n == fs@.len(),
            model == crate::value::fields_view(*fs),
            model.len() == n,
            out@ =~= pre + seq!['{'] + json_of_field(model[0]) + json_of_fields_rest(
                model.subrange(1, i as int),
            ),
        decreases n - i,
    {
        out.push(',');
        crate::jstr::push_json_str(out, fs[i].0.as_str());
        out.push(':');
        push_value(out, &fs[i].1);
        proof {
            assert(model[i as int] == (fs[i as int].0@, fs[i as int].1@));
            lemma_fields_rest_push(model.subrange(1, i as int), model[i as int]);
            assert(model.subrange(1, i as int).push(model[i as int]) =~= model.subrange(1, i + 1));
            assert(out@ =~= pre + seq!['{'] + json_of_field(model[0]) + (json_of_fields_rest(
                model.subrange(1, i as int),
            ) + seq![','] + json_of_field(model[i as int])));
        }
    }
    out.push('}');
    proof {
        assert(model.subrange(1, n as int) =~= model.skip(1));
        assert(out@ =~= pre + json_of_fields(model));
    }
}

/// Append the wire text of one span.
pub fn push_span(out: &mut Vec<char>, sp: &Span)
    ensures
        final(out)@ == old(out)@ + json_of_span(sp@),
{
    let ghost pre = out@;
    crate::strio::push_lit(out, "{\"n\":");
    crate::jstr::push_json_str(out, sp.name.as_str());
    match sp.id {
        Some(id) => {
            crate::strio::push_lit(out, ",\"i\":");
            crate::dec::push_u64(out, id);
        },
        None => {},
    }
    crate::strio::push_lit(out, ",\"f\":");
    push_fields(out, &sp.fields);
    out.push('}');
    proof {
        assert(out@ =~= pre + json_of_span(sp@));
    }
}

/// Append the wire text of the span stack.
pub fn push_spans(out: &mut Vec<char>, ss: &Vec<Span>)
    ensures
        final(out)@ == old(out)@ + json_of_spans(ss@.map_values(|s: Span| s@)),
{
    let ghost pre = out@;
    let ghost model = ss@.map_values(|s: Span| s@);
    out.push('[');
    let n = ss.len();
    if n == 0 {
        out.push(']');
        proof {
            reveal_strlit("[]");
            assert(out@ =~= pre + "[]"@);
        }
        return ;
    }
    push_span(out, &ss[0]);
    proof {
        assert(out@ =~= pre + seq!['['] + json_of_span(model[0]));
    }
    for i in 1..n
        invariant
            n == ss@.len(),
            model == ss@.map_values(|s: Span| s@),
            model.len() == n,
            out@ =~= pre + seq!['['] + json_of_span(model[0]) + json_of_spans_rest(
                model.subrange(1, i as int),
            ),
        decreases n - i,
    {
        out.push(',');
        push_span(out, &ss[i]);
        proof {
            lemma_spans_rest_push(model.subrange(1, i as int), model[i as int]);
            assert(model.subrange(1, i as int).push(model[i as int]) =~= model.subrange(1, i + 1));
            assert(out@ =~= pre + seq!['['] + json_of_span(model[0]) + (json_of_spans_rest(
                model.subrange(1, i as int),
            ) + seq![','] + json_of_span(model[i as int])));
        }
    }
    out.push(']');
    proof {
        assert(model.subrange(1, n as int) =~= model.skip(1));
        assert(out@ =~= pre + json_of_spans(model));
    }
}

/// Append the wire text of the busy and idle counters.
fn push_span_time(out: &mut Vec<char>, t: &SpanTime)
    ensures
        final(out)@ == old(out)@ + json_of_span_time(*t),
{
    let ghost pre = out@;
    crate::strio::push_lit(out, "{\"busy\":");
    crate::dec::push_u64(out, t.busy);
    crate::strio::push_lit(out, ",\"idle\":");
    crate::dec::push_u64(out, t.idle);
    out.push('}');
    proof {
        assert(out@ =~= pre + json_of_span_time(*t));
    }
}

/// Append the wire text of the event kind.
pub fn push_kind(out: &mut Vec<char>, k: &EventKind)
    ensures
        final(out)@ == old(out)@ + json_of_kind(k@),
{
    let ghost pre = out@;
    match k {
        EventKind::Event(fs) => {
            crate::strio::push_lit(out, "{\"event\":");
            push_fields(out, fs);
            out.push('}');
            proof {
                assert(out@ =~= pre + json_of_kind(k@));
            }
        },
        EventKind::SpanCreate => {
            crate::strio::push_lit(out, "\"span_create\"");
        },
        EventKind::SpanEnter => {
            crate::strio::push_lit(out, "\"span_enter\"");
        },
        EventKind::SpanExit => {
            crate::strio::push_lit(out, "\"span_exit\"");
        },
        EventKind::SpanClose(None) => {
            crate::strio::push_lit(out, "{\"span_close\":null}");
        },
        EventKind::SpanClose(Some(t)) => {
            crate::strio::push_lit(out, "{\"span_close\":");
            push_span_time(out, t);
            out.push('}');
            proof {
                assert(out@ =~= pre + json_of_kind(k@));
            }
        },
    }
}

/// Append the wire text of a timestamp.
fn push_time(out: &mut Vec<char>, t: &UnixTime)
    ensures
        final(out)@ == old(out)@ + json_of_time(*t),
{
    let ghost pre = out@;
    crate::strio::push_lit(out, "{\"s\":");
    crate::dec::push_u64(out, t.seconds);
    crate::strio::push_lit(out, ",\"n\":");
    crate::dec::push_u64(out, t.nanos as u64);
    out.push('}');
    proof {
        assert(out@ =~= pre + json_of_time(*t));
    }
}

/// Append the optional trailing fields of a record.
#[verifier::rlimit(100)]
fn push_options(out: &mut Vec<char>, e: &Event)
    ensures
        final(out)@ == old(out)@ + json_of_options(e@),
{
    let ghost pre = out@;
    match &e.thread_id {
        Some(tid) => {
            crate::strio::push_lit(out, ",\"tid\":");
            crate::dec::push_u64(out, *tid);
        },
        None => {},
    }
    let ghost o1 = (match e@.thread_id {
        Some(tid) => ",\"tid\":"@ + dec_digits(tid as int),
        None => Seq::<char>::empty(),
    });
    proof {
        assert(out@ =~= pre + o1);
    }
    match &e.thread_name {
        Some(tn) => {
            crate::strio::push_lit(out, ",\"tn\":");
            crate::jstr::push_json_str(out, tn.as_str());
        },
        None => {},
    }
    let ghost o2 = o1 + (match e@.thread_name {
        Some(tn) => ",\"tn\":"@ + json_str(tn),
        None => Seq::<char>::empty(),
    });
    proof {
        assert(out@ =~= pre + o2);
    }
    match &e.src_line {
        Some(srl) => {
            crate::strio::push_lit(out, ",\"srl\":");
            crate::dec::push_u64(out, *srl as u64);
        },
        None => {},
    }
    let ghost o3 = o2 + (match e@.src_line {
        Some(srl) => ",\"srl\":"@ + dec_digits(srl as int),
        None => Seq::<char>::empty(),
    });
    proof {
        assert(out@ =~= pre + o3);
    }
    match &e.src_file {
        Some(srf) => {
            crate::strio::push_lit(out, ",\"srf\":");
            crate::jstr::push_json_str(out, srf.as_str());
        },
        None => {},
    }
    let ghost o4 = o3 + (match e@.src_file {
        Some(srf) => ",\"srf\":"@ + json_str(srf),
        None => Seq::<char>::empty(),
    });
    proof {
        assert(out@ =~= pre + o4);
    }
    match &e.time {
        Some(tm) => {
            crate::strio::push_lit(out, ",\"tm\":");
            push_time(out, tm);
        },
        None => {},
    }
    let ghost o5 = o4 + (match e@.time {
        Some(tm) => ",\"tm\":"@ + json_of_time(tm),
        None => Seq::<char>::empty(),
    });
    proof {
        assert(out@ =~= pre + o5);
        assert(o5 =~= json_of_options(e@));
    }
}

/// Append one whole record line: the record object and a newline.
#[verifier::rlimit(100)]
pub fn push_event(out: &mut Vec<char>, e: &Event)
    ensures
        final(out)@ == old(out)@ + json_line_of_event(e@),
{
    let ghost pre = out@;
    crate::strio::push_lit(out, "{\"ty\":");
    push_kind(out, &e.kind);
    crate::strio::push_lit(out, ",\"l\":");
    crate::dec::push_u64(out, e.level.as_u8() as u64);
    crate::strio::push_lit(out, ",\"s\":");
    push_spans(out, &e.spans);
    crate::strio::push_lit(out, ",\"t\":");
    crate::jstr::push_json_str(out, e.target.as_str());
    let ghost head = "{\"ty\":"@ + json_of_kind(e.kind@) + ",\"l\":"@ + dec_digits(
        e.level.rank() as int,
    ) + ",\"s\":"@ + json_of_spans(e@.spans) + ",\"t\":"@ + json_str(e.target@);
    proof {
        assert(out@ =~= pre + head);
    }
    push_options(out, e);
    out.push('}');
    out.push('\n');
    proof {
        assert(out@ =~= (pre + head) + json_of_options(e@) + seq!['}'] + seq!['\n']);
        assert(out@ =~= pre + json_line_of_event(e@));
    }
}

/// Serialize one record to its JSON line.
pub fn event_to_json_line(e: &Event) -> (r: String)
    ensures
        r@ == json_line_of_event(e@),
{
    let mut out: Vec<char> = Vec::new();
    push_event(&mut out, e);
    proof {
        assert(Seq::<char>::empty() + json_line_of_event(e@) =~= json_line_of_event(e@));
    }
    crate::strio::chars_to_string(&out)
}

} // verus!

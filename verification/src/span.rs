//! The span-context engine.
//!
//! Per span the layer keeps a *fragment*: a flat ordered sequence of tagged
//! items, one `Start` with the span's name and optional id followed by one
//! `Field` per attribute. The current span stack is the concatenation of the
//! fragments from the root span to the innermost one; it is grouped back
//! into one [`Span`] per `Start` marker when a record is assembled.
use vstd::prelude::*;
use crate::value::{FieldValue, ValueModel, FieldList, FieldModel, fields_view, same_fields};

verus! {

/// The model of one item of a span fragment.
pub enum SpanItemModel {
    Start { name: Seq<char>, id: Option<u64> },
    Field { name: Seq<char>, val: ValueModel },
}

/// One item of a span fragment: a span header, or one field of the span
/// whose header most recently precedes it.
#[derive(Debug, Clone)]
pub enum SpanItem {
    /// The header of a span: its name, and its registry id when one was
    /// recorded (a registry id is never zero).
    Start { name: String, id: Option<u64> },
    /// One field of the preceding span.
    Field { name: String, val: FieldValue },
}

impl View for SpanItem {
    type V = SpanItemModel;

    open spec fn view(&self) -> SpanItemModel {
        match self {
            SpanItem::Start { name, id } => SpanItemModel::Start { name: name@, id: *id },
            SpanItem::Field { name, val } => SpanItemModel::Field { name: name@, val: val@ },
        }
    }
}

/// A span in grouped (record) form: the shape the wire and the consumer use.
#[derive(Debug, Clone)]
pub struct Span {
    /// The span's name.
    pub name: String,
    /// The registry id, if one was recorded; never zero when present.
    pub id: Option<u64>,
    /// The span's fields, in insertion order, duplicates preserved.
    pub fields: FieldList,
}

/// The model of a grouped span.
pub struct SpanModel {
    pub name: Seq<char>,
    pub id: Option<u64>,
    pub fields: Seq<FieldModel>,
}

impl View for Span {
    type V = SpanModel;

    open spec fn view(&self) -> SpanModel {
        SpanModel { name: self.name@, id: self.id, fields: fields_view(self.fields) }
    }
}

impl Span {
    /// Pointwise equality: name, id, and fields in order, floats bit-exact.
    pub fn same_as(&self, other: &Span) -> (r: bool)
        ensures
            r == (self@ == other@),
    {
        let id_eq = match (self.id, other.id) {
            (Some(a), Some(b)) => a == b,
            (None, None) => true,
            _ => false,
        };
        id_eq && self.name.eq(&other.name) && same_fields(&self.fields, &other.fields)
    }
}

/// A span fragment, or a concatenation of fragments: the flat, cheaply
/// clonable form the layer attaches to the host registry.
///
/// Well-formed contents are zero or more fragments, each a `Start` followed
/// by that span's `Field` items; in particular the first item, if any, is a
/// `Start`.
#[derive(Debug, Clone)]
pub struct SpanList {
    items: Vec<SpanItem>,
}

/// A sequence of items is well formed when it is empty or begins with a
/// `Start` marker, so every `Field` belongs to some preceding span header.
pub open spec fn span_items_wf(items: Seq<SpanItemModel>) -> bool {
    items.len() > 0 ==> items[0] is Start
}

impl View for SpanList {
    type V = Seq<SpanItemModel>;

    closed spec fn view(&self) -> Seq<SpanItemModel> {
        self.items@.map_values(|it: SpanItem| it@)
    }
}

impl SpanList {
    /// Every list this module hands out satisfies this.
    pub open spec fn wf(&self) -> bool {
        span_items_wf(self@)
    }

    /// An empty list: no span is active.
    pub fn new() -> (r: SpanList)
        ensures
            r@ == Seq::<SpanItemModel>::empty(),
            r.wf(),
    {
        let r = SpanList { items: Vec::new() };
        proof {
            assert(r@ =~= Seq::<SpanItemModel>::empty());
        }
        r
    }

    /// Push the header of a new span.
    pub fn new_span(&mut self, name: String, id: Option<u64>)
        ensures
            final(self)@ == old(self)@.push(SpanItemModel::Start { name: name@, id }),
            old(self).wf() ==> final(self).wf(),
    {
        let ghost pre = self@;
        self.items.push(SpanItem::Start { name, id });
        proof {
            assert(final(self)@ =~= pre.push(final(self)@.last()));
        }
    }

    /// Push one field of the most recently started span.
    pub fn add_field(&mut self, name: String, val: FieldValue)
        ensures
            final(self)@ == old(self)@.push(SpanItemModel::Field { name: name@, val: val@ }),
            old(self)@.len() > 0 && old(self).wf() ==> final(self).wf(),
    {
        let ghost pre = self@;
        self.items.push(SpanItem::Field { name, val });
        proof {
            assert(final(self)@ =~= pre.push(final(self)@.last()));
        }
    }

    /// Append a child's fragment after this list: the child becomes the
    /// innermost span of the stack.
    pub fn append_child(&mut self, child: &SpanList)
        ensures
            final(self)@ == old(self)@ + child@,
            old(self).wf() && child.wf() ==> final(self).wf(),
    {
        let ghost pre = self@;
        let n = child.items.len();
        for i in 0..n
            invariant
                n == child.items.len(),
                self@ =~= pre + child@.subrange(0, i as int),
        {
            let ghost before = self@;
            let item = child.items[i].clone_item();
            proof {
                assert(item@ == child@[i as int]);
            }
            self.items.push(item);
            proof {
                assert(self@ =~= before.push(item@));
                assert(self@ =~= pre + child@.subrange(0, i + 1));
            }
        }
        proof {
            assert(child@.subrange(0, n as int) =~= child@);
        }
    }

    /// The items of the list, flat.
    pub fn as_items(&self) -> (r: &Vec<SpanItem>)
        ensures
            r@.map_values(|it: SpanItem| it@) == self@,
    {
        &self.items
    }

    /// The number of items.
    pub fn len(&self) -> (r: usize)
        ensures
            r == self@.len(),
    {
        self.items.len()
    }
}

impl SpanItem {
    /// An explicit deep copy with an exact contract.
    pub fn clone_item(&self) -> (r: SpanItem)
        ensures
            r@ == self@,
    {
        match self {
            SpanItem::Start { name, id } => SpanItem::Start { name: clone_string(name), id: *id },
            SpanItem::Field { name, val } => SpanItem::Field {
                name: clone_string(name),
                val: val.clone_value(),
            },
        }
    }
}

impl FieldValue {
    /// An explicit deep copy with an exact contract.
    pub fn clone_value(&self) -> (r: FieldValue)
        ensures
            r@ == self@,
    {
        match self {
            FieldValue::Bool(b) => FieldValue::Bool(*b),
            FieldValue::Int(i) => FieldValue::Int(*i),
            FieldValue::Float(bits) => FieldValue::Float(*bits),
            FieldValue::Str(s) => FieldValue::Str(clone_string(s)),
        }
    }
}

/// A `String` copy whose contract says the text is kept.
pub fn clone_string(s: &String) -> (r: String)
    ensures
        r@ == s@,
{
    s.clone()
}

/// The number of `Start` markers in a sequence of items: the number of
/// spans the sequence describes.
pub open spec fn count_starts(items: Seq<SpanItemModel>) -> int
    decreases items.len(),
{
    if items.len() == 0 {
        0
    } else {
        count_starts(items.drop_last()) + if items.last() is Start {
            1int
        } else {
            0int
        }
    }
}

/// The grouped form of a flat item sequence: one span per `Start` marker,
/// holding the fields up to the next `Start`.
pub open spec fn group_spans(items: Seq<SpanItemModel>) -> Seq<SpanModel>
    decreases items.len(),
{
    if items.len() == 0 {
        Seq::empty()
    } else {
        match items.last() {
            SpanItemModel::Start { name, id } => group_spans(items.drop_last()).push(
                SpanModel { name, id, fields: Seq::empty() },
            ),
            SpanItemModel::Field { name, val } => {
                let prev = group_spans(items.drop_last());
                if prev.len() == 0 {
                    prev
                } else {
                    prev.update(
                        prev.len() - 1,
                        SpanModel {
                            name: prev.last().name,
                            id: prev.last().id,
                            fields: prev.last().fields.push((name, val)),
                        },
                    )
                }
            },
        }
    }
}

impl SpanList {
    /// Group the flat items into record-form spans, outermost first.
    ///
    /// The length of the result is exactly the number of `Start` markers.
    pub fn to_spans(&self) -> (r: Vec<Span>)
        requires
            self.wf(),
        ensures
            r@.map_values(|s: Span| s@) == group_spans(self@),
            r@.len() == count_starts(self@),
    {
        let mut out: Vec<Span> = Vec::new();
        let n = self.items.len();
        let mut i: usize = 0;
        while i < n
            invariant
                n == self.items.len(),
                0 <= i <= n,
                self.wf(),
                out@.map_values(|s: Span| s@) =~= group_spans(self@.subrange(0, i as int)),
                out@.len() == count_starts(self@.subrange(0, i as int)),
                i < n && out.len() == 0 ==> self@[i as int] is Start,
            decreases n - i,
        {
            let ghost pre_items = self@.subrange(0, i as int);
            let ghost post_items = self@.subrange(0, i + 1);
            proof {
                assert(post_items.drop_last() =~= pre_items);
                assert(post_items.last() == self@[i as int]);
            }
            match &self.items[i] {
                SpanItem::Start { name, id } => {
                    out.push(Span { name: clone_string(name), id: *id, fields: Vec::new() });
                    proof {
                        assert(fields_view(out@.last().fields) =~= Seq::<FieldModel>::empty());
                        assert(out@.map_values(|s: Span| s@) =~= group_spans(post_items));
                    }
                },
                SpanItem::Field { name, val } => {
                    let last = out.len() - 1;
                    let ghost old_out = out@;
                    let mut tail = out.remove(last);
                    tail.fields.push((clone_string(name), val.clone_value()));
                    proof {
                        assert(fields_view(tail.fields) =~= group_spans(pre_items).last().fields.push(
                            (name@, val@),
                        ));
                    }
                    out.push(tail);
                    proof {
                        assert(out@.map_values(|s: Span| s@) =~= group_spans(post_items));
                    }
                },
            }
            i += 1;
            proof {
                if i < n && out.len() == 0 {
                    assert(count_starts(self@.subrange(0, i as int)) == 0);
                    lemma_no_starts_means_start_next(self@, i as int);
                }
            }
        }
        proof {
            assert(self@.subrange(0, n as int) =~= self@);
        }
        out
    }
}

/// In a well-formed item sequence, if the first `i` items contain no
/// `Start`, then `i` is zero, so the item at `i` (the first item) is a
/// `Start`.
proof fn lemma_no_starts_means_start_next(items: Seq<SpanItemModel>, i: int)
    requires
        span_items_wf(items),
        0 <= i < items.len(),
        count_starts(items.subrange(0, i)) == 0,
    ensures
        items[i] is Start,
{
    if i > 0 {
        lemma_count_starts_first(items.subrange(0, i));
    }
}

/// A nonempty sequence whose first item is a `Start` has at least one
/// `Start`.
proof fn lemma_count_starts_first(items: Seq<SpanItemModel>)
    requires
        items.len() > 0,
        items[0] is Start,
    ensures
        count_starts(items) > 0,
    decreases items.len(),
{
    if items.len() == 1 {
        assert(items.last() == items[0]);
        assert(count_starts(items.drop_last()) == 0);
    } else {
        assert(items.drop_last()[0] == items[0]);
        lemma_count_starts_first(items.drop_last());
    }
}

/// The `Start` count of any sequence is nonnegative.
pub proof fn lemma_count_starts_nonneg(items: Seq<SpanItemModel>)
    ensures
        count_starts(items) >= 0,
    decreases items.len(),
{
    if items.len() > 0 {
        lemma_count_starts_nonneg(items.drop_last());
    }
}

} // verus!

//! The streaming consumer: scanning JSON record lines back into typed
//! events.
//!
//! The scanner accepts what the writer emits, with the long key forms
//! (`kind`, `level`, `spans`, `target`, `thread_id`, `thread_name`,
//! `src_line`, `src_file`, `time`, and `name`, `id`, `fields` inside a
//! span) admitted wherever the writer emits the short ones. Every scanning
//! function carries, besides its bounds, a completeness contract: on an
//! input that starts with the wire text of a value, it returns exactly
//! that value and consumes exactly that text. Those contracts compose into
//! the round-trip law. Two directions are deliberately left to tests
//! rather than contracts: soundness (that a returned value always stems
//! from some acceptable presentation at the position, rather than from
//! malformed text) is unstated, as is completeness over the long key
//! spellings and over floating-point field values — the long forms are
//! pinned where keys are read ([`eat_key`]'s contract covers both
//! spellings) and exercised by a migrated test, and floats, which verified
//! code cannot compute with, are scanned by exact integer arithmetic whose
//! finite-token inverse is checked by the round-trip tests.
use vstd::prelude::*;
use crate::dec::{is_digit, scan_u64, dec_prefix_at, dec_digits, lemma_dec_digits_shape};
use crate::jstr::{json_str, scan_string, lemma_scan_str_round_trip};
use crate::json::{json_of_value, json_of_int, json_of_field, json_of_fields, json_of_fields_rest, json_of_span, json_of_spans, json_of_spans_rest, json_of_span_time, json_of_kind, json_of_time, json_of_options, json_of_event, json_line_of_event};
use crate::prefix::{prefix_at, lemma_prefix_index, lemma_prefix_split, lemma_prefix_first};
use crate::span::SpanModel;
use crate::event::KindModel;
use crate::value::{FieldValue, FieldModel, ValueModel};

verus! {

/// The characters that may appear in an unquoted number token.
pub open spec fn is_number_char(c: char) -> bool {
    is_digit(c) || c == '-' || c == '+' || c == '.' || c == 'e' || c == 'E' || c == 'N' || c == 'a'
        || c == 'n' || c == 'i' || c == 'f'
}

/// Executable test for a number-token character.
fn is_number_char_exec(c: char) -> (r: bool)
    ensures
        r == is_number_char(c),
{
    let d = crate::dec::char_to_digit(c);
    d != 255 || c == '-' || c == '+' || c == '.' || c == 'e' || c == 'E' || c == 'N' || c == 'a'
        || c == 'n' || c == 'i' || c == 'f'
}

/// A value the completeness contracts speak of: any boolean, integer or
/// string.
pub open spec fn plain_value(v: ValueModel) -> bool {
    !(v is Float)
}

/// The wire text of `v` sits at `pos`, followed by nothing that could
/// extend a number token.
pub open spec fn value_present(inp: Seq<char>, pos: int, v: ValueModel) -> bool {
    plain_value(v) && prefix_at(inp, pos, json_of_value(v)) && (pos + json_of_value(v).len()
        < inp.len() ==> !is_number_char(inp[pos + json_of_value(v).len()]))
}

/// The first character of the wire text of each plain value class.
proof fn lemma_value_first_char(v: ValueModel)
    requires
        plain_value(v),
    ensures
        json_of_value(v).len() >= 1,
        v matches ValueModel::Bool(b) ==> json_of_value(v)[0] == (if b {
            't'
        } else {
            'f'
        }),
        v matches ValueModel::Int(i) ==> (if i < 0 {
            json_of_value(v)[0] == '-'
        } else {
            is_digit(json_of_value(v)[0])
        }),
        v is Str ==> json_of_value(v)[0] == '"',
{
    reveal_strlit("true");
    reveal_strlit("false");
    match v {
        ValueModel::Bool(b) => {},
        ValueModel::Int(i) => {
            if i < 0 {
                assert(json_of_int(i as int)[0] == '-');
            } else {
                lemma_dec_digits_shape(i as int);
            }
        },
        ValueModel::Float(_) => {},
        ValueModel::Str(s) => {
            assert(json_str(s)[0] == '"');
        },
    }
}

/// Scan one untagged field value.
///
/// Booleans are the literals `true` and `false`; a number token without a
/// point, exponent or letter is an integer when it fits a signed 64-bit
/// value; any other number token is scanned as a float; a quote starts a
/// string. An integer token beyond the 64-bit range is rejected.
#[verifier::rlimit(100)]
pub fn parse_value(inp: &Vec<char>, pos: usize) -> (r: Option<(FieldValue, usize)>)
    ensures
        r matches Some((fv, p)) ==> pos < p <= inp@.len(),
        forall|v: ValueModel| #[trigger] value_present(inp@, pos as int, v) ==> (r matches Some(
            (fv, p),
        ) && fv@ == v && p == pos + json_of_value(v).len()),
{
    proof {
        reveal_strlit("true");
        reveal_strlit("false");
    }
    if pos >= inp.len() {
        proof {
            assert forall|v: ValueModel| !value_present(inp@, pos as int, v) by {
                if value_present(inp@, pos as int, v) {
                    lemma_value_first_char(v);
                }
            }
        }
        return None;
    }
    let c = inp[pos];
    if c == '"' {
        match scan_string(inp, pos) {
            Some((s, p)) => {
                proof {
                    assert forall|v: ValueModel| #[trigger] value_present(inp@, pos as int, v)
                        implies (v == ValueModel::Str(s@) && pos + json_of_value(v).len() == p) by {
                        lemma_value_first_char(v);
                        if v is Str {
                            lemma_scan_str_round_trip(inp@, pos as int, v->Str_0);
                        }
                    }
                }
                return Some((FieldValue::Str(s), p));
            },
            None => {
                proof {
                    assert forall|v: ValueModel| !value_present(inp@, pos as int, v) by {
                        if value_present(inp@, pos as int, v) {
                            lemma_value_first_char(v);
                            if v is Str {
                                lemma_scan_str_round_trip(inp@, pos as int, v->Str_0);
                            }
                        }
                    }
                }
                return None;
            },
        }
    }
    if c == 't' {
        if inp.len() - pos >= 4 && inp[pos + 1] == 'r' && inp[pos + 2] == 'u' && inp[pos + 3]
            == 'e' {
            proof {
                assert forall|v: ValueModel| #[trigger] value_present(inp@, pos as int, v) implies (
                v == ValueModel::Bool(true) && json_of_value(v).len() == 4) by {
                    lemma_value_first_char(v);
                    if v is Int {
                        if v->Int_0 >= 0 {
                            assert(is_digit(inp@[pos as int]));
                        }
                    }
                }
            }
            return Some((FieldValue::Bool(true), pos + 4));
        }
        proof {
            assert forall|v: ValueModel| !value_present(inp@, pos as int, v) by {
                if value_present(inp@, pos as int, v) {
                    lemma_value_first_char(v);
                    if v == ValueModel::Bool(true) {
                        lemma_prefix_index(inp@, pos as int, "true"@, 0);
                        lemma_prefix_index(inp@, pos as int, "true"@, 1);
                        lemma_prefix_index(inp@, pos as int, "true"@, 2);
                        lemma_prefix_index(inp@, pos as int, "true"@, 3);
                    }
                }
            }
        }
        return None;
    }
    if c == 'f' {
        if inp.len() - pos >= 5 && inp[pos + 1] == 'a' && inp[pos + 2] == 'l' && inp[pos + 3]
            == 's' && inp[pos + 4] == 'e' {
            proof {
                assert forall|v: ValueModel| #[trigger] value_present(inp@, pos as int, v) implies (
                v == ValueModel::Bool(false) && json_of_value(v).len() == 5) by {
                    lemma_value_first_char(v);
                    if v is Int {
                        if v->Int_0 >= 0 {
                            assert(is_digit(inp@[pos as int]));
                        }
                    }
                }
            }
            return Some((FieldValue::Bool(false), pos + 5));
        }
        proof {
            assert forall|v: ValueModel| !value_present(inp@, pos as int, v) by {
                if value_present(inp@, pos as int, v) {
                    lemma_value_first_char(v);
                    if v == ValueModel::Bool(false) {
                        lemma_prefix_index(inp@, pos as int, "false"@, 0);
                        lemma_prefix_index(inp@, pos as int, "false"@, 1);
                        lemma_prefix_index(inp@, pos as int, "false"@, 2);
                        lemma_prefix_index(inp@, pos as int, "false"@, 3);
                        lemma_prefix_index(inp@, pos as int, "false"@, 4);
                    }
                }
            }
        }
        return None;
    }
    // a number token: integer, or float
    let neg = c == '-';
    let start = if neg {
        pos + 1
    } else {
        pos
    };
    let scanned = scan_u64(inp, start);
    let mut int_tok: Option<(u64, usize)> = None;
    match scanned {
        Some((u, p)) => {
            if p == inp.len() || !is_number_char_exec(inp[p]) {
                int_tok = Some((u, p));
            }
        },
        None => {},
    }
    match int_tok {
        Some((u, p)) => {
            match int_of_parts(neg, u) {
                Some(fv) => {
                    proof {
                        lemma_int_shape(inp@, pos as int, neg);
                        assert forall|v: ValueModel| #[trigger] value_present(inp@, pos as int, v)
                            implies (fv@ == v && p == pos + json_of_value(v).len()) by {
                            let i = v->Int_0;
                            let mag: u64 = if neg {
                                (-(i as int)) as u64
                            } else {
                                i as u64
                            };
                            assert(dec_prefix_at(inp@, start as int, mag));
                            assert(u == mag && p == start + dec_digits(mag as int).len());
                        }
                    }
                    Some((fv, p))
                },
                None => {
                    proof {
                        lemma_int_shape(inp@, pos as int, neg);
                        assert forall|v: ValueModel| !value_present(inp@, pos as int, v) by {
                            if value_present(inp@, pos as int, v) {
                                let i = v->Int_0;
                                let mag: u64 = if neg {
                                    (-(i as int)) as u64
                                } else {
                                    i as u64
                                };
                                assert(dec_prefix_at(inp@, start as int, mag));
                                assert(u == mag);
                            }
                        }
                    }
                    None
                },
            }
        },
        None => {
            // not a plain integer token: scan the full number token and
            // read it as a float
            proof {
                lemma_int_shape(inp@, pos as int, neg);
                assert forall|v: ValueModel| !value_present(inp@, pos as int, v) by {
                    if value_present(inp@, pos as int, v) {
                        let i = v->Int_0;
                        let mag: u64 = if neg {
                            (-(i as int)) as u64
                        } else {
                            i as u64
                        };
                        assert(dec_prefix_at(inp@, start as int, mag));
                    }
                }
            }
            let n = inp.len();
            let mut q = pos;
            while q < n && is_number_char_exec(inp[q])
                invariant
                    pos <= q <= n,
                    n == inp@.len(),
                decreases n - q,
            {
                q += 1;
            }
            if q == pos {
                return None;
            }
            let mut tok: Vec<char> = Vec::new();
            let mut j = pos;
            while j < q
                invariant
                    pos <= j <= q <= n,
                    n == inp@.len(),
                decreases q - j,
            {
                tok.push(inp[j]);
                j += 1;
            }
            match crate::fdec::parse_float_chars(&tok) {
                Some(bits) => Some((FieldValue::Float(bits), q)),
                None => None,
            }
        },
    }
}

/// At a number-token start, any present plain value is an integer whose
/// magnitude numeral sits after the optional sign.
proof fn lemma_int_shape(inp: Seq<char>, pos: int, neg: bool)
    requires
        0 <= pos < inp.len(),
        inp[pos] != '"' && inp[pos] != 't' && inp[pos] != 'f',
        neg == (inp[pos] == '-'),
    ensures
        forall|v: ValueModel| #[trigger] value_present(inp, pos, v) ==> (v
            matches ValueModel::Int(i) && (if neg {
            i < 0 && dec_prefix_at(inp, pos + 1, ((-(i as int)) as u64)) && json_of_value(v).len()
                == 1 + dec_digits(-(i as int)).len()
        } else {
            i >= 0 && dec_prefix_at(inp, pos, (i as u64)) && json_of_value(v).len() == dec_digits(
                i as int,
            ).len()
        })),
{
    reveal_strlit("true");
    reveal_strlit("false");
    assert forall|v: ValueModel| #[trigger] value_present(inp, pos, v) implies (v
        matches ValueModel::Int(i) && (if neg {
        i < 0 && dec_prefix_at(inp, pos + 1, ((-(i as int)) as u64)) && json_of_value(v).len() == 1
            + dec_digits(-(i as int)).len()
    } else {
        i >= 0 && dec_prefix_at(inp, pos, (i as u64)) && json_of_value(v).len() == dec_digits(
            i as int,
        ).len()
    })) by {
        lemma_value_first_char(v);
        lemma_prefix_first(inp, pos, json_of_value(v));
        if v is Int {
            let i = v->Int_0;
            if i < 0 {
                assert(json_of_int(i as int) == seq!['-'] + dec_digits(-(i as int)));
                lemma_prefix_split(inp, pos, seq!['-'], dec_digits(-(i as int)));
                lemma_dec_digits_shape(-(i as int));
                assert(dec_prefix_at(inp, pos + 1, ((-(i as int)) as u64)));
            } else {
                lemma_dec_digits_shape(i as int);
                assert(inp[pos] != '-');
                assert(dec_prefix_at(inp, pos, (i as u64)));
            }
        }
    }
}

/// The signed value of a sign and magnitude, when it fits.
fn int_of_parts(neg: bool, u: u64) -> (r: Option<FieldValue>)
    ensures
        match r {
            Some(fv) => fv@ matches ValueModel::Int(i) && (if neg {
                i as int == -(u as int)
            } else {
                i as int == u as int
            }),
            None => (if neg {
                u > 0x8000_0000_0000_0000
            } else {
                u > 0x7fff_ffff_ffff_ffff
            }),
        },
{
    if neg {
        if u <= 0x7fff_ffff_ffff_ffff {
            Some(FieldValue::Int(-(u as i64)))
        } else if u == 0x8000_0000_0000_0000 {
            Some(FieldValue::Int(i64::MIN))
        } else {
            None
        }
    } else {
        if u <= 0x7fff_ffff_ffff_ffff {
            Some(FieldValue::Int(u as i64))
        } else {
            None
        }
    }
}


/// Every field value is plain.
pub open spec fn plain_fields(fs: Seq<FieldModel>) -> bool {
    forall|i: int| 0 <= i < fs.len() ==> plain_value(#[trigger] fs[i].1)
}

/// One `"name":value` entry sits at `pos`, followed by `tail`, whose first
/// character cannot extend a number token.
pub open spec fn entry_then(inp: Seq<char>, pos: int, f: FieldModel, tail: Seq<char>) -> bool {
    plain_value(f.1) && prefix_at(inp, pos, json_of_field(f) + tail) && tail.len() > 0
        && !is_number_char(tail[0])
}

/// The wire text of a whole field map sits at `pos`.
pub open spec fn fields_present(inp: Seq<char>, pos: int, fs: Seq<FieldModel>) -> bool {
    plain_fields(fs) && prefix_at(inp, pos, json_of_fields(fs))
}

/// The remaining `,"name":value` entries of a field map and the closing
/// brace sit at `pos`.
pub open spec fn fields_rest_present(inp: Seq<char>, pos: int, fs: Seq<FieldModel>) -> bool {
    plain_fields(fs) && prefix_at(inp, pos, json_of_fields_rest(fs) + seq!['}'])
}

/// A value followed by a non-number character is present in the sense the
/// value scanner speaks of, and the tail follows it.
proof fn lemma_value_boundary(inp: Seq<char>, pos: int, v: ValueModel, tail: Seq<char>)
    requires
        plain_value(v),
        prefix_at(inp, pos, json_of_value(v) + tail),
        tail.len() > 0,
        !is_number_char(tail[0]),
    ensures
        value_present(inp, pos, v),
        prefix_at(inp, pos + json_of_value(v).len(), tail),
{
    lemma_prefix_split(inp, pos, json_of_value(v), tail);
    lemma_prefix_first(inp, pos + json_of_value(v).len(), tail);
}

/// Scan one `"name":value` entry.
#[verifier::rlimit(100)]
fn parse_entry(inp: &Vec<char>, pos: usize) -> (r: Option<(String, FieldValue, usize)>)
    ensures
        r matches Some((k, v, p)) ==> pos < p <= inp@.len(),
        forall|f: FieldModel, tail: Seq<char>| #[trigger] entry_then(inp@, pos as int, f, tail)
            ==> (r matches Some((k, v, p)) && k@ == f.0 && v@ == f.1 && p == pos + json_of_field(
            f,
        ).len()),
{
    let ghost gpos = pos as int;
    match scan_string(inp, pos) {
        Some((k, p1)) => {
            if p1 < inp.len() && inp[p1] == ':' {
                match parse_value(inp, p1 + 1) {
                    Some((v, p2)) => {
                        proof {
                            assert forall|f: FieldModel, tail: Seq<char>| #[trigger] entry_then(
                                inp@,
                                gpos,
                                f,
                                tail,
                            ) implies (k@ == f.0 && v@ == f.1 && p2 == pos + json_of_field(
                                f,
                            ).len()) by {
                                lemma_entry_parts(inp@, gpos, f, tail);
                                lemma_scan_str_round_trip(inp@, gpos, f.0);
                                lemma_value_boundary(
                                    inp@,
                                    gpos + json_str(f.0).len() + 1,
                                    f.1,
                                    tail,
                                );
                            }
                        }
                        Some((k, v, p2))
                    },
                    None => {
                        proof {
                            assert forall|f: FieldModel, tail: Seq<char>| !entry_then(
                                inp@,
                                gpos,
                                f,
                                tail,
                            ) by {
                                if entry_then(inp@, gpos, f, tail) {
                                    lemma_entry_parts(inp@, gpos, f, tail);
                                    lemma_scan_str_round_trip(inp@, gpos, f.0);
                                    lemma_value_boundary(
                                        inp@,
                                        gpos + json_str(f.0).len() + 1,
                                        f.1,
                                        tail,
                                    );
                                }
                            }
                        }
                        None
                    },
                }
            } else {
                proof {
                    assert forall|f: FieldModel, tail: Seq<char>| !entry_then(
                        inp@,
                        gpos,
                        f,
                        tail,
                    ) by {
                        if entry_then(inp@, gpos, f, tail) {
                            lemma_entry_parts(inp@, gpos, f, tail);
                            lemma_scan_str_round_trip(inp@, gpos, f.0);
                        }
                    }
                }
                None
            }
        },
        None => {
            proof {
                assert forall|f: FieldModel, tail: Seq<char>| !entry_then(inp@, gpos, f, tail) by {
                    if entry_then(inp@, gpos, f, tail) {
                        lemma_entry_parts(inp@, gpos, f, tail);
                        lemma_scan_str_round_trip(inp@, gpos, f.0);
                    }
                }
            }
            None
        },
    }
}

/// An entry splits into its key string, a colon, and its value.
proof fn lemma_entry_parts(inp: Seq<char>, pos: int, f: FieldModel, tail: Seq<char>)
    requires
        entry_then(inp, pos, f, tail),
    ensures
        prefix_at(inp, pos, json_str(f.0)),
        inp[pos + json_str(f.0).len()] == ':',
        prefix_at(inp, pos + json_str(f.0).len() + 1, json_of_value(f.1) + tail),
        pos + json_str(f.0).len() < inp.len(),
{
    assert(json_of_field(f) + tail =~= json_str(f.0) + (seq![':'] + (json_of_value(f.1) + tail)));
    lemma_prefix_split(inp, pos, json_str(f.0), seq![':'] + (json_of_value(f.1) + tail));
    lemma_prefix_split(
        inp,
        pos + json_str(f.0).len(),
        seq![':'],
        json_of_value(f.1) + tail,
    );
    lemma_prefix_first(inp, pos + json_str(f.0).len(), seq![':']);
}

/// The first remaining entry of a field map splits off.
proof fn lemma_rest_parts(inp: Seq<char>, pos: int, fs: Seq<FieldModel>)
    requires
        fields_rest_present(inp, pos, fs),
        fs.len() > 0,
    ensures
        inp[pos] == ',',
        pos < inp.len(),
        entry_then(
            inp,
            pos + 1,
            fs[0],
            json_of_fields_rest(fs.skip(1)) + seq!['}'],
        ),
        fields_rest_present(
            inp,
            pos + 1 + json_of_field(fs[0]).len(),
            fs.skip(1),
        ),
        json_of_fields_rest(fs).len() == 1 + json_of_field(fs[0]).len() + json_of_fields_rest(
            fs.skip(1),
        ).len(),
{
    let e0 = json_of_field(fs[0]);
    let rest = json_of_fields_rest(fs.skip(1));
    assert(json_of_fields_rest(fs) == seq![','] + e0 + rest);
    assert(json_of_fields_rest(fs) + seq!['}'] =~= seq![','] + (e0 + (rest + seq!['}'])));
    lemma_prefix_split(inp, pos, seq![','], e0 + (rest + seq!['}']));
    lemma_prefix_first(inp, pos, seq![',']);
    lemma_prefix_split(inp, pos + 1, e0, rest + seq!['}']);
    // the entry's tail starts with a comma or the closing brace
    if fs.skip(1).len() > 0 {
        assert((rest + seq!['}'])[0] == ',');
    } else {
        assert(rest =~= Seq::<char>::empty());
        assert((rest + seq!['}'])[0] == '}');
    }
    assert(prefix_at(inp, pos + 1, e0 + (rest + seq!['}'])));
    assert(plain_value(fs[0].1));
    assert(plain_fields(fs.skip(1)));
    assert(fields_rest_present(inp, pos + 1 + e0.len(), fs.skip(1)));
}

/// Scan the remaining entries of a field map and its closing brace,
/// extending what was already collected.
#[verifier::rlimit(100)]
fn parse_fields_rest(inp: &Vec<char>, pos: usize, acc: crate::value::FieldList) -> (r: Option<
    (crate::value::FieldList, usize),
>)
    ensures
        r matches Some((out, p)) ==> pos < p <= inp@.len(),
        forall|fs: Seq<FieldModel>| #[trigger] fields_rest_present(inp@, pos as int, fs) ==> (r
            matches Some((out, p)) && crate::value::fields_view(out) == crate::value::fields_view(
            acc,
        ) + fs && p == pos + json_of_fields_rest(fs).len() + 1),
    decreases inp@.len() - pos,
{
    let ghost gpos = pos as int;
    let ghost acc0 = crate::value::fields_view(acc);
    if pos >= inp.len() {
        proof {
            assert forall|fs: Seq<FieldModel>| !fields_rest_present(inp@, gpos, fs) by {
                if fields_rest_present(inp@, gpos, fs) {
                    assert((json_of_fields_rest(fs) + seq!['}']).len() >= 1);
                }
            }
        }
        return None;
    }
    let c = inp[pos];
    if c == '}' {
        proof {
            assert forall|fs: Seq<FieldModel>| #[trigger] fields_rest_present(inp@, gpos, fs)
                implies (acc0 + fs == acc0 && json_of_fields_rest(fs).len() == 0) by {
                if fs.len() > 0 {
                    lemma_rest_parts(inp@, gpos, fs);
                }
                assert(fs =~= Seq::<FieldModel>::empty());
                assert(json_of_fields_rest(fs) =~= Seq::<char>::empty());
                assert(acc0 + fs =~= acc0);
            }
        }
        return Some((acc, pos + 1));
    }
    if c != ',' {
        proof {
            assert forall|fs: Seq<FieldModel>| !fields_rest_present(inp@, gpos, fs) by {
                if fields_rest_present(inp@, gpos, fs) {
                    if fs.len() > 0 {
                        lemma_rest_parts(inp@, gpos, fs);
                    } else {
                        lemma_prefix_first(inp@, gpos, json_of_fields_rest(fs) + seq!['}']);
                        assert((json_of_fields_rest(fs) + seq!['}'])[0] == '}');
                    }
                }
            }
        }
        return None;
    }
    match parse_entry(inp, pos + 1) {
        Some((k, v, p)) => {
            let ghost kv = (k@, v@);
            let mut acc2 = acc;
            acc2.push((k, v));
            proof {
                assert(crate::value::fields_view(acc2) =~= acc0.push(kv));
            }
            match parse_fields_rest(inp, p, acc2) {
                Some((out, p2)) => {
                    proof {
                        assert forall|fs: Seq<FieldModel>| #[trigger] fields_rest_present(
                            inp@,
                            gpos,
                            fs,
                        ) implies (crate::value::fields_view(out) == acc0 + fs && p2 == gpos
                            + json_of_fields_rest(fs).len() + 1) by {
                            if fs.len() == 0 {
                                lemma_prefix_first(inp@, gpos, json_of_fields_rest(fs) + seq!['}']);
                                assert((json_of_fields_rest(fs) + seq!['}'])[0] == '}');
                            }
                            lemma_rest_parts(inp@, gpos, fs);
                            assert(fields_rest_present(
                                inp@,
                                gpos + 1 + json_of_field(fs[0]).len(),
                                fs.skip(1),
                            ));
                            assert(kv == fs[0]);
                            assert(acc0.push(fs[0]) + fs.skip(1) =~= acc0 + fs);
                        }
                    }
                    Some((out, p2))
                },
                None => {
                    proof {
                        assert forall|fs: Seq<FieldModel>| !fields_rest_present(inp@, gpos, fs) by {
                            if fields_rest_present(inp@, gpos, fs) {
                                if fs.len() == 0 {
                                    lemma_prefix_first(
                                        inp@,
                                        gpos,
                                        json_of_fields_rest(fs) + seq!['}'],
                                    );
                                    assert((json_of_fields_rest(fs) + seq!['}'])[0] == '}');
                                }
                                lemma_rest_parts(inp@, gpos, fs);
                                assert(fields_rest_present(
                                    inp@,
                                    gpos + 1 + json_of_field(fs[0]).len(),
                                    fs.skip(1),
                                ));
                            }
                        }
                    }
                    None
                },
            }
        },
        None => {
            proof {
                assert forall|fs: Seq<FieldModel>| !fields_rest_present(inp@, gpos, fs) by {
                    if fields_rest_present(inp@, gpos, fs) {
                        if fs.len() == 0 {
                            lemma_prefix_first(inp@, gpos, json_of_fields_rest(fs) + seq!['}']);
                            assert((json_of_fields_rest(fs) + seq!['}'])[0] == '}');
                        }
                        lemma_rest_parts(inp@, gpos, fs);
                    }
                }
            }
            None
        },
    }
}

/// Scan a whole field map.
#[verifier::rlimit(100)]
pub fn parse_fields(inp: &Vec<char>, pos: usize) -> (r: Option<(crate::value::FieldList, usize)>)
    ensures
        r matches Some((out, p)) ==> pos < p <= inp@.len(),
        forall|fs: Seq<FieldModel>| #[trigger] fields_present(inp@, pos as int, fs) ==> (r
            matches Some((out, p)) && crate::value::fields_view(out) == fs && p == pos
            + json_of_fields(fs).len()),
{
    let ghost gpos = pos as int;
    if pos >= inp.len() || inp[pos] != '{' {
        proof {
            assert forall|fs: Seq<FieldModel>| !fields_present(inp@, gpos, fs) by {
                if fields_present(inp@, gpos, fs) {
                    lemma_fields_first(inp@, gpos, fs);
                }
            }
        }
        return None;
    }
    if pos + 1 < inp.len() && inp[pos + 1] == '}' {
        let out: crate::value::FieldList = Vec::new();
        proof {
            assert forall|fs: Seq<FieldModel>| #[trigger] fields_present(inp@, gpos, fs) implies (
            crate::value::fields_view(out) == fs && json_of_fields(fs).len() == 2) by {
                lemma_fields_shape(inp@, gpos, fs);
                if fs.len() > 0 {
                    assert(inp@[gpos + 1] == '"');
                }
                assert(fs =~= Seq::<FieldModel>::empty());
                assert(crate::value::fields_view(out) =~= Seq::<FieldModel>::empty());
                reveal_strlit("{}");
            }
        }
        return Some((out, pos + 2));
    }
    match parse_entry(inp, pos + 1) {
        Some((k, v, p)) => {
            let mut acc: crate::value::FieldList = Vec::new();
            acc.push((k, v));
            let ghost kv = (k@, v@);
            proof {
                assert(crate::value::fields_view(acc) =~= seq![kv]);
            }
            match parse_fields_rest(inp, p, acc) {
                Some((out, p2)) => {
                    proof {
                        assert forall|fs: Seq<FieldModel>| #[trigger] fields_present(
                            inp@,
                            gpos,
                            fs,
                        ) implies (crate::value::fields_view(out) == fs && p2 == gpos
                            + json_of_fields(fs).len()) by {
                            lemma_fields_shape(inp@, gpos, fs);
                            assert(fs.len() > 0);
                            assert(fields_rest_present(
                                inp@,
                                gpos + 1 + json_of_field(fs[0]).len(),
                                fs.skip(1),
                            ));
                            assert(kv == fs[0]);
                            assert(seq![fs[0]] + fs.skip(1) =~= fs);
                        }
                    }
                    Some((out, p2))
                },
                None => {
                    proof {
                        assert forall|fs: Seq<FieldModel>| !fields_present(inp@, gpos, fs) by {
                            if fields_present(inp@, gpos, fs) {
                                lemma_fields_shape(inp@, gpos, fs);
                                assert(fs.len() > 0);
                            }
                        }
                    }
                    None
                },
            }
        },
        None => {
            proof {
                assert forall|fs: Seq<FieldModel>| !fields_present(inp@, gpos, fs) by {
                    if fields_present(inp@, gpos, fs) {
                        lemma_fields_shape(inp@, gpos, fs);
                        assert(fs.len() > 0);
                    }
                }
            }
            None
        },
    }
}

/// A present field map opens with a brace.
proof fn lemma_fields_first(inp: Seq<char>, pos: int, fs: Seq<FieldModel>)
    requires
        fields_present(inp, pos, fs),
    ensures
        pos < inp.len(),
        inp[pos] == '{',
{
    if fs.len() == 0 {
        reveal_strlit("{}");
        lemma_prefix_first(inp, pos, json_of_fields(fs));
    } else {
        assert(json_of_fields(fs)[0] == '{');
        lemma_prefix_first(inp, pos, json_of_fields(fs));
    }
}

/// A present field map splits into its opening brace, its first entry when
/// it has one, and the rest; an empty map shows its closing brace at once.
proof fn lemma_fields_shape(inp: Seq<char>, pos: int, fs: Seq<FieldModel>)
    requires
        fields_present(inp, pos, fs),
    ensures
        pos < inp.len(),
        inp[pos] == '{',
        fs.len() == 0 ==> pos + 2 <= inp.len() && inp[pos + 1] == '}' && json_of_fields(fs).len()
            == 2,
        fs.len() > 0 ==> pos + 1 < inp.len() && inp[pos + 1] == '"' && entry_then(
            inp,
            pos + 1,
            fs[0],
            json_of_fields_rest(fs.skip(1)) + seq!['}'],
        ) && fields_rest_present(inp, pos + 1 + json_of_field(fs[0]).len(), fs.skip(1))
            && json_of_fields(fs).len() == 1 + json_of_field(fs[0]).len() + json_of_fields_rest(
            fs.skip(1),
        ).len() + 1,
{
    lemma_fields_first(inp, pos, fs);
    if fs.len() == 0 {
        reveal_strlit("{}");
        lemma_prefix_index(inp, pos, json_of_fields(fs), 1);
    } else {
        let e0 = json_of_field(fs[0]);
        let rest = json_of_fields_rest(fs.skip(1));
        assert(json_of_fields(fs) =~= seq!['{'] + (e0 + (rest + seq!['}'])));
        lemma_prefix_split(inp, pos, seq!['{'], e0 + (rest + seq!['}']));
        lemma_prefix_split(inp, pos + 1, e0, rest + seq!['}']);
        if fs.skip(1).len() > 0 {
            assert((rest + seq!['}'])[0] == ',');
        } else {
            assert(rest =~= Seq::<char>::empty());
            assert((rest + seq!['}'])[0] == '}');
        }
        assert(plain_value(fs[0].1));
        assert(prefix_at(inp, pos + 1, e0 + (rest + seq!['}'])));
        assert(plain_fields(fs.skip(1)));
        assert(fields_rest_present(inp, pos + 1 + e0.len(), fs.skip(1)));
        // the first entry opens with a quote
        assert(e0[0] == '"') by {
            assert(json_str(fs[0].0)[0] == '"');
        }
        lemma_prefix_first(inp, pos + 1, e0 + (rest + seq!['}']));
    }
}

/// The wire text of an object key: quoted, followed by a colon.
pub open spec fn key_text(k: Seq<char>) -> Seq<char> {
    seq!['"'] + k + seq!['"', ':']
}

/// Try one exact key: `"k":` at `pos`.
fn try_key(inp: &Vec<char>, pos: usize, k: &str) -> (r: Option<usize>)
    ensures
        r matches Some(p) ==> p == pos + k@.len() + 3 && prefix_at(inp@, pos as int, key_text(k@))
            && pos < p <= inp@.len(),
        r is None ==> !prefix_at(inp@, pos as int, key_text(k@)),
{
    let n = inp.len();
    let kl = k.unicode_len();
    if pos >= n {
        proof {
            assert(!prefix_at(inp@, pos as int, key_text(k@)));
        }
        return None;
    }
    let avail = n - pos;
    if avail < 3 || avail - 3 < kl {
        proof {
            assert(!prefix_at(inp@, pos as int, key_text(k@)));
        }
        return None;
    }
    if inp[pos] != '"' {
        proof {
            if prefix_at(inp@, pos as int, key_text(k@)) {
                lemma_prefix_first(inp@, pos as int, key_text(k@));
            }
        }
        return None;
    }
    for i in 0..kl
        invariant
            kl == k@.len(),
            n == inp@.len(),
            pos + kl + 3 <= n,
            inp@[pos as int] == '"',
            forall|j: int| 0 <= j < i ==> inp@[pos + 1 + j] == k@[j],
        decreases kl - i,
    {
        if inp[pos + 1 + i] != k.get_char(i) {
            proof {
                if prefix_at(inp@, pos as int, key_text(k@)) {
                    lemma_prefix_index(inp@, pos as int, key_text(k@), 1 + i);
                    assert(key_text(k@)[1 + i] == k@[i as int]);
                }
            }
            return None;
        }
    }
    if inp[pos + 1 + kl] != '"' || inp[pos + 2 + kl] != ':' {
        proof {
            if prefix_at(inp@, pos as int, key_text(k@)) {
                lemma_prefix_index(inp@, pos as int, key_text(k@), 1 + k@.len() as int);
                lemma_prefix_index(inp@, pos as int, key_text(k@), 2 + k@.len() as int);
            }
        }
        return None;
    }
    proof {
        assert(inp@.subrange(pos as int, pos + kl + 3) =~= key_text(k@));
    }
    Some(pos + kl + 3)
}

/// Eat an object key, accepting its short or its long form.
fn eat_key(inp: &Vec<char>, pos: usize, short: &str, long: &str) -> (r: Option<usize>)
    ensures
        r matches Some(p) ==> pos < p <= inp@.len() && (prefix_at(
            inp@,
            pos as int,
            key_text(short@),
        ) && p == pos + short@.len() + 3 || prefix_at(inp@, pos as int, key_text(long@)) && p == pos
            + long@.len() + 3),
        prefix_at(inp@, pos as int, key_text(short@)) ==> (r matches Some(p) && p == pos
            + short@.len() + 3),
        !prefix_at(inp@, pos as int, key_text(short@)) && prefix_at(
            inp@,
            pos as int,
            key_text(long@),
        ) ==> (r matches Some(p) && p == pos + long@.len() + 3),
{
    match try_key(inp, pos, short) {
        Some(p) => Some(p),
        None => try_key(inp, pos, long),
    }
}

/// A span the completeness contracts speak of: a nonzero id when present,
/// plain field values.
pub open spec fn span_ok(sp: SpanModel) -> bool {
    sp.id != Some(0u64) && plain_fields(sp.fields)
}

/// The wire text of one span sits at `pos`.
pub open spec fn span_present(inp: Seq<char>, pos: int, sp: SpanModel) -> bool {
    span_ok(sp) && prefix_at(inp, pos, json_of_span(sp))
}

/// The wire text of a span after its name: the optional id entry, the
/// fields entry, the closing brace, each entry led by its comma.
pub open spec fn span_tail_text(id: Option<u64>, fs: Seq<FieldModel>) -> Seq<char> {
    (match id {
        Some(i) => ",\"i\":"@ + dec_digits(i as int),
        None => Seq::<char>::empty(),
    }) + ",\"f\":"@ + json_of_fields(fs) + seq!['}']
}

/// The tail of a span sits at `q`.
pub open spec fn span_tail_present(inp: Seq<char>, q: int, id: Option<u64>, fs: Seq<
    FieldModel,
>) -> bool {
    id != Some(0u64) && plain_fields(fs) && prefix_at(inp, q, span_tail_text(id, fs))
}

/// The lengths of the span object's key names.
proof fn lemma_key_lens()
    ensures
        "n"@.len() == 1,
        "name"@.len() == 4,
        "i"@.len() == 1,
        "id"@.len() == 2,
        "f"@.len() == 1,
        "fields"@.len() == 6,
{
    reveal_strlit("n");
    reveal_strlit("name");
    reveal_strlit("i");
    reveal_strlit("id");
    reveal_strlit("f");
    reveal_strlit("fields");
}

/// A present span splits into its name header and its tail.
#[verifier::rlimit(100)]
proof fn lemma_span_split(inp: Seq<char>, pos: int, sp: SpanModel)
    requires
        span_present(inp, pos, sp),
    ensures
        pos < inp.len(),
        inp[pos] == '{',
        prefix_at(inp, pos + 1, key_text("n"@)),
        prefix_at(inp, pos + 5, json_str(sp.name)),
        span_tail_present(inp, pos + 5 + json_str(sp.name).len(), sp.id, sp.fields),
        json_of_span(sp).len() == 5 + json_str(sp.name).len() + span_tail_text(
            sp.id,
            sp.fields,
        ).len(),
{
    reveal_strlit("{\"n\":");
    reveal_strlit("n");
    let nm = json_str(sp.name);
    let tl = span_tail_text(sp.id, sp.fields);
    assert(json_of_span(sp) =~= "{\"n\":"@ + (nm + tl));
    lemma_prefix_split(inp, pos, "{\"n\":"@, nm + tl);
    lemma_prefix_split(inp, pos + 5, nm, tl);
    lemma_prefix_first(inp, pos, "{\"n\":"@);
    assert(prefix_at(inp, pos + 1, key_text("n"@))) by {
        assert(inp.subrange(pos + 1, pos + 5) =~= key_text("n"@)) by {
            assert forall|j: int| 0 <= j < 4 implies inp.subrange(pos + 1, pos + 5)[j] == key_text(
                "n"@,
            )[j] by {
                lemma_prefix_index(inp, pos, "{\"n\":"@, j + 1);
            }
        }
    }
}

/// A present span tail splits into its pieces.
#[verifier::rlimit(100)]
proof fn lemma_span_tail_parts(inp: Seq<char>, q: int, id: Option<u64>, fs: Seq<FieldModel>)
    requires
        span_tail_present(inp, q, id, fs),
    ensures
        q < inp.len(),
        inp[q] == ',',
        id matches Some(i) ==> prefix_at(inp, q + 1, key_text("i"@)) && dec_prefix_at(
            inp,
            q + 5,
            i,
        ) && span_tail_present(inp, q + 5 + dec_digits(i as int).len(), None, fs)
            && span_tail_text(id, fs).len() == 5 + dec_digits(i as int).len() + span_tail_text(
            None,
            fs,
        ).len(),
        id is None ==> !prefix_at(inp, q + 1, key_text("i"@)) && !prefix_at(
            inp,
            q + 1,
            key_text("id"@),
        ) && prefix_at(inp, q + 1, key_text("f"@)) && fields_present(inp, q + 5, fs) && inp[q + 5
            + json_of_fields(fs).len()] == '}' && span_tail_text(id, fs).len() == 5
            + json_of_fields(fs).len() + 1,
{
    reveal_strlit(",\"i\":");
    reveal_strlit(",\"f\":");
    reveal_strlit("i");
    reveal_strlit("id");
    reveal_strlit("f");
    let ff = json_of_fields(fs);
    match id {
        Some(i) => {
            let dd = dec_digits(i as int);
            assert(span_tail_text(id, fs) =~= ",\"i\":"@ + (dd + span_tail_text(None, fs)));
            lemma_prefix_split(inp, q, ",\"i\":"@, dd + span_tail_text(None, fs));
            lemma_prefix_split(inp, q + 5, dd, span_tail_text(None, fs));
            lemma_prefix_first(inp, q, ",\"i\":"@);
            assert(prefix_at(inp, q + 1, key_text("i"@))) by {
                assert(inp.subrange(q + 1, q + 5) =~= key_text("i"@)) by {
                    assert forall|j: int| 0 <= j < 4 implies inp.subrange(q + 1, q + 5)[j]
                        == key_text("i"@)[j] by {
                        lemma_prefix_index(inp, q, ",\"i\":"@, j + 1);
                    }
                }
            }
            crate::dec::lemma_dec_digits_shape(i as int);
            let q2 = q + 5 + dd.len();
            // the numeral is followed by the comma of the fields entry
            assert(span_tail_text(None, fs)[0] == ',');
            lemma_prefix_first(inp, q2, span_tail_text(None, fs));
            assert(dec_prefix_at(inp, q + 5, i));
        },
        None => {
            assert(span_tail_text(id, fs) =~= ",\"f\":"@ + (ff + seq!['}']));
            lemma_prefix_split(inp, q, ",\"f\":"@, ff + seq!['}']);
            lemma_prefix_split(inp, q + 5, ff, seq!['}']);
            lemma_prefix_first(inp, q, ",\"f\":"@);
            lemma_prefix_first(inp, q + 5 + ff.len(), seq!['}']);
            assert(prefix_at(inp, q + 1, key_text("f"@))) by {
                assert(inp.subrange(q + 1, q + 5) =~= key_text("f"@)) by {
                    assert forall|j: int| 0 <= j < 4 implies inp.subrange(q + 1, q + 5)[j]
                        == key_text("f"@)[j] by {
                        lemma_prefix_index(inp, q, ",\"f\":"@, j + 1);
                    }
                }
            }
            if prefix_at(inp, q + 1, key_text("i"@)) {
                lemma_prefix_index(inp, q + 1, key_text("i"@), 1);
                lemma_prefix_index(inp, q + 1, key_text("f"@), 1);
                assert(false);
            }
            if prefix_at(inp, q + 1, key_text("id"@)) {
                lemma_prefix_index(inp, q + 1, key_text("id"@), 1);
                lemma_prefix_index(inp, q + 1, key_text("f"@), 1);
                assert(false);
            }
            assert(fields_present(inp, q + 5, fs));
        },
    }
}

/// Scan the tail of a span object: the optional id entry, the fields
/// entry, the closing brace.
#[verifier::rlimit(100)]
fn parse_span_tail(inp: &Vec<char>, q: usize) -> (r: Option<
    (Option<u64>, crate::value::FieldList, usize),
>)
    ensures
        r matches Some((id, flds, p)) ==> q < p <= inp@.len() && id != Some(0u64),
        forall|id: Option<u64>, fs: Seq<FieldModel>|
            #[trigger] span_tail_present(inp@, q as int, id, fs) ==> (r matches Some(
                (ido, flds, p),
            ) && ido == id && crate::value::fields_view(flds) == fs && p == q + span_tail_text(
                id,
                fs,
            ).len()),
{
    let ghost gq = q as int;
    if q >= inp.len() || inp[q] != ',' {
        proof {
            assert forall|id: Option<u64>, fs: Seq<FieldModel>| !span_tail_present(
                inp@,
                gq,
                id,
                fs,
            ) by {
                if span_tail_present(inp@, gq, id, fs) {
                    lemma_span_tail_parts(inp@, gq, id, fs);
                }
            }
        }
        return None;
    }
    let mut idv: Option<u64> = None;
    let mut p4 = q;
    match eat_key(inp, q + 1, "i", "id") {
        Some(pk) => {
            let (v, pv) = match scan_u64(inp, pk) {
                Some(x) => x,
                None => {
                    proof {
                        assert forall|id: Option<u64>, fs: Seq<FieldModel>| !span_tail_present(
                            inp@,
                            gq,
                            id,
                            fs,
                        ) by {
                            if span_tail_present(inp@, gq, id, fs) {
                                lemma_span_tail_parts(inp@, gq, id, fs);
                                lemma_key_lens();
                            }
                        }
                    }
                    return None;
                },
            };
            if v == 0 {
                proof {
                    assert forall|id: Option<u64>, fs: Seq<FieldModel>| !span_tail_present(
                        inp@,
                        gq,
                        id,
                        fs,
                    ) by {
                        if span_tail_present(inp@, gq, id, fs) {
                            lemma_span_tail_parts(inp@, gq, id, fs);
                            lemma_key_lens();
                        }
                    }
                }
                return None;
            }
            idv = Some(v);
            p4 = pv;
        },
        None => {},
    }
    proof {
        assert forall|id: Option<u64>, fs: Seq<FieldModel>| #[trigger] span_tail_present(
            inp@,
            gq,
            id,
            fs,
        ) implies (idv == id && span_tail_present(inp@, p4 as int, None, fs) && span_tail_text(
            id,
            fs,
        ).len() == (p4 - gq) + span_tail_text(None, fs).len()) by {
            lemma_span_tail_parts(inp@, gq, id, fs);
            lemma_key_lens();
            if id is Some {
                lemma_span_tail_parts(
                    inp@,
                    gq + 5 + dec_digits(id->Some_0 as int).len(),
                    None,
                    fs,
                );
            }
        }
    }
    // the fields entry: a comma, the key, the map, the closing brace
    if p4 >= inp.len() || inp[p4] != ',' {
        proof {
            assert forall|id: Option<u64>, fs: Seq<FieldModel>| !span_tail_present(
                inp@,
                gq,
                id,
                fs,
            ) by {
                if span_tail_present(inp@, gq, id, fs) {
                    lemma_span_tail_parts(inp@, p4 as int, None, fs);
                }
            }
        }
        return None;
    }
    let p5 = match eat_key(inp, p4 + 1, "f", "fields") {
        Some(p) => p,
        None => {
            proof {
                assert forall|id: Option<u64>, fs: Seq<FieldModel>| !span_tail_present(
                    inp@,
                    gq,
                    id,
                    fs,
                ) by {
                    if span_tail_present(inp@, gq, id, fs) {
                        lemma_span_tail_parts(inp@, p4 as int, None, fs);
                        lemma_key_lens();
                    }
                }
            }
            return None;
        },
    };
    let (fields, p6) = match parse_fields(inp, p5) {
        Some(x) => x,
        None => {
            proof {
                assert forall|id: Option<u64>, fs: Seq<FieldModel>| !span_tail_present(
                    inp@,
                    gq,
                    id,
                    fs,
                ) by {
                    if span_tail_present(inp@, gq, id, fs) {
                        lemma_span_tail_parts(inp@, p4 as int, None, fs);
                        lemma_key_lens();
                    }
                }
            }
            return None;
        },
    };
    if p6 >= inp.len() || inp[p6] != '}' {
        proof {
            assert forall|id: Option<u64>, fs: Seq<FieldModel>| !span_tail_present(
                inp@,
                gq,
                id,
                fs,
            ) by {
                if span_tail_present(inp@, gq, id, fs) {
                    lemma_span_tail_parts(inp@, p4 as int, None, fs);
                    lemma_key_lens();
                }
            }
        }
        return None;
    }
    proof {
        assert forall|id: Option<u64>, fs: Seq<FieldModel>| #[trigger] span_tail_present(
            inp@,
            gq,
            id,
            fs,
        ) implies (idv == id && crate::value::fields_view(fields) == fs && p6 + 1 == gq
            + span_tail_text(id, fs).len()) by {
            lemma_span_tail_parts(inp@, p4 as int, None, fs);
            lemma_key_lens();
        }
    }
    Some((idv, fields, p6 + 1))
}

/// Scan one span object: its name, its optional id, its fields.
#[verifier::rlimit(100)]
pub fn parse_span(inp: &Vec<char>, pos: usize) -> (r: Option<(crate::span::Span, usize)>)
    ensures
        r matches Some((sp, p)) ==> pos < p <= inp@.len() && sp@.id != Some(0u64),
        forall|sp: SpanModel| #[trigger] span_present(inp@, pos as int, sp) ==> (r matches Some(
            (so, p),
        ) && so@ == sp && p == pos + json_of_span(sp).len()),
{
    let ghost gpos = pos as int;
    if pos >= inp.len() || inp[pos] != '{' {
        proof {
            assert forall|sp: SpanModel| !span_present(inp@, gpos, sp) by {
                if span_present(inp@, gpos, sp) {
                    lemma_span_split(inp@, gpos, sp);
                }
            }
        }
        return None;
    }
    let p1 = match eat_key(inp, pos + 1, "n", "name") {
        Some(p) => p,
        None => {
            proof {
                assert forall|sp: SpanModel| !span_present(inp@, gpos, sp) by {
                    if span_present(inp@, gpos, sp) {
                        lemma_span_split(inp@, gpos, sp);
                        lemma_key_lens();
                    }
                }
            }
            return None;
        },
    };
    let (name, p2) = match scan_string(inp, p1) {
        Some(x) => x,
        None => {
            proof {
                assert forall|sp: SpanModel| !span_present(inp@, gpos, sp) by {
                    if span_present(inp@, gpos, sp) {
                        lemma_span_split(inp@, gpos, sp);
                        lemma_key_lens();
                        lemma_scan_str_round_trip(inp@, gpos + 5, sp.name);
                    }
                }
            }
            return None;
        },
    };
    match parse_span_tail(inp, p2) {
        Some((id, fields, p)) => {
            let sp_out = crate::span::Span { name, id, fields };
            proof {
                assert forall|sp: SpanModel| #[trigger] span_present(inp@, gpos, sp) implies (
                sp_out@ == sp && p == gpos + json_of_span(sp).len()) by {
                    lemma_span_split(inp@, gpos, sp);
                    lemma_key_lens();
                    lemma_scan_str_round_trip(inp@, gpos + 5, sp.name);
                }
            }
            Some((sp_out, p))
        },
        None => {
            proof {
                assert forall|sp: SpanModel| !span_present(inp@, gpos, sp) by {
                    if span_present(inp@, gpos, sp) {
                        lemma_span_split(inp@, gpos, sp);
                        lemma_key_lens();
                        lemma_scan_str_round_trip(inp@, gpos + 5, sp.name);
                    }
                }
            }
            None
        },
    }
}

/// Try one exact run of characters at `pos`.
fn try_lit(inp: &Vec<char>, pos: usize, lit: &str) -> (r: Option<usize>)
    ensures
        r matches Some(p) ==> p == pos + lit@.len() && prefix_at(inp@, pos as int, lit@) && pos
            <= p <= inp@.len(),
        r is None ==> !prefix_at(inp@, pos as int, lit@),
{
    let n = inp.len();
    let kl = lit.unicode_len();
    if pos > n || n - pos < kl {
        proof {
            assert(!prefix_at(inp@, pos as int, lit@));
        }
        return None;
    }
    for i in 0..kl
        invariant
            kl == lit@.len(),
            n == inp@.len(),
            pos + kl <= n,
            forall|j: int| 0 <= j < i ==> inp@[pos + j] == lit@[j],
        decreases kl - i,
    {
        if inp[pos + i] != lit.get_char(i) {
            proof {
                if prefix_at(inp@, pos as int, lit@) {
                    lemma_prefix_index(inp@, pos as int, lit@, i as int);
                }
            }
            return None;
        }
    }
    proof {
        assert(inp@.subrange(pos as int, pos + kl) =~= lit@);
    }
    Some(pos + kl)
}

/// Every span of the stack is well formed.
pub open spec fn spans_ok(ss: Seq<SpanModel>) -> bool {
    forall|i: int| 0 <= i < ss.len() ==> span_ok(#[trigger] ss[i])
}

/// The wire text of the whole span stack sits at `pos`.
pub open spec fn spans_present(inp: Seq<char>, pos: int, ss: Seq<SpanModel>) -> bool {
    spans_ok(ss) && prefix_at(inp, pos, json_of_spans(ss))
}

/// The remaining spans of the stack and the closing bracket sit at `pos`.
pub open spec fn spans_rest_present(inp: Seq<char>, pos: int, ss: Seq<SpanModel>) -> bool {
    spans_ok(ss) && prefix_at(inp, pos, json_of_spans_rest(ss) + seq![']'])
}

/// The first remaining span of the stack splits off.
proof fn lemma_spans_rest_parts(inp: Seq<char>, pos: int, ss: Seq<SpanModel>)
    requires
        spans_rest_present(inp, pos, ss),
        ss.len() > 0,
    ensures
        pos < inp.len(),
        inp[pos] == ',',
        span_present(inp, pos + 1, ss[0]),
        spans_rest_present(inp, pos + 1 + json_of_span(ss[0]).len(), ss.skip(1)),
        json_of_spans_rest(ss).len() == 1 + json_of_span(ss[0]).len() + json_of_spans_rest(
            ss.skip(1),
        ).len(),
{
    let e0 = json_of_span(ss[0]);
    let rest = json_of_spans_rest(ss.skip(1));
    assert(json_of_spans_rest(ss) == seq![','] + e0 + rest);
    assert(json_of_spans_rest(ss) + seq![']'] =~= seq![','] + (e0 + (rest + seq![']'])));
    lemma_prefix_split(inp, pos, seq![','], e0 + (rest + seq![']']));
    lemma_prefix_first(inp, pos, seq![',']);
    lemma_prefix_split(inp, pos + 1, e0, rest + seq![']']);
    assert(span_ok(ss[0]));
    assert(spans_ok(ss.skip(1)));
    assert(spans_rest_present(inp, pos + 1 + e0.len(), ss.skip(1)));
}

/// A present span stack splits into its bracket, its first span when it has
/// one, and the rest.
proof fn lemma_spans_shape(inp: Seq<char>, pos: int, ss: Seq<SpanModel>)
    requires
        spans_present(inp, pos, ss),
    ensures
        pos < inp.len(),
        inp[pos] == '[',
        ss.len() == 0 ==> pos + 2 <= inp.len() && inp[pos + 1] == ']' && json_of_spans(ss).len()
            == 2,
        ss.len() > 0 ==> pos + 1 < inp.len() && inp[pos + 1] == '{' && span_present(
            inp,
            pos + 1,
            ss[0],
        ) && spans_rest_present(inp, pos + 1 + json_of_span(ss[0]).len(), ss.skip(1))
            && json_of_spans(ss).len() == 1 + json_of_span(ss[0]).len() + json_of_spans_rest(
            ss.skip(1),
        ).len() + 1,
{
    if ss.len() == 0 {
        reveal_strlit("[]");
        lemma_prefix_first(inp, pos, json_of_spans(ss));
        lemma_prefix_index(inp, pos, json_of_spans(ss), 1);
    } else {
        let e0 = json_of_span(ss[0]);
        let rest = json_of_spans_rest(ss.skip(1));
        assert(json_of_spans(ss) =~= seq!['['] + (e0 + (rest + seq![']'])));
        lemma_prefix_first(inp, pos, json_of_spans(ss));
        lemma_prefix_split(inp, pos, seq!['['], e0 + (rest + seq![']']));
        lemma_prefix_split(inp, pos + 1, e0, rest + seq![']']);
        assert(span_ok(ss[0]));
        assert(spans_ok(ss.skip(1)));
        assert(spans_rest_present(inp, pos + 1 + e0.len(), ss.skip(1)));
        reveal_strlit("{\"n\":");
        assert(e0[0] == '{');
        lemma_prefix_first(inp, pos + 1, e0);
    }
}

/// Scan the remaining spans of the stack and the closing bracket.
#[verifier::rlimit(100)]
fn parse_spans_rest(inp: &Vec<char>, pos: usize, acc: Vec<crate::span::Span>) -> (r: Option<
    (Vec<crate::span::Span>, usize),
>)
    ensures
        r matches Some((out, p)) ==> pos < p <= inp@.len(),
        forall|ss: Seq<SpanModel>| #[trigger] spans_rest_present(inp@, pos as int, ss) ==> (r
            matches Some((out, p)) && out@.map_values(|s: crate::span::Span| s@) == acc@.map_values(
            |s: crate::span::Span| s@,
        ) + ss && p == pos + json_of_spans_rest(ss).len() + 1),
    decreases inp@.len() - pos,
{
    let ghost gpos = pos as int;
    let ghost acc0 = acc@.map_values(|s: crate::span::Span| s@);
    if pos >= inp.len() {
        proof {
            assert forall|ss: Seq<SpanModel>| !spans_rest_present(inp@, gpos, ss) by {
                if spans_rest_present(inp@, gpos, ss) {
                    assert((json_of_spans_rest(ss) + seq![']']).len() >= 1);
                }
            }
        }
        return None;
    }
    let c = inp[pos];
    if c == ']' {
        proof {
            assert forall|ss: Seq<SpanModel>| #[trigger] spans_rest_present(inp@, gpos, ss)
                implies (acc0 + ss == acc0 && json_of_spans_rest(ss).len() == 0) by {
                if ss.len() > 0 {
                    lemma_spans_rest_parts(inp@, gpos, ss);
                }
                assert(ss =~= Seq::<SpanModel>::empty());
                assert(json_of_spans_rest(ss) =~= Seq::<char>::empty());
                assert(acc0 + ss =~= acc0);
            }
        }
        return Some((acc, pos + 1));
    }
    if c != ',' {
        proof {
            assert forall|ss: Seq<SpanModel>| !spans_rest_present(inp@, gpos, ss) by {
                if spans_rest_present(inp@, gpos, ss) {
                    if ss.len() > 0 {
                        lemma_spans_rest_parts(inp@, gpos, ss);
                    } else {
                        lemma_prefix_first(inp@, gpos, json_of_spans_rest(ss) + seq![']']);
                        assert((json_of_spans_rest(ss) + seq![']'])[0] == ']');
                    }
                }
            }
        }
        return None;
    }
    match parse_span(inp, pos + 1) {
        Some((sp, p)) => {
            let ghost spm = sp@;
            let mut acc2 = acc;
            acc2.push(sp);
            proof {
                assert(acc2@.map_values(|s: crate::span::Span| s@) =~= acc0.push(spm));
            }
            match parse_spans_rest(inp, p, acc2) {
                Some((out, p2)) => {
                    proof {
                        assert forall|ss: Seq<SpanModel>| #[trigger] spans_rest_present(
                            inp@,
                            gpos,
                            ss,
                        ) implies (out@.map_values(|s: crate::span::Span| s@) == acc0 + ss && p2
                            == gpos + json_of_spans_rest(ss).len() + 1) by {
                            if ss.len() == 0 {
                                lemma_prefix_first(inp@, gpos, json_of_spans_rest(ss) + seq![']']);
                                assert((json_of_spans_rest(ss) + seq![']'])[0] == ']');
                            }
                            lemma_spans_rest_parts(inp@, gpos, ss);
                            assert(spans_rest_present(
                                inp@,
                                gpos + 1 + json_of_span(ss[0]).len(),
                                ss.skip(1),
                            ));
                            assert(spm == ss[0]);
                            assert(acc0.push(ss[0]) + ss.skip(1) =~= acc0 + ss);
                        }
                    }
                    Some((out, p2))
                },
                None => {
                    proof {
                        assert forall|ss: Seq<SpanModel>| !spans_rest_present(inp@, gpos, ss) by {
                            if spans_rest_present(inp@, gpos, ss) {
                                if ss.len() == 0 {
                                    lemma_prefix_first(
                                        inp@,
                                        gpos,
                                        json_of_spans_rest(ss) + seq![']'],
                                    );
                                    assert((json_of_spans_rest(ss) + seq![']'])[0] == ']');
                                }
                                lemma_spans_rest_parts(inp@, gpos, ss);
                                assert(spans_rest_present(
                                    inp@,
                                    gpos + 1 + json_of_span(ss[0]).len(),
                                    ss.skip(1),
                                ));
                            }
                        }
                    }
                    None
                },
            }
        },
        None => {
            proof {
                assert forall|ss: Seq<SpanModel>| !spans_rest_present(inp@, gpos, ss) by {
                    if spans_rest_present(inp@, gpos, ss) {
                        if ss.len() == 0 {
                            lemma_prefix_first(inp@, gpos, json_of_spans_rest(ss) + seq![']']);
                            assert((json_of_spans_rest(ss) + seq![']'])[0] == ']');
                        }
                        lemma_spans_rest_parts(inp@, gpos, ss);
                    }
                }
            }
            None
        },
    }
}

/// Scan the whole span stack.
#[verifier::rlimit(100)]
pub fn parse_spans(inp: &Vec<char>, pos: usize) -> (r: Option<(Vec<crate::span::Span>, usize)>)
    ensures
        r matches Some((out, p)) ==> pos < p <= inp@.len(),
        forall|ss: Seq<SpanModel>| #[trigger] spans_present(inp@, pos as int, ss) ==> (r
            matches Some((out, p)) && out@.map_values(|s: crate::span::Span| s@) == ss && p == pos
            + json_of_spans(ss).len()),
{
    let ghost gpos = pos as int;
    if pos >= inp.len() || inp[pos] != '[' {
        proof {
            assert forall|ss: Seq<SpanModel>| !spans_present(inp@, gpos, ss) by {
                if spans_present(inp@, gpos, ss) {
                    lemma_spans_shape(inp@, gpos, ss);
                }
            }
        }
        return None;
    }
    if pos + 1 < inp.len() && inp[pos + 1] == ']' {
        let out: Vec<crate::span::Span> = Vec::new();
        proof {
            assert forall|ss: Seq<SpanModel>| #[trigger] spans_present(inp@, gpos, ss) implies (
            out@.map_values(|s: crate::span::Span| s@) == ss && json_of_spans(ss).len() == 2) by {
                lemma_spans_shape(inp@, gpos, ss);
                if ss.len() > 0 {
                    assert(inp@[gpos + 1] == '{');
                }
                assert(ss =~= Seq::<SpanModel>::empty());
                assert(out@.map_values(|s: crate::span::Span| s@) =~= Seq::<SpanModel>::empty());
            }
        }
        return Some((out, pos + 2));
    }
    match parse_span(inp, pos + 1) {
        Some((sp, p)) => {
            let ghost spm = sp@;
            let mut acc: Vec<crate::span::Span> = Vec::new();
            acc.push(sp);
            proof {
                assert(acc@.map_values(|s: crate::span::Span| s@) =~= seq![spm]);
            }
            match parse_spans_rest(inp, p, acc) {
                Some((out, p2)) => {
                    proof {
                        assert forall|ss: Seq<SpanModel>| #[trigger] spans_present(inp@, gpos, ss)
                            implies (out@.map_values(|s: crate::span::Span| s@) == ss && p2 == gpos
                            + json_of_spans(ss).len()) by {
                            lemma_spans_shape(inp@, gpos, ss);
                            assert(ss.len() > 0);
                            assert(spans_rest_present(
                                inp@,
                                gpos + 1 + json_of_span(ss[0]).len(),
                                ss.skip(1),
                            ));
                            assert(spm == ss[0]);
                            assert(seq![ss[0]] + ss.skip(1) =~= ss);
                        }
                    }
                    Some((out, p2))
                },
                None => {
                    proof {
                        assert forall|ss: Seq<SpanModel>| !spans_present(inp@, gpos, ss) by {
                            if spans_present(inp@, gpos, ss) {
                                lemma_spans_shape(inp@, gpos, ss);
                                assert(ss.len() > 0);
                                assert(spans_rest_present(
                                    inp@,
                                    gpos + 1 + json_of_span(ss[0]).len(),
                                    ss.skip(1),
                                ));
                            }
                        }
                    }
                    None
                },
            }
        },
        None => {
            proof {
                assert forall|ss: Seq<SpanModel>| !spans_present(inp@, gpos, ss) by {
                    if spans_present(inp@, gpos, ss) {
                        lemma_spans_shape(inp@, gpos, ss);
                        assert(ss.len() > 0);
                    }
                }
            }
            None
        },
    }
}

/// The wire text of the busy and idle counters sits at `pos`.
pub open spec fn span_time_present(inp: Seq<char>, pos: int, t: crate::time::SpanTime) -> bool {
    prefix_at(inp, pos, json_of_span_time(t))
}

/// A present pair of counters splits into its pieces.
proof fn lemma_span_time_parts(inp: Seq<char>, pos: int, t: crate::time::SpanTime)
    requires
        span_time_present(inp, pos, t),
    ensures
        prefix_at(inp, pos, "{\"busy\":"@),
        dec_prefix_at(inp, pos + 8, t.busy),
        prefix_at(inp, pos + 8 + dec_digits(t.busy as int).len(), ",\"idle\":"@),
        dec_prefix_at(inp, pos + 8 + dec_digits(t.busy as int).len() + 8, t.idle),
        inp[pos + 8 + dec_digits(t.busy as int).len() + 8 + dec_digits(t.idle as int).len()]
            == '}',
        json_of_span_time(t).len() == 8 + dec_digits(t.busy as int).len() + 8 + dec_digits(
            t.idle as int,
        ).len() + 1,
{
    reveal_strlit("{\"busy\":");
    reveal_strlit(",\"idle\":");
    let db = dec_digits(t.busy as int);
    let di = dec_digits(t.idle as int);
    assert(json_of_span_time(t) =~= "{\"busy\":"@ + (db + (",\"idle\":"@ + (di + seq!['}']))));
    lemma_prefix_split(inp, pos, "{\"busy\":"@, db + (",\"idle\":"@ + (di + seq!['}'])));
    lemma_prefix_split(inp, pos + 8, db, ",\"idle\":"@ + (di + seq!['}']));
    let q1 = pos + 8 + db.len();
    lemma_prefix_split(inp, q1, ",\"idle\":"@, di + seq!['}']);
    lemma_prefix_first(inp, q1, ",\"idle\":"@);
    let q2 = q1 + 8;
    lemma_prefix_split(inp, q2, di, seq!['}']);
    lemma_prefix_first(inp, q2 + di.len(), seq!['}']);
    crate::dec::lemma_dec_digits_shape(t.busy as int);
    crate::dec::lemma_dec_digits_shape(t.idle as int);
    assert(dec_prefix_at(inp, pos + 8, t.busy));
    assert(dec_prefix_at(inp, q2, t.idle));
}

/// Scan the busy and idle counters of a closed span.
#[verifier::rlimit(100)]
fn parse_span_time(inp: &Vec<char>, pos: usize) -> (r: Option<(crate::time::SpanTime, usize)>)
    ensures
        r matches Some((t, p)) ==> pos < p <= inp@.len(),
        forall|t: crate::time::SpanTime| #[trigger] span_time_present(inp@, pos as int, t) ==> (r
            matches Some((to, p)) && to == t && p == pos + json_of_span_time(t).len()),
{
    let ghost gpos = pos as int;
    let _total = inp.len();
    proof {
        assert(inp@.len() <= usize::MAX);
    }
    let p1 = match try_lit(inp, pos, "{\"busy\":") {
        Some(p) => p,
        None => {
            proof {
                assert forall|t: crate::time::SpanTime| !span_time_present(inp@, gpos, t) by {
                    if span_time_present(inp@, gpos, t) {
                        lemma_span_time_parts(inp@, gpos, t);
                        lemma_time_lit_lens();
                    }
                }
            }
            return None;
        },
    };
    let (busy, p2) = match scan_u64(inp, p1) {
        Some(x) => x,
        None => {
            proof {
                assert forall|t: crate::time::SpanTime| !span_time_present(inp@, gpos, t) by {
                    if span_time_present(inp@, gpos, t) {
                        lemma_span_time_parts(inp@, gpos, t);
                        lemma_time_lit_lens();
                        assert(dec_prefix_at(inp@, p1 as int, t.busy));
                    }
                }
            }
            return None;
        },
    };
    let p3 = match try_lit(inp, p2, ",\"idle\":") {
        Some(p) => p,
        None => {
            proof {
                assert forall|t: crate::time::SpanTime| !span_time_present(inp@, gpos, t) by {
                    if span_time_present(inp@, gpos, t) {
                        lemma_span_time_parts(inp@, gpos, t);
                        lemma_time_lit_lens();
                        assert(dec_prefix_at(inp@, p1 as int, t.busy));
                    }
                }
            }
            return None;
        },
    };
    let (idle, p4) = match scan_u64(inp, p3) {
        Some(x) => x,
        None => {
            proof {
                assert forall|t: crate::time::SpanTime| !span_time_present(inp@, gpos, t) by {
                    if span_time_present(inp@, gpos, t) {
                        lemma_span_time_parts(inp@, gpos, t);
                        lemma_time_lit_lens();
                        assert(dec_prefix_at(inp@, p1 as int, t.busy));
                        assert(dec_prefix_at(inp@, p3 as int, t.idle));
                    }
                }
            }
            return None;
        },
    };
    if p4 >= inp.len() || inp[p4] != '}' {
        proof {
            assert forall|t: crate::time::SpanTime| !span_time_present(inp@, gpos, t) by {
                if span_time_present(inp@, gpos, t) {
                    lemma_span_time_parts(inp@, gpos, t);
                    lemma_time_lit_lens();
                    assert(dec_prefix_at(inp@, p1 as int, t.busy));
                    assert(dec_prefix_at(inp@, p3 as int, t.idle));
                }
            }
        }
        return None;
    }
    let t_out = crate::time::SpanTime { busy, idle };
    proof {
        assert forall|t: crate::time::SpanTime| #[trigger] span_time_present(inp@, gpos, t)
            implies (t_out == t && p4 + 1 == gpos + json_of_span_time(t).len()) by {
            lemma_span_time_parts(inp@, gpos, t);
            lemma_time_lit_lens();
            assert(dec_prefix_at(inp@, p1 as int, t.busy));
            assert(dec_prefix_at(inp@, p3 as int, t.idle));
        }
    }
    Some((t_out, p4 + 1))
}

/// The lengths of the fixed texts of the timing and timestamp objects.
proof fn lemma_time_lit_lens()
    ensures
        "{\"busy\":"@.len() == 8,
        ",\"idle\":"@.len() == 8,
        "{\"s\":"@.len() == 5,
        ",\"n\":"@.len() == 5,
{
    reveal_strlit("{\"busy\":");
    reveal_strlit(",\"idle\":");
    reveal_strlit("{\"s\":");
    reveal_strlit(",\"n\":");
}

/// The wire text of a timestamp sits at `pos`.
pub open spec fn time_present(inp: Seq<char>, pos: int, t: crate::time::UnixTime) -> bool {
    prefix_at(inp, pos, json_of_time(t))
}

/// A present timestamp splits into its pieces.
proof fn lemma_time_parts(inp: Seq<char>, pos: int, t: crate::time::UnixTime)
    requires
        time_present(inp, pos, t),
    ensures
        prefix_at(inp, pos, "{\"s\":"@),
        dec_prefix_at(inp, pos + 5, t.seconds),
        prefix_at(inp, pos + 5 + dec_digits(t.seconds as int).len(), ",\"n\":"@),
        dec_prefix_at_u32(inp, pos + 5 + dec_digits(t.seconds as int).len() + 5, t.nanos),
        inp[pos + 5 + dec_digits(t.seconds as int).len() + 5 + dec_digits(t.nanos as int).len()]
            == '}',
        json_of_time(t).len() == 5 + dec_digits(t.seconds as int).len() + 5 + dec_digits(
            t.nanos as int,
        ).len() + 1,
{
    reveal_strlit("{\"s\":");
    reveal_strlit(",\"n\":");
    let ds = dec_digits(t.seconds as int);
    let dn = dec_digits(t.nanos as int);
    assert(json_of_time(t) =~= "{\"s\":"@ + (ds + (",\"n\":"@ + (dn + seq!['}']))));
    lemma_prefix_split(inp, pos, "{\"s\":"@, ds + (",\"n\":"@ + (dn + seq!['}'])));
    lemma_prefix_split(inp, pos + 5, ds, ",\"n\":"@ + (dn + seq!['}']));
    let q1 = pos + 5 + ds.len();
    lemma_prefix_split(inp, q1, ",\"n\":"@, dn + seq!['}']);
    lemma_prefix_first(inp, q1, ",\"n\":"@);
    let q2 = q1 + 5;
    lemma_prefix_split(inp, q2, dn, seq!['}']);
    lemma_prefix_first(inp, q2 + dn.len(), seq!['}']);
    crate::dec::lemma_dec_digits_shape(t.seconds as int);
    crate::dec::lemma_dec_digits_shape(t.nanos as int);
    assert(dec_prefix_at(inp, pos + 5, t.seconds));
    assert(dec_prefix_at_u32(inp, q2, t.nanos));
}

/// The numeral of a 32-bit value sits at `i`, followed by a non-digit.
pub open spec fn dec_prefix_at_u32(s: Seq<char>, i: int, n: u32) -> bool {
    dec_prefix_at(s, i, n as u64)
}

/// Scan a timestamp object.
#[verifier::rlimit(100)]
fn parse_time(inp: &Vec<char>, pos: usize) -> (r: Option<(crate::time::UnixTime, usize)>)
    ensures
        r matches Some((t, p)) ==> pos < p <= inp@.len(),
        forall|t: crate::time::UnixTime| #[trigger] time_present(inp@, pos as int, t) ==> (r
            matches Some((to, p)) && to == t && p == pos + json_of_time(t).len()),
{
    let ghost gpos = pos as int;
    let _total = inp.len();
    proof {
        assert(inp@.len() <= usize::MAX);
    }
    let p1 = match try_lit(inp, pos, "{\"s\":") {
        Some(p) => p,
        None => {
            proof {
                assert forall|t: crate::time::UnixTime| !time_present(inp@, gpos, t) by {
                    if time_present(inp@, gpos, t) {
                        lemma_time_parts(inp@, gpos, t);
                        lemma_time_lit_lens();
                    }
                }
            }
            return None;
        },
    };
    let (secs, p2) = match scan_u64(inp, p1) {
        Some(x) => x,
        None => {
            proof {
                assert forall|t: crate::time::UnixTime| !time_present(inp@, gpos, t) by {
                    if time_present(inp@, gpos, t) {
                        lemma_time_parts(inp@, gpos, t);
                        lemma_time_lit_lens();
                        assert(dec_prefix_at(inp@, p1 as int, t.seconds));
                    }
                }
            }
            return None;
        },
    };
    let p3 = match try_lit(inp, p2, ",\"n\":") {
        Some(p) => p,
        None => {
            proof {
                assert forall|t: crate::time::UnixTime| !time_present(inp@, gpos, t) by {
                    if time_present(inp@, gpos, t) {
                        lemma_time_parts(inp@, gpos, t);
                        lemma_time_lit_lens();
                        assert(dec_prefix_at(inp@, p1 as int, t.seconds));
                    }
                }
            }
            return None;
        },
    };
    let (nanos64, p4) = match scan_u64(inp, p3) {
        Some(x) => x,
        None => {
            proof {
                assert forall|t: crate::time::UnixTime| !time_present(inp@, gpos, t) by {
                    if time_present(inp@, gpos, t) {
                        lemma_time_parts(inp@, gpos, t);
                        lemma_time_lit_lens();
                        assert(dec_prefix_at(inp@, p1 as int, t.seconds));
                        assert(dec_prefix_at(inp@, p3 as int, t.nanos as u64));
                    }
                }
            }
            return None;
        },
    };
    if nanos64 > 0xffff_ffff {
        proof {
            assert forall|t: crate::time::UnixTime| !time_present(inp@, gpos, t) by {
                if time_present(inp@, gpos, t) {
                    lemma_time_parts(inp@, gpos, t);
                    lemma_time_lit_lens();
                    assert(dec_prefix_at(inp@, p1 as int, t.seconds));
                    assert(dec_prefix_at(inp@, p3 as int, t.nanos as u64));
                }
            }
        }
        return None;
    }
    if p4 >= inp.len() || inp[p4] != '}' {
        proof {
            assert forall|t: crate::time::UnixTime| !time_present(inp@, gpos, t) by {
                if time_present(inp@, gpos, t) {
                    lemma_time_parts(inp@, gpos, t);
                    lemma_time_lit_lens();
                    assert(dec_prefix_at(inp@, p1 as int, t.seconds));
                    assert(dec_prefix_at(inp@, p3 as int, t.nanos as u64));
                }
            }
        }
        return None;
    }
    let t_out = crate::time::UnixTime { seconds: secs, nanos: nanos64 as u32 };
    proof {
        assert forall|t: crate::time::UnixTime| #[trigger] time_present(inp@, gpos, t) implies (
        t_out == t && p4 + 1 == gpos + json_of_time(t).len()) by {
            lemma_time_parts(inp@, gpos, t);
            lemma_time_lit_lens();
            assert(dec_prefix_at(inp@, p1 as int, t.seconds));
            assert(dec_prefix_at(inp@, p3 as int, t.nanos as u64));
        }
    }
    Some((t_out, p4 + 1))
}

/// A kind the completeness contracts speak of.
pub open spec fn kind_ok(k: crate::event::KindModel) -> bool {
    match k {
        crate::event::KindModel::Event(fs) => plain_fields(fs),
        _ => true,
    }
}

/// The wire text of an event kind sits at `pos`.
pub open spec fn kind_present(inp: Seq<char>, pos: int, k: crate::event::KindModel) -> bool {
    kind_ok(k) && prefix_at(inp, pos, json_of_kind(k))
}

/// A present kind splits into its pieces, by variant.
#[verifier::rlimit(100)]
proof fn lemma_kind_parts(inp: Seq<char>, pos: int, k: crate::event::KindModel)
    requires
        kind_present(inp, pos, k),
    ensures
        pos < inp.len(),
        k is SpanCreate ==> prefix_at(inp, pos, "\"span_create\""@) && json_of_kind(k).len() == 13,
        k is SpanEnter ==> prefix_at(inp, pos, "\"span_enter\""@) && json_of_kind(k).len() == 12,
        k is SpanExit ==> prefix_at(inp, pos, "\"span_exit\""@) && json_of_kind(k).len() == 11,
        k matches KindModel::Event(fs) ==> inp[pos] == '{' && prefix_at(
            inp,
            pos + 1,
            key_text("event"@),
        ) && fields_present(inp, pos + 9, fs) && inp[pos + 9 + json_of_fields(fs).len()] == '}'
            && json_of_kind(k).len() == 9 + json_of_fields(fs).len() + 1,
        k == KindModel::SpanClose(None::<crate::time::SpanTime>) ==> inp[pos] == '{' && prefix_at(
            inp,
            pos + 1,
            key_text("span_close"@),
        ) && prefix_at(inp, pos + 14, "null}"@) && json_of_kind(k).len() == 19,
        k matches KindModel::SpanClose(Some(t)) ==> inp[pos] == '{' && prefix_at(
            inp,
            pos + 1,
            key_text("span_close"@),
        ) && span_time_present(inp, pos + 14, t) && inp[pos + 14 + json_of_span_time(t).len()]
            == '}' && json_of_kind(k).len() == 14 + json_of_span_time(t).len() + 1,
        (k is SpanCreate || k is SpanEnter || k is SpanExit) ==> inp[pos] == '"',
{
    reveal_strlit("\"span_create\"");
    reveal_strlit("\"span_enter\"");
    reveal_strlit("\"span_exit\"");
    reveal_strlit("{\"event\":");
    reveal_strlit("event");
    reveal_strlit("{\"span_close\":");
    reveal_strlit("span_close");
    reveal_strlit("{\"span_close\":null}");
    reveal_strlit("null}");
    match k {
        KindModel::Event(fs) => {
            let ff = json_of_fields(fs);
            assert(json_of_kind(k) =~= "{\"event\":"@ + (ff + seq!['}']));
            lemma_prefix_split(inp, pos, "{\"event\":"@, ff + seq!['}']);
            lemma_prefix_split(inp, pos + 9, ff, seq!['}']);
            lemma_prefix_first(inp, pos, "{\"event\":"@);
            lemma_prefix_first(inp, pos + 9 + ff.len(), seq!['}']);
            assert(prefix_at(inp, pos + 1, key_text("event"@))) by {
                assert(inp.subrange(pos + 1, pos + 9) =~= key_text("event"@)) by {
                    assert forall|j: int| 0 <= j < 8 implies inp.subrange(pos + 1, pos + 9)[j]
                        == key_text("event"@)[j] by {
                        lemma_prefix_index(inp, pos, "{\"event\":"@, j + 1);
                    }
                }
            }
        },
        KindModel::SpanCreate => {
            lemma_prefix_first(inp, pos, json_of_kind(k));
        },
        KindModel::SpanEnter => {
            lemma_prefix_first(inp, pos, json_of_kind(k));
        },
        KindModel::SpanExit => {
            lemma_prefix_first(inp, pos, json_of_kind(k));
        },
        KindModel::SpanClose(ot) => {
            match ot {
                None => {
                    assert(json_of_kind(k) =~= "{\"span_close\":"@ + "null}"@);
                    lemma_prefix_split(inp, pos, "{\"span_close\":"@, "null}"@);
                    lemma_prefix_first(inp, pos, "{\"span_close\":"@);
                    assert(prefix_at(inp, pos + 1, key_text("span_close"@))) by {
                        assert(inp.subrange(pos + 1, pos + 14) =~= key_text("span_close"@)) by {
                            assert forall|j: int| 0 <= j < 13 implies inp.subrange(
                                pos + 1,
                                pos + 14,
                            )[j] == key_text("span_close"@)[j] by {
                                lemma_prefix_index(inp, pos, "{\"span_close\":"@, j + 1);
                            }
                        }
                    }
                },
                Some(t) => {
                    let tt = json_of_span_time(t);
                    assert(json_of_kind(k) =~= "{\"span_close\":"@ + (tt + seq!['}']));
                    lemma_prefix_split(inp, pos, "{\"span_close\":"@, tt + seq!['}']);
                    lemma_prefix_split(inp, pos + 14, tt, seq!['}']);
                    lemma_prefix_first(inp, pos, "{\"span_close\":"@);
                    lemma_prefix_first(inp, pos + 14 + tt.len(), seq!['}']);
                    assert(prefix_at(inp, pos + 1, key_text("span_close"@))) by {
                        assert(inp.subrange(pos + 1, pos + 14) =~= key_text("span_close"@)) by {
                            assert forall|j: int| 0 <= j < 13 implies inp.subrange(
                                pos + 1,
                                pos + 14,
                            )[j] == key_text("span_close"@)[j] by {
                                lemma_prefix_index(inp, pos, "{\"span_close\":"@, j + 1);
                            }
                        }
                    }
                },
            }
        },
    }
}

/// Two key texts that differ at some index cannot both sit at one position.
proof fn lemma_keytext_conflict(inp: Seq<char>, p: int, a: Seq<char>, b: Seq<char>, j: int)
    requires
        prefix_at(inp, p, key_text(a)),
        0 <= j < a.len(),
        j < b.len(),
        a[j] != b[j],
    ensures
        !prefix_at(inp, p, key_text(b)),
{
    if prefix_at(inp, p, key_text(b)) {
        lemma_prefix_index(inp, p, key_text(a), j + 1);
        lemma_prefix_index(inp, p, key_text(b), j + 1);
        assert(key_text(a)[j + 1] == a[j]);
        assert(key_text(b)[j + 1] == b[j]);
        assert(false);
    }
}

/// Two plain texts that differ at some index cannot both sit at one
/// position.
proof fn lemma_lit_conflict(inp: Seq<char>, p: int, a: Seq<char>, b: Seq<char>, j: int)
    requires
        prefix_at(inp, p, a),
        0 <= j < a.len(),
        j < b.len(),
        a[j] != b[j],
    ensures
        !prefix_at(inp, p, b),
{
    if prefix_at(inp, p, b) {
        lemma_prefix_index(inp, p, a, j);
        lemma_prefix_index(inp, p, b, j);
        assert(false);
    }
}

/// Scan an event kind.
#[verifier::rlimit(100)]
pub fn parse_kind(inp: &Vec<char>, pos: usize) -> (r: Option<(crate::event::EventKind, usize)>)
    ensures
        r matches Some((k, p)) ==> pos < p <= inp@.len(),
        forall|k: crate::event::KindModel| #[trigger] kind_present(inp@, pos as int, k) ==> (r
            matches Some((ko, p)) && ko@ == k && p == pos + json_of_kind(k).len()),
{
    let ghost gpos = pos as int;
    proof {
        reveal_strlit("\"span_create\"");
        reveal_strlit("\"span_enter\"");
        reveal_strlit("\"span_exit\"");
    }
    if pos >= inp.len() {
        proof {
            assert forall|k: crate::event::KindModel| !kind_present(inp@, gpos, k) by {
                if kind_present(inp@, gpos, k) {
                    lemma_kind_parts(inp@, gpos, k);
                }
            }
        }
        return None;
    }
    let c = inp[pos];
    if c == '"' {
        match try_lit(inp, pos, "\"span_create\"") {
            Some(p) => {
                proof {
                    assert forall|k: crate::event::KindModel| #[trigger] kind_present(
                        inp@,
                        gpos,
                        k,
                    ) implies (k is SpanCreate && json_of_kind(k).len() == 13) by {
                        lemma_kind_parts(inp@, gpos, k);
                        if k is SpanEnter {
                            lemma_lit_conflict(
                                inp@,
                                gpos,
                                "\"span_enter\""@,
                                "\"span_create\""@,
                                6,
                            );
                        }
                        if k is SpanExit {
                            lemma_lit_conflict(
                                inp@,
                                gpos,
                                "\"span_exit\""@,
                                "\"span_create\""@,
                                6,
                            );
                        }
                    }
                }
                return Some((crate::event::EventKind::SpanCreate, p));
            },
            None => {},
        }
        match try_lit(inp, pos, "\"span_enter\"") {
            Some(p) => {
                proof {
                    assert forall|k: crate::event::KindModel| #[trigger] kind_present(
                        inp@,
                        gpos,
                        k,
                    ) implies (k is SpanEnter && json_of_kind(k).len() == 12) by {
                        lemma_kind_parts(inp@, gpos, k);
                        if k is SpanExit {
                            lemma_lit_conflict(
                                inp@,
                                gpos,
                                "\"span_exit\""@,
                                "\"span_enter\""@,
                                7,
                            );
                        }
                    }
                }
                return Some((crate::event::EventKind::SpanEnter, p));
            },
            None => {},
        }
        match try_lit(inp, pos, "\"span_exit\"") {
            Some(p) => {
                proof {
                    assert forall|k: crate::event::KindModel| #[trigger] kind_present(
                        inp@,
                        gpos,
                        k,
                    ) implies (k is SpanExit && json_of_kind(k).len() == 11) by {
                        lemma_kind_parts(inp@, gpos, k);
                    }
                }
                return Some((crate::event::EventKind::SpanExit, p));
            },
            None => {},
        }
        proof {
            assert forall|k: crate::event::KindModel| !kind_present(inp@, gpos, k) by {
                if kind_present(inp@, gpos, k) {
                    lemma_kind_parts(inp@, gpos, k);
                }
            }
        }
        return None;
    }
    if c != '{' {
        proof {
            assert forall|k: crate::event::KindModel| !kind_present(inp@, gpos, k) by {
                if kind_present(inp@, gpos, k) {
                    lemma_kind_parts(inp@, gpos, k);
                }
            }
        }
        return None;
    }
    proof {
        lemma_kind_key_lens();
    }
    match try_key(inp, pos + 1, "event") {
        Some(p1) => {
            let (fields, p2) = match parse_fields(inp, p1) {
                Some(x) => x,
                None => {
                    proof {
                        assert forall|k: crate::event::KindModel| !kind_present(inp@, gpos, k) by {
                            if kind_present(inp@, gpos, k) {
                                lemma_kind_parts(inp@, gpos, k);
                                lemma_kind_key_lens();
                                if k is SpanClose {
                                    lemma_keytext_conflict(
                                        inp@,
                                        gpos + 1,
                                        "span_close"@,
                                        "event"@,
                                        0,
                                    );
                                }
                            }
                        }
                    }
                    return None;
                },
            };
            if p2 >= inp.len() || inp[p2] != '}' {
                proof {
                    assert forall|k: crate::event::KindModel| !kind_present(inp@, gpos, k) by {
                        if kind_present(inp@, gpos, k) {
                            lemma_kind_parts(inp@, gpos, k);
                            lemma_kind_key_lens();
                            if k is SpanClose {
                                lemma_keytext_conflict(
                                    inp@,
                                    gpos + 1,
                                    "span_close"@,
                                    "event"@,
                                    0,
                                );
                            }
                        }
                    }
                }
                return None;
            }
            let ko = crate::event::EventKind::Event(fields);
            proof {
                assert forall|k: crate::event::KindModel| #[trigger] kind_present(inp@, gpos, k)
                    implies (ko@ == k && p2 + 1 == gpos + json_of_kind(k).len()) by {
                    lemma_kind_parts(inp@, gpos, k);
                    lemma_kind_key_lens();
                    if k is SpanClose {
                        lemma_keytext_conflict(inp@, gpos + 1, "span_close"@, "event"@, 0);
                    }
                }
            }
            Some((ko, p2 + 1))
        },
        None => {
            let p1 = match try_key(inp, pos + 1, "span_close") {
                Some(p) => p,
                None => {
                    proof {
                        assert forall|k: crate::event::KindModel| !kind_present(inp@, gpos, k) by {
                            if kind_present(inp@, gpos, k) {
                                lemma_kind_parts(inp@, gpos, k);
                                lemma_kind_key_lens();
                            }
                        }
                    }
                    return None;
                },
            };
            match try_lit(inp, p1, "null}") {
                Some(p) => {
                    proof {
                        assert forall|k: crate::event::KindModel| #[trigger] kind_present(
                            inp@,
                            gpos,
                            k,
                        ) implies (k == KindModel::SpanClose(None::<crate::time::SpanTime>)
                            && json_of_kind(k).len() == 19) by {
                            lemma_kind_parts(inp@, gpos, k);
                            lemma_kind_key_lens();
                            if k is Event {
                                lemma_keytext_conflict(
                                    inp@,
                                    gpos + 1,
                                    "event"@,
                                    "span_close"@,
                                    0,
                                );
                            }
                            if k matches KindModel::SpanClose(Some(t)) {
                                reveal_strlit("{\"busy\":");
                                lemma_lit_conflict(
                                    inp@,
                                    gpos + 14,
                                    "{\"busy\":"@,
                                    "null}"@,
                                    0,
                                );
                            }
                        }
                    }
                    return Some((crate::event::EventKind::SpanClose(None), p));
                },
                None => {},
            }
            let (t, p2) = match parse_span_time(inp, p1) {
                Some(x) => x,
                None => {
                    proof {
                        assert forall|k: crate::event::KindModel| !kind_present(inp@, gpos, k) by {
                            if kind_present(inp@, gpos, k) {
                                lemma_kind_parts(inp@, gpos, k);
                                lemma_kind_key_lens();
                                if k is Event {
                                    lemma_keytext_conflict(
                                        inp@,
                                        gpos + 1,
                                        "event"@,
                                        "span_close"@,
                                        0,
                                    );
                                }
                                    if k is SpanClose {
                                    let ot = k->SpanClose_0;
                                    if ot is Some {
                                        assert(span_time_present(inp@, p1 as int, ot->Some_0));
                                    } else {
                                        assert(prefix_at(inp@, p1 as int, "null}"@));
                                    }
                                }
                            }
                        }
                    }
                    return None;
                },
            };
            if p2 >= inp.len() || inp[p2] != '}' {
                proof {
                    assert forall|k: crate::event::KindModel| !kind_present(inp@, gpos, k) by {
                        if kind_present(inp@, gpos, k) {
                            lemma_kind_parts(inp@, gpos, k);
                            lemma_kind_key_lens();
                            if k is Event {
                                lemma_keytext_conflict(
                                    inp@,
                                    gpos + 1,
                                    "event"@,
                                    "span_close"@,
                                    0,
                                );
                            }
                            if k is SpanClose {
                                let ot = k->SpanClose_0;
                                if ot is Some {
                                    assert(span_time_present(inp@, p1 as int, ot->Some_0));
                                } else {
                                    assert(prefix_at(inp@, p1 as int, "null}"@));
                                }
                            }
                        }
                    }
                }
                return None;
            }
            let ko = crate::event::EventKind::SpanClose(Some(t));
            proof {
                assert forall|k: crate::event::KindModel| #[trigger] kind_present(inp@, gpos, k)
                    implies (ko@ == k && p2 + 1 == gpos + json_of_kind(k).len()) by {
                    lemma_kind_parts(inp@, gpos, k);
                    lemma_kind_key_lens();
                    if k is Event {
                        lemma_keytext_conflict(inp@, gpos + 1, "event"@, "span_close"@, 0);
                    }
                    if k is SpanClose {
                        let ot = k->SpanClose_0;
                        if ot is Some {
                            assert(span_time_present(inp@, p1 as int, ot->Some_0));
                        } else {
                            assert(prefix_at(inp@, p1 as int, "null}"@));
                            reveal_strlit("null}");
                        }
                    }
                }
            }
            Some((ko, p2 + 1))
        },
    }
}

/// The lengths of the kind keys and literals.
proof fn lemma_kind_key_lens()
    ensures
        "event"@.len() == 5,
        "span_close"@.len() == 10,
        "null}"@.len() == 5,
        "event"@[0] == 'e',
        "span_close"@[0] == 's',
        "null}"@[0] == 'n',
{
    reveal_strlit("event");
    reveal_strlit("span_close");
    reveal_strlit("null}");
}

/// An event the completeness contracts speak of: plain field values, well
/// formed spans, nonzero ids.
pub open spec fn event_ok(em: crate::event::EventModel) -> bool {
    kind_ok(em.kind) && spans_ok(em.spans) && em.thread_id != Some(0u64)
}

/// The wire text of one record object sits at `pos`.
pub open spec fn event_present(inp: Seq<char>, pos: int, em: crate::event::EventModel) -> bool {
    event_ok(em) && prefix_at(inp, pos, json_of_event(em))
}

/// The text of the optional trailing fields from slot `k` on, and the
/// closing brace.
pub open spec fn opts_text(em: crate::event::EventModel, k: int) -> Seq<char> {
    (if k <= 0 {
        match em.thread_id {
            Some(v) => ",\"tid\":"@ + dec_digits(v as int),
            None => Seq::<char>::empty(),
        }
    } else {
        Seq::<char>::empty()
    }) + (if k <= 1 {
        match em.thread_name {
            Some(sn) => ",\"tn\":"@ + json_str(sn),
            None => Seq::<char>::empty(),
        }
    } else {
        Seq::<char>::empty()
    }) + (if k <= 2 {
        match em.src_line {
            Some(v) => ",\"srl\":"@ + dec_digits(v as int),
            None => Seq::<char>::empty(),
        }
    } else {
        Seq::<char>::empty()
    }) + (if k <= 3 {
        match em.src_file {
            Some(sf) => ",\"srf\":"@ + json_str(sf),
            None => Seq::<char>::empty(),
        }
    } else {
        Seq::<char>::empty()
    }) + (if k <= 4 {
        match em.time {
            Some(t) => ",\"tm\":"@ + json_of_time(t),
            None => Seq::<char>::empty(),
        }
    } else {
        Seq::<char>::empty()
    }) + seq!['}']
}

/// The optional fields of `em` sit at `q`.
pub open spec fn opts_present(inp: Seq<char>, q: int, em: crate::event::EventModel) -> bool {
    em.thread_id != Some(0u64) && prefix_at(inp, q, opts_text(em, 0))
}

/// The lengths of the optional fields' fixed texts.
proof fn lemma_opt_lens()
    ensures
        ",\"tid\":"@.len() == 7,
        ",\"tn\":"@.len() == 6,
        ",\"srl\":"@.len() == 7,
        ",\"srf\":"@.len() == 7,
        ",\"tm\":"@.len() == 6,
        "tid"@.len() == 3,
        "thread_id"@.len() == 9,
        "tn"@.len() == 2,
        "thread_name"@.len() == 11,
        "srl"@.len() == 3,
        "src_line"@.len() == 8,
        "srf"@.len() == 3,
        "src_file"@.len() == 8,
        "tm"@.len() == 2,
        "time"@.len() == 4,
{
    reveal_strlit(",\"tid\":");
    reveal_strlit(",\"tn\":");
    reveal_strlit(",\"srl\":");
    reveal_strlit(",\"srf\":");
    reveal_strlit(",\"tm\":");
    reveal_strlit("tid");
    reveal_strlit("thread_id");
    reveal_strlit("tn");
    reveal_strlit("thread_name");
    reveal_strlit("srl");
    reveal_strlit("src_line");
    reveal_strlit("srf");
    reveal_strlit("src_file");
    reveal_strlit("tm");
    reveal_strlit("time");
}

/// Whatever sits at the head of the options region from slot `k` on: the
/// closing brace, or the comma and key of the first present later slot.
/// When that first key is not one of the given pair, neither of the pair
/// sits there.
#[verifier::rlimit(100)]
proof fn lemma_opts_excludes(
    inp: Seq<char>,
    q: int,
    em: crate::event::EventModel,
    k: int,
    a: &str,
    b: &str,
)
    requires
        prefix_at(inp, q, opts_text(em, k)),
        0 <= k <= 4,
        k == 0 ==> a@ == "tid"@ && b@ == "thread_id"@,
        k == 1 ==> a@ == "tn"@ && b@ == "thread_name"@,
        k == 2 ==> a@ == "srl"@ && b@ == "src_line"@,
        k == 3 ==> a@ == "srf"@ && b@ == "src_file"@,
        k == 4 ==> a@ == "tm"@ && b@ == "time"@,
        k == 0 ==> em.thread_id is None,
        k == 1 ==> em.thread_name is None,
        k == 2 ==> em.src_line is None,
        k == 3 ==> em.src_file is None,
        k == 4 ==> em.time is None,
    ensures
        prefix_at(inp, q, opts_text(em, k + 1)),
        opts_text(em, k) == opts_text(em, k + 1),
        q < inp.len(),
        inp[q] == ',' ==> !prefix_at(inp, q + 1, key_text(a@)) && !prefix_at(
            inp,
            q + 1,
            key_text(b@),
        ),
{
    lemma_opt_lens();
    reveal_strlit(",\"tid\":");
    reveal_strlit(",\"tn\":");
    reveal_strlit(",\"srl\":");
    reveal_strlit(",\"srf\":");
    reveal_strlit(",\"tm\":");
    reveal_strlit("tid");
    reveal_strlit("thread_id");
    reveal_strlit("tn");
    reveal_strlit("thread_name");
    reveal_strlit("srl");
    reveal_strlit("src_line");
    reveal_strlit("srf");
    reveal_strlit("src_file");
    reveal_strlit("tm");
    reveal_strlit("time");
    assert(opts_text(em, k) =~= opts_text(em, k + 1));
    let t1 = opts_text(em, k + 1);
    lemma_prefix_first(inp, q, t1);
    if inp[q] == ',' {
        // the first present later chunk names its key right after the comma
        if k < 1 && em.thread_name is Some {
            let c = ",\"tn\":"@ + json_str(em.thread_name->Some_0);
            assert(t1 =~= c + opts_text_from_tn(em));
            lemma_prefix_split(inp, q, c, opts_text_from_tn(em));
            assert(c + opts_text_from_tn(em) =~= ",\"tn\":"@ + (json_str(em.thread_name->Some_0)
                + opts_text_from_tn(em)));
            lemma_prefix_split(inp, q, ",\"tn\":"@, json_str(em.thread_name->Some_0)
                + opts_text_from_tn(em)) ;
            assert(prefix_at(inp, q + 1, key_text("tn"@))) by {
                assert(inp.subrange(q + 1, q + 6) =~= key_text("tn"@)) by {
                    assert forall|j: int| 0 <= j < 5 implies inp.subrange(q + 1, q + 6)[j]
                        == key_text("tn"@)[j] by {
                        lemma_prefix_index(inp, q, ",\"tn\":"@, j + 1);
                    }
                }
            }
            lemma_keytext_conflict(inp, q + 1, "tn"@, a@, if k == 0 { 1int } else { 0int });
            lemma_keytext_conflict(inp, q + 1, "tn"@, b@, if k == 0 { 1int } else { 0int });
        } else if k < 2 && em.src_line is Some {
            let c = ",\"srl\":"@ + dec_digits(em.src_line->Some_0 as int);
            assert(t1 =~= c + opts_text_from_srl(em));
            lemma_prefix_split(inp, q, c, opts_text_from_srl(em));
            assert(c + opts_text_from_srl(em) =~= ",\"srl\":"@ + (dec_digits(
                em.src_line->Some_0 as int,
            ) + opts_text_from_srl(em)));
            lemma_prefix_split(inp, q, ",\"srl\":"@, dec_digits(em.src_line->Some_0 as int)
                + opts_text_from_srl(em));
            assert(prefix_at(inp, q + 1, key_text("srl"@))) by {
                assert(inp.subrange(q + 1, q + 7) =~= key_text("srl"@)) by {
                    assert forall|j: int| 0 <= j < 6 implies inp.subrange(q + 1, q + 7)[j]
                        == key_text("srl"@)[j] by {
                        lemma_prefix_index(inp, q, ",\"srl\":"@, j + 1);
                    }
                }
            }
            lemma_keytext_conflict(inp, q + 1, "srl"@, a@, if k == 2 { 2int } else { 0int });
            lemma_keytext_conflict(inp, q + 1, "srl"@, b@, if k == 2 { 2int } else { 0int });
        } else if k < 3 && em.src_file is Some {
            let c = ",\"srf\":"@ + json_str(em.src_file->Some_0);
            assert(t1 =~= c + opts_text_from_srf(em));
            lemma_prefix_split(inp, q, c, opts_text_from_srf(em));
            assert(c + opts_text_from_srf(em) =~= ",\"srf\":"@ + (json_str(em.src_file->Some_0)
                + opts_text_from_srf(em)));
            lemma_prefix_split(inp, q, ",\"srf\":"@, json_str(em.src_file->Some_0)
                + opts_text_from_srf(em));
            assert(prefix_at(inp, q + 1, key_text("srf"@))) by {
                assert(inp.subrange(q + 1, q + 7) =~= key_text("srf"@)) by {
                    assert forall|j: int| 0 <= j < 6 implies inp.subrange(q + 1, q + 7)[j]
                        == key_text("srf"@)[j] by {
                        lemma_prefix_index(inp, q, ",\"srf\":"@, j + 1);
                    }
                }
            }
            lemma_keytext_conflict(inp, q + 1, "srf"@, a@, if k == 2 { 2int } else { 0int });
            lemma_keytext_conflict(inp, q + 1, "srf"@, b@, if k == 2 { 2int } else { 0int });
        } else if k < 4 && em.time is Some {
            let c = ",\"tm\":"@ + json_of_time(em.time->Some_0);
            assert(t1 =~= c + seq!['}']);
            lemma_prefix_split(inp, q, c, seq!['}']);
            assert(c + seq!['}'] =~= ",\"tm\":"@ + (json_of_time(em.time->Some_0) + seq!['}']));
            lemma_prefix_split(inp, q, ",\"tm\":"@, json_of_time(em.time->Some_0) + seq!['}']);
            assert(prefix_at(inp, q + 1, key_text("tm"@))) by {
                assert(inp.subrange(q + 1, q + 6) =~= key_text("tm"@)) by {
                    assert forall|j: int| 0 <= j < 5 implies inp.subrange(q + 1, q + 6)[j]
                        == key_text("tm"@)[j] by {
                        lemma_prefix_index(inp, q, ",\"tm\":"@, j + 1);
                    }
                }
            }
            lemma_keytext_conflict(inp, q + 1, "tm"@, a@, 1int);
            lemma_keytext_conflict(inp, q + 1, "tm"@, b@, 1int);
        } else {
            assert(t1 =~= seq!['}']);
            assert(inp[q] == '}');
            assert(false);
        }
    }
}

/// The options text from the source-line slot on.
pub open spec fn opts_text_from_srl(em: crate::event::EventModel) -> Seq<char> {
    opts_text(em, 3) 
}

/// The options text from the thread-name slot on.
pub open spec fn opts_text_from_tn(em: crate::event::EventModel) -> Seq<char> {
    opts_text(em, 2)
}

/// The options text from the source-file slot on.
pub open spec fn opts_text_from_srf(em: crate::event::EventModel) -> Seq<char> {
    opts_text(em, 4)
}

/// The options region begins with a comma or the closing brace.
proof fn lemma_opts_first_char(em: crate::event::EventModel, k: int)
    requires
        0 <= k <= 5,
    ensures
        opts_text(em, k).len() >= 1,
        opts_text(em, k)[0] == ',' || opts_text(em, k)[0] == '}',
{
    reveal_strlit(",\"tid\":");
    reveal_strlit(",\"tn\":");
    reveal_strlit(",\"srl\":");
    reveal_strlit(",\"srf\":");
    reveal_strlit(",\"tm\":");
}

/// The thread-id slot of a present options region splits off.
#[verifier::rlimit(100)]
proof fn lemma_opt_some_tid(inp: Seq<char>, q: int, em: crate::event::EventModel)
    requires
        prefix_at(inp, q, opts_text(em, 0)),
        em.thread_id is Some,
        em.thread_id != Some(0u64),
    ensures
        q < inp.len(),
        inp[q] == ',',
        prefix_at(inp, q + 1, key_text("tid"@)),
        dec_prefix_at(inp, q + 7, em.thread_id->Some_0),
        prefix_at(inp, q + 7 + dec_digits(em.thread_id->Some_0 as int).len(), opts_text(em, 1)),
        opts_text(em, 0).len() == 7 + dec_digits(em.thread_id->Some_0 as int).len() + opts_text(
            em,
            1,
        ).len(),
{
    lemma_opt_lens();
    reveal_strlit(",\"tid\":");
    reveal_strlit("tid");
    let v = em.thread_id->Some_0;
    let dd = dec_digits(v as int);
    assert(opts_text(em, 0) =~= ",\"tid\":"@ + (dd + opts_text(em, 1)));
    lemma_prefix_split(inp, q, ",\"tid\":"@, dd + opts_text(em, 1));
    lemma_prefix_split(inp, q + 7, dd, opts_text(em, 1));
    lemma_prefix_first(inp, q, ",\"tid\":"@);
    assert(prefix_at(inp, q + 1, key_text("tid"@))) by {
        assert(inp.subrange(q + 1, q + 7) =~= key_text("tid"@)) by {
            assert forall|j: int| 0 <= j < 6 implies inp.subrange(q + 1, q + 7)[j] == key_text(
                "tid"@,
            )[j] by {
                lemma_prefix_index(inp, q, ",\"tid\":"@, j + 1);
            }
        }
    }
    crate::dec::lemma_dec_digits_shape(v as int);
    lemma_opts_first_char(em, 1);
    lemma_prefix_first(inp, q + 7 + dd.len(), opts_text(em, 1));
    assert(dec_prefix_at(inp, q + 7, v));
}

/// The thread-name slot of a present options region splits off.
#[verifier::rlimit(100)]
proof fn lemma_opt_some_tn(inp: Seq<char>, q: int, em: crate::event::EventModel)
    requires
        prefix_at(inp, q, opts_text(em, 1)),
        em.thread_name is Some,
    ensures
        q < inp.len(),
        inp[q] == ',',
        prefix_at(inp, q + 1, key_text("tn"@)),
        prefix_at(inp, q + 6, json_str(em.thread_name->Some_0)),
        prefix_at(inp, q + 6 + json_str(em.thread_name->Some_0).len(), opts_text(em, 2)),
        opts_text(em, 1).len() == 6 + json_str(em.thread_name->Some_0).len() + opts_text(
            em,
            2,
        ).len(),
{
    lemma_opt_lens();
    reveal_strlit(",\"tn\":");
    reveal_strlit("tn");
    let sn = json_str(em.thread_name->Some_0);
    assert(opts_text(em, 1) =~= ",\"tn\":"@ + (sn + opts_text(em, 2)));
    lemma_prefix_split(inp, q, ",\"tn\":"@, sn + opts_text(em, 2));
    lemma_prefix_split(inp, q + 6, sn, opts_text(em, 2));
    lemma_prefix_first(inp, q, ",\"tn\":"@);
    assert(prefix_at(inp, q + 1, key_text("tn"@))) by {
        assert(inp.subrange(q + 1, q + 6) =~= key_text("tn"@)) by {
            assert forall|j: int| 0 <= j < 5 implies inp.subrange(q + 1, q + 6)[j] == key_text(
                "tn"@,
            )[j] by {
                lemma_prefix_index(inp, q, ",\"tn\":"@, j + 1);
            }
        }
    }
}

/// The source-line slot of a present options region splits off.
#[verifier::rlimit(100)]
proof fn lemma_opt_some_srl(inp: Seq<char>, q: int, em: crate::event::EventModel)
    requires
        prefix_at(inp, q, opts_text(em, 2)),
        em.src_line is Some,
    ensures
        q < inp.len(),
        inp[q] == ',',
        prefix_at(inp, q + 1, key_text("srl"@)),
        dec_prefix_at(inp, q + 7, em.src_line->Some_0 as u64),
        prefix_at(inp, q + 7 + dec_digits(em.src_line->Some_0 as int).len(), opts_text(em, 3)),
        opts_text(em, 2).len() == 7 + dec_digits(em.src_line->Some_0 as int).len() + opts_text(
            em,
            3,
        ).len(),
{
    lemma_opt_lens();
    reveal_strlit(",\"srl\":");
    reveal_strlit("srl");
    let v = em.src_line->Some_0;
    let dd = dec_digits(v as int);
    assert(opts_text(em, 2) =~= ",\"srl\":"@ + (dd + opts_text(em, 3)));
    lemma_prefix_split(inp, q, ",\"srl\":"@, dd + opts_text(em, 3));
    lemma_prefix_split(inp, q + 7, dd, opts_text(em, 3));
    lemma_prefix_first(inp, q, ",\"srl\":"@);
    assert(prefix_at(inp, q + 1, key_text("srl"@))) by {
        assert(inp.subrange(q + 1, q + 7) =~= key_text("srl"@)) by {
            assert forall|j: int| 0 <= j < 6 implies inp.subrange(q + 1, q + 7)[j] == key_text(
                "srl"@,
            )[j] by {
                lemma_prefix_index(inp, q, ",\"srl\":"@, j + 1);
            }
        }
    }
    crate::dec::lemma_dec_digits_shape(v as int);
    lemma_opts_first_char(em, 3);
    lemma_prefix_first(inp, q + 7 + dd.len(), opts_text(em, 3));
    assert(dec_prefix_at(inp, q + 7, v as u64));
}

/// The source-file slot of a present options region splits off.
#[verifier::rlimit(100)]
proof fn lemma_opt_some_srf(inp: Seq<char>, q: int, em: crate::event::EventModel)
    requires
        prefix_at(inp, q, opts_text(em, 3)),
        em.src_file is Some,
    ensures
        q < inp.len(),
        inp[q] == ',',
        prefix_at(inp, q + 1, key_text("srf"@)),
        prefix_at(inp, q + 7, json_str(em.src_file->Some_0)),
        prefix_at(inp, q + 7 + json_str(em.src_file->Some_0).len(), opts_text(em, 4)),
        opts_text(em, 3).len() == 7 + json_str(em.src_file->Some_0).len() + opts_text(
            em,
            4,
        ).len(),
{
    lemma_opt_lens();
    reveal_strlit(",\"srf\":");
    reveal_strlit("srf");
    let sf = json_str(em.src_file->Some_0);
    assert(opts_text(em, 3) =~= ",\"srf\":"@ + (sf + opts_text(em, 4)));
    lemma_prefix_split(inp, q, ",\"srf\":"@, sf + opts_text(em, 4));
    lemma_prefix_split(inp, q + 7, sf, opts_text(em, 4));
    lemma_prefix_first(inp, q, ",\"srf\":"@);
    assert(prefix_at(inp, q + 1, key_text("srf"@))) by {
        assert(inp.subrange(q + 1, q + 7) =~= key_text("srf"@)) by {
            assert forall|j: int| 0 <= j < 6 implies inp.subrange(q + 1, q + 7)[j] == key_text(
                "srf"@,
            )[j] by {
                lemma_prefix_index(inp, q, ",\"srf\":"@, j + 1);
            }
        }
    }
}

/// The timestamp slot of a present options region splits off.
#[verifier::rlimit(100)]
proof fn lemma_opt_some_tm(inp: Seq<char>, q: int, em: crate::event::EventModel)
    requires
        prefix_at(inp, q, opts_text(em, 4)),
        em.time is Some,
    ensures
        q < inp.len(),
        inp[q] == ',',
        prefix_at(inp, q + 1, key_text("tm"@)),
        time_present(inp, q + 6, em.time->Some_0),
        prefix_at(inp, q + 6 + json_of_time(em.time->Some_0).len(), opts_text(em, 5)),
        opts_text(em, 4).len() == 6 + json_of_time(em.time->Some_0).len() + opts_text(
            em,
            5,
        ).len(),
{
    lemma_opt_lens();
    reveal_strlit(",\"tm\":");
    reveal_strlit("tm");
    let tt = json_of_time(em.time->Some_0);
    assert(opts_text(em, 4) =~= ",\"tm\":"@ + (tt + opts_text(em, 5)));
    lemma_prefix_split(inp, q, ",\"tm\":"@, tt + opts_text(em, 5));
    lemma_prefix_split(inp, q + 6, tt, opts_text(em, 5));
    lemma_prefix_first(inp, q, ",\"tm\":"@);
    assert(prefix_at(inp, q + 1, key_text("tm"@))) by {
        assert(inp.subrange(q + 1, q + 6) =~= key_text("tm"@)) by {
            assert forall|j: int| 0 <= j < 5 implies inp.subrange(q + 1, q + 6)[j] == key_text(
                "tm"@,
            )[j] by {
                lemma_prefix_index(inp, q, ",\"tm\":"@, j + 1);
            }
        }
    }
}

/// Scan the optional trailing fields of a record and its closing brace.
#[verifier::rlimit(100)]
fn parse_opts(inp: &Vec<char>, q: usize) -> (r: Option<
    ((Option<u64>, Option<String>, Option<u32>, Option<String>, Option<crate::time::UnixTime>), usize),
>)
    ensures
        r matches Some((o, p)) ==> q < p <= inp@.len() && o.0 != Some(0u64),
        forall|em: crate::event::EventModel| #[trigger] opts_present(inp@, q as int, em) ==> (r
            matches Some((o, p)) && o.0 == em.thread_id && crate::event::opt_str_view(o.1)
            == em.thread_name && o.2 == em.src_line && crate::event::opt_str_view(o.3)
            == em.src_file && o.4 == em.time && p == q + opts_text(em, 0).len()),
{
    let ghost gq = q as int;
    let mut p = q;
    let mut thread_id: Option<u64> = None;
    let mut thread_name: Option<String> = None;
    let mut src_line: Option<u32> = None;
    let mut src_file: Option<String> = None;
    let mut time: Option<crate::time::UnixTime> = None;
    // thread id
    let ghost q0 = p as int;
    if p < inp.len() && inp[p] == ',' {
        match eat_key(inp, p + 1, "tid", "thread_id") {
            Some(pk) => {
                match scan_u64(inp, pk) {
                    Some((v, pv)) => {
                        if v == 0 {
                            proof {
                                assert forall|em: crate::event::EventModel| !opts_present(
                                    inp@,
                                    gq,
                                    em,
                                ) by {
                                    if opts_present(inp@, gq, em) {
                                        lemma_opt_lens();
                                        if em.thread_id is Some {
                                            lemma_opt_some_tid(inp@, q0, em);
                                            assert(dec_prefix_at(
                                                inp@,
                                                pk as int,
                                                em.thread_id->Some_0,
                                            ));
                                        } else {
                                            lemma_opts_excludes(inp@, q0, em, 0, "tid", "thread_id");
                                        }
                                    }
                                }
                            }
                            return None;
                        }
                        proof {
                            assert forall|em: crate::event::EventModel| #[trigger] opts_present(
                                inp@,
                                gq,
                                em,
                            ) implies (em.thread_id == Some(v) && prefix_at(
                                inp@,
                                pv as int,
                                opts_text(em, 1),
                            ) && gq + opts_text(em, 0).len() == pv + opts_text(em, 1).len()) by {
                                lemma_opt_lens();
                                if em.thread_id is Some {
                                    lemma_opt_some_tid(inp@, q0, em);
                                    assert(dec_prefix_at(inp@, pk as int, em.thread_id->Some_0));
                                } else {
                                    lemma_opts_excludes(inp@, q0, em, 0, "tid", "thread_id");
                                }
                            }
                        }
                        thread_id = Some(v);
                        p = pv;
                    },
                    None => {
                        proof {
                            assert forall|em: crate::event::EventModel| !opts_present(
                                inp@,
                                gq,
                                em,
                            ) by {
                                if opts_present(inp@, gq, em) {
                                    lemma_opt_lens();
                                    if em.thread_id is Some {
                                        lemma_opt_some_tid(inp@, q0, em);
                                        assert(dec_prefix_at(
                                            inp@,
                                            pk as int,
                                            em.thread_id->Some_0,
                                        ));
                                    } else {
                                        lemma_opts_excludes(inp@, q0, em, 0, "tid", "thread_id");
                                    }
                                }
                            }
                        }
                        return None;
                    },
                }
            },
            None => {
                proof {
                    assert forall|em: crate::event::EventModel| #[trigger] opts_present(
                        inp@,
                        gq,
                        em,
                    ) implies (em.thread_id is None && prefix_at(inp@, p as int, opts_text(em, 1))
                        && gq + opts_text(em, 0).len() == p + opts_text(em, 1).len()) by {
                        lemma_opt_lens();
                        if em.thread_id is Some {
                            lemma_opt_some_tid(inp@, q0, em);
                        } else {
                            lemma_opts_excludes(inp@, q0, em, 0, "tid", "thread_id");
                        }
                    }
                }
            },
        }
    } else {
        proof {
            assert forall|em: crate::event::EventModel| #[trigger] opts_present(inp@, gq, em)
                implies (em.thread_id is None && prefix_at(inp@, p as int, opts_text(em, 1)) && gq
                + opts_text(em, 0).len() == p + opts_text(em, 1).len()) by {
                lemma_opt_lens();
                if em.thread_id is Some {
                    lemma_opt_some_tid(inp@, q0, em);
                } else {
                    lemma_opts_excludes(inp@, q0, em, 0, "tid", "thread_id");
                }
            }
        }
    }
    // thread name
    let ghost q1 = p as int;
    if p < inp.len() && inp[p] == ',' {
        match eat_key(inp, p + 1, "tn", "thread_name") {
            Some(pk) => {
                match scan_string(inp, pk) {
                    Some((sn, pv)) => {
                        proof {
                            assert forall|em: crate::event::EventModel| #[trigger] opts_present(
                                inp@,
                                gq,
                                em,
                            ) implies (em.thread_name == Some(sn@) && prefix_at(
                                inp@,
                                pv as int,
                                opts_text(em, 2),
                            ) && gq + opts_text(em, 0).len() == pv + opts_text(em, 2).len()) by {
                                lemma_opt_lens();
                                if em.thread_name is Some {
                                    lemma_opt_some_tn(inp@, q1, em);
                                    lemma_scan_str_round_trip(inp@, q1 + 6, em.thread_name->Some_0);
                                } else {
                                    lemma_opts_excludes(inp@, q1, em, 1, "tn", "thread_name");
                                }
                            }
                        }
                        thread_name = Some(sn);
                        p = pv;
                    },
                    None => {
                        proof {
                            assert forall|em: crate::event::EventModel| !opts_present(
                                inp@,
                                gq,
                                em,
                            ) by {
                                if opts_present(inp@, gq, em) {
                                    lemma_opt_lens();
                                    if em.thread_name is Some {
                                        lemma_opt_some_tn(inp@, q1, em);
                                        lemma_scan_str_round_trip(
                                            inp@,
                                            q1 + 6,
                                            em.thread_name->Some_0,
                                        );
                                    } else {
                                        lemma_opts_excludes(inp@, q1, em, 1, "tn", "thread_name");
                                    }
                                }
                            }
                        }
                        return None;
                    },
                }
            },
            None => {
                proof {
                    assert forall|em: crate::event::EventModel| #[trigger] opts_present(
                        inp@,
                        gq,
                        em,
                    ) implies (em.thread_name is None && prefix_at(inp@, p as int, opts_text(em, 2))
                        && gq + opts_text(em, 0).len() == p + opts_text(em, 2).len()) by {
                        lemma_opt_lens();
                        if em.thread_name is Some {
                            lemma_opt_some_tn(inp@, q1, em);
                        } else {
                            lemma_opts_excludes(inp@, q1, em, 1, "tn", "thread_name");
                        }
                    }
                }
            },
        }
    } else {
        proof {
            assert forall|em: crate::event::EventModel| #[trigger] opts_present(inp@, gq, em)
                implies (em.thread_name is None && prefix_at(inp@, p as int, opts_text(em, 2)) && gq
                + opts_text(em, 0).len() == p + opts_text(em, 2).len()) by {
                lemma_opt_lens();
                if em.thread_name is Some {
                    lemma_opt_some_tn(inp@, q1, em);
                } else {
                    lemma_opts_excludes(inp@, q1, em, 1, "tn", "thread_name");
                }
            }
        }
    }
    match parse_opts_rest(inp, p) {
        Some(((srl_v, srf_v, tm_v), pend)) => {
            proof {
                assert forall|em: crate::event::EventModel| #[trigger] opts_present(inp@, gq, em)
                    implies (srl_v == em.src_line && crate::event::opt_str_view(srf_v)
                    == em.src_file && tm_v == em.time && pend == gq + opts_text(em, 0).len()) by {
                    assert(opts_rest_present(inp@, p as int, em));
                }
            }
            Some(((thread_id, thread_name, srl_v, srf_v, tm_v), pend))
        },
        None => {
            proof {
                assert forall|em: crate::event::EventModel| !opts_present(inp@, gq, em) by {
                    if opts_present(inp@, gq, em) {
                        assert(opts_rest_present(inp@, p as int, em));
                    }
                }
            }
            None
        },
    }
}

/// The last three optional slots sit at `q`.
pub open spec fn opts_rest_present(inp: Seq<char>, q: int, em: crate::event::EventModel) -> bool {
    prefix_at(inp, q, opts_text(em, 2))
}

/// Scan the source-location and timestamp slots and the closing brace.
#[verifier::rlimit(100)]
fn parse_opts_rest(inp: &Vec<char>, q: usize) -> (r: Option<
    ((Option<u32>, Option<String>, Option<crate::time::UnixTime>), usize),
>)
    ensures
        r matches Some((o, p)) ==> q < p <= inp@.len(),
        forall|em: crate::event::EventModel| #[trigger] opts_rest_present(inp@, q as int, em) ==> (
        r matches Some((o, p)) && o.0 == em.src_line && crate::event::opt_str_view(o.1)
            == em.src_file && o.2 == em.time && p == q + opts_text(em, 2).len()),
{
    let ghost gq = q as int;
    let mut p = q;
    let mut src_line: Option<u32> = None;
    let mut src_file: Option<String> = None;
    let mut time: Option<crate::time::UnixTime> = None;
    // source line
    let ghost q2 = p as int;
    if p < inp.len() && inp[p] == ',' {
        match eat_key(inp, p + 1, "srl", "src_line") {
            Some(pk) => {
                match scan_u64(inp, pk) {
                    Some((v, pv)) => {
                        if v > 0xffff_ffff {
                            proof {
                                assert forall|em: crate::event::EventModel| !opts_rest_present(
                                    inp@,
                                    gq,
                                    em,
                                ) by {
                                    if opts_rest_present(inp@, gq, em) {
                                        lemma_opt_lens();
                                        if em.src_line is Some {
                                            lemma_opt_some_srl(inp@, q2, em);
                                            assert(dec_prefix_at(
                                                inp@,
                                                pk as int,
                                                em.src_line->Some_0 as u64,
                                            ));
                                        } else {
                                            lemma_opts_excludes(inp@, q2, em, 2, "srl", "src_line");
                                        }
                                    }
                                }
                            }
                            return None;
                        }
                        proof {
                            assert forall|em: crate::event::EventModel| #[trigger]
                                opts_rest_present(inp@, gq, em) implies (em.src_line == Some(
                                v as u32,
                            ) && prefix_at(inp@, pv as int, opts_text(em, 3)) && gq + opts_text(
                                em,
                                2,
                            ).len() == pv + opts_text(em, 3).len()) by {
                                lemma_opt_lens();
                                if em.src_line is Some {
                                    lemma_opt_some_srl(inp@, q2, em);
                                    assert(dec_prefix_at(
                                        inp@,
                                        pk as int,
                                        em.src_line->Some_0 as u64,
                                    ));
                                } else {
                                    lemma_opts_excludes(inp@, q2, em, 2, "srl", "src_line");
                                }
                            }
                        }
                        src_line = Some(v as u32);
                        p = pv;
                    },
                    None => {
                        proof {
                            assert forall|em: crate::event::EventModel| !opts_rest_present(
                                inp@,
                                gq,
                                em,
                            ) by {
                                if opts_rest_present(inp@, gq, em) {
                                    lemma_opt_lens();
                                    if em.src_line is Some {
                                        lemma_opt_some_srl(inp@, q2, em);
                                        assert(dec_prefix_at(
                                            inp@,
                                            pk as int,
                                            em.src_line->Some_0 as u64,
                                        ));
                                    } else {
                                        lemma_opts_excludes(inp@, q2, em, 2, "srl", "src_line");
                                    }
                                }
                            }
                        }
                        return None;
                    },
                }
            },
            None => {
                proof {
                    assert forall|em: crate::event::EventModel| #[trigger] opts_rest_present(
                        inp@,
                        gq,
                        em,
                    ) implies (em.src_line is None && prefix_at(inp@, p as int, opts_text(em, 3))
                        && gq + opts_text(em, 2).len() == p + opts_text(em, 3).len()) by {
                        lemma_opt_lens();
                        if em.src_line is Some {
                            lemma_opt_some_srl(inp@, q2, em);
                        } else {
                            lemma_opts_excludes(inp@, q2, em, 2, "srl", "src_line");
                        }
                    }
                }
            },
        }
    } else {
        proof {
            assert forall|em: crate::event::EventModel| #[trigger] opts_rest_present(inp@, gq, em)
                implies (em.src_line is None && prefix_at(inp@, p as int, opts_text(em, 3)) && gq
                + opts_text(em, 2).len() == p + opts_text(em, 3).len()) by {
                lemma_opt_lens();
                if em.src_line is Some {
                    lemma_opt_some_srl(inp@, q2, em);
                } else {
                    lemma_opts_excludes(inp@, q2, em, 2, "srl", "src_line");
                }
            }
        }
    }
    // source file
    let ghost q3 = p as int;
    if p < inp.len() && inp[p] == ',' {
        match eat_key(inp, p + 1, "srf", "src_file") {
            Some(pk) => {
                match scan_string(inp, pk) {
                    Some((sf, pv)) => {
                        proof {
                            assert forall|em: crate::event::EventModel| #[trigger]
                                opts_rest_present(inp@, gq, em) implies (em.src_file == Some(sf@)
                                && prefix_at(inp@, pv as int, opts_text(em, 4)) && gq + opts_text(
                                em,
                                2,
                            ).len() == pv + opts_text(em, 4).len()) by {
                                lemma_opt_lens();
                                if em.src_file is Some {
                                    lemma_opt_some_srf(inp@, q3, em);
                                    lemma_scan_str_round_trip(inp@, q3 + 7, em.src_file->Some_0);
                                } else {
                                    lemma_opts_excludes(inp@, q3, em, 3, "srf", "src_file");
                                }
                            }
                        }
                        src_file = Some(sf);
                        p = pv;
                    },
                    None => {
                        proof {
                            assert forall|em: crate::event::EventModel| !opts_rest_present(
                                inp@,
                                gq,
                                em,
                            ) by {
                                if opts_rest_present(inp@, gq, em) {
                                    lemma_opt_lens();
                                    if em.src_file is Some {
                                        lemma_opt_some_srf(inp@, q3, em);
                                        lemma_scan_str_round_trip(
                                            inp@,
                                            q3 + 7,
                                            em.src_file->Some_0,
                                        );
                                    } else {
                                        lemma_opts_excludes(inp@, q3, em, 3, "srf", "src_file");
                                    }
                                }
                            }
                        }
                        return None;
                    },
                }
            },
            None => {
                proof {
                    assert forall|em: crate::event::EventModel| #[trigger] opts_rest_present(
                        inp@,
                        gq,
                        em,
                    ) implies (em.src_file is None && prefix_at(inp@, p as int, opts_text(em, 4))
                        && gq + opts_text(em, 2).len() == p + opts_text(em, 4).len()) by {
                        lemma_opt_lens();
                        if em.src_file is Some {
                            lemma_opt_some_srf(inp@, q3, em);
                        } else {
                            lemma_opts_excludes(inp@, q3, em, 3, "srf", "src_file");
                        }
                    }
                }
            },
        }
    } else {
        proof {
            assert forall|em: crate::event::EventModel| #[trigger] opts_rest_present(inp@, gq, em)
                implies (em.src_file is None && prefix_at(inp@, p as int, opts_text(em, 4)) && gq
                + opts_text(em, 2).len() == p + opts_text(em, 4).len()) by {
                lemma_opt_lens();
                if em.src_file is Some {
                    lemma_opt_some_srf(inp@, q3, em);
                } else {
                    lemma_opts_excludes(inp@, q3, em, 3, "srf", "src_file");
                }
            }
        }
    }
    // timestamp
    let ghost q4 = p as int;
    if p < inp.len() && inp[p] == ',' {
        match eat_key(inp, p + 1, "tm", "time") {
            Some(pk) => {
                match parse_time(inp, pk) {
                    Some((t, pv)) => {
                        proof {
                            assert forall|em: crate::event::EventModel| #[trigger]
                                opts_rest_present(inp@, gq, em) implies (em.time == Some(t)
                                && prefix_at(inp@, pv as int, opts_text(em, 5)) && gq + opts_text(
                                em,
                                2,
                            ).len() == pv + opts_text(em, 5).len()) by {
                                lemma_opt_lens();
                                if em.time is Some {
                                    lemma_opt_some_tm(inp@, q4, em);
                                    assert(time_present(inp@, pk as int, em.time->Some_0));
                                } else {
                                    lemma_opts_excludes(inp@, q4, em, 4, "tm", "time");
                                }
                            }
                        }
                        time = Some(t);
                        p = pv;
                    },
                    None => {
                        proof {
                            assert forall|em: crate::event::EventModel| !opts_rest_present(
                                inp@,
                                gq,
                                em,
                            ) by {
                                if opts_rest_present(inp@, gq, em) {
                                    lemma_opt_lens();
                                    if em.time is Some {
                                        lemma_opt_some_tm(inp@, q4, em);
                                        assert(time_present(inp@, pk as int, em.time->Some_0));
                                    } else {
                                        lemma_opts_excludes(inp@, q4, em, 4, "tm", "time");
                                    }
                                }
                            }
                        }
                        return None;
                    },
                }
            },
            None => {
                proof {
                    assert forall|em: crate::event::EventModel| #[trigger] opts_rest_present(
                        inp@,
                        gq,
                        em,
                    ) implies (em.time is None && prefix_at(inp@, p as int, opts_text(em, 5)) && gq
                        + opts_text(em, 2).len() == p + opts_text(em, 5).len()) by {
                        lemma_opt_lens();
                        if em.time is Some {
                            lemma_opt_some_tm(inp@, q4, em);
                        } else {
                            lemma_opts_excludes(inp@, q4, em, 4, "tm", "time");
                        }
                    }
                }
            },
        }
    } else {
        proof {
            assert forall|em: crate::event::EventModel| #[trigger] opts_rest_present(inp@, gq, em)
                implies (em.time is None && prefix_at(inp@, p as int, opts_text(em, 5)) && gq
                + opts_text(em, 2).len() == p + opts_text(em, 5).len()) by {
                lemma_opt_lens();
                if em.time is Some {
                    lemma_opt_some_tm(inp@, q4, em);
                } else {
                    lemma_opts_excludes(inp@, q4, em, 4, "tm", "time");
                }
            }
        }
    }
    // the closing brace
    if p >= inp.len() || inp[p] != '}' {
        proof {
            assert forall|em: crate::event::EventModel| !opts_rest_present(inp@, gq, em) by {
                if opts_rest_present(inp@, gq, em) {
                    assert(opts_text(em, 5) =~= seq!['}']);
                    lemma_prefix_first(inp@, p as int, opts_text(em, 5));
                }
            }
        }
        return None;
    }
    proof {
        assert forall|em: crate::event::EventModel| #[trigger] opts_rest_present(inp@, gq, em)
            implies (src_line == em.src_line && crate::event::opt_str_view(src_file) == em.src_file
            && time == em.time && p + 1 == gq + opts_text(em, 2).len()) by {
            assert(opts_text(em, 5) =~= seq!['}']);
        }
    }
    Some(((src_line, src_file, time), p + 1))
}

/// The lengths of the record object's fixed texts and keys.
proof fn lemma_event_lens()
    ensures
        "{\"ty\":"@.len() == 6,
        ",\"l\":"@.len() == 5,
        ",\"s\":"@.len() == 5,
        ",\"t\":"@.len() == 5,
        "ty"@.len() == 2,
        "kind"@.len() == 4,
        "l"@.len() == 1,
        "level"@.len() == 5,
        "s"@.len() == 1,
        "spans"@.len() == 5,
        "t"@.len() == 1,
        "target"@.len() == 6,
{
    reveal_strlit("{\"ty\":");
    reveal_strlit(",\"l\":");
    reveal_strlit(",\"s\":");
    reveal_strlit(",\"t\":");
    reveal_strlit("ty");
    reveal_strlit("kind");
    reveal_strlit("l");
    reveal_strlit("level");
    reveal_strlit("s");
    reveal_strlit("spans");
    reveal_strlit("t");
    reveal_strlit("target");
}

/// The two halves of a record's wire text: through the level's numeral,
/// and from the span stack on.
pub open spec fn ev_part1(em: crate::event::EventModel) -> Seq<char> {
    "{\"ty\":"@ + json_of_kind(em.kind) + ",\"l\":"@ + dec_digits(em.level.rank() as int)
}

/// The second half: spans, target and the options region.
pub open spec fn ev_part2(em: crate::event::EventModel) -> Seq<char> {
    ",\"s\":"@ + json_of_spans(em.spans) + ",\"t\":"@ + json_str(em.target) + opts_text(em, 0)
}

/// A present record splits into its two halves.
#[verifier::rlimit(100)]
proof fn lemma_event_split2(inp: Seq<char>, pos: int, em: crate::event::EventModel)
    requires
        event_present(inp, pos, em),
    ensures
        prefix_at(inp, pos, ev_part1(em)),
        prefix_at(inp, pos + ev_part1(em).len(), ev_part2(em)),
        json_of_event(em).len() == ev_part1(em).len() + ev_part2(em).len(),
        ev_part1(em).len() == 6 + json_of_kind(em.kind).len() + 5 + dec_digits(
            em.level.rank() as int,
        ).len(),
{
    lemma_event_lens();
    assert(json_of_options(em) + seq!['}'] =~= opts_text(em, 0));
    assert(json_of_event(em) =~= ev_part1(em) + ev_part2(em));
    lemma_prefix_split(inp, pos, ev_part1(em), ev_part2(em));
}


/// Scan the head of a record object: its kind, level, spans and target,
/// stopping where the optional fields begin.
/// The first half of a present record: its kind and level fields.
#[verifier::rlimit(100)]
proof fn lemma_event_parts_half(inp: Seq<char>, pos: int, em: crate::event::EventModel)
    requires
        event_present(inp, pos, em),
    ensures
        pos < inp.len(),
        inp[pos] == '{',
        prefix_at(inp, pos + 1, key_text("ty"@)),
        kind_present(inp, pos + 6, em.kind),
        inp[pos + 6 + json_of_kind(em.kind).len()] == ',',
        prefix_at(inp, pos + 6 + json_of_kind(em.kind).len() + 1, key_text("l"@)),
        dec_prefix_at(
            inp,
            pos + 6 + json_of_kind(em.kind).len() + 5,
            em.level.rank() as u64,
        ),
{
    reveal_strlit("{\"ty\":");
    reveal_strlit(",\"l\":");
    reveal_strlit(",\"s\":");
    reveal_strlit("ty");
    reveal_strlit("l");
    lemma_event_split2(inp, pos, em);
    let kj = json_of_kind(em.kind);
    let rj = dec_digits(em.level.rank() as int);
    assert(ev_part1(em) =~= "{\"ty\":"@ + (kj + (",\"l\":"@ + rj)));
    lemma_prefix_split(inp, pos, "{\"ty\":"@, kj + (",\"l\":"@ + rj));
    lemma_prefix_first(inp, pos, "{\"ty\":"@);
    assert(prefix_at(inp, pos + 1, key_text("ty"@))) by {
        assert(inp.subrange(pos + 1, pos + 6) =~= key_text("ty"@)) by {
            assert forall|j: int| 0 <= j < 5 implies inp.subrange(pos + 1, pos + 6)[j] == key_text(
                "ty"@,
            )[j] by {
                lemma_prefix_index(inp, pos, "{\"ty\":"@, j + 1);
            }
        }
    }
    let q0 = pos + 6;
    lemma_prefix_split(inp, q0, kj, ",\"l\":"@ + rj);
    let q1 = q0 + kj.len();
    lemma_prefix_split(inp, q1, ",\"l\":"@, rj);
    lemma_prefix_first(inp, q1, ",\"l\":"@);
    assert(prefix_at(inp, q1 + 1, key_text("l"@))) by {
        assert(inp.subrange(q1 + 1, q1 + 5) =~= key_text("l"@)) by {
            assert forall|j: int| 0 <= j < 4 implies inp.subrange(q1 + 1, q1 + 5)[j] == key_text(
                "l"@,
            )[j] by {
                lemma_prefix_index(inp, q1, ",\"l\":"@, j + 1);
            }
        }
    }
    let q2 = q1 + 5;
    crate::dec::lemma_dec_digits_shape(em.level.rank() as int);
    // the numeral ends where the second half's comma begins
    lemma_prefix_first(inp, pos + ev_part1(em).len(), ev_part2(em));
    assert(ev_part2(em)[0] == ',');
    assert(dec_prefix_at(inp, q2, em.level.rank() as u64));
}

/// Scan the first half of a record object: its kind and level, stopping
/// after the level's numeral.
#[verifier::rlimit(100)]
fn parse_event_half(inp: &Vec<char>, pos: usize) -> (r: Option<
    ((crate::event::EventKind, crate::level::Level), usize),
>)
    ensures
        r matches Some((h, p)) ==> pos < p <= inp@.len(),
        forall|em: crate::event::EventModel| #[trigger] event_present(inp@, pos as int, em) ==> (r
            matches Some((h, p)) && h.0@ == em.kind && h.1 == em.level && p == pos + 6
            + json_of_kind(em.kind).len() + 5 + dec_digits(em.level.rank() as int).len()),
{
    let ghost gpos = pos as int;
    proof {
        lemma_event_lens();
    }
    if pos >= inp.len() || inp[pos] != '{' {
        proof {
            assert forall|em: crate::event::EventModel| !event_present(inp@, gpos, em) by {
                if event_present(inp@, gpos, em) {
                    lemma_event_parts_half(inp@, gpos, em);
                }
            }
        }
        return None;
    }
    let p1 = match eat_key(inp, pos + 1, "ty", "kind") {
        Some(p) => p,
        None => {
            proof {
                assert forall|em: crate::event::EventModel| !event_present(inp@, gpos, em) by {
                    if event_present(inp@, gpos, em) {
                        lemma_event_parts_half(inp@, gpos, em);
                    }
                }
            }
            return None;
        },
    };
    let (kind, p2) = match parse_kind(inp, p1) {
        Some(x) => x,
        None => {
            proof {
                assert forall|em: crate::event::EventModel| !event_present(inp@, gpos, em) by {
                    if event_present(inp@, gpos, em) {
                        lemma_event_parts_half(inp@, gpos, em);
                        assert(kind_present(inp@, p1 as int, em.kind));
                    }
                }
            }
            return None;
        },
    };
    if p2 >= inp.len() || inp[p2] != ',' {
        proof {
            assert forall|em: crate::event::EventModel| !event_present(inp@, gpos, em) by {
                if event_present(inp@, gpos, em) {
                    lemma_event_parts_half(inp@, gpos, em);
                    assert(kind_present(inp@, p1 as int, em.kind));
                }
            }
        }
        return None;
    }
    let p3 = match eat_key(inp, p2 + 1, "l", "level") {
        Some(p) => p,
        None => {
            proof {
                assert forall|em: crate::event::EventModel| !event_present(inp@, gpos, em) by {
                    if event_present(inp@, gpos, em) {
                        lemma_event_parts_half(inp@, gpos, em);
                        assert(kind_present(inp@, p1 as int, em.kind));
                    }
                }
            }
            return None;
        },
    };
    let (rk, p4) = match scan_u64(inp, p3) {
        Some(x) => x,
        None => {
            proof {
                assert forall|em: crate::event::EventModel| !event_present(inp@, gpos, em) by {
                    if event_present(inp@, gpos, em) {
                        lemma_event_parts_half(inp@, gpos, em);
                        assert(kind_present(inp@, p1 as int, em.kind));
                        assert(dec_prefix_at(inp@, p3 as int, em.level.rank() as u64));
                    }
                }
            }
            return None;
        },
    };
    proof {
        assert forall|em: crate::event::EventModel| #[trigger] event_present(inp@, gpos, em)
            implies (kind@ == em.kind && rk == em.level.rank() as u64 && p4 == gpos + 6
            + json_of_kind(em.kind).len() + 5 + dec_digits(em.level.rank() as int).len()) by {
            lemma_event_parts_half(inp@, gpos, em);
            assert(kind_present(inp@, p1 as int, em.kind));
            assert(dec_prefix_at(inp@, p3 as int, em.level.rank() as u64));
        }
    }
    if rk > 4 {
        return None;
    }
    let level = match crate::level::Level::from_u8(rk as u8) {
        Some(l) => l,
        None => {
            return None;
        },
    };
    Some(((kind, level), p4))
}

/// The second half of a present record: its spans, target and options.
#[verifier::rlimit(100)]
proof fn lemma_event_parts_rest(inp: Seq<char>, pos: int, em: crate::event::EventModel)
    requires
        event_present(inp, pos, em),
    ensures
        inp[pos + 6 + json_of_kind(em.kind).len() + 5 + dec_digits(em.level.rank() as int).len()]
            == ',',
        prefix_at(
            inp,
            pos + 6 + json_of_kind(em.kind).len() + 5 + dec_digits(em.level.rank() as int).len()
                + 1,
            key_text("s"@),
        ),
        spans_present(
            inp,
            pos + 6 + json_of_kind(em.kind).len() + 5 + dec_digits(em.level.rank() as int).len()
                + 5,
            em.spans,
        ),
        inp[pos + 6 + json_of_kind(em.kind).len() + 5 + dec_digits(em.level.rank() as int).len()
            + 5 + json_of_spans(em.spans).len()] == ',',
        prefix_at(
            inp,
            pos + 6 + json_of_kind(em.kind).len() + 5 + dec_digits(em.level.rank() as int).len()
                + 5 + json_of_spans(em.spans).len() + 1,
            key_text("t"@),
        ),
        prefix_at(
            inp,
            pos + 6 + json_of_kind(em.kind).len() + 5 + dec_digits(em.level.rank() as int).len()
                + 5 + json_of_spans(em.spans).len() + 5,
            json_str(em.target),
        ),
        opts_present(
            inp,
            pos + 6 + json_of_kind(em.kind).len() + 5 + dec_digits(em.level.rank() as int).len()
                + 5 + json_of_spans(em.spans).len() + 5 + json_str(em.target).len(),
            em,
        ),
        json_of_event(em).len() == 6 + json_of_kind(em.kind).len() + 5 + dec_digits(
            em.level.rank() as int,
        ).len() + 5 + json_of_spans(em.spans).len() + 5 + json_str(em.target).len() + opts_text(
            em,
            0,
        ).len(),
{
    reveal_strlit(",\"s\":");
    reveal_strlit(",\"t\":");
    reveal_strlit("s");
    reveal_strlit("t");
    lemma_event_split2(inp, pos, em);
    let sj = json_of_spans(em.spans);
    let tj = json_str(em.target);
    let oj = opts_text(em, 0);
    let q2 = pos + ev_part1(em).len();
    assert(ev_part2(em) =~= ",\"s\":"@ + (sj + (",\"t\":"@ + (tj + oj))));
    lemma_prefix_split(inp, q2, ",\"s\":"@, sj + (",\"t\":"@ + (tj + oj)));
    lemma_prefix_first(inp, q2, ",\"s\":"@);
    assert(prefix_at(inp, q2 + 1, key_text("s"@))) by {
        assert(inp.subrange(q2 + 1, q2 + 5) =~= key_text("s"@)) by {
            assert forall|j: int| 0 <= j < 4 implies inp.subrange(q2 + 1, q2 + 5)[j] == key_text(
                "s"@,
            )[j] by {
                lemma_prefix_index(inp, q2, ",\"s\":"@, j + 1);
            }
        }
    }
    let q3 = q2 + 5;
    lemma_prefix_split(inp, q3, sj, ",\"t\":"@ + (tj + oj));
    let q4 = q3 + sj.len();
    lemma_prefix_split(inp, q4, ",\"t\":"@, tj + oj);
    lemma_prefix_first(inp, q4, ",\"t\":"@);
    assert(prefix_at(inp, q4 + 1, key_text("t"@))) by {
        assert(inp.subrange(q4 + 1, q4 + 5) =~= key_text("t"@)) by {
            assert forall|j: int| 0 <= j < 4 implies inp.subrange(q4 + 1, q4 + 5)[j] == key_text(
                "t"@,
            )[j] by {
                lemma_prefix_index(inp, q4, ",\"t\":"@, j + 1);
            }
        }
    }
    let q5 = q4 + 5;
    lemma_prefix_split(inp, q5, tj, oj);
}

/// Scan the second half of a record object: its spans, its target, and its
/// optional fields. `pos` is where the record began; `p4` is where its
/// level's numeral ended.
/// Scan the spans and target of a record object. `pos` is where the
/// record began; `p4` is where its level's numeral ended.
#[verifier::rlimit(100)]
fn parse_event_spans(inp: &Vec<char>, pos: usize, p4: usize) -> (r: Option<
    (Vec<crate::span::Span>, usize),
>)
    requires
        pos <= p4 <= inp@.len(),
        forall|em: crate::event::EventModel| #[trigger] event_present(inp@, pos as int, em) ==> p4
            == pos + 6 + json_of_kind(em.kind).len() + 5 + dec_digits(
            em.level.rank() as int,
        ).len(),
    ensures
        r matches Some((h, p)) ==> p4 < p <= inp@.len(),
        forall|em: crate::event::EventModel| #[trigger] event_present(inp@, pos as int, em) ==> (r
            matches Some((h, p)) && h@.map_values(|sp: crate::span::Span| sp@) == em.spans && p
            == p4 + 5 + json_of_spans(em.spans).len()),
{
    let ghost gpos = pos as int;
    proof {
        lemma_event_lens();
    }
    if p4 >= inp.len() || inp[p4] != ',' {
        proof {
            assert forall|em: crate::event::EventModel| !event_present(inp@, gpos, em) by {
                if event_present(inp@, gpos, em) {
                    lemma_event_parts_rest(inp@, gpos, em);
                }
            }
        }
        return None;
    }
    let p5 = match eat_key(inp, p4 + 1, "s", "spans") {
        Some(p) => p,
        None => {
            proof {
                assert forall|em: crate::event::EventModel| !event_present(inp@, gpos, em) by {
                    if event_present(inp@, gpos, em) {
                        lemma_event_parts_rest(inp@, gpos, em);
                    }
                }
            }
            return None;
        },
    };
    match parse_spans(inp, p5) {
        Some((spans, p6)) => {
            proof {
                assert forall|em: crate::event::EventModel| #[trigger] event_present(
                    inp@,
                    gpos,
                    em,
                ) implies (spans@.map_values(|sp: crate::span::Span| sp@) == em.spans && p6 == p4
                    + 5 + json_of_spans(em.spans).len()) by {
                    lemma_event_parts_rest(inp@, gpos, em);
                    assert(spans_present(inp@, p5 as int, em.spans));
                }
            }
            Some((spans, p6))
        },
        None => {
            proof {
                assert forall|em: crate::event::EventModel| !event_present(inp@, gpos, em) by {
                    if event_present(inp@, gpos, em) {
                        lemma_event_parts_rest(inp@, gpos, em);
                        assert(spans_present(inp@, p5 as int, em.spans));
                    }
                }
            }
            None
        },
    }
}

/// Scan the target of a record object and arrive at its optional fields.
/// `pos` is where the record began; `p6` is where its span stack ended.
#[verifier::rlimit(100)]
fn parse_event_target(inp: &Vec<char>, pos: usize, p6: usize) -> (r: Option<(String, usize)>)
    requires
        pos <= p6 <= inp@.len(),
        forall|em: crate::event::EventModel| #[trigger] event_present(inp@, pos as int, em) ==> p6
            == pos + 6 + json_of_kind(em.kind).len() + 5 + dec_digits(
            em.level.rank() as int,
        ).len() + 5 + json_of_spans(em.spans).len(),
    ensures
        r matches Some((h, p)) ==> p6 < p <= inp@.len(),
        forall|em: crate::event::EventModel| #[trigger] event_present(inp@, pos as int, em) ==> (r
            matches Some((h, p)) && h@ == em.target && opts_present(inp@, p as int, em)
            && json_of_event(em).len() == (p - pos) + opts_text(em, 0).len()),
{
    let ghost gpos = pos as int;
    proof {
        lemma_event_lens();
    }
    if p6 >= inp.len() || inp[p6] != ',' {
        proof {
            assert forall|em: crate::event::EventModel| !event_present(inp@, gpos, em) by {
                if event_present(inp@, gpos, em) {
                    lemma_event_parts_rest(inp@, gpos, em);
                }
            }
        }
        return None;
    }
    let p7 = match eat_key(inp, p6 + 1, "t", "target") {
        Some(p) => p,
        None => {
            proof {
                assert forall|em: crate::event::EventModel| !event_present(inp@, gpos, em) by {
                    if event_present(inp@, gpos, em) {
                        lemma_event_parts_rest(inp@, gpos, em);
                    }
                }
            }
            return None;
        },
    };
    match scan_string(inp, p7) {
        Some((target, p8)) => {
            proof {
                assert forall|em: crate::event::EventModel| #[trigger] event_present(
                    inp@,
                    gpos,
                    em,
                ) implies (target@ == em.target && opts_present(inp@, p8 as int, em)
                    && json_of_event(em).len() == (p8 - gpos) + opts_text(em, 0).len()) by {
                    lemma_event_parts_rest(inp@, gpos, em);
                    lemma_scan_str_round_trip(inp@, p7 as int, em.target);
                }
            }
            Some((target, p8))
        },
        None => {
            proof {
                assert forall|em: crate::event::EventModel| !event_present(inp@, gpos, em) by {
                    if event_present(inp@, gpos, em) {
                        lemma_event_parts_rest(inp@, gpos, em);
                        lemma_scan_str_round_trip(inp@, p7 as int, em.target);
                    }
                }
            }
            None
        },
    }
}

/// Scan one record object.
#[verifier::rlimit(100)]
pub fn parse_event(inp: &Vec<char>, pos: usize) -> (r: Option<(crate::event::Event, usize)>)
    ensures
        r matches Some((e, p)) ==> pos < p <= inp@.len(),
        forall|em: crate::event::EventModel| #[trigger] event_present(inp@, pos as int, em) ==> (r
            matches Some((e, p)) && e@ == em && p == pos + json_of_event(em).len()),
{
    let ghost gpos = pos as int;
    let ((kind, level), p4) = match parse_event_half(inp, pos) {
        Some(x) => x,
        None => {
            return None;
        },
    };
    let (spans, p6) = match parse_event_spans(inp, pos, p4) {
        Some(x) => x,
        None => {
            return None;
        },
    };
    let (target, p8) = match parse_event_target(inp, pos, p6) {
        Some(x) => x,
        None => {
            return None;
        },
    };
    match parse_opts(inp, p8) {
        Some(((thread_id, thread_name, src_line, src_file, time), p9)) => {
            let ev = crate::event::Event {
                kind,
                level,
                spans,
                target,
                thread_id,
                thread_name,
                src_line,
                src_file,
                time,
            };
            proof {
                assert forall|em: crate::event::EventModel| #[trigger] event_present(
                    inp@,
                    gpos,
                    em,
                ) implies (ev@ == em && p9 == gpos + json_of_event(em).len()) by {
                    assert(opts_present(inp@, p8 as int, em));
                }
            }
            Some((ev, p9))
        },
        None => {
            proof {
                assert forall|em: crate::event::EventModel| !event_present(inp@, gpos, em) by {
                    if event_present(inp@, gpos, em) {
                        assert(opts_present(inp@, p8 as int, em));
                    }
                }
            }
            None
        },
    }
}

/// The concatenated record lines of a sequence of events.
pub open spec fn json_lines(es: Seq<crate::event::EventModel>) -> Seq<char>
    decreases es.len(),
{
    if es.len() == 0 {
        Seq::empty()
    } else {
        json_line_of_event(es[0]) + json_lines(es.skip(1))
    }
}

/// The input from `pos` on is exactly the record lines of `es`.
pub open spec fn stream_present(inp: Seq<char>, pos: int, es: Seq<crate::event::EventModel>) -> bool {
    (forall|i: int| 0 <= i < es.len() ==> event_ok(#[trigger] es[i])) && 0 <= pos <= inp.len()
        && inp.subrange(pos, inp.len() as int) == json_lines(es)
}

/// A present stream splits into its first record line and the rest.
#[verifier::rlimit(100)]
proof fn lemma_stream_parts(inp: Seq<char>, pos: int, es: Seq<crate::event::EventModel>)
    requires
        stream_present(inp, pos, es),
        es.len() > 0,
    ensures
        event_present(inp, pos, es[0]),
        pos + json_of_event(es[0]).len() < inp.len(),
        inp[pos + json_of_event(es[0]).len()] == '\n',
        stream_present(inp, pos + json_of_event(es[0]).len() + 1, es.skip(1)),
{
    let l0 = json_line_of_event(es[0]);
    let rest = json_lines(es.skip(1));
    assert(inp.subrange(pos, inp.len() as int) == l0 + rest);
    assert(prefix_at(inp, pos, l0 + rest)) by {
        assert(inp.subrange(pos, pos + (l0 + rest).len()) =~= l0 + rest);
    }
    assert(l0 + rest =~= json_of_event(es[0]) + (seq!['\n'] + rest));
    lemma_prefix_split(inp, pos, json_of_event(es[0]), seq!['\n'] + rest);
    let q = pos + json_of_event(es[0]).len();
    lemma_prefix_split(inp, q, seq!['\n'], rest);
    lemma_prefix_first(inp, q, seq!['\n']);
    assert(inp.subrange(q + 1, inp.len() as int) =~= rest) by {
        assert(prefix_at(inp, q + 1, rest));
        assert((q + 1) + rest.len() == inp.len());
        assert(inp.subrange(q + 1, (q + 1) + rest.len()) == rest);
    }
    assert forall|i: int| 0 <= i < es.skip(1).len() implies event_ok(#[trigger] es.skip(1)[i]) by {
        assert(es.skip(1)[i] == es[i + 1]);
    }
}

/// Scan records separated by newlines until the input ends.
#[verifier::rlimit(100)]
pub fn parse_stream_from(inp: &Vec<char>, pos: usize) -> (r: Option<Vec<crate::event::Event>>)
    requires
        pos <= inp@.len(),
    ensures
        forall|es: Seq<crate::event::EventModel>| #[trigger] stream_present(inp@, pos as int, es)
            ==> (r matches Some(v) && v@.map_values(|e: crate::event::Event| e@) == es),
    decreases inp@.len() - pos,
{
    let ghost gpos = pos as int;
    if pos == inp.len() {
        let out: Vec<crate::event::Event> = Vec::new();
        proof {
            assert forall|es: Seq<crate::event::EventModel>| #[trigger] stream_present(
                inp@,
                gpos,
                es,
            ) implies (out@.map_values(|e: crate::event::Event| e@) == es) by {
                if es.len() > 0 {
                    lemma_stream_parts(inp@, gpos, es);
                }
                assert(es =~= Seq::<crate::event::EventModel>::empty());
                assert(out@.map_values(|e: crate::event::Event| e@) =~= Seq::<
                    crate::event::EventModel,
                >::empty());
            }
        }
        return Some(out);
    }
    let (ev, p) = match parse_event(inp, pos) {
        Some(x) => x,
        None => {
            proof {
                assert forall|es: Seq<crate::event::EventModel>| !stream_present(inp@, gpos, es) by {
                    if stream_present(inp@, gpos, es) {
                        if es.len() == 0 {
                            assert(inp@.subrange(gpos, inp@.len() as int).len() == 0);
                        } else {
                            lemma_stream_parts(inp@, gpos, es);
                        }
                    }
                }
            }
            return None;
        },
    };
    if p >= inp.len() || inp[p] != '\n' {
        proof {
            assert forall|es: Seq<crate::event::EventModel>| !stream_present(inp@, gpos, es) by {
                if stream_present(inp@, gpos, es) {
                    if es.len() == 0 {
                        assert(inp@.subrange(gpos, inp@.len() as int).len() == 0);
                    } else {
                        lemma_stream_parts(inp@, gpos, es);
                    }
                }
            }
        }
        return None;
    }
    match parse_stream_from(inp, p + 1) {
        Some(mut rest) => {
            let ghost evm = ev@;
            let ghost restm = rest@.map_values(|e: crate::event::Event| e@);
            rest.insert(0, ev);
            proof {
                assert(rest@.map_values(|e: crate::event::Event| e@) =~= seq![evm] + restm);
            }
            let out = rest;
            proof {
                assert forall|es: Seq<crate::event::EventModel>| #[trigger] stream_present(
                    inp@,
                    gpos,
                    es,
                ) implies (out@.map_values(|e: crate::event::Event| e@) == es) by {
                    if es.len() == 0 {
                        assert(inp@.subrange(gpos, inp@.len() as int).len() == 0);
                    } else {
                        lemma_stream_parts(inp@, gpos, es);
                        assert(evm == es[0]);
                        assert(stream_present(inp@, p + 1, es.skip(1)));
                        assert(seq![es[0]] + es.skip(1) =~= es);
                    }
                }
            }
            Some(out)
        },
        None => {
            proof {
                assert forall|es: Seq<crate::event::EventModel>| !stream_present(inp@, gpos, es) by {
                    if stream_present(inp@, gpos, es) {
                        if es.len() == 0 {
                            assert(inp@.subrange(gpos, inp@.len() as int).len() == 0);
                        } else {
                            lemma_stream_parts(inp@, gpos, es);
                            assert(stream_present(inp@, p + 1, es.skip(1)));
                        }
                    }
                }
            }
            None
        },
    }
}

/// Scan a whole buffer of newline-delimited records into typed events.
pub fn events_from_json(text: &str) -> (r: Option<Vec<crate::event::Event>>)
    ensures
        forall|es: Seq<crate::event::EventModel>| #[trigger] stream_present(text@, 0, es) ==> (r
            matches Some(v) && v@.map_values(|e: crate::event::Event| e@) == es),
{
    let chars = crate::strio::str_to_chars(text);
    parse_stream_from(&chars, 0)
}

} // verus!

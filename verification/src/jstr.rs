//! The JSON string form: quoting, escaping, and scanning back, with a
//! round-trip proof.
//!
//! The writer escapes `"` and `\` with a backslash and every control
//! character as `\u00XX`; all other characters pass through unchanged. The
//! scanner additionally accepts the standard single-character escapes
//! `\/ \n \t \r \b \f`, which hand-written records may use.
use vstd::prelude::*;
use crate::dec::{digit_val, is_digit};
use crate::prefix::{prefix_at, lemma_prefix_index, lemma_prefix_split, lemma_prefix_first};

verus! {

/// The character for one lowercase hexadecimal digit.
pub open spec fn hex_char(d: int) -> char {
    if d < 10 {
        crate::dec::digit_char(d)
    } else if d == 10 {
        'a'
    } else if d == 11 {
        'b'
    } else if d == 12 {
        'c'
    } else if d == 13 {
        'd'
    } else if d == 14 {
        'e'
    } else {
        'f'
    }
}

/// The value of a hexadecimal digit character of either case, or -1.
pub open spec fn hex_val(c: char) -> int {
    if is_digit(c) {
        digit_val(c)
    } else if c == 'a' || c == 'A' {
        10
    } else if c == 'b' || c == 'B' {
        11
    } else if c == 'c' || c == 'C' {
        12
    } else if c == 'd' || c == 'D' {
        13
    } else if c == 'e' || c == 'E' {
        14
    } else if c == 'f' || c == 'F' {
        15
    } else {
        -1
    }
}

/// The escape sequence a character is written as inside a JSON string.
pub open spec fn esc_char(c: char) -> Seq<char> {
    if c == '"' {
        seq!['\\', '"']
    } else if c == '\\' {
        seq!['\\', '\\']
    } else if (c as u32) < 0x20 {
        seq!['\\', 'u', '0', '0', hex_char(((c as u32) as int) / 16), hex_char(((c as u32) as int) % 16)]
    } else {
        seq![c]
    }
}

/// The escaped body of a JSON string.
pub open spec fn esc_str(s: Seq<char>) -> Seq<char>
    decreases s.len(),
{
    if s.len() == 0 {
        Seq::empty()
    } else {
        esc_char(s[0]) + esc_str(s.skip(1))
    }
}

/// The JSON form of a string: quoted and escaped.
pub open spec fn json_str(s: Seq<char>) -> Seq<char> {
    seq!['"'] + esc_str(s) + seq!['"']
}

/// Escaping distributes over concatenation.
pub proof fn lemma_esc_concat(a: Seq<char>, b: Seq<char>)
    ensures
        esc_str(a + b) == esc_str(a) + esc_str(b),
    decreases a.len(),
{
    if a.len() == 0 {
        assert(a + b =~= b);
        assert(esc_str(a) =~= Seq::<char>::empty());
        assert(esc_str(a) + esc_str(b) =~= esc_str(b));
    } else {
        assert((a + b).skip(1) =~= a.skip(1) + b);
        lemma_esc_concat(a.skip(1), b);
        assert(esc_str(a + b) =~= esc_char(a[0]) + (esc_str(a.skip(1)) + esc_str(b)));
        assert(esc_str(a) + esc_str(b) =~= esc_char(a[0]) + (esc_str(a.skip(1)) + esc_str(b)));
    }
}

/// Escaping one more character appends its escape sequence.
pub proof fn lemma_esc_push(a: Seq<char>, c: char)
    ensures
        esc_str(a.push(c)) == esc_str(a) + esc_char(c),
{
    assert(a.push(c) =~= a + seq![c]);
    lemma_esc_concat(a, seq![c]);
    assert(seq![c].skip(1) =~= Seq::<char>::empty());
    assert(esc_str(seq![c]) =~= esc_char(c) + esc_str(Seq::<char>::empty()));
    assert(esc_char(c) + esc_str(Seq::<char>::empty()) =~= esc_char(c));
}

/// The lowercase hexadecimal digit of a value below sixteen.
fn hex_to_char(d: u32) -> (c: char)
    requires
        d < 16,
    ensures
        c == hex_char(d as int),
{
    if d < 10 {
        crate::dec::digit_to_char(d as u64)
    } else if d == 10 {
        'a'
    } else if d == 11 {
        'b'
    } else if d == 12 {
        'c'
    } else if d == 13 {
        'd'
    } else if d == 14 {
        'e'
    } else {
        'f'
    }
}

/// The value of a hexadecimal digit character, or 255.
fn char_to_hex(c: char) -> (d: u8)
    ensures
        hex_val(c) >= 0 ==> d == hex_val(c),
        hex_val(c) < 0 ==> d == 255,
{
    let v = crate::dec::char_to_digit(c);
    if v != 255 {
        v
    } else if c == 'a' || c == 'A' {
        10
    } else if c == 'b' || c == 'B' {
        11
    } else if c == 'c' || c == 'C' {
        12
    } else if c == 'd' || c == 'D' {
        13
    } else if c == 'e' || c == 'E' {
        14
    } else if c == 'f' || c == 'F' {
        15
    } else {
        255
    }
}

/// Append the JSON form of a string to the output buffer.
#[verifier::rlimit(100)]
pub fn push_json_str(out: &mut Vec<char>, s: &str)
    ensures
        final(out)@ == old(out)@ + json_str(s@),
{
    let ghost pre = out@;
    out.push('"');
    let n = s.unicode_len();
    for i in 0..n
        invariant
            n == s@.len(),
            out@ =~= pre + seq!['"'] + esc_str(s@.subrange(0, i as int)),
        decreases n - i,
    {
        let ghost done = s@.subrange(0, i as int);
        let c = s.get_char(i);
        proof {
            lemma_esc_push(done, c);
            assert(done.push(c) =~= s@.subrange(0, i + 1));
        }
        if c == '"' {
            out.push('\\');
            out.push('"');
            proof {
                assert(out@ =~= pre + seq!['"'] + (esc_str(done) + esc_char(c)));
            }
        } else if c == '\\' {
            out.push('\\');
            out.push('\\');
            proof {
                assert(out@ =~= pre + seq!['"'] + (esc_str(done) + esc_char(c)));
            }
        } else {
            let u = c as u32;
            if u < 0x20 {
                out.push('\\');
                out.push('u');
                out.push('0');
                out.push('0');
                out.push(hex_to_char(u / 16));
                out.push(hex_to_char(u % 16));
                proof {
                    assert(out@ =~= pre + seq!['"'] + (esc_str(done) + esc_char(c)));
                }
            } else {
                out.push(c);
                proof {
                    assert(out@ =~= pre + seq!['"'] + (esc_str(done) + esc_char(c)));
                }
            }
        }
    }
    out.push('"');
    proof {
        assert(s@.subrange(0, n as int) =~= s@);
        assert(out@ =~= pre + json_str(s@));
    }
}

/// The decoded character of a single-character escape, if the escape is
/// accepted.
pub open spec fn esc_decode(e: char) -> Option<char> {
    if e == '"' {
        Some('"')
    } else if e == '\\' {
        Some('\\')
    } else if e == '/' {
        Some('/')
    } else if e == 'n' {
        Some('\n')
    } else if e == 't' {
        Some('\t')
    } else if e == 'r' {
        Some('\r')
    } else if e == 'b' {
        Some('\u{8}')
    } else if e == 'f' {
        Some('\u{c}')
    } else {
        None
    }
}

/// The value of the four hexadecimal digits at `i`, or -1 when any of the
/// four characters is not a hexadecimal digit.
pub open spec fn hex4_val(inp: Seq<char>, i: int) -> int {
    if hex_val(inp[i]) >= 0 && hex_val(inp[i + 1]) >= 0 && hex_val(inp[i + 2]) >= 0 && hex_val(
        inp[i + 3],
    ) >= 0 {
        hex_val(inp[i]) * 0x1000 + hex_val(inp[i + 1]) * 0x100 + hex_val(inp[i + 2]) * 0x10
            + hex_val(inp[i + 3])
    } else {
        -1
    }
}

/// What scanning a JSON string body from position `i` yields: the decoded
/// text and the position after the closing quote, or nothing when the body
/// is unterminated or malformed.
pub open spec fn scan_body(inp: Seq<char>, i: int) -> Option<(Seq<char>, int)>
    decreases inp.len() - i,
    when 0 <= i <= inp.len()
{
    if i == inp.len() {
        None
    } else {
        let c = inp[i];
        if c == '"' {
            Some((Seq::empty(), i + 1))
        } else if c == '\\' {
            if i + 1 == inp.len() {
                None
            } else {
                let e = inp[i + 1];
                if e == 'u' {
                    if i + 6 > inp.len() {
                        None
                    } else {
                        let h = hex4_val(inp, i + 2);
                        if 0 <= h < 0x20 {
                            match scan_body(inp, i + 6) {
                                Some((t, p)) => Some((seq![((h as u32) as char)] + t, p)),
                                None => None,
                            }
                        } else {
                            None
                        }
                    }
                } else {
                    match esc_decode(e) {
                        Some(d) => match scan_body(inp, i + 2) {
                            Some((t, p)) => Some((seq![d] + t, p)),
                            None => None,
                        },
                        None => None,
                    }
                }
            }
        } else if (c as u32) < 0x20 {
            None
        } else {
            match scan_body(inp, i + 1) {
                Some((t, p)) => Some((seq![c] + t, p)),
                None => None,
            }
        }
    }
}

/// What scanning a JSON string from position `pos` yields: an opening
/// quote, a body, a closing quote.
pub open spec fn scan_str(inp: Seq<char>, pos: int) -> Option<(Seq<char>, int)> {
    if 0 <= pos < inp.len() && inp[pos] == '"' {
        scan_body(inp, pos + 1)
    } else {
        None
    }
}

/// A successful body scan lands within bounds, past its start.
pub proof fn lemma_scan_body_bounds(inp: Seq<char>, i: int)
    requires
        0 <= i <= inp.len(),
    ensures
        scan_body(inp, i) matches Some((t, p)) ==> i < p <= inp.len(),
    decreases inp.len() - i,
{
    if i < inp.len() {
        let c = inp[i];
        if c == '\\' && i + 1 < inp.len() {
            if inp[i + 1] == 'u' {
                if i + 6 <= inp.len() {
                    lemma_scan_body_bounds(inp, i + 6);
                }
            } else {
                lemma_scan_body_bounds(inp, i + 2);
            }
        } else if c != '"' {
            lemma_scan_body_bounds(inp, i + 1);
        }
    }
}

/// Scanning the escaped body of `s` followed by a closing quote decodes
/// exactly `s` and stops right after that quote, whatever follows.
#[verifier::rlimit(100)]
pub proof fn lemma_scan_body_round_trip(inp: Seq<char>, i: int, s: Seq<char>)
    requires
        0 <= i,
        i + esc_str(s).len() + 1 <= inp.len(),
        inp.subrange(i, i + esc_str(s).len()) == esc_str(s),
        inp[i + esc_str(s).len()] == '"',
    ensures
        scan_body(inp, i) == Some((s, i + esc_str(s).len() + 1)),
    decreases s.len(),
{
    if s.len() == 0 {
        assert(esc_str(s).len() == 0);
        assert(inp[i] == '"');
        assert(scan_body(inp, i) == Some((Seq::<char>::empty(), i + 1)));
        assert(s =~= Seq::<char>::empty());
    } else {
        let c = s[0];
        let tail = s.skip(1);
        let e0 = esc_char(c);
        let etail = esc_str(tail);
        assert(esc_str(s) == e0 + etail);
        let el = esc_str(s).len();
        assert(prefix_at(inp, i, e0 + etail));
        lemma_prefix_split(inp, i, e0, etail);
        // The input from the end of this escape carries the rest of the body.
        let j = i + e0.len();
        assert(inp[j + etail.len()] == '"');
        lemma_scan_body_round_trip(inp, j, tail);
        if c == '"' {
            lemma_prefix_index(inp, i, e0, 0);
            lemma_prefix_index(inp, i, e0, 1);
            assert(inp[i] == '\\' && inp[i + 1] == '"');
            assert(scan_body(inp, i) == Some((seq!['"'] + tail, i + el + 1)));
            assert(seq!['"'] + tail =~= s);
        } else if c == '\\' {
            lemma_prefix_index(inp, i, e0, 0);
            lemma_prefix_index(inp, i, e0, 1);
            assert(inp[i] == '\\' && inp[i + 1] == '\\');
            assert(scan_body(inp, i) == Some((seq!['\\'] + tail, i + el + 1)));
            assert(seq!['\\'] + tail =~= s);
        } else if (c as u32) < 0x20 {
            let u = (c as u32) as int;
            lemma_prefix_index(inp, i, e0, 0);
            lemma_prefix_index(inp, i, e0, 1);
            lemma_prefix_index(inp, i, e0, 2);
            lemma_prefix_index(inp, i, e0, 3);
            lemma_prefix_index(inp, i, e0, 4);
            lemma_prefix_index(inp, i, e0, 5);
            assert(inp[i] == '\\' && inp[i + 1] == 'u' && inp[i + 2] == '0' && inp[i + 3] == '0'
                && inp[i + 4] == hex_char(u / 16) && inp[i + 5] == hex_char(u % 16));
            lemma_hex_char_val(u / 16);
            lemma_hex_char_val(u % 16);
            assert(hex4_val(inp, i + 2) == u);
            vstd::utf8::char_u32_cast(c, c as u32);
            assert(((u as u32) as char) == c);
            assert(scan_body(inp, i) == Some((seq![c] + tail, i + el + 1)));
            assert(seq![c] + tail =~= s);
        } else {
            lemma_prefix_index(inp, i, e0, 0);
            assert(inp[i] == c);
            assert(c != '"' && c != '\\');
            assert(scan_body(inp, i) == Some((seq![c] + tail, i + el + 1)));
            assert(seq![c] + tail =~= s);
        }
    }
}

/// The hexadecimal digit characters carry their values.
proof fn lemma_hex_char_val(d: int)
    requires
        0 <= d < 16,
    ensures
        hex_val(hex_char(d)) == d,
{
}

/// Scanning the JSON form of `s` decodes exactly `s`, whatever follows it.
pub proof fn lemma_scan_str_round_trip(inp: Seq<char>, pos: int, s: Seq<char>)
    requires
        0 <= pos,
        pos + json_str(s).len() <= inp.len(),
        inp.subrange(pos, pos + json_str(s).len()) == json_str(s),
    ensures
        scan_str(inp, pos) == Some((s, pos + json_str(s).len())),
{
    let js = json_str(s);
    assert(js =~= seq!['"'] + (esc_str(s) + seq!['"']));
    assert(prefix_at(inp, pos, seq!['"'] + (esc_str(s) + seq!['"'])));
    lemma_prefix_split(inp, pos, seq!['"'], esc_str(s) + seq!['"']);
    lemma_prefix_first(inp, pos, seq!['"']);
    assert(inp[pos] == '"');
    lemma_prefix_split(inp, pos + 1, esc_str(s), seq!['"']);
    lemma_prefix_first(inp, pos + 1 + esc_str(s).len(), seq!['"']);
    assert(inp[pos + 1 + esc_str(s).len()] == '"');
    lemma_scan_body_round_trip(inp, pos + 1, s);
}

/// Scan a JSON string starting at `pos`: an opening quote, the escaped
/// body, a closing quote. Returns the decoded text and the position after
/// the closing quote.
#[verifier::rlimit(100)]
pub fn scan_string(inp: &Vec<char>, pos: usize) -> (r: Option<(String, usize)>)
    ensures
        match r {
            Some((out, p)) => scan_str(inp@, pos as int) == Some((out@, p as int)) && pos < p
                <= inp@.len(),
            None => scan_str(inp@, pos as int) is None,
        },
{
    if pos >= inp.len() || inp[pos] != '"' {
        return None;
    }
    let mut decoded = String::new();
    let mut i: usize = pos + 1;
    proof {
        assert(decoded@ =~= Seq::<char>::empty());
    }
    loop
        invariant
            pos + 1 <= i <= inp@.len(),
            inp@[pos as int] == '"',
            scan_body(inp@, i as int) matches Some((t, p)) ==> scan_body(inp@, pos + 1) == Some(
                (decoded@ + t, p),
            ),
            scan_body(inp@, i as int) is None ==> scan_body(inp@, pos + 1) is None,
        decreases inp@.len() - i,
    {
        if i == inp.len() {
            return None;
        }
        let c = inp[i];
        if c == '"' {
            proof {
                assert(scan_body(inp@, i as int) == Some((Seq::<char>::empty(), i + 1)));
                assert(decoded@ + Seq::<char>::empty() =~= decoded@);
                lemma_scan_body_bounds(inp@, pos + 1);
            }
            return Some((decoded, i + 1));
        } else if c == '\\' {
            if i + 1 == inp.len() {
                return None;
            }
            let e = inp[i + 1];
            if e == 'u' {
                if inp.len() - i < 6 {
                    return None;
                }
                let h1 = char_to_hex(inp[i + 2]);
                let h2 = char_to_hex(inp[i + 3]);
                let h3 = char_to_hex(inp[i + 4]);
                let h4 = char_to_hex(inp[i + 5]);
                if h1 == 255 || h2 == 255 || h3 == 255 || h4 == 255 {
                    proof {
                        assert(hex4_val(inp@, i + 2) == -1);
                    }
                    return None;
                }
                let h: u32 = (h1 as u32) * 0x1000 + (h2 as u32) * 0x100 + (h3 as u32) * 0x10 + (
                h4 as u32);
                proof {
                    assert(hex4_val(inp@, i + 2) == h);
                }
                if h >= 0x20 {
                    return None;
                }
                let ghost before = decoded@;
                decoded.push((h as u8) as char);
                proof {
                    let d = ((h as u32) as char);
                    assert(decoded@ =~= before.push(d));
                    if scan_body(inp@, i + 6) is Some {
                        let (t, p) = scan_body(inp@, i + 6)->Some_0;
                        assert(scan_body(inp@, i as int) == Some((seq![d] + t, p)));
                        assert(before + (seq![d] + t) =~= decoded@ + t);
                    }
                }
                i += 6;
            } else {
                let d = if e == '"' {
                    Some('"')
                } else if e == '\\' {
                    Some('\\')
                } else if e == '/' {
                    Some('/')
                } else if e == 'n' {
                    Some('\n')
                } else if e == 't' {
                    Some('\t')
                } else if e == 'r' {
                    Some('\r')
                } else if e == 'b' {
                    Some('\u{8}')
                } else if e == 'f' {
                    Some('\u{c}')
                } else {
                    None
                };
                proof {
                    assert(d == esc_decode(e));
                }
                match d {
                    Some(d) => {
                        let ghost before = decoded@;
                        decoded.push(d);
                        proof {
                            assert(decoded@ =~= before.push(d));
                            if scan_body(inp@, i + 2) is Some {
                                let (t, p) = scan_body(inp@, i + 2)->Some_0;
                                assert(scan_body(inp@, i as int) == Some((seq![d] + t, p)));
                                assert(before + (seq![d] + t) =~= decoded@ + t);
                            }
                        }
                        i += 2;
                    },
                    None => {
                        return None;
                    },
                }
            }
        } else {
            let u = c as u32;
            if u < 0x20 {
                return None;
            }
            let ghost before = decoded@;
            decoded.push(c);
            proof {
                assert(decoded@ =~= before.push(c));
                if scan_body(inp@, i + 1) is Some {
                    let (t, p) = scan_body(inp@, i + 1)->Some_0;
                    assert(scan_body(inp@, i as int) == Some((seq![c] + t, p)));
                    assert(before + (seq![c] + t) =~= decoded@ + t);
                }
            }
            i += 1;
        }
    }
}

} // verus!

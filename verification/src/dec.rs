//! Decimal numerals: printing and scanning unsigned 64-bit values, with a
//! round-trip proof. The wire format writes every integer this way.
use vstd::prelude::*;

verus! {

/// The character for one decimal digit.
pub open spec fn digit_char(d: int) -> char {
    if d == 0 {
        '0'
    } else if d == 1 {
        '1'
    } else if d == 2 {
        '2'
    } else if d == 3 {
        '3'
    } else if d == 4 {
        '4'
    } else if d == 5 {
        '5'
    } else if d == 6 {
        '6'
    } else if d == 7 {
        '7'
    } else if d == 8 {
        '8'
    } else {
        '9'
    }
}

/// The value of one decimal digit character, or -1 for any other character.
pub open spec fn digit_val(c: char) -> int {
    if c == '0' {
        0
    } else if c == '1' {
        1
    } else if c == '2' {
        2
    } else if c == '3' {
        3
    } else if c == '4' {
        4
    } else if c == '5' {
        5
    } else if c == '6' {
        6
    } else if c == '7' {
        7
    } else if c == '8' {
        8
    } else if c == '9' {
        9
    } else {
        -1
    }
}

/// Whether a character is a decimal digit.
pub open spec fn is_digit(c: char) -> bool {
    digit_val(c) >= 0
}

/// The canonical decimal numeral of a nonnegative value: no leading zeros,
/// a single `0` for zero.
pub open spec fn dec_digits(n: int) -> Seq<char>
    decreases n,
{
    if n < 10 {
        seq![digit_char(n)]
    } else {
        dec_digits(n / 10).push(digit_char(n % 10))
    }
}

/// The value of a run of digit characters, most significant first.
pub open spec fn dec_val(s: Seq<char>) -> int
    decreases s.len(),
{
    if s.len() == 0 {
        0
    } else {
        dec_val(s.drop_last()) * 10 + digit_val(s.last())
    }
}

/// Every character of a canonical numeral is a digit, the numeral is
/// nonempty, and its first character is `0` only for the numeral `0`.
pub proof fn lemma_dec_digits_shape(n: int)
    requires
        n >= 0,
    ensures
        dec_digits(n).len() >= 1,
        forall|i: int| 0 <= i < dec_digits(n).len() ==> is_digit(#[trigger] dec_digits(n)[i]),
    decreases n,
{
    if n >= 10 {
        lemma_dec_digits_shape(n / 10);
    }
}

/// The digit characters carry their values.
pub proof fn lemma_digit_char_val(d: int)
    requires
        0 <= d < 10,
    ensures
        digit_val(digit_char(d)) == d,
{
}

/// Scanning back a canonical numeral yields the value it was printed from.
pub proof fn lemma_dec_round_trip(n: int)
    requires
        n >= 0,
    ensures
        dec_val(dec_digits(n)) == n,
    decreases n,
{
    assert(dec_val(Seq::<char>::empty()) == 0);
    if n < 10 {
        lemma_digit_char_val(n);
        let s = dec_digits(n);
        assert(s =~= seq![digit_char(n)]);
        assert(s.drop_last() =~= Seq::<char>::empty());
        assert(s.last() == digit_char(n));
        assert(dec_val(s) == dec_val(s.drop_last()) * 10 + digit_val(s.last()));
    } else {
        lemma_dec_round_trip(n / 10);
        lemma_digit_char_val(n % 10);
        let s = dec_digits(n);
        assert(s == dec_digits(n / 10).push(digit_char(n % 10)));
        assert(s.drop_last() =~= dec_digits(n / 10));
        assert(s.last() == digit_char(n % 10));
        assert(dec_val(s) == dec_val(s.drop_last()) * 10 + digit_val(s.last()));
    }
}

/// The value of a digit run is nonnegative.
pub proof fn lemma_dec_val_nonneg(s: Seq<char>)
    requires
        forall|j: int| 0 <= j < s.len() ==> is_digit(#[trigger] s[j]),
    ensures
        dec_val(s) >= 0,
    decreases s.len(),
{
    if s.len() > 0 {
        lemma_dec_val_nonneg(s.drop_last());
    }
}

/// The digit character of a value below ten.
pub fn digit_to_char(d: u64) -> (c: char)
    requires
        d < 10,
    ensures
        c == digit_char(d as int),
{
    if d == 0 {
        '0'
    } else if d == 1 {
        '1'
    } else if d == 2 {
        '2'
    } else if d == 3 {
        '3'
    } else if d == 4 {
        '4'
    } else if d == 5 {
        '5'
    } else if d == 6 {
        '6'
    } else if d == 7 {
        '7'
    } else if d == 8 {
        '8'
    } else {
        '9'
    }
}

/// The value of a digit character, or 255 for any other character.
pub fn char_to_digit(c: char) -> (d: u8)
    ensures
        is_digit(c) ==> d == digit_val(c),
        !is_digit(c) ==> d == 255,
{
    if c == '0' {
        0
    } else if c == '1' {
        1
    } else if c == '2' {
        2
    } else if c == '3' {
        3
    } else if c == '4' {
        4
    } else if c == '5' {
        5
    } else if c == '6' {
        6
    } else if c == '7' {
        7
    } else if c == '8' {
        8
    } else if c == '9' {
        9
    } else {
        255
    }
}

/// Append the canonical decimal numeral of `n` to `out`.
#[verifier::rlimit(100)]
pub fn push_u64(out: &mut Vec<char>, n: u64)
    ensures
        final(out)@ == old(out)@ + dec_digits(n as int),
{
    let ghost pre_out = out@;
    if n == 0 {
        out.push('0');
        proof {
            assert(out@ =~= pre_out + dec_digits(0));
        }
        return ;
    }
    let mut rev: Vec<char> = Vec::new();
    let mut rem: u64 = n;
    while rem > 0
        invariant
            n > 0,
            rem > 0 ==> dec_digits(n as int) =~= dec_digits(rem as int) + rev@.reverse(),
            rem == 0 ==> rev@.reverse() =~= dec_digits(n as int),
        decreases rem,
    {
        let d = rem % 10;
        let next = rem / 10;
        let c = digit_to_char(d);
        let ghost pre_rev = rev@;
        rev.push(c);
        proof {
            assert(rev@.reverse() =~= seq![c] + pre_rev.reverse());
            if next > 0 {
                assert(dec_digits(rem as int) =~= dec_digits(next as int) + seq![c]);
                assert(dec_digits(n as int) =~= dec_digits(next as int) + rev@.reverse());
            } else {
                assert(dec_digits(rem as int) =~= seq![c]);
                assert(rev@.reverse() =~= dec_digits(n as int));
            }
        }
        rem = next;
    }
    let mut k = rev.len();
    while k > 0
        invariant
            k <= rev@.len(),
            rev@.reverse() =~= dec_digits(n as int),
            out@ =~= pre_out + rev@.subrange(k as int, rev@.len() as int).reverse(),
        decreases k,
    {
        k -= 1;
        let ghost before = out@;
        out.push(rev[k]);
        proof {
            assert(out@ =~= before.push(rev@[k as int]));
            assert(rev@.subrange(k as int, rev@.len() as int).reverse() =~= rev@.subrange(
                k + 1,
                rev@.len() as int,
            ).reverse().push(rev@[k as int]));
        }
    }
    proof {
        assert(rev@.subrange(0, rev@.len() as int) =~= rev@);
        assert(out@ =~= pre_out + dec_digits(n as int));
    }
}

/// Scan a run of decimal digits starting at `pos`, longest match.
///
/// Returns the value and the position after the run; `None` when no digit
/// starts at `pos`, or the run's value does not fit in 64 bits. On the
/// canonical numeral of any `u64` followed by a non-digit, it returns
/// exactly that value and consumes exactly the numeral.
#[verifier::rlimit(100)]
pub fn scan_u64(inp: &Vec<char>, pos: usize) -> (r: Option<(u64, usize)>)
    ensures
        r matches Some((v, p)) ==> pos < p <= inp@.len() && (forall|j: int|
            pos <= j < p ==> is_digit(#[trigger] inp@[j])) && (p < inp@.len() ==> !is_digit(
            inp@[p as int],
        )) && v == dec_val(inp@.subrange(pos as int, p as int)),
        forall|n: u64| #[trigger] dec_prefix_at(inp@, pos as int, n) ==> r == Some::<(u64, usize)>(
            (n, (pos + dec_digits(n as int).len()) as usize),
        ),
{
    if pos >= inp.len() {
        proof {
            lemma_dec_prefix_none(inp@, pos as int);
        }
        return None;
    }
    let first = char_to_digit(inp[pos]);
    if first == 255 {
        proof {
            lemma_dec_prefix_none(inp@, pos as int);
        }
        return None;
    }
    let mut acc: u64 = first as u64;
    let mut p: usize = pos + 1;
    let mut overflow = false;
    proof {
        let s = inp@.subrange(pos as int, pos + 1);
        assert(s.drop_last() =~= Seq::<char>::empty());
        assert(s.last() == inp@[pos as int]);
        assert(dec_val(Seq::<char>::empty()) == 0);
        assert(acc == digit_val(inp@[pos as int]));
        assert(dec_val(s) == dec_val(s.drop_last()) * 10 + digit_val(s.last()));
    }
    while p < inp.len() && !overflow
        invariant
            pos < p <= inp@.len(),
            forall|j: int| pos <= j < p ==> is_digit(#[trigger] inp@[j]),
            !overflow ==> acc == dec_val(inp@.subrange(pos as int, p as int)),
            overflow ==> dec_val(inp@.subrange(pos as int, p as int)) > u64::MAX,
        ensures
            pos < p <= inp@.len(),
            forall|j: int| pos <= j < p ==> is_digit(#[trigger] inp@[j]),
            !overflow ==> acc == dec_val(inp@.subrange(pos as int, p as int)),
            overflow ==> dec_val(inp@.subrange(pos as int, p as int)) > u64::MAX,
            !overflow && p < inp@.len() ==> !is_digit(inp@[p as int]),
        decreases inp@.len() - p,
    {
        let d = char_to_digit(inp[p]);
        if d == 255 {
            break;
        }
        proof {
            assert(inp@.subrange(pos as int, p + 1).drop_last() =~= inp@.subrange(
                pos as int,
                p as int,
            ));
            assert(inp@.subrange(pos as int, p + 1).last() == inp@[p as int]);
        }
        match acc.checked_mul(10) {
            Some(t) => {
                match t.checked_add(d as u64) {
                    Some(v) => {
                        acc = v;
                    },
                    None => {
                        overflow = true;
                        proof {
                            lemma_big_run_stays_big(inp@, pos as int, p + 1);
                        }
                    },
                }
            },
            None => {
                overflow = true;
                proof {
                    lemma_big_run_stays_big(inp@, pos as int, p + 1);
                }
            },
        }
        p += 1;
    }
    if overflow {
        proof {
            lemma_dec_prefix_overflow(inp@, pos as int, p as int);
        }
        return None;
    }
    proof {
        assert forall|n: u64| #[trigger] dec_prefix_at(inp@, pos as int, n) implies acc == n && p
            == pos + dec_digits(n as int).len() by {
            lemma_scan_exact(inp@, pos as int, p as int, n);
        }
    }
    Some((acc, p))
}

/// The canonical numeral of `n` sits at position `i` of `s`, followed by a
/// non-digit or the end of the sequence.
pub open spec fn dec_prefix_at(s: Seq<char>, i: int, n: u64) -> bool {
    let d = dec_digits(n as int);
    0 <= i && i + d.len() <= s.len() && s.subrange(i, i + d.len()) == d && (i + d.len() < s.len()
        ==> !is_digit(s[i + d.len()]))
}

/// Extending an over-large digit run with another digit keeps it over-large.
proof fn lemma_big_run_stays_big(s: Seq<char>, i: int, j: int)
    requires
        0 <= i < j <= s.len(),
        forall|k: int| i <= k < j ==> is_digit(#[trigger] s[k]),
        dec_val(s.subrange(i, j - 1)) * 10 + digit_val(s[j - 1]) > u64::MAX || dec_val(
            s.subrange(i, j),
        ) > u64::MAX,
    ensures
        dec_val(s.subrange(i, j)) > u64::MAX,
{
    assert(s.subrange(i, j).drop_last() =~= s.subrange(i, j - 1));
    assert(s.subrange(i, j).last() == s[j - 1]);
}

/// When no digit run can start at `i`, no canonical numeral sits there.
proof fn lemma_dec_prefix_none(s: Seq<char>, i: int)
    requires
        0 <= i,
        i >= s.len() || !is_digit(s[i]),
    ensures
        forall|n: u64| !dec_prefix_at(s, i, n),
{
    assert forall|n: u64| !dec_prefix_at(s, i, n) by {
        if dec_prefix_at(s, i, n) {
            let d = dec_digits(n as int);
            lemma_dec_digits_shape(n as int);
            assert(i < s.len());
            assert(s.subrange(i, i + d.len())[0] == s[i]);
            assert(is_digit(d[0]));
            assert(false);
        }
    }
}

/// When the maximal digit run at `i` overflows 64 bits, no `u64` numeral
/// sits at `i`.
proof fn lemma_dec_prefix_overflow(s: Seq<char>, i: int, p: int)
    requires
        0 <= i < p <= s.len(),
        forall|j: int| i <= j < p ==> is_digit(#[trigger] s[j]),
        dec_val(s.subrange(i, p)) > u64::MAX,
    ensures
        forall|n: u64| !dec_prefix_at(s, i, n),
{
    assert forall|n: u64| !dec_prefix_at(s, i, n) by {
        if dec_prefix_at(s, i, n) {
            let d = dec_digits(n as int);
            lemma_dec_digits_shape(n as int);
            lemma_dec_round_trip(n as int);
            // The run of digits starting at i extends at least to p, so the
            // numeral, ending at a non-digit, must end at or after p.
            if i + d.len() < p {
                assert(is_digit(s[i + d.len()]));
                assert(false);
            } else {
                // the numeral covers the whole run [i, p) and possibly more
                // digits drawn from the numeral itself
                assert forall|k: int| i <= k < i + d.len() implies is_digit(#[trigger] s[k]) by {
                    assert(s.subrange(i, i + d.len())[k - i] == s[k]);
                    assert(is_digit(d[k - i]));
                }
                lemma_dec_val_prefix_general(s, i, p, i + d.len());
                assert(dec_val(s.subrange(i, i + d.len())) >= dec_val(s.subrange(i, p)));
                assert(dec_val(d) == n);
                assert(s.subrange(i, i + d.len()) == d);
                assert(false);
            }
        }
    }
}

/// Among two digit runs starting together, the longer has at least the value
/// of the shorter.
proof fn lemma_dec_val_prefix_general(s: Seq<char>, i: int, p: int, q: int)
    requires
        0 <= i <= p <= q <= s.len(),
        forall|j: int| i <= j < q ==> is_digit(#[trigger] s[j]),
    ensures
        dec_val(s.subrange(i, q)) >= dec_val(s.subrange(i, p)),
        dec_val(s.subrange(i, p)) >= 0,
    decreases q - p,
{
    lemma_dec_val_nonneg(s.subrange(i, p));
    if p < q {
        lemma_dec_val_prefix_general(s, i, p + 1, q);
        assert(s.subrange(i, p + 1).drop_last() =~= s.subrange(i, p));
        assert(s.subrange(i, p + 1).last() == s[p]);
        lemma_dec_val_nonneg(s.subrange(i, p));
    }
}

/// On an input that carries the canonical numeral of `n` at `pos`, the scan
/// stops exactly after it and accumulates exactly `n`.
proof fn lemma_scan_exact(s: Seq<char>, pos: int, p: int, n: u64)
    requires
        dec_prefix_at(s, pos, n),
        0 <= pos < p <= s.len(),
        forall|j: int| pos <= j < p ==> is_digit(#[trigger] s[j]),
        p < s.len() ==> !is_digit(s[p]),
    ensures
        p == pos + dec_digits(n as int).len(),
        dec_val(s.subrange(pos, p)) == n,
{
    let d = dec_digits(n as int);
    lemma_dec_digits_shape(n as int);
    lemma_dec_round_trip(n as int);
    if pos + d.len() < p {
        assert(s[pos + d.len()] == s.subrange(pos, p)[d.len() as int]);
        assert(!is_digit(s[pos + d.len()]));
        assert(false);
    }
    if p < pos + d.len() {
        assert(is_digit(d[p - pos]));
        assert(d[p - pos] == s[p]);
        assert(false);
    }
    assert(s.subrange(pos, p) == d);
}

} // verus!

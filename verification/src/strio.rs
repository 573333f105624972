//! Small helpers between `String`, `&str` and character buffers.
use vstd::prelude::*;
use vstd::string::StrSliceExecFns;

verus! {

/// Relies on `String::push`: appends exactly one character.
pub assume_specification[ String::push ](s: &mut String, c: char)
    ensures
        final(s)@ == old(s)@.push(c),
;

/// Relies on `str::chars`: the characters of a string slice, in order,
/// gathered in one pass.
#[verifier::external_body]
pub fn str_to_chars(s: &str) -> (r: Vec<char>)
    ensures
        r@ == s@,
{
    s.chars().collect()
}

/// A string made of the given characters.
pub fn chars_to_string(v: &Vec<char>) -> (r: String)
    ensures
        r@ == v@,
{
    let mut out = String::new();
    let n = v.len();
    for i in 0..n
        invariant
            n == v@.len(),
            out@ =~= v@.subrange(0, i as int),
    {
        out.push(v[i]);
        proof {
            assert(out@ =~= v@.subrange(0, i + 1));
        }
    }
    proof {
        assert(v@.subrange(0, n as int) =~= v@);
    }
    out
}

/// Whether a string holds exactly the given text.
pub fn string_is(s: &String, lit: &str) -> (r: bool)
    ensures
        r == (s@ == lit@),
{
    let a = s.as_str();
    let n = a.unicode_len();
    let m = lit.unicode_len();
    if n != m {
        proof {
            assert(s@.len() != lit@.len());
        }
        return false;
    }
    for i in 0..n
        invariant
            a@ == s@,
            n == s@.len() == lit@.len(),
            forall|j: int| 0 <= j < i ==> s@[j] == lit@[j],
    {
        if a.get_char(i) != lit.get_char(i) {
            return false;
        }
    }
    proof {
        assert(s@ =~= lit@);
    }
    true
}

/// Append the characters of a string slice to a buffer.
pub fn push_lit(out: &mut Vec<char>, lit: &str)
    ensures
        final(out)@ == old(out)@ + lit@,
{
    let n = lit.unicode_len();
    let ghost pre = out@;
    for i in 0..n
        invariant
            n == lit@.len(),
            out@ =~= pre + lit@.subrange(0, i as int),
    {
        out.push(lit.get_char(i));
        proof {
            assert(out@ =~= pre + lit@.subrange(0, i + 1));
        }
    }
    proof {
        assert(lit@.subrange(0, n as int) =~= lit@);
    }
}

} // verus!

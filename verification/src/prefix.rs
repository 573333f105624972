//! Prefix algebra over character sequences: the glue that lets each piece
//! of the wire grammar be scanned back from a longer input.
use vstd::prelude::*;

verus! {

/// The sequence `p` sits at position `i` of `inp`.
pub open spec fn prefix_at(inp: Seq<char>, i: int, p: Seq<char>) -> bool {
    0 <= i && i + p.len() <= inp.len() && inp.subrange(i, i + p.len()) == p
}

/// Each character of a prefix is visible in the input.
pub proof fn lemma_prefix_index(inp: Seq<char>, i: int, p: Seq<char>, k: int)
    requires
        prefix_at(inp, i, p),
        0 <= k < p.len(),
    ensures
        inp[i + k] == p[k],
{
    assert(inp.subrange(i, i + p.len())[k] == inp[i + k]);
}

/// A prefix made of two parts splits into a prefix and a following prefix.
pub proof fn lemma_prefix_split(inp: Seq<char>, i: int, a: Seq<char>, b: Seq<char>)
    requires
        prefix_at(inp, i, a + b),
    ensures
        prefix_at(inp, i, a),
        prefix_at(inp, i + a.len(), b),
{
    assert(inp.subrange(i, i + a.len()) =~= a) by {
        assert forall|k: int| 0 <= k < a.len() implies inp.subrange(i, i + a.len())[k] == a[k] by {
            assert(inp.subrange(i, i + a.len())[k] == inp[i + k]);
            lemma_prefix_index(inp, i, a + b, k);
            assert((a + b)[k] == a[k]);
        }
    }
    assert(inp.subrange(i + a.len(), i + a.len() + b.len()) =~= b) by {
        assert forall|k: int| 0 <= k < b.len() implies inp.subrange(
            i + a.len(),
            i + a.len() + b.len(),
        )[k] == b[k] by {
            assert(inp.subrange(i + a.len(), i + a.len() + b.len())[k] == inp[i + a.len() + k]);
            lemma_prefix_index(inp, i, a + b, a.len() + k);
            assert((a + b)[a.len() + k] == b[k]);
        }
    }
}

/// A prefix at `i` makes the character right at `i` known.
pub proof fn lemma_prefix_first(inp: Seq<char>, i: int, p: Seq<char>)
    requires
        prefix_at(inp, i, p),
        p.len() > 0,
    ensures
        inp[i] == p[0],
{
    lemma_prefix_index(inp, i, p, 0);
}

} // verus!

//! Operations on string slices that the parser needs, proved over the
//! UTF-8 encoding of their characters.

use vstd::prelude::*;
use vstd::string::StringSliceAdditionalSpecFns;
use vstd::utf8::{
    encode_scalar, encode_utf8, encode_utf8_decode_utf8, encode_utf8_first_scalar,
    encode_utf8_valid_utf8, is_char_boundary, pop_first_scalar,
};

verus! {

/// Encoding distributes over concatenation.
pub proof fn lemma_encode_concat(a: Seq<char>, b: Seq<char>)
    ensures
        encode_utf8(a + b) == encode_utf8(a) + encode_utf8(b),
    decreases a.len(),
{
    if a.len() == 0 {
        assert(a + b =~= b);
        assert(encode_utf8(a) + encode_utf8(b) =~= encode_utf8(b));
    } else {
        lemma_encode_concat(a.drop_first(), b);
        assert((a + b).drop_first() =~= a.drop_first() + b);
        assert(encode_utf8(a + b) =~= encode_utf8(a) + encode_utf8(b));
    }
}

/// The place where the encoding of `a` ends inside the encoding of `a + b`
/// is a character boundary.
pub proof fn lemma_boundary_after_prefix(a: Seq<char>, b: Seq<char>)
    ensures
        is_char_boundary(encode_utf8(a + b), encode_utf8(a).len() as int),
    decreases a.len(),
{
    let whole = encode_utf8(a + b);
    encode_utf8_valid_utf8(a + b);
    if a.len() > 0 {
        let first = encode_scalar(a[0] as u32);
        lemma_boundary_after_prefix(a.drop_first(), b);
        lemma_encode_concat(a, b);
        encode_utf8_first_scalar(a + b);
        assert((a + b).drop_first() =~= a.drop_first() + b);
        assert(pop_first_scalar(whole) =~= encode_utf8(a.drop_first() + b));
        assert(first.len() > 0);
    }
}

/// Two string slices hold the same characters.
pub fn str_eq(a: &str, b: &str) -> (same: bool)
    ensures
        same == (a@ == b@),
{
    let x = a.as_bytes();
    let y = b.as_bytes();
    proof {
        encode_utf8_decode_utf8(a@);
        encode_utf8_decode_utf8(b@);
    }
    if x.len() != y.len() {
        return false;
    }
    let mut i: usize = 0;
    while i < x.len()
        invariant
            i <= x@.len(),
            x@.len() == y@.len(),
            x@ == encode_utf8(a@),
            y@ == encode_utf8(b@),
            x@.take(i as int) == y@.take(i as int),
        decreases x@.len() - i,
    {
        if x[i] != y[i] {
            proof {
                assert(x@[i as int] != y@[i as int]);
            }
            return false;
        }
        proof {
            assert(x@.take(i + 1) =~= x@.take(i as int).push(x@[i as int]));
            assert(y@.take(i + 1) =~= y@.take(i as int).push(y@[i as int]));
        }
        i = i + 1;
    }
    proof {
        assert(x@ =~= x@.take(i as int));
        assert(y@ =~= y@.take(i as int));
    }
    true
}

/// The part of `input` that stands before `rest`, where `rest` is what is
/// left of `input` behind some of its characters.
pub(crate) fn consumed<'a>(input: &'a str, rest: &str) -> (taken: &'a str)
    requires
        rest@.len() <= input@.len(),
        input@.skip(input@.len() - rest@.len()) == rest@,
    ensures
        taken@ == input@.take(input@.len() - rest@.len()),
        taken@ + rest@ == input@,
{
    let ghost n = input@.len() - rest@.len();
    let ghost front = input@.take(n);
    proof {
        assert(front + rest@ =~= input@);
        lemma_encode_concat(front, rest@);
        lemma_boundary_after_prefix(front, rest@);
    }
    let mid: usize = input.as_bytes().len() - rest.as_bytes().len();
    let (taken, _) = input.split_at(mid);
    proof {
        assert(taken.spec_bytes() =~= encode_utf8(front));
        encode_utf8_decode_utf8(front);
        encode_utf8_decode_utf8(taken@);
    }
    taken
}

} // verus!

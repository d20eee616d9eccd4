use vstd::prelude::*;
use vstd::std_specs::iter::IteratorSpec;
use vstd::string::StringSliceAdditionalSpecFns;
use vstd::utf8::*;

verus! {

broadcast use vstd::utf8::group_utf8_lib;

/// The characters of `s`, in order.
pub(crate) fn chars_of(s: &str) -> (r: Vec<char>)
    ensures
        r@ == s@,
{
    broadcast use {vstd::string::axiom_spec_iter, vstd::string::next_postcondition};
    let mut it = s.chars();
    let mut r: Vec<char> = Vec::new();
    loop
        invariant
            r@ + it.remaining() == s@,
            it.decrease() is Some,
        ensures
            r@ == s@,
        decreases it.decrease()->0,
    {
        let ghost before = it.remaining();
        match it.next() {
            Some(c) => {
                r.push(c);
                assert(r@ + it.remaining() =~= s@);
            },
            None => {
                assert(before.len() == 0);
                assert(r@ =~= s@);
                break;
            },
        }
    }
    r
}

/// Relies on `String: FromIterator<char>`: the string made of the characters of `v`, in order.
#[verifier::external_body]
pub(crate) fn string_of(v: &Vec<char>) -> (r: String)
    ensures
        r@ == v@,
{
    v.iter().collect()
}

/// `lo..hi` is a byte range of `bytes` that starts and ends on character boundaries.
pub open spec fn byte_span_ok(bytes: Seq<u8>, lo: int, hi: int) -> bool {
    0 <= lo <= hi <= bytes.len() && is_char_boundary(bytes, lo) && is_char_boundary(bytes, hi)
}

proof fn lemma_boundary_in_suffix(bytes: Seq<u8>, lo: int, hi: int)
    requires
        valid_utf8(bytes),
        byte_span_ok(bytes, lo, hi),
    ensures
        valid_utf8(bytes.subrange(lo, bytes.len() as int)),
        is_char_boundary(bytes.subrange(lo, bytes.len() as int), hi - lo),
{
    let t = bytes.subrange(lo, bytes.len() as int);
    valid_utf8_split(bytes, lo);
    if hi == lo {
        assert(is_char_boundary(t, 0));
    } else if hi == bytes.len() {
        assert(t.len() == hi - lo);
        is_char_boundary_start_end_of_seq(t);
    } else {
        is_char_boundary_iff_not_is_continuation_byte(bytes, hi);
        is_char_boundary_iff_not_is_continuation_byte(t, hi - lo);
        assert(t[hi - lo] == bytes[hi]);
    }
}

/// The bytes `lo..hi` of `s`, as a string of their own.
pub(crate) fn byte_slice(s: &str, lo: usize, hi: usize) -> (r: String)
    requires
        byte_span_ok(s.spec_bytes(), lo as int, hi as int),
    ensures
        encode_utf8(r@) == s.spec_bytes().subrange(lo as int, hi as int),
{
    proof {
        encode_utf8_valid_utf8(s@);
        lemma_boundary_in_suffix(s.spec_bytes(), lo as int, hi as int);
    }
    let (_, tail) = s.split_at(lo);
    let (mid, _) = tail.split_at(hi - lo);
    let r = mid.to_owned();
    assert(mid.spec_bytes() =~= s.spec_bytes().subrange(lo as int, hi as int));
    r
}

} // verus!

//! The lines that are sent back: their length is capped, without ever
//! cutting a character in two.

use vstd::prelude::*;
use vstd::string::StringSliceAdditionalSpecFns;
use vstd::utf8::{decode_utf8, is_char_boundary, valid_utf8};

verus! {

/// The shortest that a capped line may be, in bytes.
pub const MIN_CUT: usize = 365;

/// The length in bytes that no capped line reaches.
pub const MAX_CUT: usize = 400;

/// The first place from `from` on, and before [`MAX_CUT`], at which the
/// text may be cut: where a character begins, or the text ends.
pub open spec fn cut_point(bytes: Seq<u8>, from: int) -> Option<int>
    decreases MAX_CUT - from,
{
    if from >= MAX_CUT {
        None
    } else if is_char_boundary(bytes, from) {
        Some(from)
    } else {
        cut_point(bytes, from + 1)
    }
}

/// The bytes of a line once its length is capped: the bytes before the cut,
/// or all of them where there is no place to cut.
pub open spec fn limited(bytes: Seq<u8>) -> Seq<u8> {
    match cut_point(bytes, MIN_CUT as int) {
        Some(cut) => bytes.subrange(0, cut),
        None => bytes,
    }
}

proof fn lemma_cut_point(bytes: Seq<u8>, from: int)
    requires
        valid_utf8(bytes),
        MIN_CUT <= from,
    ensures
        match cut_point(bytes, from) {
            Some(cut) => from <= cut < MAX_CUT && cut <= bytes.len() && is_char_boundary(
                bytes,
                cut,
            ),
            None => bytes.len() < from || bytes.len() >= MAX_CUT || from >= MAX_CUT,
        },
    decreases MAX_CUT - from,
{
    broadcast use vstd::utf8::is_char_boundary_start_end_of_seq;

    if from < MAX_CUT {
        if is_char_boundary(bytes, from) {
        } else {
            lemma_cut_point(bytes, from + 1);
            if bytes.len() == from {
                vstd::utf8::is_char_boundary_start_end_of_seq(bytes);
            }
        }
    }
}

/// Caps the length of a line. A line of [`MIN_CUT`] bytes or more is cut at
/// the first place from there on where a character begins, so that no
/// character is cut in two; a shorter line stays as it is. What is
/// returned is a prefix of the line and, as every string, valid UTF-8.
pub fn limit_length(val: &str) -> (r: &str)
    ensures
        r.spec_bytes() == limited(val.spec_bytes()),
        valid_utf8(r.spec_bytes()),
        r@ == val@.take(r@.len() as int),
        r@.len() <= val@.len(),
        r.spec_bytes().len() < MAX_CUT || r.spec_bytes() == val.spec_bytes(),
        val.spec_bytes().len() < MIN_CUT ==> r@ == val@,
{
    broadcast use {
        vstd::utf8::encode_utf8_valid_utf8,
        vstd::utf8::encode_utf8_decode_utf8,
        vstd::utf8::decode_utf8_split,
        vstd::utf8::valid_utf8_split,
    };

    let ghost bytes = val.spec_bytes();
    proof {
        vstd::utf8::encode_utf8_valid_utf8(val@);
        vstd::utf8::encode_utf8_decode_utf8(val@);
        lemma_cut_point(bytes, MIN_CUT as int);
        assert(val@ == decode_utf8(bytes));
        assert(val@.take(val@.len() as int) =~= val@);
    }
    let mut end: usize = MIN_CUT;
    while end < MAX_CUT
        invariant
            MIN_CUT <= end <= MAX_CUT,
            bytes == val.spec_bytes(),
            valid_utf8(bytes),
            cut_point(bytes, end as int) == cut_point(bytes, MIN_CUT as int),
        decreases MAX_CUT - end,
    {
        if val.is_char_boundary(end) {
            let (head, _) = val.split_at(end);
            proof {
                lemma_cut_point(bytes, end as int);
                let first = bytes.subrange(0, end as int);
                let second = bytes.subrange(end as int, bytes.len() as int);
                assert(head.spec_bytes() == first);
                vstd::utf8::valid_utf8_split(bytes, end as int);
                assert(valid_utf8(first));
                vstd::utf8::decode_utf8_split(bytes, end as int);
                assert(decode_utf8(bytes) =~= decode_utf8(first) + decode_utf8(second));
                vstd::utf8::encode_utf8_decode_utf8(head@);
                vstd::utf8::encode_utf8_decode_utf8(val@);
                assert(head@ == decode_utf8(first));
                assert(val@.take(head@.len() as int) =~= head@);
            }
            return head;
        }
        end += 1;
    }
    val
}

} // verus!

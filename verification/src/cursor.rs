//! The character cursor: one step through a `&str`, in constant time.

use vstd::prelude::*;
use vstd::string::{StrSliceExecFns, StringSliceAdditionalSpecFns};
use vstd::utf8::{
    encode_scalar, encode_utf8, encode_utf8_decode_utf8, encode_utf8_first_scalar,
    encode_utf8_valid_utf8, is_char_boundary, length_of_first_scalar, pop_first_scalar,
    valid_utf8,
};

verus! {

/// Where the encoding of the first character of `chars` ends: the first
/// character boundary behind the start, which parts the bytes of the first
/// character from those of the rest.
pub proof fn lemma_first_char_bytes(chars: Seq<char>)
    requires
        chars.len() > 0,
    ensures
        ({
            let bytes = encode_utf8(chars);
            let width = length_of_first_scalar(bytes);
            &&& valid_utf8(bytes)
            &&& 1 <= width <= 4
            &&& width <= bytes.len()
            &&& is_char_boundary(bytes, width)
            &&& forall|j: int| 0 < j < width ==> !is_char_boundary(bytes, j)
            &&& bytes.subrange(0, width) == encode_utf8(seq![chars[0]])
            &&& bytes.subrange(width, bytes.len() as int) == encode_utf8(chars.skip(1))
        }),
{
    let bytes = encode_utf8(chars);
    let width = length_of_first_scalar(bytes);
    let first = encode_scalar(chars[0] as u32);
    let tail = encode_utf8(chars.drop_first());
    encode_utf8_valid_utf8(chars);
    encode_utf8_valid_utf8(chars.drop_first());
    encode_utf8_first_scalar(chars);
    assert(bytes == first + tail);
    assert(pop_first_scalar(bytes) =~= tail);
    assert(bytes.subrange(0, width) =~= first);
    let one = seq![chars[0]];
    assert(encode_utf8(one) =~= first) by {
        assert(one.drop_first().len() == 0);
        assert(encode_utf8(one) == first + encode_utf8(one.drop_first()));
        assert(encode_utf8(one.drop_first()) =~= Seq::<u8>::empty());
    }
    assert(chars.skip(1) =~= chars.drop_first());
    reveal_with_fuel(is_char_boundary, 2);
}

/// The first character of `s` and what follows it, or `None` where `s` is
/// empty.
pub fn uncons<'a>(s: &'a str) -> (r: Option<(char, &'a str)>)
    ensures
        s@.len() == 0 ==> r is None,
        s@.len() > 0 ==> r is Some && r.unwrap().0 == s@[0] && r.unwrap().1@ == s@.skip(1),
{
    if s.is_empty() {
        return None;
    }
    let ghost bytes = s.spec_bytes();
    let ghost first_width = length_of_first_scalar(bytes);
    proof {
        lemma_first_char_bytes(s@);
    }
    let mut width: usize = 1;
    while !s.is_char_boundary(width)
        invariant
            bytes == s.spec_bytes(),
            valid_utf8(bytes),
            first_width == length_of_first_scalar(bytes),
            1 <= width <= first_width <= 4,
            is_char_boundary(bytes, first_width),
        decreases first_width - width,
    {
        width += 1;
    }
    let (head, rest) = s.split_at(width);
    proof {
        encode_utf8_decode_utf8(head@);
        encode_utf8_decode_utf8(seq![s@[0]]);
        encode_utf8_decode_utf8(rest@);
        encode_utf8_decode_utf8(s@.skip(1));
    }
    Some((head.get_char(0), rest))
}

} // verus!

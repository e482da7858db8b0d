//! UTF-8 encoding of literal pattern text.
use vstd::prelude::*;
use vstd::utf8::{encode_scalar, encode_utf8};

verus! {

/// Encoding a sequence with one more character appends that character's
/// encoding.
pub proof fn lemma_encode_push(s: Seq<char>, c: char)
    ensures
        encode_utf8(s.push(c)) == encode_utf8(s) + encode_scalar(c as u32),
    decreases s.len(),
{
    if s.len() == 0 {
        assert(s.push(c).drop_first() =~= Seq::<char>::empty());
        assert(encode_utf8(Seq::<char>::empty()) =~= Seq::<u8>::empty());
        assert(encode_utf8(s.push(c)) =~= encode_scalar(c as u32));
        assert(encode_utf8(s) =~= Seq::<u8>::empty());
        assert(encode_utf8(s) + encode_scalar(c as u32) =~= encode_scalar(c as u32));
    } else {
        lemma_encode_push(s.drop_first(), c);
        assert(s.push(c).drop_first() =~= s.drop_first().push(c));
        assert(encode_utf8(s.push(c)) =~= encode_scalar(s[0] as u32) + encode_utf8(
            s.drop_first().push(c),
        ));
    }
}

/// Appends the UTF-8 encoding of `c` to `out`.
pub fn push_encoded(out: &mut Vec<u8>, c: char)
    ensures
        final(out)@ == old(out)@ + encode_scalar(c as u32),
{
    let v: u32 = c as u32;
    let ghost e = encode_scalar(c as u32);
    if v <= 0x7F {
        out.push((v & 0x7F) as u8);
        assert(out@ =~= old(out)@ + e);
    } else if v <= 0x7FF {
        out.push(0xC0 | ((v >> 6) & 0x1F) as u8);
        out.push(0x80 | (v & 0x3F) as u8);
        assert(out@ =~= old(out)@ + e);
    } else if v <= 0xFFFF && !(0xD800 <= v && v <= 0xDFFF) {
        out.push(0xE0 | ((v >> 12) & 0x0F) as u8);
        out.push(0x80 | ((v >> 6) & 0x3F) as u8);
        out.push(0x80 | (v & 0x3F) as u8);
        assert(out@ =~= old(out)@ + e);
    } else {
        out.push(0xF0 | ((v >> 18) & 0x7) as u8);
        out.push(0x80 | ((v >> 12) & 0x3F) as u8);
        out.push(0x80 | ((v >> 6) & 0x3F) as u8);
        out.push(0x80 | (v & 0x3F) as u8);
        assert(out@ =~= old(out)@ + e);
    }
}

/// The UTF-8 encoding of a sequence of characters.
pub fn encode_chars(chars: &Vec<char>) -> (r: Vec<u8>)
    ensures
        r@ == encode_utf8(chars@),
{
    let mut r: Vec<u8> = Vec::new();
    let mut i: usize = 0;
    proof {
        assert(chars@.take(0) =~= Seq::<char>::empty());
        assert(encode_utf8(Seq::<char>::empty()) =~= Seq::<u8>::empty());
    }
    while i < chars.len()
        invariant
            i <= chars.len(),
            r@ == encode_utf8(chars@.take(i as int)),
        decreases chars.len() - i,
    {
        push_encoded(&mut r, chars[i]);
        proof {
            lemma_encode_push(chars@.take(i as int), chars@[i as int]);
            assert(chars@.take(i as int).push(chars@[i as int]) =~= chars@.take(i + 1));
        }
        i = i + 1;
    }
    assert(chars@.take(i as int) =~= chars@);
    r
}

} // verus!

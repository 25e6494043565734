//! UTF-8: decoding bytes, and facts about encoded text.

use vstd::prelude::*;
use vstd::utf8::*;

use crate::bytes::LINE_FEED;

verus! {

/// Decodes UTF-8 with `String::from_utf8`, which succeeds on valid UTF-8 and on nothing else,
/// and then gives the text whose encoding the bytes are.
#[verifier::external_body]
pub(crate) fn decode(bytes: Vec<u8>) -> (text: Option<String>)
    ensures
        text is Some <==> valid_utf8(bytes@),
        text matches Some(decoded) ==> decoded@ == decode_utf8(bytes@),
{
    String::from_utf8(bytes).ok()
}

/// Encoding distributes over concatenation.
pub proof fn lemma_encode_concat(left: Seq<char>, right: Seq<char>)
    ensures
        encode_utf8(left + right) == encode_utf8(left) + encode_utf8(right),
    decreases left.len(),
{
    if left.len() == 0 {
        assert(left + right =~= right);
        assert(encode_utf8(left) + encode_utf8(right) =~= encode_utf8(right));
    } else {
        lemma_encode_concat(left.drop_first(), right);
        assert((left + right).drop_first() =~= left.drop_first() + right);
        assert(encode_utf8(left + right) =~= encode_utf8(left) + encode_utf8(right));
    }
}

/// A scalar other than the line feed is encoded without a line feed.
proof fn lemma_scalar_without_feed(scalar: u32)
    requires
        is_scalar(scalar),
        scalar != 10,
    ensures
        !encode_scalar(scalar).contains(LINE_FEED),
{
    if has_width_1_encoding(scalar) {
        assert(leading_byte_width_1(scalar) != 10u8) by (bit_vector)
            requires
                scalar <= 0x7F,
                scalar != 10,
        ;
    } else {
        assert(leading_byte_width_2(scalar) >= 0x80u8) by (bit_vector);
        assert(leading_byte_width_3(scalar) >= 0x80u8) by (bit_vector);
        assert(leading_byte_width_4(scalar) >= 0x80u8) by (bit_vector);
        assert(last_continuation_byte(scalar) >= 0x80u8) by (bit_vector);
        assert(second_last_continuation_byte(scalar) >= 0x80u8) by (bit_vector);
        assert(third_last_continuation_byte(scalar) >= 0x80u8) by (bit_vector);
    }
}

/// Text without a line feed is encoded without one.
pub proof fn lemma_encode_without_feed(text: Seq<char>)
    requires
        !text.contains('\n'),
    ensures
        !encode_utf8(text).contains(LINE_FEED),
    decreases text.len(),
{
    if text.len() > 0 {
        let rest = text.drop_first();
        assert(text[0] != '\n') by {
            assert(text.contains(text[0]));
        }
        assert(!rest.contains('\n')) by {
            if rest.contains('\n') {
                let i = rest.index_of('\n');
                assert(text[i + 1] == '\n');
            }
        }
        lemma_encode_without_feed(rest);
        char_is_scalar(text[0]);
        char_u32_cast(text[0], text[0] as u32);
        assert(10u32 as char == '\n');
        lemma_scalar_without_feed(text[0] as u32);
        let head = encode_scalar(text[0] as u32);
        assert forall|i: int| 0 <= i < encode_utf8(text).len() implies encode_utf8(text)[i]
            != LINE_FEED by {
            if i < head.len() {
                assert(head.contains(head[i]));
            } else {
                assert(encode_utf8(rest).contains(encode_utf8(rest)[i - head.len()]));
            }
        }
    }
}

/// Text with a line feed is encoded with one.
pub proof fn lemma_encode_with_feed(text: Seq<char>)
    requires
        text.contains('\n'),
    ensures
        encode_utf8(text).contains(LINE_FEED),
{
    let at = text.index_of('\n');
    let before = text.take(at);
    let feed = seq!['\n'];
    let after = text.skip(at + 1);
    assert(text =~= before + feed + after);
    lemma_encode_concat(before, feed);
    lemma_encode_concat(before + feed, after);
    is_ascii_chars_encode_utf8(feed);
    let place = encode_utf8(before).len() as int;
    assert(encode_utf8(text)[place] == encode_utf8(feed)[0]);
}

} // verus!

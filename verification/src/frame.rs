//! What one read from a socket holds: the bytes of the buffer up to its first zero
//! byte, or, where the buffer holds none, as many bytes as were read.

use vstd::prelude::*;
use vstd::slice::slice_subrange;
use vstd::utf8::{decode_utf8, valid_utf8};

verus! {

/// The place of the first zero byte of `b`; the length of `b` where it holds none.
pub open spec fn first_zero(b: Seq<u8>) -> int
    decreases b.len(),
{
    if b.len() == 0 {
        0
    } else if b[0] == 0 {
        0
    } else {
        1 + first_zero(b.drop_first())
    }
}

/// How many bytes at the start of `buffer` are the message, where `bytes_read` bytes
/// were read into it.
pub open spec fn message_length(buffer: Seq<u8>, bytes_read: int) -> int {
    if first_zero(buffer) < buffer.len() {
        first_zero(buffer)
    } else {
        bytes_read
    }
}

/// The first zero byte is a zero byte, and no byte before it is.
pub proof fn lemma_first_zero(b: Seq<u8>)
    ensures
        0 <= first_zero(b) <= b.len(),
        first_zero(b) < b.len() ==> b[first_zero(b)] == 0,
        forall|j: int| 0 <= j < first_zero(b) ==> #[trigger] b[j] != 0,
    decreases b.len(),
{
    if b.len() > 0 && b[0] != 0 {
        let rest = b.drop_first();
        lemma_first_zero(rest);
        assert forall|j: int| 0 <= j < first_zero(b) implies #[trigger] b[j] != 0 by {
            if j > 0 {
                assert(rest[j - 1] == b[j]);
            }
        }
    }
}

/// What the bytes `bytes` read as: their text where they are UTF-8, and else their text
/// with the replacement character in place of what is not, as `String::from_utf8_lossy`
/// gives it.
pub uninterp spec fn utf8_lossy(bytes: Seq<u8>) -> Seq<char>;

/// `String::from_utf8_lossy`, whose result is taken on trust to depend on the bytes
/// alone, and to be the text that the bytes encode where they are valid UTF-8. What
/// it is on other bytes is not said here.
#[verifier::external_body]
fn from_utf8_lossy(bytes: &[u8]) -> (text: String)
    ensures
        text@ == utf8_lossy(bytes@),
        valid_utf8(bytes@) ==> text@ == decode_utf8(bytes@),
{
    String::from_utf8_lossy(bytes).into_owned()
}

/// How many bytes at the start of `buffer` are the message, where `bytes_read` bytes
/// were read into it.
pub fn message_len(buffer: &[u8], bytes_read: usize) -> (n: usize)
    ensures
        n == message_length(buffer@, bytes_read as int),
{
    let mut i: usize = 0;
    while i < buffer.len()
        invariant
            i <= buffer.len(),
            forall|j: int| 0 <= j < i ==> #[trigger] buffer@[j] != 0,
        decreases buffer.len() - i,
    {
        if buffer[i] == 0 {
            proof {
                lemma_first_zero(buffer@);
            }
            return i;
        }
        i = i + 1;
    }
    proof {
        lemma_first_zero(buffer@);
    }
    bytes_read
}

/// The message that one read left in `buffer`, where `bytes_read` bytes were read
/// into it.
pub fn decode_message(buffer: &[u8], bytes_read: usize) -> (message: String)
    requires
        bytes_read <= buffer.len(),
    ensures
        message@ == utf8_lossy(buffer@.take(message_length(buffer@, bytes_read as int))),
        valid_utf8(buffer@.take(message_length(buffer@, bytes_read as int))) ==> message@
            == decode_utf8(buffer@.take(message_length(buffer@, bytes_read as int))),
{
    let n = message_len(buffer, bytes_read);
    from_utf8_lossy(slice_subrange(buffer, 0, n))
}

} // verus!

//! The guest side of a WASM-powered execution extension: whether a
//! notification is handed over in the memory last allocated for it, the text it
//! is read as and the length reported back, and the short form of a notification
//! that is logged.
use vstd::prelude::*;
use vstd::utf8::{decode_utf8, decode_utf8_encode_utf8, encode_utf8, encode_utf8_decode_utf8, is_char_boundary, valid_utf8};
use vstd::string::StringSliceAdditionalSpecFns;

verus! {

/// The memory allocated last for a notification: where and how much.
pub struct AllocationTracker {
    latest: Option<(i64, i64)>,
}

impl AllocationTracker {
    /// The allocation made last, if any.
    pub closed spec fn spec_latest(&self) -> Option<(i64, i64)> {
        self.latest
    }

    /// Nothing allocated yet.
    pub fn new() -> (t: AllocationTracker)
        ensures
            t.spec_latest() is None,
    {
        AllocationTracker { latest: None }
    }

    /// Records an allocation of `size` bytes at `ptr`.
    pub fn record(&mut self, ptr: i64, size: i64)
        ensures
            final(self).spec_latest() == Some((ptr, size)),
    {
        self.latest = Some((ptr, size));
    }

    /// Whether a notification handed over at `ptr` with `size` bytes lies in the
    /// memory allocated last; the guest refuses it otherwise.
    pub fn matches(&self, ptr: i64, size: i64) -> (b: bool)
        ensures
            b == (self.spec_latest() == Some((ptr, size))),
    {
        match self.latest {
            Some((p, s)) => p == ptr && s == size,
            None => false,
        }
    }
}

/// The text logged for a notification: the text itself where it has at most
/// `limit` bytes, else its first `keep` bytes, `...` and its last `keep` bytes.
pub open spec fn preview_text(bytes: Seq<u8>, text: Seq<char>, limit: nat, keep: nat) -> Seq<char> {
    if bytes.len() <= limit {
        text
    } else {
        decode_utf8(bytes.subrange(0, keep as int)) + "..."@ + decode_utf8(
            bytes.subrange(bytes.len() - keep, bytes.len() as int),
        )
    }
}

/// The short form of a notification's text for the log (see `preview_text`). The
/// cuts must fall between characters.
pub fn preview(text: &str, limit: usize, keep: usize) -> (r: String)
    requires
        keep <= limit,
        text.spec_bytes().len() > limit ==> is_char_boundary(text.spec_bytes(), keep as int)
            && is_char_boundary(text.spec_bytes(), text.spec_bytes().len() - keep),
    ensures
        r@ == preview_text(text.spec_bytes(), text@, limit as nat, keep as nat),
{
    let len = text.as_bytes().len();
    if len <= limit {
        return String::from_str(text);
    }
    let (head, _) = text.split_at(keep);
    let (_, tail) = text.split_at(len - keep);
    proof {
        encode_utf8_decode_utf8(head@);
        encode_utf8_decode_utf8(tail@);
    }
    let mut r = String::from_str(head);
    r.append("...");
    r.append(tail);
    r
}

/// Name for the text that `String::from_utf8_lossy` reads bytes as: their UTF-8
/// decoding, with each invalid sequence replaced by U+FFFD.
pub uninterp spec fn spec_from_utf8_lossy(bytes: Seq<u8>) -> Seq<char>;

/// Reads bytes as text, replacing invalid UTF-8.
///
/// Trusted: calls `String::from_utf8_lossy` of std. The contract claims that the
/// result is the named reading and, as std documents, that valid UTF-8 is read as
/// its decoding.
#[verifier::external_body]
fn from_utf8_lossy(data: &[u8]) -> (r: String)
    ensures
        r@ == spec_from_utf8_lossy(data@),
        valid_utf8(data@) ==> r@ == decode_utf8(data@),
{
    String::from_utf8_lossy(data).into_owned()
}

/// The text a notification's bytes are read as (see `spec_from_utf8_lossy`).
pub fn notification_text(data: &[u8]) -> (r: String)
    ensures
        r@ == spec_from_utf8_lossy(data@),
        valid_utf8(data@) ==> r@ == decode_utf8(data@),
{
    from_utf8_lossy(data)
}

/// What the guest reports back for a notification: the number of UTF-8 bytes of
/// the text it was read as, as a 64-bit signed number; for valid UTF-8, the
/// number of bytes handed over.
pub fn processed_length(data: &[u8]) -> (n: i64)
    ensures
        n == encode_utf8(spec_from_utf8_lossy(data@)).len() as i64,
        valid_utf8(data@) ==> n == data@.len() as i64,
{
    let text = from_utf8_lossy(data);
    let len = text.as_str().as_bytes().len();
    proof {
        if valid_utf8(data@) {
            decode_utf8_encode_utf8(data@);
        }
    }
    len as i64
}

} // verus!

use vstd::prelude::*;
use vstd::slice::slice_subrange;

verus! {

/// The lowercase hexadecimal BLAKE3 digest of a byte sequence.
pub uninterp spec fn blake3_hex(bytes: Seq<u8>) -> Seq<char>;

/// The MIME type that content sniffing recognises in a byte sequence, if any.
pub uninterp spec fn sniffed_mime(bytes: Seq<u8>) -> Option<Seq<char>>;

/// A lowercase hexadecimal digit.
pub open spec fn is_lower_hex(c: char) -> bool {
    ('0' <= c && c <= '9') || ('a' <= c && c <= 'f')
}

/// Relies on `blake3::hash` and `Hash::to_hex`: 32 digest bytes written as 64
/// lowercase hex digits, determined by the input bytes alone.
#[verifier::external_body]
fn blake3_hash_hex(bytes: &[u8]) -> (r: String)
    ensures
        r@ == blake3_hex(bytes@),
        r@.len() == 64,
        forall|i: int| 0 <= i < r@.len() ==> is_lower_hex(#[trigger] r@[i]),
{
    blake3::hash(bytes).to_hex().to_string()
}

/// Relies on `infer::get` and `Type::mime_type`: the first matcher that accepts
/// the buffer gives its MIME type, and no matcher gives `None`.
#[verifier::external_body]
fn infer_mime(bytes: &[u8]) -> (r: Option<String>)
    ensures
        r matches Some(m) ==> sniffed_mime(bytes@) == Some(m@),
        r is None ==> sniffed_mime(bytes@) is None,
{
    infer::get(bytes).map(|k| k.mime_type().to_string())
}

/// Relies on `uuid::Uuid::new_v4` and its `Display`: a random identifier in
/// the 36-character hyphenated form. Nothing is promised about uniqueness;
/// the store checks it. (`new_v4` panics only when the operating system gives
/// no random bytes, whatever the caller passes.)
#[verifier::external_body]
pub(crate) fn fresh_id() -> (r: String)
    ensures
        r@.len() == 36,
{
    uuid::Uuid::new_v4().to_string()
}

/// The content fingerprint stored for a file, computed over its bytes.
pub fn hash_file(bytes: &[u8]) -> (r: String)
    ensures
        r@ == blake3_hex(bytes@),
        r@.len() == 64,
        forall|i: int| 0 <= i < r@.len() ==> is_lower_hex(#[trigger] r@[i]),
{
    blake3_hash_hex(bytes)
}

/// How many leading bytes of a file are sniffed for its type.
pub const SNIFF_WINDOW: usize = 8192;

/// The leading bytes of a file that its type is sniffed from.
pub open spec fn sniff_window(bytes: Seq<u8>) -> Seq<u8> {
    if bytes.len() <= SNIFF_WINDOW {
        bytes
    } else {
        bytes.subrange(0, SNIFF_WINDOW as int)
    }
}

/// The type label stored for a file: the MIME type sniffed from its leading
/// bytes, or `text/plain`.
pub open spec fn type_label(bytes: Seq<u8>) -> Seq<char> {
    match sniffed_mime(sniff_window(bytes)) {
        Some(m) => m,
        None => "text/plain"@,
    }
}

/// Labels content by the MIME type sniffed from its first `SNIFF_WINDOW`
/// bytes, falling back to `text/plain`.
pub fn get_file_type(bytes: &[u8]) -> (r: String)
    ensures
        r@ == type_label(bytes@),
{
    let n = if bytes.len() <= SNIFF_WINDOW {
        bytes.len()
    } else {
        SNIFF_WINDOW
    };
    let head = slice_subrange(bytes, 0, n);
    proof {
        if bytes@.len() <= SNIFF_WINDOW {
            assert(head@ =~= bytes@);
        }
    }
    match infer_mime(head) {
        Some(m) => m,
        None => "text/plain".to_owned(),
    }
}

} // verus!

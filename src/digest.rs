use vstd::prelude::*;

use crate::hex::{hex_seq, is_lower_hex, lemma_hex_seq_shape, lower_hex};

verus! {

/// The SHA-256 digest of a byte sequence.
pub uninterp spec fn sha256_of(data: Seq<u8>) -> Seq<u8>;

/// Relies on sha2::Sha256 through `Digest::digest`: the thirty-two byte SHA-256
/// digest of the input.
#[verifier::external_body]
fn sha256(data: &[u8]) -> (r: Vec<u8>)
    ensures
        r@ == sha256_of(data@),
        r@.len() == 32,
{
    <sha2::Sha256 as sha2::Digest>::digest(data).to_vec()
}

/// The digest of some content: its SHA-256 digest in lower-case hexadecimal.
pub open spec fn digest_text(data: Seq<u8>) -> Seq<char> {
    hex_seq(sha256_of(data))
}

/// A digest is sixty-four lower-case hexadecimal characters.
pub open spec fn is_digest(s: Seq<char>) -> bool {
    s.len() == 64 && is_lower_hex(s)
}

/// The bytes hashed for a translation request, in a fixed argument order.
pub open spec fn request_bytes(
    segments_json: Seq<u8>,
    glossary_json: Seq<u8>,
    target_language: Seq<u8>,
    style_prompt: Seq<u8>,
) -> Seq<u8> {
    segments_json + glossary_json + target_language + style_prompt
}

/// Digest of a byte sequence. The result depends on the bytes alone.
pub fn digest_bytes(data: &[u8]) -> (r: String)
    ensures
        r@ == digest_text(data@),
        is_digest(r@),
{
    let h = sha256(data);
    let r = lower_hex(h.as_slice());
    proof {
        lemma_hex_seq_shape(h@);
    }
    r
}

/// Concatenation cancels a common prefix and suffix.
pub(crate) proof fn lemma_cancel_middle<A>(a: Seq<A>, x: Seq<A>, y: Seq<A>, b: Seq<A>)
    requires
        a + x + b == a + y + b,
    ensures
        x == y,
{
    let l = a + x + b;
    assert(x.len() == y.len()) by {
        assert(l.len() == a.len() + x.len() + b.len());
        assert((a + y + b).len() == a.len() + y.len() + b.len());
    }
    assert(x =~= l.subrange(a.len() as int, (a.len() + x.len()) as int));
    assert(y =~= (a + y + b).subrange(a.len() as int, (a.len() + y.len()) as int));
}

/// Changing any one of the four request inputs, holding the other three fixed,
/// changes the bytes that the translation cache key is computed from.
pub proof fn lemma_request_bytes_sensitive(
    s1: Seq<u8>,
    g1: Seq<u8>,
    l1: Seq<u8>,
    p1: Seq<u8>,
    s2: Seq<u8>,
    g2: Seq<u8>,
    l2: Seq<u8>,
    p2: Seq<u8>,
)
    requires
        (s1 != s2 && g1 == g2 && l1 == l2 && p1 == p2) || (s1 == s2 && g1 != g2 && l1 == l2 && p1
            == p2) || (s1 == s2 && g1 == g2 && l1 != l2 && p1 == p2) || (s1 == s2 && g1 == g2 && l1
            == l2 && p1 != p2),
    ensures
        request_bytes(s1, g1, l1, p1) != request_bytes(s2, g2, l2, p2),
{
    let e: Seq<u8> = Seq::empty();
    if request_bytes(s1, g1, l1, p1) == request_bytes(s2, g2, l2, p2) {
        if s1 != s2 {
            assert(request_bytes(s1, g1, l1, p1) =~= e + s1 + (g1 + l1 + p1));
            assert(request_bytes(s2, g2, l2, p2) =~= e + s2 + (g1 + l1 + p1));
            lemma_cancel_middle(e, s1, s2, g1 + l1 + p1);
        } else if g1 != g2 {
            assert(request_bytes(s1, g1, l1, p1) =~= s1 + g1 + (l1 + p1));
            assert(request_bytes(s2, g2, l2, p2) =~= s1 + g2 + (l1 + p1));
            lemma_cancel_middle(s1, g1, g2, l1 + p1);
        } else if l1 != l2 {
            assert(request_bytes(s1, g1, l1, p1) =~= (s1 + g1) + l1 + p1);
            assert(request_bytes(s2, g2, l2, p2) =~= (s1 + g1) + l2 + p1);
            lemma_cancel_middle(s1 + g1, l1, l2, p1);
        } else {
            assert(request_bytes(s1, g1, l1, p1) =~= (s1 + g1 + l1) + p1 + e);
            assert(request_bytes(s2, g2, l2, p2) =~= (s1 + g1 + l1) + p2 + e);
            lemma_cancel_middle(s1 + g1 + l1, p1, p2, e);
        }
    }
}

} // verus!

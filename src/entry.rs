use vstd::prelude::*;

use crate::bytes::{copy_range, matches_at, push_bytes};

verus! {

pub const QUOTE: u8 = 34;

pub const CLOSE_BRACE: u8 = 125;

pub const BACKSLASH: u8 = 92;

/// What a durable cache entry holds.
#[derive(Clone, Copy, Debug, PartialEq, Eq)]
pub enum EntryKind {
    Transcription,
    Translation,
}

/// Name of the field that holds an entry's key.
pub open spec fn key_field(kind: EntryKind) -> Seq<u8> {
    match kind {
        EntryKind::Transcription => seq![102u8, 105u8, 108u8, 101u8, 95u8, 104u8, 97u8, 115u8, 104u8],
        EntryKind::Translation => seq![99u8, 97u8, 99u8, 104u8, 101u8, 95u8, 107u8, 101u8, 121u8],
    }
}

/// Name of the field that holds an entry's payload.
pub open spec fn payload_field(kind: EntryKind) -> Seq<u8> {
    match kind {
        EntryKind::Transcription => seq![115u8, 101u8, 103u8, 109u8, 101u8, 110u8, 116u8, 115u8],
        EntryKind::Translation => seq![
            116u8,
            114u8,
            97u8,
            110u8,
            115u8,
            108u8,
            97u8,
            116u8,
            105u8,
            111u8,
            110u8,
            115u8,
        ],
    }
}

/// `{"<key field>":"`
pub open spec fn head(kind: EntryKind) -> Seq<u8> {
    seq![123u8, 34u8] + key_field(kind) + seq![34u8, 58u8, 34u8]
}

/// `","<payload field>":`
pub open spec fn middle(kind: EntryKind) -> Seq<u8> {
    seq![34u8, 44u8, 34u8] + payload_field(kind) + seq![34u8, 58u8]
}

/// `,"created_at":"`
pub open spec fn stamp_marker() -> Seq<u8> {
    seq![
        44u8,
        34u8,
        99u8,
        114u8,
        101u8,
        97u8,
        116u8,
        101u8,
        100u8,
        95u8,
        97u8,
        116u8,
        34u8,
        58u8,
        34u8,
    ]
}

/// `"}`
pub open spec fn tail() -> Seq<u8> {
    seq![34u8, 125u8]
}

/// Everything of an entry before its payload.
pub open spec fn entry_prefix(kind: EntryKind, key: Seq<u8>) -> Seq<u8> {
    head(kind) + key + middle(kind)
}

/// The text of a durable entry: a JSON object with the key, the payload (itself
/// JSON) and the creation time, in that order.
pub open spec fn envelope(kind: EntryKind, key: Seq<u8>, payload: Seq<u8>, stamp: Seq<u8>) -> Seq<
    u8,
> {
    entry_prefix(kind, key) + payload + stamp_marker() + stamp + tail()
}

pub open spec fn quote_free(s: Seq<u8>) -> bool {
    forall|i: int| 0 <= i < s.len() ==> #[trigger] s[i] != QUOTE
}

/// A key that stands in a JSON string as it is: no quote and no backslash.
pub open spec fn plain_key(key: Seq<u8>) -> bool {
    forall|i: int| 0 <= i < key.len() ==> #[trigger] key[i] != QUOTE && key[i] != BACKSLASH
}

/// `text` is the entry of `key` for some payload and some creation time.
pub open spec fn has_envelope(kind: EntryKind, key: Seq<u8>, text: Seq<u8>) -> bool {
    exists|p: Seq<u8>, s: Seq<u8>| quote_free(s) && text == #[trigger] envelope(kind, key, p, s)
}

/// Payload and creation time of a well-formed entry.
pub open spec fn entry_parts(kind: EntryKind, key: Seq<u8>, text: Seq<u8>) -> Option<
    (Seq<u8>, Seq<u8>),
> {
    if has_envelope(kind, key, text) {
        Some(
            choose|ps: (Seq<u8>, Seq<u8>)|
                quote_free(ps.1) && text == #[trigger] envelope(kind, key, ps.0, ps.1),
        )
    } else {
        None
    }
}

proof fn lemma_envelope_layout(kind: EntryKind, key: Seq<u8>, p: Seq<u8>, s: Seq<u8>)
    requires
        quote_free(s),
    ensures
        ({
            let t = envelope(kind, key, p, s);
            let pl = entry_prefix(kind, key).len() as int;
            let q = pl + p.len() as int + 14;
            &&& t.len() == pl + p.len() + 17 + s.len()
            &&& t.subrange(0, pl as int) == entry_prefix(kind, key)
            &&& t[t.len() - 1] == CLOSE_BRACE
            &&& t[t.len() - 2] == QUOTE
            &&& t[q as int] == QUOTE
            &&& forall|i: int| q < i < t.len() - 2 ==> t[i] != QUOTE
            &&& t.subrange(q - 14, q + 1) == stamp_marker()
            &&& t.subrange(pl as int, q - 14) == p
            &&& t.subrange(q + 1, t.len() - 2) == s
        }),
{
    let t = envelope(kind, key, p, s);
    let pre = entry_prefix(kind, key);
    let pl = pre.len() as int;
    let q = pl + p.len() as int + 14;
    assert(t =~= pre + p + stamp_marker() + s + tail());
    assert(t.subrange(0, pl as int) =~= pre);
    assert(t.subrange(q - 14, q + 1) =~= stamp_marker());
    assert(t.subrange(pl as int, q - 14) =~= p);
    assert(t.subrange(q + 1, t.len() - 2) =~= s);
    assert forall|i: int| q < i < t.len() - 2 implies t[i] != QUOTE by {
        assert(t[i] == s[i - q - 1]);
    }
}

/// An entry determines its payload and creation time.
pub proof fn lemma_envelope_unique(
    kind: EntryKind,
    key: Seq<u8>,
    p1: Seq<u8>,
    s1: Seq<u8>,
    p2: Seq<u8>,
    s2: Seq<u8>,
)
    requires
        quote_free(s1),
        quote_free(s2),
        envelope(kind, key, p1, s1) == envelope(kind, key, p2, s2),
    ensures
        p1 == p2,
        s1 == s2,
{
    lemma_envelope_layout(kind, key, p1, s1);
    lemma_envelope_layout(kind, key, p2, s2);
    let pl = entry_prefix(kind, key).len() as int;
    let q1 = pl + p1.len() as int + 14;
    let q2 = pl + p2.len() as int + 14;
    let t = envelope(kind, key, p1, s1);
    if q1 < q2 {
        assert(t[q2 as int] == QUOTE);
    } else if q2 < q1 {
        assert(t[q1 as int] == QUOTE);
    }
}

/// Reading an entry back gives what was framed.
pub proof fn lemma_entry_round_trip(kind: EntryKind, key: Seq<u8>, payload: Seq<u8>, stamp: Seq<u8>)
    requires
        quote_free(stamp),
    ensures
        entry_parts(kind, key, envelope(kind, key, payload, stamp)) == Some((payload, stamp)),
{
    let t = envelope(kind, key, payload, stamp);
    let w = (payload, stamp);
    assert(quote_free(w.1) && t == envelope(kind, key, w.0, w.1));
    assert(has_envelope(kind, key, t));
    let ps = choose|ps: (Seq<u8>, Seq<u8>)|
        quote_free(ps.1) && t == #[trigger] envelope(kind, key, ps.0, ps.1);
    lemma_envelope_unique(kind, key, ps.0, ps.1, payload, stamp);
}

proof fn lemma_envelope_frame(kind: EntryKind, key: Seq<u8>, text: Seq<u8>)
    requires
        has_envelope(kind, key, text),
    ensures
        text.len() >= entry_prefix(kind, key).len() + 17,
        text.subrange(0, entry_prefix(kind, key).len() as int) == entry_prefix(kind, key),
        text[text.len() - 1] == CLOSE_BRACE,
        text[text.len() - 2] == QUOTE,
{
    let (p, s) = choose|p: Seq<u8>, s: Seq<u8>| quote_free(s) && text == #[trigger] envelope(kind, key, p, s);
    lemma_envelope_layout(kind, key, p, s);
}

proof fn lemma_envelope_scan(kind: EntryKind, key: Seq<u8>, text: Seq<u8>, q: int)
    requires
        has_envelope(kind, key, text),
        entry_prefix(kind, key).len() + 14 <= q <= text.len() - 3,
        forall|i: int| q < i < text.len() - 2 ==> text[i] != QUOTE,
        q > entry_prefix(kind, key).len() + 14 ==> text[q] == QUOTE,
    ensures
        text[q] == QUOTE,
        text.subrange(q - 14, q + 1) == stamp_marker(),
{
    let (p, s) = choose|p: Seq<u8>, s: Seq<u8>| quote_free(s) && text == #[trigger] envelope(kind, key, p, s);
    lemma_envelope_layout(kind, key, p, s);
    let qs = entry_prefix(kind, key).len() + p.len() + 14;
    if q < qs {
        assert(text[qs as int] == QUOTE);
        assert(false);
    } else if q > qs {
        assert(text[q] != QUOTE);
        assert(false);
    }
    assert(q == qs);
}

proof fn lemma_envelope_split(kind: EntryKind, key: Seq<u8>, text: Seq<u8>, q: int)
    requires
        entry_prefix(kind, key).len() + 14 <= q <= text.len() - 3,
        text.subrange(0, entry_prefix(kind, key).len() as int) == entry_prefix(kind, key),
        text[text.len() - 1] == CLOSE_BRACE,
        text[text.len() - 2] == QUOTE,
        forall|i: int| q < i < text.len() - 2 ==> text[i] != QUOTE,
        text.subrange(q - 14, q + 1) == stamp_marker(),
    ensures
        ({
            let p = text.subrange(entry_prefix(kind, key).len() as int, q - 14);
            let s = text.subrange(q + 1, text.len() - 2);
            quote_free(s) && text == envelope(kind, key, p, s)
        }),
{
    let pl = entry_prefix(kind, key).len() as int;
    let n = text.len() as int;
    let s = text.subrange(q + 1, n - 2);
    assert forall|i: int| 0 <= i < s.len() implies s[i] != QUOTE by {
        assert(s[i] == text[q + 1 + i]);
    }
    assert(text.subrange(n - 2, n) =~= tail());
    assert(text =~= text.subrange(0, pl) + text.subrange(pl, q - 14) + text.subrange(q - 14, q + 1)
        + s + text.subrange(n - 2, n));
}

fn key_field_bytes(kind: EntryKind) -> (r: Vec<u8>)
    ensures
        r@ == key_field(kind),
{
    let r = match kind {
        EntryKind::Transcription => vec![102u8, 105u8, 108u8, 101u8, 95u8, 104u8, 97u8, 115u8, 104u8],
        EntryKind::Translation => vec![99u8, 97u8, 99u8, 104u8, 101u8, 95u8, 107u8, 101u8, 121u8],
    };
    assert(r@ =~= key_field(kind));
    r
}

fn payload_field_bytes(kind: EntryKind) -> (r: Vec<u8>)
    ensures
        r@ == payload_field(kind),
{
    let r = match kind {
        EntryKind::Transcription => vec![115u8, 101u8, 103u8, 109u8, 101u8, 110u8, 116u8, 115u8],
        EntryKind::Translation => vec![
            116u8,
            114u8,
            97u8,
            110u8,
            115u8,
            108u8,
            97u8,
            116u8,
            105u8,
            111u8,
            110u8,
            115u8,
        ],
    };
    assert(r@ =~= payload_field(kind));
    r
}

fn stamp_marker_bytes() -> (r: Vec<u8>)
    ensures
        r@ == stamp_marker(),
{
    let r = vec![
        44u8,
        34u8,
        99u8,
        114u8,
        101u8,
        97u8,
        116u8,
        101u8,
        100u8,
        95u8,
        97u8,
        116u8,
        34u8,
        58u8,
        34u8,
    ];
    assert(r@ =~= stamp_marker());
    r
}

/// Whether a key can be written into an entry as it is.
pub fn is_plain_key(key: &[u8]) -> (r: bool)
    ensures
        r == plain_key(key@),
{
    let mut i: usize = 0;
    while i < key.len()
        invariant
            i <= key@.len(),
            forall|k: int| 0 <= k < i ==> #[trigger] key@[k] != QUOTE && key@[k] != BACKSLASH,
        decreases key@.len() - i,
    {
        if key[i] == QUOTE || key[i] == BACKSLASH {
            return false;
        }
        i = i + 1;
    }
    true
}

/// The bytes of an entry that come before its payload.
pub fn build_prefix(kind: EntryKind, key: &[u8]) -> (r: Vec<u8>)
    ensures
        r@ == entry_prefix(kind, key@),
{
    let mut r: Vec<u8> = Vec::new();
    r.push(123u8);
    r.push(QUOTE);
    let kf = key_field_bytes(kind);
    push_bytes(&mut r, kf.as_slice());
    r.push(QUOTE);
    r.push(58u8);
    r.push(QUOTE);
    push_bytes(&mut r, key);
    r.push(QUOTE);
    r.push(44u8);
    r.push(QUOTE);
    let pf = payload_field_bytes(kind);
    push_bytes(&mut r, pf.as_slice());
    r.push(QUOTE);
    r.push(58u8);
    assert(r@ =~= entry_prefix(kind, key@));
    r
}

/// Frames a payload as the durable entry of `key`, created at `stamp`.
pub fn frame_entry(kind: EntryKind, key: &[u8], payload: &[u8], stamp: &[u8]) -> (r: Vec<u8>)
    ensures
        r@ == envelope(kind, key@, payload@, stamp@),
{
    let mut r = build_prefix(kind, key);
    push_bytes(&mut r, payload);
    let m = stamp_marker_bytes();
    push_bytes(&mut r, m.as_slice());
    push_bytes(&mut r, stamp);
    r.push(QUOTE);
    r.push(CLOSE_BRACE);
    assert(r@ =~= envelope(kind, key@, payload@, stamp@));
    r
}

/// Reads a durable entry: its payload and creation time when `text` is the
/// entry of `key`, and `None` for anything else (a corrupt or foreign file).
pub fn parse_entry(kind: EntryKind, key: &[u8], text: &[u8]) -> (r: Option<(Vec<u8>, Vec<u8>)>)
    ensures
        r matches Some((p, s)) ==> quote_free(s@) && text@ == envelope(kind, key@, p@, s@),
        r is None <==> !has_envelope(kind, key@, text@),
        r matches Some((p, s)) ==> entry_parts(kind, key@, text@) == Some((p@, s@)),
{
    let pre = build_prefix(kind, key);
    let pl = pre.len();
    let n = text.len();
    if n < 17 || pl > n - 17 {
        proof {
            if has_envelope(kind, key@, text@) {
                lemma_envelope_frame(kind, key@, text@);
            }
        }
        return None;
    }
    if !matches_at(text, 0, pre.as_slice()) || text[n - 1] != CLOSE_BRACE || text[n - 2] != QUOTE {
        proof {
            if has_envelope(kind, key@, text@) {
                lemma_envelope_frame(kind, key@, text@);
            }
        }
        return None;
    }
    // the quote that closes the creation-time marker is the last one before the tail
    let low = pl + 14;
    let mut q: usize = n - 3;
    while q > low && text[q] != QUOTE
        invariant
            low <= q <= n - 3,
            n == text@.len(),
            forall|i: int| q < i < n - 2 ==> text@[i] != QUOTE,
        decreases q,
    {
        q = q - 1;
    }
    if text[q] != QUOTE || !matches_at(text, q - 14, stamp_marker_bytes().as_slice()) {
        proof {
            if has_envelope(kind, key@, text@) {
                lemma_envelope_scan(kind, key@, text@, q as int);
            }
        }
        return None;
    }
    let payload = copy_range(text, pl, q - 14);
    let stamp = copy_range(text, q + 1, n - 2);
    proof {
        lemma_envelope_split(kind, key@, text@, q as int);
        lemma_entry_round_trip(kind, key@, payload@, stamp@);
    }
    Some((payload, stamp))
}

} // verus!

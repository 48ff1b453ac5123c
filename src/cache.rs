use vstd::prelude::*;
use vstd::string::StringSliceAdditionalSpecFns;

use crate::clock::{parse_rfc3339, rfc3339_seconds_of, utc_now};
use crate::bytes::{copy_range, push_bytes};
use crate::digest::{digest_bytes, digest_text, is_digest, lemma_cancel_middle, request_bytes};
use crate::entry::{
    envelope, entry_parts, frame_entry, has_envelope, is_plain_key, lemma_entry_round_trip,
    parse_entry, plain_key, quote_free, EntryKind,
};
use crate::expiry::{is_expired, is_stale, max_age, ExpiryPolicy};
use crate::memory::MemoryIndex;

verus! {

/// File name prefix of each kind of durable entry.
pub open spec fn entry_prefix_text(kind: EntryKind) -> Seq<char> {
    match kind {
        EntryKind::Transcription => "transcribe_"@,
        EntryKind::Translation => "translate_"@,
    }
}

/// Name of the file that holds the entry of `key`.
pub open spec fn entry_file(kind: EntryKind, key: Seq<char>) -> Seq<char> {
    entry_prefix_text(kind) + key + ".json"@
}

/// Name of the file that holds the snapshot of project `id`.
pub open spec fn snapshot_file(id: Seq<char>) -> Seq<char> {
    "project_"@ + id + ".json"@
}

/// The name of the file that holds the durable entry of `key`.
pub fn entry_file_name(kind: EntryKind, key: &str) -> (r: String)
    ensures
        r@ == entry_file(kind, key@),
{
    let mut r = String::new();
    match kind {
        EntryKind::Transcription => r.append("transcribe_"),
        EntryKind::Translation => r.append("translate_"),
    }
    r.append(key);
    r.append(".json");
    r
}

/// The name of the file that holds the snapshot of project `id`.
pub fn snapshot_file_name(id: &str) -> (r: String)
    ensures
        r@ == snapshot_file(id@),
{
    let mut r = String::new();
    r.append("project_");
    r.append(id);
    r.append(".json");
    r
}

/// What reading the durable tier comes to: the payload on a valid hit, and
/// whether the backing file is to be removed (expired or unreadable).
pub open spec fn durable_outcome(
    kind: EntryKind,
    key: Seq<u8>,
    stored: Option<Seq<u8>>,
    now: int,
    policy: ExpiryPolicy,
) -> (Option<Seq<u8>>, bool) {
    match stored {
        None => (None, false),
        Some(text) => match entry_parts(kind, key, text) {
            None => (None, true),
            Some((payload, stamp)) => match rfc3339_seconds_of(stamp) {
                None => (None, true),
                Some(created) => if is_stale(created as int, now, policy) {
                    (None, true)
                } else {
                    (Some(payload), false)
                },
            },
        },
    }
}

/// The bytes of an entry file, if there is one.
pub open spec fn stored_view(stored: Option<&[u8]>) -> Option<Seq<u8>> {
    match stored {
        Some(t) => Some(t@),
        None => None,
    }
}

/// The result of reading an entry from the durable tier.
pub struct Resolution {
    /// The payload, on a valid and fresh entry.
    pub payload: Option<Vec<u8>>,
    /// The backing file is expired or unreadable and is to be removed.
    pub discard: bool,
}

impl Resolution {
    pub open spec fn view(&self) -> (Option<Seq<u8>>, bool) {
        (
            match self.payload {
                Some(p) => Some(p@),
                None => None,
            },
            self.discard,
        )
    }
}

/// Judges the contents of an entry file (`None`: no file) read at `now`.
pub fn read_entry(
    kind: EntryKind,
    key: &str,
    stored: Option<&[u8]>,
    now: i64,
    policy: ExpiryPolicy,
) -> (r: Resolution)
    requires
        policy.wf(),
    ensures
        r@ == durable_outcome(
            kind,
            key.spec_bytes(),
            stored_view(stored),
            now as int,
            policy,
        ),
{
    match stored {
        None => Resolution { payload: None, discard: false },
        Some(text) => match parse_entry(kind, key.as_bytes(), text) {
            None => Resolution { payload: None, discard: true },
            Some((payload, stamp)) => match parse_rfc3339(stamp.as_slice()) {
                None => Resolution { payload: None, discard: true },
                Some(created) => {
                    if is_expired(created, now, policy) {
                        Resolution { payload: None, discard: true }
                    } else {
                        Resolution { payload: Some(payload), discard: false }
                    }
                },
            },
        },
    }
}

/// The memory tier after storing `payloads[i]` under `digests[i]`, one after
/// another, in whatever order concurrent callers took the lock.
pub open spec fn after_puts(
    held: Map<Seq<char>, Seq<u8>>,
    digests: Seq<Seq<char>>,
    payloads: Seq<Seq<u8>>,
) -> Map<Seq<char>, Seq<u8>>
    decreases digests.len(),
{
    if digests.len() == 0 || payloads.len() == 0 {
        held
    } else {
        after_puts(held, digests.drop_last(), payloads.drop_last()).insert(
            digests.last(),
            payloads.last(),
        )
    }
}

/// Work on pairwise distinct digests does not interfere, however many there are
/// and in whatever order it runs: each digest keeps its own entry file, and after
/// all the stores each digest holds its own payload.
pub proof fn lemma_distinct_digests_all_kept(
    kind: EntryKind,
    held: Map<Seq<char>, Seq<u8>>,
    digests: Seq<Seq<char>>,
    payloads: Seq<Seq<u8>>,
)
    requires
        digests.len() == payloads.len(),
        digests.no_duplicates(),
    ensures
        forall|i: int|
            0 <= i < digests.len() ==> after_puts(held, digests, payloads).contains_key(
                #[trigger] digests[i],
            ) && after_puts(held, digests, payloads)[digests[i]] == payloads[i],
        forall|i: int, j: int|
            0 <= i < digests.len() && 0 <= j < digests.len() && i != j ==> entry_file(
                kind,
                #[trigger] digests[i],
            ) != entry_file(kind, #[trigger] digests[j]),
    decreases digests.len(),
{
    if digests.len() > 0 {
        let ds = digests.drop_last();
        let ps = payloads.drop_last();
        assert(ds.no_duplicates()) by {
            assert forall|i: int, j: int| 0 <= i < ds.len() && 0 <= j < ds.len() && i != j implies ds[i] != ds[j] by {
                assert(ds[i] == digests[i] && ds[j] == digests[j]);
            }
        }
        lemma_distinct_digests_all_kept(kind, held, ds, ps);
        assert forall|i: int| 0 <= i < digests.len() implies after_puts(held, digests, payloads).contains_key(
            #[trigger] digests[i],
        ) && after_puts(held, digests, payloads)[digests[i]] == payloads[i] by {
            if i < digests.len() - 1 {
                assert(ds[i] == digests[i]);
                assert(digests[i] != digests[digests.len() - 1]);
            }
        }
    }
    assert forall|i: int, j: int|
        0 <= i < digests.len() && 0 <= j < digests.len() && i != j implies entry_file(
        kind,
        #[trigger] digests[i],
    ) != entry_file(kind, #[trigger] digests[j]) by {
        if entry_file(kind, digests[i]) == entry_file(kind, digests[j]) {
            lemma_cancel_middle(entry_prefix_text(kind), digests[i], digests[j], ".json"@);
        }
    }
}

/// Judges the contents of an entry file (`None`: no file) read now.
pub fn read_entry_now(kind: EntryKind, key: &str, stored: Option<&[u8]>, policy: ExpiryPolicy) -> (r:
    Resolution)
    requires
        policy.wf(),
    ensures
        exists|now: i64|
            r@ == #[trigger] durable_outcome(
                kind,
                key.spec_bytes(),
                stored_view(stored),
                now as int,
                policy,
            ),
{
    let (now, _) = utc_now();
    read_entry(kind, key, stored, now, policy)
}

/// `text` is the entry of `key` for `payload`, stamped with a timestamp that
/// reads as `created`.
pub open spec fn written_entry(
    kind: EntryKind,
    key: Seq<u8>,
    payload: Seq<u8>,
    text: Seq<u8>,
    created: i64,
) -> bool {
    exists|stamp: Seq<u8>|
        quote_free(stamp) && rfc3339_seconds_of(stamp) == Some(created) && text
            == #[trigger] envelope(kind, key, payload, stamp)
}

/// Why an entry cannot be written.
#[derive(Clone, Copy, Debug, PartialEq, Eq)]
pub enum EntryError {
    /// The key holds a quote or a backslash, which the entry's JSON cannot hold
    /// unescaped. Digests never do.
    KeyNotPlain,
    /// The timestamp does not read as a time (a clock set outside the years 0 to
    /// 9999 is written in a form that RFC 3339 readers refuse).
    StampUnreadable,
}

/// Frames `payload` as the durable entry of `key` stamped with `stamp`, and gives
/// the creation time that the entry reads back with.
pub fn stamped_entry(kind: EntryKind, key: &str, payload: &[u8], stamp: &[u8]) -> (r: Result<
    (Vec<u8>, i64),
    EntryError,
>)
    requires
        quote_free(stamp@),
    ensures
        !plain_key(key.spec_bytes()) ==> r == Err::<(Vec<u8>, i64), EntryError>(
            EntryError::KeyNotPlain,
        ),
        plain_key(key.spec_bytes()) && rfc3339_seconds_of(stamp@) is None ==> r == Err::<
            (Vec<u8>, i64),
            EntryError,
        >(EntryError::StampUnreadable),
        plain_key(key.spec_bytes()) && rfc3339_seconds_of(stamp@) is Some ==> (r matches Ok(
            (text, created),
        ) && rfc3339_seconds_of(stamp@) == Some(created) && text@ == envelope(
            kind,
            key.spec_bytes(),
            payload@,
            stamp@,
        )),
{
    if !is_plain_key(key.as_bytes()) {
        return Err(EntryError::KeyNotPlain);
    }
    match parse_rfc3339(stamp) {
        Some(created) => Ok((frame_entry(kind, key.as_bytes(), payload, stamp), created)),
        None => Err(EntryError::StampUnreadable),
    }
}

/// Frames `payload` as the durable entry of `key`, stamped with the current
/// time; see `stamped_entry` for what comes back for each stamp.
pub fn new_entry(kind: EntryKind, key: &str, payload: &[u8]) -> (r: Result<(Vec<u8>, i64), EntryError>)
    ensures
        r matches Ok((text, created)) ==> written_entry(
            kind,
            key.spec_bytes(),
            payload@,
            text@,
            created,
        ),
        !plain_key(key.spec_bytes()) ==> r == Err::<(Vec<u8>, i64), EntryError>(
            EntryError::KeyNotPlain,
        ),
{
    let (_, stamp) = utc_now();
    stamped_entry(kind, key, payload, stamp.as_slice())
}

/// An entry just written reads back as its payload, neither expired nor to be
/// removed, at any time up to the policy's maximum age after its creation.
pub proof fn lemma_written_entry_reads_back(
    kind: EntryKind,
    key: Seq<u8>,
    payload: Seq<u8>,
    text: Seq<u8>,
    created: i64,
    now: int,
    policy: ExpiryPolicy,
)
    requires
        written_entry(kind, key, payload, text, created),
        now - created <= max_age(policy),
    ensures
        durable_outcome(kind, key, Some(text), now, policy) == (Some(payload), false),
{
    let stamp = choose|stamp: Seq<u8>|
        quote_free(stamp) && rfc3339_seconds_of(stamp) == Some(created) && text
            == #[trigger] envelope(kind, key, payload, stamp);
    lemma_entry_round_trip(kind, key, payload, stamp);
}

/// A snapshot is served while its own last-modified time is readable and within
/// the snapshot policy.
pub open spec fn snapshot_fresh(updated_at: Seq<u8>, now: int) -> bool {
    match rfc3339_seconds_of(updated_at) {
        Some(t) => !is_stale(t as int, now, ExpiryPolicy::snapshots_spec()),
        None => false,
    }
}

/// Whether a project snapshot last modified at `updated_at` is to be served at
/// `now`: its timestamp must be readable and fresh under the snapshot policy.
pub fn snapshot_is_fresh(updated_at: &str, now: i64) -> (r: bool)
    ensures
        r == snapshot_fresh(updated_at.spec_bytes(), now as int),
{
    match parse_rfc3339(updated_at.as_bytes()) {
        Some(t) => !is_expired(t, now, ExpiryPolicy::snapshots()),
        None => false,
    }
}

/// A transcription taken into the memory tier is what the next lookup of its
/// digest returns.
pub proof fn lemma_remembered_transcription_returned(
    held: Map<Seq<char>, Seq<u8>>,
    digest: Seq<char>,
    payload: Seq<u8>,
)
    ensures
        held.insert(digest, payload).contains_key(digest),
        held.insert(digest, payload)[digest] == payload,
{
}

/// An entry written for `key` reads back as its payload while it is fresh.
pub proof fn lemma_durable_round_trip(
    kind: EntryKind,
    key: Seq<u8>,
    payload: Seq<u8>,
    stamp: Seq<u8>,
    now: int,
    policy: ExpiryPolicy,
)
    requires
        quote_free(stamp),
        rfc3339_seconds_of(stamp) matches Some(created) && !is_stale(created as int, now, policy),
    ensures
        durable_outcome(kind, key, Some(envelope(kind, key, payload, stamp)), now, policy) == (
        Some(payload), false),
{
    lemma_entry_round_trip(kind, key, payload, stamp);
}

/// An entry older than its policy allows reads as absent and its file is to be
/// removed; once removed, reading again is still a miss, not an error.
pub proof fn lemma_expired_entry_absent(
    kind: EntryKind,
    key: Seq<u8>,
    payload: Seq<u8>,
    stamp: Seq<u8>,
    now: int,
    policy: ExpiryPolicy,
)
    requires
        quote_free(stamp),
        rfc3339_seconds_of(stamp) matches Some(created) && is_stale(created as int, now, policy),
    ensures
        durable_outcome(kind, key, Some(envelope(kind, key, payload, stamp)), now, policy) == (
        None::<Seq<u8>>, true),
        durable_outcome(kind, key, None, now, policy) == (None::<Seq<u8>>, false),
{
    lemma_entry_round_trip(kind, key, payload, stamp);
}

/// A file that is not a well-formed entry reads as absent, never as a failure.
pub proof fn lemma_corrupt_entry_absent(
    kind: EntryKind,
    key: Seq<u8>,
    text: Seq<u8>,
    now: int,
    policy: ExpiryPolicy,
)
    requires
        !has_envelope(kind, key, text),
    ensures
        durable_outcome(kind, key, Some(text), now, policy) == (None::<Seq<u8>>, true),
{
}

/// Whether a project snapshot last modified at `updated_at` is to be served now.
pub fn snapshot_is_fresh_now(updated_at: &str) -> (r: bool)
    ensures
        exists|now: i64| r == #[trigger] snapshot_fresh(updated_at.spec_bytes(), now as int),
{
    let (now, _) = utc_now();
    snapshot_is_fresh(updated_at, now)
}

/// The cache state that lives for a session: the memory tier of transcriptions.
pub struct Cache {
    memory: MemoryIndex,
}

impl Cache {
    pub closed spec fn wf(&self) -> bool {
        self.memory.wf()
    }

    /// Transcription payloads held in memory, by digest.
    pub closed spec fn view(&self) -> Map<Seq<char>, Seq<u8>> {
        self.memory@
    }

    pub fn new() -> (r: Cache)
        ensures
            r.wf(),
            r@ == Map::<Seq<char>, Seq<u8>>::empty(),
    {
        Cache { memory: MemoryIndex::new() }
    }

    /// The memory tier's transcription for `digest`, consulted before any file.
    pub fn memory_transcription(&self, digest: &str) -> (r: Option<Vec<u8>>)
        requires
            self.wf(),
        ensures
            r is Some <==> self@.contains_key(digest@),
            r matches Some(v) ==> v@ == self@[digest@],
    {
        self.memory.get(digest)
    }

    /// Judges the transcription entry file read after a memory miss, at `now`.
    /// A valid, fresh entry is taken into the memory tier.
    pub fn resolve_transcription_at(&mut self, digest: &str, stored: Option<&[u8]>, now: i64) -> (r:
        Resolution)
        requires
            old(self).wf(),
        ensures
            final(self).wf(),
            r@ == durable_outcome(
                EntryKind::Transcription,
                digest.spec_bytes(),
                stored_view(stored),
                now as int,
                ExpiryPolicy::entries_spec(),
            ),
            final(self)@ == match r@.0 {
                Some(p) => old(self)@.insert(digest@, p),
                None => old(self)@,
            },
    {
        let r = read_entry(EntryKind::Transcription, digest, stored, now, ExpiryPolicy::entries());
        match &r.payload {
            Some(p) => {
                let c = copy_range(p.as_slice(), 0, p.len());
                proof {
                    assert(p@.subrange(0, p@.len() as int) =~= p@);
                }
                self.memory.put(digest, c);
            },
            None => {},
        }
        r
    }

    /// Judges the transcription entry file read after a memory miss, now.
    pub fn resolve_transcription(&mut self, digest: &str, stored: Option<&[u8]>) -> (r: Resolution)
        requires
            old(self).wf(),
        ensures
            final(self).wf(),
            exists|now: i64|
                r@ == #[trigger] durable_outcome(
                    EntryKind::Transcription,
                    digest.spec_bytes(),
                    stored_view(stored),
                    now as int,
                    ExpiryPolicy::entries_spec(),
                ),
            final(self)@ == match r@.0 {
                Some(p) => old(self)@.insert(digest@, p),
                None => old(self)@,
            },
    {
        let (now, _) = utc_now();
        self.resolve_transcription_at(digest, stored, now)
    }

    /// Takes a transcription into the memory tier, once its entry file is written.
    pub fn remember_transcription(&mut self, digest: &str, payload: Vec<u8>)
        requires
            old(self).wf(),
        ensures
            final(self).wf(),
            final(self)@ == old(self)@.insert(digest@, payload@),
    {
        self.memory.put(digest, payload);
    }

    /// The translation cache key of a request, from the JSON of its segments and
    /// of its glossary, its target language and its style prompt.
    pub fn generate_translation_cache_key(
        segments_json: &str,
        glossary_json: &str,
        target_language: &str,
        style_prompt: &str,
    ) -> (r: String)
        ensures
            r@ == digest_text(
                request_bytes(
                    segments_json.spec_bytes(),
                    glossary_json.spec_bytes(),
                    target_language.spec_bytes(),
                    style_prompt.spec_bytes(),
                ),
            ),
            is_digest(r@),
    {
        let mut bytes: Vec<u8> = Vec::new();
        push_bytes(&mut bytes, segments_json.as_bytes());
        push_bytes(&mut bytes, glossary_json.as_bytes());
        push_bytes(&mut bytes, target_language.as_bytes());
        push_bytes(&mut bytes, style_prompt.as_bytes());
        digest_bytes(bytes.as_slice())
    }
}

} // verus!

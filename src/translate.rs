use vstd::prelude::*;

use crate::glossary::{apply_entries, apply_glossary, chars_of, longest_first};
use crate::types::{GlossaryEntry, TranslationResult};

verus! {

/// Why an API key is refused.
#[derive(Clone, Copy, Debug, PartialEq, Eq)]
pub enum ApiKeyError {
    /// Nothing but white space.
    Empty,
    /// It does not start with `sk-`.
    BadFormat,
}

/// The characters of Unicode's White_Space property, which `char::is_whitespace`
/// tests.
pub open spec fn is_white_space(c: char) -> bool {
    ('\u{9}' <= c && c <= '\u{d}') || c == ' ' || c == '\u{85}' || c == '\u{a0}' || c
        == '\u{1680}' || ('\u{2000}' <= c && c <= '\u{200a}') || c == '\u{2028}' || c
        == '\u{2029}' || c == '\u{202f}' || c == '\u{205f}' || c == '\u{3000}'
}

/// How many white-space characters `s` starts with.
pub open spec fn leading_white(s: Seq<char>) -> nat
    decreases s.len(),
{
    if s.len() > 0 && is_white_space(s[0]) {
        1 + leading_white(s.drop_first())
    } else {
        0
    }
}

/// How many white-space characters `s` ends with.
pub open spec fn trailing_white(s: Seq<char>) -> nat
    decreases s.len(),
{
    if s.len() > 0 && is_white_space(s.last()) {
        1 + trailing_white(s.drop_last())
    } else {
        0
    }
}

/// `s` without its leading and trailing white space.
pub open spec fn trimmed(s: Seq<char>) -> Seq<char> {
    let t = s.subrange(leading_white(s) as int, s.len() as int);
    t.subrange(0, t.len() - trailing_white(t))
}

fn is_white(c: char) -> (r: bool)
    ensures
        r == is_white_space(c),
{
    ('\u{9}' <= c && c <= '\u{d}') || c == ' ' || c == '\u{85}' || c == '\u{a0}' || c
        == '\u{1680}' || ('\u{2000}' <= c && c <= '\u{200a}') || c == '\u{2028}' || c
        == '\u{2029}' || c == '\u{202f}' || c == '\u{205f}' || c == '\u{3000}'
}

/// The text without its leading and trailing white space.
pub fn trim_white(s: &str) -> (r: &str)
    ensures
        r@ == trimmed(s@),
{
    let cs = chars_of(s);
    let n = cs.len();
    let mut a: usize = 0;
    assert(s@.subrange(0, n as int) =~= s@);
    while a < n && is_white(cs[a])
        invariant
            a <= n == s@.len(),
            cs@ == s@,
            leading_white(s@) == a + leading_white(s@.subrange(a as int, n as int)),
        decreases n - a,
    {
        proof {
            assert(s@.subrange(a as int, n as int).drop_first() =~= s@.subrange(a + 1, n as int));
        }
        a = a + 1;
    }
    let ghost t = s@.subrange(a as int, n as int);
    let mut b: usize = n;
    while b > a && is_white(cs[b - 1])
        invariant
            a <= b <= n == s@.len(),
            cs@ == s@,
            t == s@.subrange(a as int, n as int),
            trailing_white(t) == (n - b) + trailing_white(s@.subrange(a as int, b as int)),
        decreases b,
    {
        proof {
            assert(s@.subrange(a as int, b as int).drop_last() =~= s@.subrange(a as int, b - 1));
        }
        b = b - 1;
    }
    proof {
        assert(t.subrange(0, t.len() - trailing_white(t)) =~= s@.subrange(a as int, b as int));
    }
    s.substring_char(a, b)
}

pub open spec fn starts_with(s: Seq<char>, p: Seq<char>) -> bool {
    p.len() <= s.len() && s.subrange(0, p.len() as int) == p
}

/// Keys of the translation service start with `sk-` (project keys with
/// `sk-proj-`, which starts the same way).
pub open spec fn api_key_verdict(key: Seq<char>) -> Result<(), ApiKeyError> {
    if trimmed(key).len() == 0 {
        Err(ApiKeyError::Empty)
    } else if !starts_with(key, "sk-"@) {
        Err(ApiKeyError::BadFormat)
    } else {
        Ok(())
    }
}

fn has_prefix(s: &str, p: &str) -> (r: bool)
    ensures
        r == starts_with(s@, p@),
{
    let n = s.unicode_len();
    let m = p.unicode_len();
    if m > n {
        return false;
    }
    let mut i: usize = 0;
    while i < m
        invariant
            i <= m <= n,
            n == s@.len(),
            m == p@.len(),
            forall|k: int| 0 <= k < i ==> s@[k] == p@[k],
        decreases m - i,
    {
        if s.get_char(i) != p.get_char(i) {
            assert(s@.subrange(0, m as int)[i as int] != p@[i as int]);
            return false;
        }
        i = i + 1;
    }
    assert(s@.subrange(0, m as int) =~= p@);
    true
}

/// Checks the form of an API key before it is stored.
pub fn check_api_key(key: &str) -> (r: Result<(), ApiKeyError>)
    ensures
        r == api_key_verdict(key@),
{
    if trim_white(key).unicode_len() == 0 {
        return Err(ApiKeyError::Empty);
    }
    let prefix = "sk-";
    if !has_prefix(key, prefix) {
        return Err(ApiKeyError::BadFormat);
    }
    Ok(())
}

/// A translation read from the service's answer: a missing id counts as 0, and
/// an id keeps its low 32 bits; the text is trimmed, and missing text counts as empty.
pub fn translation_from_fields(id: Option<u64>, text: Option<&str>) -> (r: TranslationResult)
    ensures
        r.id as int == match id {
            Some(v) => v as int % 0x1_0000_0000,
            None => 0,
        },
        r.translated_text@ == match text {
            Some(t) => trimmed(t@),
            None => Seq::<char>::empty(),
        },
{
    let n: u32 = match id {
        Some(v) => (v % 0x1_0000_0000) as u32,
        None => 0,
    };
    let t = match text {
        Some(t) => trim_white(t).to_string(),
        None => String::new(),
    };
    TranslationResult { id: n, translated_text: t }
}

/// `id` is the id of one of the segments sent.
pub open spec fn is_sent(ids: Seq<u32>, id: u32) -> bool {
    exists|i: int| 0 <= i < ids.len() && ids[i] == id
}

fn contains_id(ids: &[u32], id: u32) -> (r: bool)
    ensures
        r == is_sent(ids@, id),
{
    let mut i: usize = 0;
    while i < ids.len()
        invariant
            i <= ids@.len(),
            forall|k: int| 0 <= k < i ==> ids@[k] != id,
        decreases ids@.len() - i,
    {
        if ids[i] == id {
            return true;
        }
        i = i + 1;
    }
    false
}

/// Applies the glossary to each returned translation that answers one of the
/// segments sent; translations of unknown ids are kept as they came. Results
/// may cover only some of the segments.
pub fn apply_glossary_to_translations(
    translations: &mut Vec<TranslationResult>,
    segment_ids: &[u32],
    glossary: &[GlossaryEntry],
)
    ensures
        final(translations)@.len() == old(translations)@.len(),
        forall|i: int|
            0 <= i < old(translations)@.len() ==> {
                let before = old(translations)@[i];
                let after = #[trigger] final(translations)@[i];
                &&& after.id == before.id
                &&& after.translated_text@ == if glossary@.len() > 0 && is_sent(
                    segment_ids@,
                    before.id,
                ) {
                    apply_entries(before.translated_text@, longest_first(glossary@))
                } else {
                    before.translated_text@
                }
            },
{
    if glossary.len() == 0 {
        return;
    }
    let ghost start = translations@;
    let mut i: usize = 0;
    while i < translations.len()
        invariant
            glossary@.len() > 0,
            i <= translations@.len() == start.len(),
            forall|k: int|
                i <= k < start.len() ==> #[trigger] translations@[k] == start[k],
            forall|k: int|
                0 <= k < i ==> {
                    let before = start[k];
                    let after = #[trigger] translations@[k];
                    &&& after.id == before.id
                    &&& after.translated_text@ == if is_sent(segment_ids@, before.id) {
                        apply_entries(before.translated_text@, longest_first(glossary@))
                    } else {
                        before.translated_text@
                    }
                },
        decreases start.len() - i,
    {
        let id = translations[i].id;
        if contains_id(segment_ids, id) {
            let text = apply_glossary(translations[i].translated_text.as_str(), glossary);
            translations.set(i, TranslationResult { id, translated_text: text });
        }
        i = i + 1;
    }
}

} // verus!

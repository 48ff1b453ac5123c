use vstd::prelude::*;
use vstd::string::StringSliceAdditionalSpecFns;
use vstd::std_specs::iter::IteratorSpec;
use vstd::utf8::encode_utf8;

use crate::bytes::matches_at;
use crate::types::GlossaryEntry;

verus! {

/// ASCII lower-case of a byte; other bytes are kept.
pub open spec fn ascii_lower(b: u8) -> u8 {
    if 65 <= b <= 90 {
        (b + 32) as u8
    } else {
        b
    }
}

/// Equal up to ASCII case, byte by byte.
pub open spec fn eq_ascii_nocase(a: Seq<u8>, b: Seq<u8>) -> bool {
    a.len() == b.len() && forall|i: int| 0 <= i < a.len() ==> ascii_lower(#[trigger] a[i]) == ascii_lower(b[i])
}

/// `pat` occurs in `t`.
pub open spec fn occurs_in(pat: Seq<u8>, t: Seq<u8>) -> bool {
    exists|i: int| 0 <= i <= t.len() - pat.len() && #[trigger] t.subrange(i, i + pat.len()) == pat
}

/// Every non-overlapping occurrence of `from` in `s`, left to right, replaced by
/// `to`; an empty `from` occurs before each character and at the end.
pub open spec fn replaced(s: Seq<char>, from: Seq<char>, to: Seq<char>) -> Seq<char>
    decreases s.len(),
{
    if from.len() == 0 {
        if s.len() == 0 {
            to
        } else {
            to + seq![s[0]] + replaced(s.drop_first(), from, to)
        }
    } else if s.len() < from.len() {
        s
    } else if s.subrange(0, from.len() as int) == from {
        to + replaced(s.subrange(from.len() as int, s.len() as int), from, to)
    } else {
        seq![s[0]] + replaced(s.drop_first(), from, to)
    }
}

/// The characters of a string.
pub(crate) fn chars_of(s: &str) -> (r: Vec<char>)
    ensures
        r@ == s@,
{
    broadcast use vstd::string::axiom_spec_iter, vstd::string::next_postcondition;

    let n = s.unicode_len();
    let mut it = s.chars();
    let mut r: Vec<char> = Vec::new();
    while r.len() < n
        invariant
            n == s@.len(),
            r@.len() <= n,
            r@ + it.remaining() == s@,
            it.obeys_prophetic_iter_laws(),
        decreases n - r@.len(),
    {
        match it.next() {
            Some(c) => {
                r.push(c);
                assert(r@ + it.remaining() =~= s@);
            },
            None => {
                assert(r@ =~= s@);
                return r;
            },
        }
    }
    assert(r@ =~= s@);
    r
}

fn chars_match_at(t: &Vec<char>, at: usize, pat: &Vec<char>) -> (r: bool)
    requires
        at + pat@.len() <= t@.len(),
    ensures
        r == (t@.subrange(at as int, at + pat@.len()) == pat@),
{
    let tl = t.len();
    let mut i: usize = 0;
    while i < pat.len()
        invariant
            i <= pat@.len(),
            tl == t@.len(),
            at + pat@.len() <= t@.len(),
            forall|k: int| 0 <= k < i ==> t@[at + k] == pat@[k],
        decreases pat@.len() - i,
    {
        if t[at + i] != pat[i] {
            assert(t@.subrange(at as int, at + pat@.len())[i as int] != pat@[i as int]);
            return false;
        }
        i = i + 1;
    }
    assert(t@.subrange(at as int, at + pat@.len()) =~= pat@);
    true
}

/// Replaces every non-overlapping occurrence of `from`, left to right.
pub fn replace_all(s: &str, from: &str, to: &str) -> (r: String)
    ensures
        r@ == replaced(s@, from@, to@),
{
    let cs = chars_of(s);
    let ps = chars_of(from);
    let n = cs.len();
    let m = ps.len();
    let mut out = String::new();
    let mut i: usize = 0;
    proof {
        assert(s@.subrange(0, n as int) =~= s@);
        assert(s@.subrange(0, 0) =~= Seq::<char>::empty());
        assert(out@ + s@ =~= s@);
    }
    if m == 0 {
        while i < n
            invariant
                i <= n == s@.len(),
                from@.len() == 0,
                out@ + replaced(s@.subrange(i as int, n as int), from@, to@) == replaced(s@, from@, to@),
            decreases n - i,
        {
            let ghost t = s@.subrange(i as int, n as int);
            out.append(to);
            out.append(s.substring_char(i, i + 1));
            proof {
                assert(t.drop_first() =~= s@.subrange(i + 1, n as int));
                assert(s@.subrange(i as int, i + 1) =~= seq![t[0]]);
            }
            i = i + 1;
        }
        out.append(to);
        proof {
            assert(s@.subrange(n as int, n as int) =~= Seq::<char>::empty());
        }
        return out;
    }
    let mut run: usize = 0;
    while i < n
        invariant
            run <= i <= n == s@.len(),
            cs@ == s@,
            ps@ == from@,
            m == from@.len() > 0,
            out@ + s@.subrange(run as int, i as int) + replaced(s@.subrange(i as int, n as int), from@, to@)
                == replaced(s@, from@, to@),
        decreases n - i,
    {
        let ghost t = s@.subrange(i as int, n as int);
        if m <= n - i && chars_match_at(&cs, i, &ps) {
            proof {
                assert(t.subrange(0, m as int) =~= s@.subrange(i as int, i + m));
                assert(t.subrange(m as int, t.len() as int) =~= s@.subrange(i + m, n as int));
            }
            out.append(s.substring_char(run, i));
            out.append(to);
            i = i + m;
            run = i;
            proof {
                assert(s@.subrange(run as int, i as int) =~= Seq::<char>::empty());
            }
        } else {
            proof {
                if t.len() >= m {
                    assert(t.subrange(0, m as int) =~= s@.subrange(i as int, i + m));
                } else {
                    assert(replaced(t.drop_first(), from@, to@) == t.drop_first());
                }
                assert(t.drop_first() =~= s@.subrange(i + 1, n as int));
                assert(s@.subrange(run as int, i + 1) =~= s@.subrange(run as int, i as int).push(t[0]));
            }
            i = i + 1;
        }
    }
    out.append(s.substring_char(run, n));
    proof {
        let e = s@.subrange(n as int, n as int);
        assert(e =~= Seq::<char>::empty());
        assert(replaced(e, from@, to@) == e);
    }
    out
}

/// Unicode lower-case of a string.
pub uninterp spec fn lower_of(s: Seq<char>) -> Seq<char>;

/// Relies on std's `str::to_lowercase`: the result depends on the characters alone.
#[verifier::external_body]
pub(crate) fn lowercase(s: &str) -> (r: String)
    ensures
        r@ == lower_of(s@),
{
    s.to_lowercase()
}

fn eq_ignore_ascii_case(a: &[u8], b: &[u8]) -> (r: bool)
    ensures
        r == eq_ascii_nocase(a@, b@),
{
    if a.len() != b.len() {
        return false;
    }
    let mut i: usize = 0;
    while i < a.len()
        invariant
            i <= a@.len(),
            a@.len() == b@.len(),
            forall|k: int| 0 <= k < i ==> ascii_lower(#[trigger] a@[k]) == ascii_lower(b@[k]),
        decreases a@.len() - i,
    {
        let x = a[i];
        let y = b[i];
        let lx: u8 = if 65 <= x && x <= 90 { x + 32 } else { x };
        let ly: u8 = if 65 <= y && y <= 90 { y + 32 } else { y };
        if lx != ly {
            return false;
        }
        i = i + 1;
    }
    true
}

/// The first entry whose source equals `term` up to ASCII case.
pub fn find_translation<'a>(glossary: &'a [GlossaryEntry], term: &str) -> (r: Option<&'a GlossaryEntry>)
    ensures
        r is None <==> forall|i: int|
            0 <= i < glossary@.len() ==> !eq_ascii_nocase(
                encode_utf8((#[trigger] glossary@[i]).source@),
                term.spec_bytes(),
            ),
        r matches Some(e) ==> exists|i: int|
            0 <= i < glossary@.len() && *e == #[trigger] glossary@[i] && eq_ascii_nocase(
                encode_utf8(glossary@[i].source@),
                term.spec_bytes(),
            ) && forall|j: int|
                0 <= j < i ==> !eq_ascii_nocase(
                    encode_utf8((#[trigger] glossary@[j]).source@),
                    term.spec_bytes(),
                ),
{
    let mut i: usize = 0;
    while i < glossary.len()
        invariant
            i <= glossary@.len(),
            forall|j: int|
                0 <= j < i ==> !eq_ascii_nocase(
                    encode_utf8((#[trigger] glossary@[j]).source@),
                    term.spec_bytes(),
                ),
        decreases glossary@.len() - i,
    {
        if eq_ignore_ascii_case(glossary[i].source.as_str().as_bytes(), term.as_bytes()) {
            return Some(&glossary[i]);
        }
        i = i + 1;
    }
    None
}

fn contains_bytes(t: &[u8], pat: &[u8]) -> (r: bool)
    ensures
        r == occurs_in(pat@, t@),
{
    if pat.len() > t.len() {
        return false;
    }
    let last = t.len() - pat.len();
    let mut i: usize = 0;
    while i <= last
        invariant
            last == t@.len() - pat@.len(),
            i <= last + 1,
            forall|k: int| 0 <= k < i ==> #[trigger] t@.subrange(k, k + pat@.len()) != pat@,
        decreases last + 1 - i,
    {
        if matches_at(t, i, pat) {
            return true;
        }
        if i == last {
            return false;
        }
        i = i + 1;
    }
    false
}

/// Whether the text holds the source term of some glossary entry.
pub fn contains_glossary_terms(text: &str, glossary: &[GlossaryEntry]) -> (r: bool)
    ensures
        r == exists|i: int|
            0 <= i < glossary@.len() && occurs_in(
                encode_utf8((#[trigger] glossary@[i]).source@),
                text.spec_bytes(),
            ),
{
    let mut i: usize = 0;
    while i < glossary.len()
        invariant
            i <= glossary@.len(),
            forall|j: int|
                0 <= j < i ==> !occurs_in(
                    encode_utf8((#[trigger] glossary@[j]).source@),
                    text.spec_bytes(),
                ),
        decreases glossary@.len() - i,
    {
        if contains_bytes(text.as_bytes(), glossary[i].source.as_str().as_bytes()) {
            return true;
        }
        i = i + 1;
    }
    false
}

/// Byte length of an entry's source term.
pub open spec fn source_len(e: GlossaryEntry) -> nat {
    encode_utf8(e.source@).len()
}

/// One entry applied: its source term replaced by its target.
pub open spec fn apply_entry(s: Seq<char>, e: GlossaryEntry) -> Seq<char> {
    replaced(s, e.source@, e.target@)
}

/// The entries of `es` applied in order.
pub open spec fn apply_entries(s: Seq<char>, es: Seq<GlossaryEntry>) -> Seq<char> {
    es.fold_left(s, |acc: Seq<char>, e: GlossaryEntry| apply_entry(acc, e))
}

/// The entries whose source term is `len` bytes long, in glossary order.
pub open spec fn of_length(g: Seq<GlossaryEntry>, len: nat) -> Seq<GlossaryEntry> {
    g.filter(|e: GlossaryEntry| source_len(e) == len)
}

/// The entries of source length at most `top`, sorted stably by length, longest
/// first.
pub open spec fn longest_first_from(g: Seq<GlossaryEntry>, top: nat) -> Seq<GlossaryEntry>
    decreases top,
{
    if top == 0 {
        of_length(g, 0)
    } else {
        of_length(g, top) + longest_first_from(g, (top - 1) as nat)
    }
}

/// The glossary sorted stably by source length, longest first, so that a shorter
/// term never breaks up a longer one.
pub open spec fn longest_first(g: Seq<GlossaryEntry>) -> Seq<GlossaryEntry> {
    longest_first_from(g, max_source_len(g))
}

/// Replaces, in glossary order, the terms of the first `i` entries whose source
/// is `len` bytes long.
spec fn apply_pass(s: Seq<char>, g: Seq<GlossaryEntry>, len: nat, i: int) -> Seq<char>
    decreases i,
{
    if i <= 0 {
        s
    } else {
        let s1 = apply_pass(s, g, len, i - 1);
        if source_len(g[i - 1]) == len {
            replaced(s1, g[i - 1].source@, g[i - 1].target@)
        } else {
            s1
        }
    }
}

/// Replaces the terms of lengths `top`, `top - 1`, ..., `0` in turn, pass by pass.
spec fn apply_desc(s: Seq<char>, g: Seq<GlossaryEntry>, top: nat) -> Seq<char>
    decreases top,
{
    let s1 = apply_pass(s, g, top, g.len() as int);
    if top == 0 {
        s1
    } else {
        apply_desc(s1, g, (top - 1) as nat)
    }
}

proof fn lemma_pass_is_fold(s: Seq<char>, g: Seq<GlossaryEntry>, len: nat, i: int)
    requires
        0 <= i <= g.len(),
    ensures
        apply_pass(s, g, len, i) == apply_entries(s, of_length(g.subrange(0, i), len)),
    decreases i,
{
    reveal(Seq::filter);
    if i > 0 {
        lemma_pass_is_fold(s, g, len, i - 1);
        let gi = g.subrange(0, i);
        assert(gi.drop_last() =~= g.subrange(0, i - 1));
        assert(gi.last() == g[i - 1]);
        let prev = of_length(g.subrange(0, i - 1), len);
        if source_len(g[i - 1]) == len {
            assert(of_length(gi, len) == prev.push(g[i - 1]));
            assert(prev.push(g[i - 1]).drop_last() =~= prev);
        } else {
            assert(of_length(gi, len) == prev);
        }
    } else {
        assert(g.subrange(0, 0) =~= Seq::<GlossaryEntry>::empty());
    }
}

proof fn lemma_apply_concat(s: Seq<char>, a: Seq<GlossaryEntry>, b: Seq<GlossaryEntry>)
    ensures
        apply_entries(s, a + b) == apply_entries(apply_entries(s, a), b),
{
    let f = |acc: Seq<char>, e: GlossaryEntry| apply_entry(acc, e);
    let ab = a + b;
    ab.lemma_fold_left_split(s, f, a.len() as int);
    assert(ab.subrange(0, a.len() as int) =~= a);
    assert(ab.subrange(a.len() as int, ab.len() as int) =~= b);
}

proof fn lemma_desc_is_fold(s: Seq<char>, g: Seq<GlossaryEntry>, top: nat)
    ensures
        apply_desc(s, g, top) == apply_entries(s, longest_first_from(g, top)),
    decreases top,
{
    lemma_pass_is_fold(s, g, top, g.len() as int);
    assert(g.subrange(0, g.len() as int) =~= g);
    if top > 0 {
        let s1 = apply_pass(s, g, top, g.len() as int);
        lemma_desc_is_fold(s1, g, (top - 1) as nat);
        lemma_apply_concat(s, of_length(g, top), longest_first_from(g, (top - 1) as nat));
    }
}

/// The longest source term, in bytes.
pub open spec fn max_source_len(g: Seq<GlossaryEntry>) -> nat
    decreases g.len(),
{
    if g.len() == 0 {
        0
    } else {
        let m = max_source_len(g.drop_last());
        if source_len(g.last()) > m {
            source_len(g.last())
        } else {
            m
        }
    }
}

/// The text with the glossary's terms replaced by their translations, longest
/// terms first.
pub fn apply_glossary(text: &str, glossary: &[GlossaryEntry]) -> (r: String)
    ensures
        r@ == apply_entries(text@, longest_first(glossary@)),
{
    if glossary.len() == 0 {
        let r = text.to_string();
        proof {
            lemma_desc_is_fold(text@, glossary@, 0);
            assert(apply_pass(text@, glossary@, 0, 0) == text@);
        }
        return r;
    }
    let n = glossary.len();
    let mut top: usize = 0;
    let mut i: usize = 0;
    while i < n
        invariant
            i <= n == glossary@.len(),
            top == max_source_len(glossary@.subrange(0, i as int)),
        decreases n - i,
    {
        let l = glossary[i].source.as_str().as_bytes().len();
        proof {
            assert(glossary@.subrange(0, i + 1).drop_last() =~= glossary@.subrange(0, i as int));
            assert(glossary@.subrange(0, i + 1).last() == glossary@[i as int]);
            assert(l == source_len(glossary@[i as int]));
        }
        if l > top {
            top = l;
        }
        i = i + 1;
    }
    proof {
        assert(glossary@.subrange(0, n as int) =~= glossary@);
    }
    let mut result = text.to_string();
    let mut len: usize = top;
    loop
        invariant
            n == glossary@.len(),
            top == max_source_len(glossary@),
            apply_desc(result@, glossary@, len as nat) == apply_desc(text@, glossary@, top as nat),
        decreases len,
    {
        let ghost before = result@;
        let mut j: usize = 0;
        while j < n
            invariant
                j <= n == glossary@.len(),
                result@ == apply_pass(before, glossary@, len as nat, j as int),
            decreases n - j,
        {
            let e = &glossary[j];
            let l = e.source.as_str().as_bytes().len();
            assert(l == source_len(glossary@[j as int]));
            if l == len {
                result = replace_all(result.as_str(), e.source.as_str(), e.target.as_str());
            }
            j = j + 1;
        }
        assert(apply_desc(before, glossary@, len as nat) == if len == 0 {
            result@
        } else {
            apply_desc(result@, glossary@, (len - 1) as nat)
        });
        if len == 0 {
            proof {
                lemma_desc_is_fold(text@, glossary@, top as nat);
            }
            return result;
        }
        len = len - 1;
    }
}

/// Lookup of glossary entries by lower-cased source term.
pub struct GlossaryIndex<'a> {
    pairs: Vec<(String, &'a GlossaryEntry)>,
}

/// The entry of the last pair among the first `i` whose key is `k`.
pub open spec fn last_with_key(pairs: Seq<(Seq<char>, GlossaryEntry)>, k: Seq<char>, i: int) -> Option<
    GlossaryEntry,
>
    decreases i,
{
    if i <= 0 {
        None
    } else if pairs[i - 1].0 == k {
        Some(pairs[i - 1].1)
    } else {
        last_with_key(pairs, k, i - 1)
    }
}

impl<'a> GlossaryIndex<'a> {
    /// Each entry under its key, in glossary order.
    pub closed spec fn view(&self) -> Seq<(Seq<char>, GlossaryEntry)> {
        Seq::new(self.pairs@.len(), |i: int| (self.pairs@[i].0@, *self.pairs@[i].1))
    }

    /// The entry held under `key`: the last one of the glossary with that key.
    pub fn get(&self, key: &str) -> (r: Option<&'a GlossaryEntry>)
        ensures
            match r {
                Some(e) => last_with_key(self@, key@, self@.len() as int) == Some(*e),
                None => last_with_key(self@, key@, self@.len() as int) is None,
            },
    {
        let k = key.to_string();
        let mut i: usize = self.pairs.len();
        assert(self@.len() == self.pairs@.len());
        while i > 0
            invariant
                i <= self.pairs@.len(),
                self@.len() == self.pairs@.len(),
                k@ == key@,
                last_with_key(self@, key@, self@.len() as int) == last_with_key(self@, key@, i as int),
            decreases i,
        {
            assert(self@[i - 1].0 == self.pairs@[i - 1].0@);
            assert(self@[i - 1].1 == *self.pairs@[i - 1].1);
            if self.pairs[i - 1].0 == k {
                return Some(self.pairs[i - 1].1);
            }
            i = i - 1;
        }
        None
    }
}

/// An index of the glossary by Unicode lower-case source term; where two
/// entries share a key, the later one is kept.
pub fn create_index<'a>(glossary: &'a [GlossaryEntry]) -> (r: GlossaryIndex<'a>)
    ensures
        r@ == Seq::new(glossary@.len(), |i: int| (lower_of(glossary@[i].source@), glossary@[i])),
{
    let mut pairs: Vec<(String, &'a GlossaryEntry)> = Vec::new();
    let mut i: usize = 0;
    while i < glossary.len()
        invariant
            i <= glossary@.len(),
            pairs@.len() == i,
            forall|j: int|
                0 <= j < i ==> (#[trigger] pairs@[j]).0@ == lower_of(glossary@[j].source@) && *pairs@[j].1
                    == glossary@[j],
        decreases glossary@.len() - i,
    {
        let e = &glossary[i];
        pairs.push((lowercase(e.source.as_str()), e));
        i = i + 1;
    }
    let r = GlossaryIndex { pairs };
    assert(r@ =~= Seq::new(glossary@.len(), |i: int| (lower_of(glossary@[i].source@), glossary@[i])));
    r
}

} // verus!

//! Field Normalizer: canonicalizes a raw field value into an index key.
//!
//! A normalized key is obtained by truncating the raw value to its first 25
//! characters, dropping every character outside `[A-Za-z0-9]`, and
//! lowercasing what remains. The same normalization is applied when indexing
//! base records and when querying with comparison records, so matching stays
//! symmetric. Keys that normalize to the empty string are never indexed and
//! never match.

use vstd::prelude::*;

verus! {

/// Normalized keys keep at most this many leading characters of the raw
/// value, so very long values do not distort index size or distance
/// comparisons disproportionately.
pub const KEY_PREFIX_LEN: usize = 25;

/// Characters that survive normalization: ASCII letters and digits.
pub open spec fn keep_char(c: char) -> bool {
    ('A' <= c && c <= 'Z') || ('a' <= c && c <= 'z') || ('0' <= c && c <= '9')
}

/// ASCII lowercasing of a single character; everything but `A`..`Z` is fixed.
pub open spec fn lower_char(c: char) -> char {
    if 'A' <= c && c <= 'Z' {
        ((c as u8) + 32) as char
    } else {
        c
    }
}

/// A character a normalized key may contain: a lowercase letter or a digit.
pub open spec fn is_key_char(c: char) -> bool {
    ('a' <= c && c <= 'z') || ('0' <= c && c <= '9')
}

/// Keeps the `[A-Za-z0-9]` characters of `s`, lowercased, in order.
pub open spec fn strip_lower(s: Seq<char>) -> Seq<char>
    decreases s.len(),
{
    if s.len() == 0 {
        Seq::empty()
    } else if keep_char(s.last()) {
        strip_lower(s.drop_last()).push(lower_char(s.last()))
    } else {
        strip_lower(s.drop_last())
    }
}

/// The normalized key of a raw field value: first 25 characters, stripped to
/// alphanumerics and lowercased.
pub open spec fn norm_spec(s: Seq<char>) -> Seq<char> {
    strip_lower(s.take(if s.len() < KEY_PREFIX_LEN as int { s.len() as int } else { KEY_PREFIX_LEN as int }))
}

/// Stripping never lengthens a sequence.
proof fn lemma_strip_lower_len(s: Seq<char>)
    ensures
        strip_lower(s).len() <= s.len(),
    decreases s.len(),
{
    if s.len() > 0 {
        lemma_strip_lower_len(s.drop_last());
    }
}

/// Every character of a stripped-and-lowercased sequence is a key character.
proof fn lemma_strip_lower_chars(s: Seq<char>)
    ensures
        forall|i: int| 0 <= i < strip_lower(s).len() ==> is_key_char(#[trigger] strip_lower(s)[i]),
    decreases s.len(),
{
    if s.len() > 0 {
        lemma_strip_lower_chars(s.drop_last());
        let prev = strip_lower(s.drop_last());
        if keep_char(s.last()) {
            assert(is_key_char(lower_char(s.last())));
            assert forall|i: int| 0 <= i < strip_lower(s).len() implies is_key_char(
                #[trigger] strip_lower(s)[i],
            ) by {
                if i < prev.len() {
                    assert(strip_lower(s)[i] == prev[i]);
                } else {
                    assert(strip_lower(s)[i] == lower_char(s.last()));
                }
            }
        }
    }
}

/// On a sequence made of key characters, stripping and lowercasing changes
/// nothing.
proof fn lemma_strip_lower_fixed(s: Seq<char>)
    requires
        forall|i: int| 0 <= i < s.len() ==> is_key_char(#[trigger] s[i]),
    ensures
        strip_lower(s) == s,
    decreases s.len(),
{
    if s.len() > 0 {
        assert(is_key_char(s.last()));
        lemma_strip_lower_fixed(s.drop_last());
        assert(strip_lower(s) =~= s.drop_last().push(s.last()));
        assert(s.drop_last().push(s.last()) =~= s);
    } else {
        assert(strip_lower(s) =~= s);
    }
}

/// A normalized key never exceeds the kept prefix length.
pub proof fn lemma_norm_len(s: Seq<char>)
    ensures
        norm_spec(s).len() <= KEY_PREFIX_LEN,
{
    lemma_strip_lower_len(
        s.take(if s.len() < KEY_PREFIX_LEN as int { s.len() as int } else { KEY_PREFIX_LEN as int }),
    );
}

/// Normalization is idempotent: normalizing an already-normalized key gives
/// it back unchanged.
pub proof fn lemma_normalize_idempotent(s: Seq<char>)
    ensures
        norm_spec(norm_spec(s)) == norm_spec(s),
{
    let n = norm_spec(s);
    let t = s.take(if s.len() < KEY_PREFIX_LEN as int { s.len() as int } else { KEY_PREFIX_LEN as int });
    lemma_strip_lower_len(t);
    assert(n.len() <= KEY_PREFIX_LEN as int);
    assert(n.take(n.len() as int) =~= n);
    lemma_strip_lower_chars(t);
    lemma_strip_lower_fixed(n);
}

/// `s` with its ASCII uppercase letters lowercased, character by character.
pub open spec fn lower_seq(s: Seq<char>) -> Seq<char> {
    s.map_values(|c: char| lower_char(c))
}

/// Exec check mirroring `keep_char`.
fn keep_char_exec(c: char) -> (r: bool)
    ensures
        r == keep_char(c),
{
    ('A' <= c && c <= 'Z') || ('a' <= c && c <= 'z') || ('0' <= c && c <= '9')
}

/// Exec ASCII lowercasing mirroring `lower_char`.
pub(crate) fn lower_char_exec(c: char) -> (r: char)
    ensures
        r == lower_char(c),
{
    if 'A' <= c && c <= 'Z' {
        ((c as u8) + 32) as char
    } else {
        c
    }
}

/// Relies on `String`'s `FromIterator<char>` impl via `Iterator::collect`:
/// collecting characters yields the string of exactly those characters in
/// order.
#[verifier::external_body]
pub(crate) fn chars_to_string(v: &Vec<char>) -> (s: String)
    ensures
        s@ == v@,
{
    v.iter().collect()
}

/// Normalizes one raw field value into an index key: first 25 characters,
/// non-alphanumerics removed, lowercased.
pub fn normalize(raw: &str) -> (key: String)
    ensures
        key@ == norm_spec(raw@),
{
    let len = raw.unicode_len();
    let limit = if len < KEY_PREFIX_LEN {
        len
    } else {
        KEY_PREFIX_LEN
    };
    let mut out: Vec<char> = Vec::new();
    let ghost t = raw@.take(limit as int);
    let mut i: usize = 0;
    while i < limit
        invariant
            0 <= i <= limit,
            limit <= raw@.len(),
            t == raw@.take(limit as int),
            out@ == strip_lower(raw@.take(i as int)),
        decreases limit - i,
    {
        let c = raw.get_char(i);
        proof {
            assert(raw@.take(i + 1 as int).drop_last() =~= raw@.take(i as int));
            assert(raw@.take(i + 1 as int).last() == raw@[i as int]);
        }
        if keep_char_exec(c) {
            let lc = lower_char_exec(c);
            out.push(lc);
        }
        i = i + 1;
    }
    proof {
        assert(raw@.take(limit as int) =~= t);
    }
    chars_to_string(&out)
}

} // verus!

//! Sanitizing tokens and deciding novelty: a token is reduced to its ASCII
//! alphanumeric characters folded to lowercase, and a sanitized word is novel
//! when it holds a letter, is free of anchor and URL artifacts, and stands in
//! neither the run's novelty set nor the known-word dictionary.

use vstd::prelude::*;
use crate::ext::push_char;

verus! {

/// An ASCII decimal digit.
pub open spec fn is_digit_char(c: char) -> bool {
    '0' <= c && c <= '9'
}

/// An ASCII letter, either case.
pub open spec fn is_letter_char(c: char) -> bool {
    ('a' <= c && c <= 'z') || ('A' <= c && c <= 'Z')
}

/// An ASCII letter or digit: the characters that sanitizing keeps.
pub open spec fn is_alnum_char(c: char) -> bool {
    is_digit_char(c) || is_letter_char(c)
}

/// ASCII case folding of one character; everything but 'A'..='Z' is left as
/// it stands.
pub open spec fn to_lower_char(c: char) -> char {
    if 'A' <= c && c <= 'Z' {
        (((c as u8) + 32) as char)
    } else {
        c
    }
}

/// What sanitizing a token yields: every character that is not an ASCII
/// letter or digit is dropped, and the rest are folded to lowercase.
pub open spec fn sanitize_spec(s: Seq<char>) -> Seq<char>
    decreases s.len(),
{
    if s.len() == 0 {
        Seq::empty()
    } else {
        sanitize_spec(s.drop_last()) + (if is_alnum_char(s.last()) {
            seq![to_lower_char(s.last())]
        } else {
            Seq::<char>::empty()
        })
    }
}

/// Strips a token down to its ASCII alphanumeric characters and folds it to
/// lowercase.
pub fn sanitize(token: &str) -> (r: String)
    ensures
        r@ == sanitize_spec(token@),
{
    let n = token.unicode_len();
    let mut out = String::new();
    let mut i: usize = 0;
    while i < n
        invariant
            i <= n,
            n == token@.len(),
            out@ == sanitize_spec(token@.take(i as int)),
        decreases n - i,
    {
        let c = token.get_char(i);
        proof {
            assert(token@.take(i + 1 as int).drop_last() =~= token@.take(i as int));
            assert(token@.take(i + 1 as int).last() == token@[i as int]);
        }
        if ('0' <= c && c <= '9') || ('a' <= c && c <= 'z') || ('A' <= c && c <= 'Z') {
            let lc: char = if 'A' <= c && c <= 'Z' {
                (((c as u8) + 32) as char)
            } else {
                c
            };
            push_char(&mut out, lc);
        }
        proof {
            assert(out@ =~= sanitize_spec(token@.take(i + 1 as int)));
        }
        i += 1;
    }
    proof {
        assert(token@.take(n as int) =~= token@);
    }
    out
}


/// The token holds at least one ASCII letter.
pub open spec fn has_letter(s: Seq<char>) -> bool {
    exists|i: int| 0 <= i < s.len() && is_letter_char(s[i])
}

/// The pattern occurs somewhere in the sequence as a contiguous substring.
pub open spec fn contains_sub(s: Seq<char>, pat: Seq<char>) -> bool {
    exists|k: int| 0 <= k && k + pat.len() <= s.len() && #[trigger] s.subrange(k, k + pat.len()) == pat
}

/// Whether the pattern stands at position `i` of `s`, compared character by
/// character.
pub(crate) fn match_at(s: &str, n: usize, i: usize, pat: &str, m: usize) -> (r: bool)
    requires
        n == s@.len(),
        m == pat@.len(),
        i + m <= n,
    ensures
        r == (s@.subrange(i as int, i + m) == pat@),
{
    let mut j: usize = 0;
    while j < m
        invariant
            j <= m,
            n == s@.len(),
            m == pat@.len(),
            i + m <= n,
            forall|t: int| 0 <= t < j ==> s@[i + t] == pat@[t],
        decreases m - j,
    {
        let a = s.get_char(i + j);
        let b = pat.get_char(j);
        if a != b {
            proof {
                assert(s@.subrange(i as int, i + m)[j as int] == s@[i + j]);
            }
            return false;
        }
        j += 1;
    }
    proof {
        assert(s@.subrange(i as int, i + m) =~= pat@);
    }
    true
}

/// Whether `pat` occurs in `s` as a contiguous substring.
pub fn contains_substring(s: &str, pat: &str) -> (r: bool)
    ensures
        r == contains_sub(s@, pat@),
{
    let n = s.unicode_len();
    let m = pat.unicode_len();
    if m > n {
        return false;
    }
    if m == 0 {
        proof {
            assert(s@.subrange(0, 0 + pat@.len() as int) =~= pat@);
            assert(contains_sub(s@, pat@));
        }
        return true;
    }
    let mut k: usize = 0;
    while k <= n - m
        invariant
            1 <= m <= n,
            k <= n - m + 1,
            n == s@.len(),
            m == pat@.len(),
            forall|t: int| 0 <= t < k ==> #[trigger] s@.subrange(t, t + m) != pat@,
        decreases n - k,
    {
        if match_at(s, n, k, pat, m) {
            return true;
        }
        k += 1;
    }
    false
}

/// Character-by-character string equality, stated over the views.
pub fn str_eq(a: &str, b: &str) -> (r: bool)
    ensures
        r == (a@ == b@),
{
    let n = a.unicode_len();
    let m = b.unicode_len();
    if n != m {
        return false;
    }
    let mut i: usize = 0;
    while i < n
        invariant
            i <= n,
            n == a@.len(),
            n == b@.len(),
            forall|t: int| 0 <= t < i ==> a@[t] == b@[t],
        decreases n - i,
    {
        if a.get_char(i) != b.get_char(i) {
            return false;
        }
        i += 1;
    }
    proof {
        assert(a@ =~= b@);
    }
    true
}

/// A set of words: the known-word dictionary and the run-scoped novelty
/// set are both held in one of these. Viewed as the set of the character
/// sequences it holds.
pub struct WordSet {
    words: Vec<String>,
}

impl View for WordSet {
    type V = Set<Seq<char>>;

    closed spec fn view(&self) -> Set<Seq<char>> {
        Set::new(|s: Seq<char>| exists|i: int| 0 <= i < self.words@.len() && self.words@[i]@ == s)
    }
}

impl WordSet {
    /// The empty word set.
    pub fn new() -> (r: WordSet)
        ensures
            r@ == Set::<Seq<char>>::empty(),
    {
        let r = WordSet { words: Vec::new() };
        proof {
            assert(r@ =~= Set::<Seq<char>>::empty());
        }
        r
    }

    /// Whether the set holds this word.
    pub fn contains(&self, w: &str) -> (r: bool)
        ensures
            r == self@.contains(w@),
    {
        let n = self.words.len();
        let mut i: usize = 0;
        while i < n
            invariant
                i <= n,
                n == self.words@.len(),
                forall|t: int| 0 <= t < i ==> self.words@[t]@ != w@,
            decreases n - i,
        {
            if str_eq(self.words[i].as_str(), w) {
                return true;
            }
            i += 1;
        }
        false
    }

    /// Adds a word to the set.
    pub fn insert(&mut self, w: String)
        ensures
            final(self)@ == old(self)@.insert(w@),
    {
        self.words.push(w);
        proof {
            let last = self.words@.len() - 1;
            assert forall|s: Seq<char>| final(self)@.contains(s) implies old(self)@.insert(
                w@,
            ).contains(s) by {
                let i = choose|i: int| 0 <= i < self.words@.len() && self.words@[i]@ == s;
                if i < last {
                    assert(old(self).words@[i]@ == s);
                }
            }
            assert forall|s: Seq<char>| old(self)@.insert(w@).contains(s)
                implies final(self)@.contains(s) by {
                if s == w@ {
                    assert(self.words@[last]@ == s);
                } else {
                    let i = choose|i: int| 0 <= i < old(self).words@.len() && old(
                        self,
                    ).words@[i]@ == s;
                    assert(self.words@[i]@ == s);
                }
            }
            assert(final(self)@ =~= old(self)@.insert(w@));
        }
    }
}

/// The five novelty conditions of a sanitized word: it holds a letter, is
/// non-empty, carries neither the `htmlfilepos` anchor artifact nor a `http`
/// URL fragment, and stands in neither the novelty set nor the known-word
/// dictionary.
pub open spec fn is_novel(w: Seq<char>, unique: Set<Seq<char>>, known: Set<Seq<char>>) -> bool {
    &&& has_letter(w)
    &&& w.len() > 0
    &&& !contains_sub(w, "htmlfilepos"@)
    &&& !contains_sub(w, "http"@)
    &&& !unique.contains(w)
    &&& !known.contains(w)
}

/// Decides whether a sanitized word is novel and so must be saved and
/// written; every output line passes this decision first.
pub fn should_write_and_save_value(text: &String, unique_set: &WordSet, known_word_set: &WordSet) -> (r:
    bool)
    ensures
        r == is_novel(text@, unique_set@, known_word_set@),
{
    let mut is_alphabetic = false;
    let n = text.as_str().unicode_len();
    let mut i: usize = 0;
    while i < n
        invariant
            i <= n,
            n == text@.len(),
            is_alphabetic == exists|t: int| 0 <= t < i && is_letter_char(text@[t]),
        decreases n - i,
    {
        let c = text.as_str().get_char(i);
        if ('a' <= c && c <= 'z') || ('A' <= c && c <= 'Z') {
            is_alphabetic = true;
        }
        i += 1;
    }
    let text_not_empty = n != 0;
    let text_not_epub_artifacts = !contains_substring(text.as_str(), "htmlfilepos")
        && !contains_substring(text.as_str(), "http");
    let text_not_already_seen = !unique_set.contains(text.as_str());
    let text_not_a_known_word = !known_word_set.contains(text.as_str());
    is_alphabetic && text_not_empty && text_not_epub_artifacts && text_not_already_seen
        && text_not_a_known_word
}

/// A character that sanitizing leaves in place: an ASCII letter or digit
/// already folded to lowercase.
pub open spec fn is_sanitized_char(c: char) -> bool {
    is_alnum_char(c) && to_lower_char(c) == c
}

/// Every character of a sanitized word is an ASCII letter or digit in
/// lowercase.
pub proof fn lemma_sanitize_chars(w: Seq<char>)
    ensures
        forall|i: int|
            0 <= i < sanitize_spec(w).len() ==> is_sanitized_char(#[trigger] sanitize_spec(w)[i]),
    decreases w.len(),
{
    if w.len() > 0 {
        lemma_sanitize_chars(w.drop_last());
        let pre = sanitize_spec(w.drop_last());
        assert forall|i: int| 0 <= i < sanitize_spec(w).len() implies is_sanitized_char(
            sanitize_spec(w)[i],
        ) by {
            if i < pre.len() {
                assert(sanitize_spec(w)[i] == pre[i]);
            } else {
                assert(is_alnum_char(w.last()));
                assert(sanitize_spec(w)[i] == to_lower_char(w.last()));
                assert(is_sanitized_char(to_lower_char(w.last())));
            }
        }
    }
}

/// Sanitizing a word made only of lowercase ASCII letters and digits gives
/// it back unchanged.
pub proof fn lemma_sanitize_fixed(s: Seq<char>)
    requires
        forall|i: int| 0 <= i < s.len() ==> is_sanitized_char(#[trigger] s[i]),
    ensures
        sanitize_spec(s) == s,
    decreases s.len(),
{
    if s.len() == 0 {
        assert(sanitize_spec(s) =~= s);
    } else {
        lemma_sanitize_fixed(s.drop_last());
        assert(is_sanitized_char(s.last()));
        assert(sanitize_spec(s) =~= s);
    }
}

/// Sanitizing is idempotent: one pass reaches a fixed point, since it only
/// removes characters and folds case.
pub proof fn lemma_sanitize_idempotent(w: Seq<char>)
    ensures
        sanitize_spec(sanitize_spec(w)) == sanitize_spec(w),
{
    lemma_sanitize_chars(w);
    lemma_sanitize_fixed(sanitize_spec(w));
}

} // verus!

//! The extraction pipeline's heart: loading the known-word dictionary,
//! folding a chunk of raw text through clean / tokenize / sanitize / filter,
//! and the laws that hold of every run: accepted words are unique, never
//! known, never artifacts, and always hold a letter.

use vstd::prelude::*;
use crate::ext::push_char;
use crate::text::{clean_spec, clean_text, is_space, is_space_char, split_whitespace_tokens, tokens_of};
use crate::words::{
    contains_sub, has_letter, is_novel, sanitize, sanitize_spec, should_write_and_save_value,
    to_lower_char, WordSet,
};

verus! {

/// ASCII case folding of a whole sequence.
pub open spec fn lower_spec(s: Seq<char>) -> Seq<char> {
    s.map_values(|c: char| to_lower_char(c))
}

/// Trailing whitespace removed; leading characters are left as they stand.
pub open spec fn trim_trailing_spec(s: Seq<char>) -> Seq<char>
    decreases s.len(),
{
    if s.len() == 0 {
        s
    } else if is_space_char(s.last()) {
        trim_trailing_spec(s.drop_last())
    } else {
        s
    }
}

/// Strips trailing whitespace.
pub fn trim_trailing<'a>(s: &'a str) -> (r: &'a str)
    ensures
        r@ == trim_trailing_spec(s@),
{
    let n = s.unicode_len();
    let mut hi: usize = n;
    proof {
        assert(s@.take(n as int) =~= s@);
    }
    while hi > 0 && is_space(s.get_char(hi - 1))
        invariant
            hi <= n,
            n == s@.len(),
            trim_trailing_spec(s@) == trim_trailing_spec(s@.take(hi as int)),
        decreases hi,
    {
        proof {
            let sub = s@.take(hi as int);
            assert(sub.last() == s@[hi - 1 as int]);
            assert(sub.drop_last() =~= s@.take(hi - 1 as int));
        }
        hi -= 1;
    }
    proof {
        let sub = s@.take(hi as int);
        if hi > 0 {
            assert(sub.last() == s@[hi - 1 as int]);
            assert(trim_trailing_spec(sub) == sub);
        } else {
            assert(sub =~= Seq::<char>::empty());
        }
        assert(s@.subrange(0, hi as int) =~= s@.take(hi as int));
    }
    s.substring_char(0, hi)
}

/// What one dictionary line contributes: the line with trailing whitespace
/// trimmed and its characters folded to lowercase. Leading whitespace is
/// kept as part of the entry.
pub open spec fn dict_entry(l: Seq<char>) -> Seq<char> {
    lower_spec(trim_trailing_spec(l))
}

/// The known-word set that a sequence of dictionary lines loads to.
pub open spec fn dict_of(lines: Seq<Seq<char>>) -> Set<Seq<char>>
    decreases lines.len(),
{
    if lines.len() == 0 {
        Set::empty()
    } else {
        dict_of(lines.drop_last()).insert(dict_entry(lines.last()))
    }
}

/// Every line of the dictionary stands, with trailing whitespace trimmed
/// and folded to lowercase, in the loaded known-word set: a word the
/// dictionary holds in any case is known in its lowercase form.
pub proof fn lemma_dict_contains(lines: Seq<Seq<char>>, i: int)
    requires
        0 <= i < lines.len(),
    ensures
        dict_of(lines).contains(dict_entry(lines[i])),
    decreases lines.len(),
{
    if i < lines.len() - 1 {
        lemma_dict_contains(lines.drop_last(), i);
    }
}

/// Trims one dictionary line of its trailing whitespace and folds it to
/// lowercase.
pub fn trim_and_lower(line: &str) -> (r: String)
    ensures
        r@ == dict_entry(line@),
{
    let t = trim_trailing(line);
    let n = t.unicode_len();
    let mut out = String::new();
    let mut i: usize = 0;
    while i < n
        invariant
            i <= n,
            n == t@.len(),
            out@ == lower_spec(t@.take(i as int)),
        decreases n - i,
    {
        let c = t.get_char(i);
        let lc: char = if 'A' <= c && c <= 'Z' {
            (((c as u8) + 32) as char)
        } else {
            c
        };
        push_char(&mut out, lc);
        proof {
            assert(out@ =~= lower_spec(t@.take(i + 1 as int)));
        }
        i += 1;
    }
    proof {
        assert(t@.take(n as int) =~= t@);
    }
    out
}

/// Builds the known-word set out of the dictionary's lines: each line is
/// trimmed of its trailing whitespace and folded to lowercase. Empty lines
/// become the empty entry; the sanitizer's non-empty check keeps it out of
/// any comparison that matters.
pub fn create_matching_word_set(lines: &Vec<String>) -> (r: WordSet)
    ensures
        r@ == dict_of(lines@.map_values(|l: String| l@)),
{
    let ghost lns = lines@.map_values(|l: String| l@);
    let mut set = WordSet::new();
    let n = lines.len();
    let mut i: usize = 0;
    while i < n
        invariant
            i <= n,
            n == lines@.len(),
            lns == lines@.map_values(|l: String| l@),
            set@ == dict_of(lns.take(i as int)),
        decreases n - i,
    {
        let entry = trim_and_lower(lines[i].as_str());
        set.insert(entry);
        proof {
            assert(lns.take(i + 1 as int).drop_last() =~= lns.take(i as int));
            assert(lns.take(i + 1 as int).last() == lns[i as int]);
        }
        i += 1;
    }
    proof {
        assert(lns.take(n as int) =~= lns);
    }
    set
}

/// The novelty set after the given tokens have run through the filter, when
/// it started as `seen0`: each token is sanitized, and inserted exactly when
/// it is novel at that moment.
pub open spec fn seen_after(
    tokens: Seq<Seq<char>>,
    known: Set<Seq<char>>,
    seen0: Set<Seq<char>>,
) -> Set<Seq<char>>
    decreases tokens.len(),
{
    if tokens.len() == 0 {
        seen0
    } else {
        let prev = seen_after(tokens.drop_last(), known, seen0);
        let sw = sanitize_spec(tokens.last());
        if is_novel(sw, prev, known) {
            prev.insert(sw)
        } else {
            prev
        }
    }
}

/// The words written for the given tokens, in order of first acceptance,
/// when the novelty set started as `seen0`.
pub open spec fn out_after(
    tokens: Seq<Seq<char>>,
    known: Set<Seq<char>>,
    seen0: Set<Seq<char>>,
) -> Seq<Seq<char>>
    decreases tokens.len(),
{
    if tokens.len() == 0 {
        Seq::empty()
    } else {
        let prev = out_after(tokens.drop_last(), known, seen0);
        let prev_seen = seen_after(tokens.drop_last(), known, seen0);
        let sw = sanitize_spec(tokens.last());
        if is_novel(sw, prev_seen, known) {
            prev.push(sw)
        } else {
            prev
        }
    }
}

/// Runs a sequence of tokens through sanitize and the novelty filter.
/// Accepted words go into the novelty set and into the returned list, in
/// that order of first acceptance.
pub fn process_tokens(tokens: &Vec<String>, known: &WordSet, unique: &mut WordSet) -> (out: Vec<
    String,
>)
    ensures
        final(unique)@ == seen_after(tokens@.map_values(|t: String| t@), known@, old(unique)@),
        out@.map_values(|w: String| w@) == out_after(
            tokens@.map_values(|t: String| t@),
            known@,
            old(unique)@,
        ),
{
    let ghost toks = tokens@.map_values(|t: String| t@);
    let ghost seen0 = unique@;
    let mut out: Vec<String> = Vec::new();
    let n = tokens.len();
    let mut i: usize = 0;
    while i < n
        invariant
            i <= n,
            n == tokens@.len(),
            toks == tokens@.map_values(|t: String| t@),
            unique@ == seen_after(toks.take(i as int), known@, seen0),
            out@.map_values(|w: String| w@) == out_after(toks.take(i as int), known@, seen0),
        decreases n - i,
    {
        proof {
            assert(toks.take(i + 1 as int).drop_last() =~= toks.take(i as int));
            assert(toks.take(i + 1 as int).last() == toks[i as int]);
        }
        let sw = sanitize(tokens[i].as_str());
        if should_write_and_save_value(&sw, unique, known) {
            let ghost out0 = out@;
            let sw2 = sw.clone();
            unique.insert(sw2);
            out.push(sw);
            proof {
                assert(out@.map_values(|w: String| w@) =~= out0.map_values(|w: String| w@).push(
                    sanitize_spec(toks[i as int]),
                ));
            }
        }
        i += 1;
    }
    proof {
        assert(toks.take(n as int) =~= toks);
    }
    out
}

/// The novelty set after one chunk of raw text has been cleaned, tokenized
/// and filtered.
pub open spec fn chunk_seen(
    text: Seq<char>,
    known: Set<Seq<char>>,
    seen0: Set<Seq<char>>,
) -> Set<Seq<char>> {
    seen_after(tokens_of(clean_spec(text)), known, seen0)
}

/// The words written for one chunk of raw text.
pub open spec fn chunk_out(
    text: Seq<char>,
    known: Set<Seq<char>>,
    seen0: Set<Seq<char>>,
) -> Seq<Seq<char>> {
    out_after(tokens_of(clean_spec(text)), known, seen0)
}

/// Cleans one chunk of raw extracted text, splits it into tokens, and runs
/// them through the novelty filter.
pub fn process_chunk(text: &str, known: &WordSet, unique: &mut WordSet) -> (out: Vec<String>)
    ensures
        final(unique)@ == chunk_seen(text@, known@, old(unique)@),
        out@.map_values(|w: String| w@) == chunk_out(text@, known@, old(unique)@),
{
    let cleaned = clean_text(text);
    let toks = split_whitespace_tokens(cleaned.as_str());
    process_tokens(&toks, known, unique)
}

/// The novelty set after a sequence of text lines has been processed in
/// order, each as its own chunk.
pub open spec fn lines_seen(
    lines: Seq<Seq<char>>,
    known: Set<Seq<char>>,
    seen0: Set<Seq<char>>,
) -> Set<Seq<char>>
    decreases lines.len(),
{
    if lines.len() == 0 {
        seen0
    } else {
        chunk_seen(lines.last(), known, lines_seen(lines.drop_last(), known, seen0))
    }
}

/// The words written for a sequence of text lines processed in order.
pub open spec fn lines_out(
    lines: Seq<Seq<char>>,
    known: Set<Seq<char>>,
    seen0: Set<Seq<char>>,
) -> Seq<Seq<char>>
    decreases lines.len(),
{
    if lines.len() == 0 {
        Seq::empty()
    } else {
        lines_out(lines.drop_last(), known, seen0) + chunk_out(
            lines.last(),
            known,
            lines_seen(lines.drop_last(), known, seen0),
        )
    }
}

/// Processes the lines of a plain-text file, each line as one chunk, the
/// novelty set threaded through the whole of it.
pub fn process_text_lines(lines: &Vec<String>, known: &WordSet, unique: &mut WordSet) -> (out: Vec<
    String,
>)
    ensures
        final(unique)@ == lines_seen(lines@.map_values(|l: String| l@), known@, old(unique)@),
        out@.map_values(|w: String| w@) == lines_out(
            lines@.map_values(|l: String| l@),
            known@,
            old(unique)@,
        ),
{
    let ghost lns = lines@.map_values(|l: String| l@);
    let ghost seen0 = unique@;
    let mut out: Vec<String> = Vec::new();
    let n = lines.len();
    let mut i: usize = 0;
    while i < n
        invariant
            i <= n,
            n == lines@.len(),
            lns == lines@.map_values(|l: String| l@),
            unique@ == lines_seen(lns.take(i as int), known@, seen0),
            out@.map_values(|w: String| w@) == lines_out(lns.take(i as int), known@, seen0),
        decreases n - i,
    {
        proof {
            assert(lns.take(i + 1 as int).drop_last() =~= lns.take(i as int));
            assert(lns.take(i + 1 as int).last() == lns[i as int]);
        }
        let ghost out_before = out@;
        let mut part = process_chunk(lines[i].as_str(), known, unique);
        let ghost partv = part@;
        out.append(&mut part);
        proof {
            assert(out@.map_values(|w: String| w@) =~= out_before.map_values(|w: String| w@)
                + partv.map_values(|w: String| w@));
        }
        i += 1;
    }
    proof {
        assert(lns.take(n as int) =~= lns);
    }
    out
}


/// The novelty set only grows: whatever stood in it before a batch of
/// tokens still stands in it afterwards.
pub proof fn lemma_seen_monotonic(
    tokens: Seq<Seq<char>>,
    known: Set<Seq<char>>,
    seen0: Set<Seq<char>>,
)
    ensures
        seen0.subset_of(seen_after(tokens, known, seen0)),
    decreases tokens.len(),
{
    if tokens.len() > 0 {
        lemma_seen_monotonic(tokens.drop_last(), known, seen0);
    }
}

/// Every word of the output was novel against the state the batch started
/// in: it holds a letter, is non-empty, carries no artifact substring, and
/// stood in neither the dictionary nor the initial novelty set.
pub proof fn lemma_out_words_novel(
    tokens: Seq<Seq<char>>,
    known: Set<Seq<char>>,
    seen0: Set<Seq<char>>,
)
    ensures
        forall|j: int|
            0 <= j < out_after(tokens, known, seen0).len() ==> is_novel(
                #[trigger] out_after(tokens, known, seen0)[j],
                seen0,
                known,
            ),
    decreases tokens.len(),
{
    if tokens.len() > 0 {
        let prefix = tokens.drop_last();
        lemma_out_words_novel(prefix, known, seen0);
        lemma_seen_monotonic(prefix, known, seen0);
        let prev = out_after(prefix, known, seen0);
        let prev_seen = seen_after(prefix, known, seen0);
        let sw = sanitize_spec(tokens.last());
        assert forall|j: int| 0 <= j < out_after(tokens, known, seen0).len() implies is_novel(
            out_after(tokens, known, seen0)[j],
            seen0,
            known,
        ) by {
            if j < prev.len() {
                assert(out_after(tokens, known, seen0)[j] == prev[j]);
            } else {
                assert(is_novel(sw, prev_seen, known));
                assert(!seen0.contains(sw));
            }
        }
    }
}

/// Every word of the output stands in the novelty set the batch ends with.
pub proof fn lemma_out_in_seen(tokens: Seq<Seq<char>>, known: Set<Seq<char>>, seen0: Set<Seq<char>>)
    ensures
        forall|j: int|
            0 <= j < out_after(tokens, known, seen0).len() ==> seen_after(
                tokens,
                known,
                seen0,
            ).contains(#[trigger] out_after(tokens, known, seen0)[j]),
    decreases tokens.len(),
{
    if tokens.len() > 0 {
        let prefix = tokens.drop_last();
        lemma_out_in_seen(prefix, known, seen0);
        let prev = out_after(prefix, known, seen0);
        assert forall|j: int| 0 <= j < out_after(tokens, known, seen0).len() implies seen_after(
            tokens,
            known,
            seen0,
        ).contains(out_after(tokens, known, seen0)[j]) by {
            if j < prev.len() {
                assert(out_after(tokens, known, seen0)[j] == prev[j]);
                assert(seen_after(prefix, known, seen0).contains(prev[j]));
            }
        }
    }
}

/// No word is written twice: the first acceptance puts it into the novelty
/// set, and the filter rejects every later occurrence.
pub proof fn lemma_output_unique(
    tokens: Seq<Seq<char>>,
    known: Set<Seq<char>>,
    seen0: Set<Seq<char>>,
)
    ensures
        forall|j1: int, j2: int|
            0 <= j1 < j2 < out_after(tokens, known, seen0).len() ==> #[trigger] out_after(
                tokens,
                known,
                seen0,
            )[j1] != #[trigger] out_after(tokens, known, seen0)[j2],
    decreases tokens.len(),
{
    if tokens.len() > 0 {
        let prefix = tokens.drop_last();
        lemma_output_unique(prefix, known, seen0);
        lemma_out_in_seen(prefix, known, seen0);
        let prev = out_after(prefix, known, seen0);
        let prev_seen = seen_after(prefix, known, seen0);
        let sw = sanitize_spec(tokens.last());
        assert forall|j1: int, j2: int|
            0 <= j1 < j2 < out_after(tokens, known, seen0).len() implies out_after(
            tokens,
            known,
            seen0,
        )[j1] != out_after(tokens, known, seen0)[j2] by {
            if j2 < prev.len() {
                assert(out_after(tokens, known, seen0)[j1] == prev[j1]);
                assert(out_after(tokens, known, seen0)[j2] == prev[j2]);
            } else {
                assert(is_novel(sw, prev_seen, known));
                assert(out_after(tokens, known, seen0)[j1] == prev[j1]);
                assert(prev_seen.contains(prev[j1]));
                assert(!prev_seen.contains(sw));
            }
        }
    }
}

/// Once a sanitized word stands in the novelty set, no later token of the
/// run writes it again.
pub proof fn lemma_novelty_monotonic(
    tokens: Seq<Seq<char>>,
    known: Set<Seq<char>>,
    seen0: Set<Seq<char>>,
    w: Seq<char>,
)
    requires
        seen0.contains(w),
    ensures
        !out_after(tokens, known, seen0).contains(w),
{
    lemma_out_words_novel(tokens, known, seen0);
    if out_after(tokens, known, seen0).contains(w) {
        let j = choose|j: int|
            0 <= j < out_after(tokens, known, seen0).len() && out_after(tokens, known, seen0)[j]
                == w;
        assert(is_novel(w, seen0, known));
    }
}

/// A word that stands in the known-word dictionary, however often and in
/// whatever file it occurs, never reaches the output.
pub proof fn lemma_known_word_excluded(
    tokens: Seq<Seq<char>>,
    known: Set<Seq<char>>,
    seen0: Set<Seq<char>>,
    w: Seq<char>,
)
    requires
        known.contains(w),
    ensures
        !out_after(tokens, known, seen0).contains(w),
{
    lemma_out_words_novel(tokens, known, seen0);
    if out_after(tokens, known, seen0).contains(w) {
        let j = choose|j: int|
            0 <= j < out_after(tokens, known, seen0).len() && out_after(tokens, known, seen0)[j]
                == w;
        assert(is_novel(w, seen0, known));
    }
}

/// A sanitized word that carries the `htmlfilepos` anchor artifact or a
/// `http` fragment is never written, however novel it otherwise is.
pub proof fn lemma_artifact_suppressed(
    tokens: Seq<Seq<char>>,
    known: Set<Seq<char>>,
    seen0: Set<Seq<char>>,
    w: Seq<char>,
)
    requires
        contains_sub(w, "htmlfilepos"@) || contains_sub(w, "http"@),
    ensures
        !out_after(tokens, known, seen0).contains(w),
{
    lemma_out_words_novel(tokens, known, seen0);
    if out_after(tokens, known, seen0).contains(w) {
        let j = choose|j: int|
            0 <= j < out_after(tokens, known, seen0).len() && out_after(tokens, known, seen0)[j]
                == w;
        assert(is_novel(w, seen0, known));
    }
}

/// A sanitized word without a single letter — digits only, or empty — is
/// never written.
pub proof fn lemma_non_alphabetic_rejected(
    tokens: Seq<Seq<char>>,
    known: Set<Seq<char>>,
    seen0: Set<Seq<char>>,
    w: Seq<char>,
)
    requires
        !has_letter(w),
    ensures
        !out_after(tokens, known, seen0).contains(w),
{
    lemma_out_words_novel(tokens, known, seen0);
    if out_after(tokens, known, seen0).contains(w) {
        let j = choose|j: int|
            0 <= j < out_after(tokens, known, seen0).len() && out_after(tokens, known, seen0)[j]
                == w;
        assert(is_novel(w, seen0, known));
    }
}


/// Neither half of a concatenation holds the word, so neither does the
/// whole.
pub(crate) proof fn lemma_concat_not_contains(a: Seq<Seq<char>>, b: Seq<Seq<char>>, w: Seq<char>)
    requires
        !a.contains(w),
        !b.contains(w),
    ensures
        !(a + b).contains(w),
{
    if (a + b).contains(w) {
        let j = choose|j: int| 0 <= j < (a + b).len() && (a + b)[j] == w;
        if j < a.len() {
            assert(a[j] == w);
        } else {
            assert(b[j - a.len()] == w);
        }
    }
}

/// Once a sanitized word stands in the novelty set, no later line of the
/// same run — in this file or a later one whose lines continue the fold —
/// writes it again; and it stays in the set to the end.
pub proof fn lemma_lines_novelty_monotonic(
    lines: Seq<Seq<char>>,
    known: Set<Seq<char>>,
    seen0: Set<Seq<char>>,
    w: Seq<char>,
)
    requires
        seen0.contains(w),
    ensures
        !lines_out(lines, known, seen0).contains(w),
        lines_seen(lines, known, seen0).contains(w),
    decreases lines.len(),
{
    if lines.len() == 0 {
        if lines_out(lines, known, seen0).contains(w) {
            let j = choose|j: int|
                0 <= j < lines_out(lines, known, seen0).len() && lines_out(lines, known, seen0)[j]
                    == w;
        }
    } else {
        let prefix = lines.drop_last();
        lemma_lines_novelty_monotonic(prefix, known, seen0, w);
        let mid = lines_seen(prefix, known, seen0);
        let toks = tokens_of(clean_spec(lines.last()));
        lemma_novelty_monotonic(toks, known, mid, w);
        lemma_seen_monotonic(toks, known, mid);
        lemma_concat_not_contains(
            lines_out(prefix, known, seen0),
            out_after(toks, known, mid),
            w,
        );
    }
}

/// A word of the known-word dictionary never reaches the output, in
/// whichever line and however often it occurs.
pub proof fn lemma_lines_known_word_excluded(
    lines: Seq<Seq<char>>,
    known: Set<Seq<char>>,
    seen0: Set<Seq<char>>,
    w: Seq<char>,
)
    requires
        known.contains(w),
    ensures
        !lines_out(lines, known, seen0).contains(w),
    decreases lines.len(),
{
    if lines.len() == 0 {
        if lines_out(lines, known, seen0).contains(w) {
            let j = choose|j: int|
                0 <= j < lines_out(lines, known, seen0).len() && lines_out(lines, known, seen0)[j]
                    == w;
        }
    } else {
        let prefix = lines.drop_last();
        lemma_lines_known_word_excluded(prefix, known, seen0, w);
        let mid = lines_seen(prefix, known, seen0);
        let toks = tokens_of(clean_spec(lines.last()));
        lemma_known_word_excluded(toks, known, mid, w);
        lemma_concat_not_contains(
            lines_out(prefix, known, seen0),
            out_after(toks, known, mid),
            w,
        );
    }
}


/// Every word a run of chunks has written stands in the novelty set the
/// run ends with.
pub proof fn lemma_lines_out_in_seen(
    lines: Seq<Seq<char>>,
    known: Set<Seq<char>>,
    seen0: Set<Seq<char>>,
)
    ensures
        forall|j: int|
            0 <= j < lines_out(lines, known, seen0).len() ==> lines_seen(
                lines,
                known,
                seen0,
            ).contains(#[trigger] lines_out(lines, known, seen0)[j]),
    decreases lines.len(),
{
    if lines.len() > 0 {
        let prefix = lines.drop_last();
        lemma_lines_out_in_seen(prefix, known, seen0);
        let mid = lines_seen(prefix, known, seen0);
        let toks = tokens_of(clean_spec(lines.last()));
        lemma_out_in_seen(toks, known, mid);
        lemma_seen_monotonic(toks, known, mid);
        let po = lines_out(prefix, known, seen0);
        let co = out_after(toks, known, mid);
        assert forall|j: int| 0 <= j < lines_out(lines, known, seen0).len() implies lines_seen(
            lines,
            known,
            seen0,
        ).contains(lines_out(lines, known, seen0)[j]) by {
            if j < po.len() {
                assert(lines_out(lines, known, seen0)[j] == po[j]);
                assert(mid.contains(po[j]));
            } else {
                assert(lines_out(lines, known, seen0)[j] == co[j - po.len()]);
                assert(seen_after(toks, known, mid).contains(co[j - po.len()]));
            }
        }
    }
}

/// A whole run writes no word twice: across every file and chunk of the
/// run, in order, the output lines are pairwise distinct. This is the
/// run-wide face of novelty monotonicity: the first acceptance of a word
/// puts it into the one novelty set the run threads through every
/// extractor, and the filter rejects each later occurrence.
pub proof fn lemma_run_output_unique(
    lines: Seq<Seq<char>>,
    known: Set<Seq<char>>,
    seen0: Set<Seq<char>>,
)
    ensures
        forall|j1: int, j2: int|
            0 <= j1 < j2 < lines_out(lines, known, seen0).len() ==> #[trigger] lines_out(
                lines,
                known,
                seen0,
            )[j1] != #[trigger] lines_out(lines, known, seen0)[j2],
    decreases lines.len(),
{
    if lines.len() > 0 {
        let prefix = lines.drop_last();
        lemma_run_output_unique(prefix, known, seen0);
        lemma_lines_out_in_seen(prefix, known, seen0);
        let mid = lines_seen(prefix, known, seen0);
        let toks = tokens_of(clean_spec(lines.last()));
        lemma_output_unique(toks, known, mid);
        lemma_out_words_novel(toks, known, mid);
        let po = lines_out(prefix, known, seen0);
        let co = out_after(toks, known, mid);
        assert forall|j1: int, j2: int|
            0 <= j1 < j2 < lines_out(lines, known, seen0).len() implies lines_out(
            lines,
            known,
            seen0,
        )[j1] != lines_out(lines, known, seen0)[j2] by {
            if j2 < po.len() {
                assert(lines_out(lines, known, seen0)[j1] == po[j1]);
                assert(lines_out(lines, known, seen0)[j2] == po[j2]);
            } else if j1 >= po.len() {
                assert(lines_out(lines, known, seen0)[j1] == co[j1 - po.len()]);
                assert(lines_out(lines, known, seen0)[j2] == co[j2 - po.len()]);
            } else {
                assert(lines_out(lines, known, seen0)[j1] == po[j1]);
                assert(lines_out(lines, known, seen0)[j2] == co[j2 - po.len()]);
                assert(mid.contains(po[j1]));
                assert(is_novel(co[j2 - po.len()], mid, known));
            }
        }
    }
}


/// Folding one run of chunks after another is folding their concatenation:
/// a whole run over many files, each contributing its chunks in order, is
/// one fold of all the chunks, threading one novelty set.
pub proof fn lemma_run_concat(
    a: Seq<Seq<char>>,
    b: Seq<Seq<char>>,
    known: Set<Seq<char>>,
    seen0: Set<Seq<char>>,
)
    ensures
        lines_seen(a + b, known, seen0) == lines_seen(b, known, lines_seen(a, known, seen0)),
        lines_out(a + b, known, seen0) == lines_out(a, known, seen0) + lines_out(
            b,
            known,
            lines_seen(a, known, seen0),
        ),
    decreases b.len(),
{
    let seen_a = lines_seen(a, known, seen0);
    if b.len() == 0 {
        assert(a + b =~= a);
        assert(lines_out(a, known, seen0) + lines_out(b, known, seen_a) =~= lines_out(
            a,
            known,
            seen0,
        ));
    } else {
        lemma_run_concat(a, b.drop_last(), known, seen0);
        assert((a + b).drop_last() =~= a + b.drop_last());
        assert((a + b).last() == b.last());
        assert(lines_out(a, known, seen0) + (lines_out(b.drop_last(), known, seen_a) + chunk_out(
            b.last(),
            known,
            lines_seen(b.drop_last(), known, seen_a),
        )) =~= (lines_out(a, known, seen0) + lines_out(b.drop_last(), known, seen_a)) + chunk_out(
            b.last(),
            known,
            lines_seen(b.drop_last(), known, seen_a),
        ));
    }
}

/// One chunk of raw text is the run of just that chunk.
pub proof fn lemma_chunk_is_singleton_run(
    text: Seq<char>,
    known: Set<Seq<char>>,
    seen0: Set<Seq<char>>,
)
    ensures
        chunk_seen(text, known, seen0) == lines_seen(seq![text], known, seen0),
        chunk_out(text, known, seen0) == lines_out(seq![text], known, seen0),
{
    assert(seq![text].drop_last() =~= Seq::<Seq<char>>::empty());
    assert(seq![text].last() == text);
    assert(lines_seen(seq![text].drop_last(), known, seen0) == seen0);
    assert(lines_out(seq![text].drop_last(), known, seen0) =~= Seq::<Seq<char>>::empty());
    assert(lines_out(seq![text], known, seen0) =~= chunk_out(text, known, seen0));
}

} // verus!

//! The batch orchestrator's decisions: which extractor a directory entry
//! goes to, what the run's output file is called, and how the elapsed time
//! is reported. The surrounding I/O — listing the directory, opening files,
//! writing words — stays outside the library.

use vstd::prelude::*;
use crate::ext::push_char;
use crate::text::tokens_of;
use crate::words::str_eq;

verus! {

/// A file name's extension: the part after the last dot, or nothing when
/// the name has no dot past its first character (dotfiles and bare names
/// have none).
pub open spec fn extension_spec(name: Seq<char>) -> Option<Seq<char>>
    decreases name.len(),
{
    if name.len() <= 1 {
        None
    } else if name.last() == '.' {
        Some(Seq::empty())
    } else {
        match extension_spec(name.drop_last()) {
            Some(e) => Some(e.push(name.last())),
            None => None,
        }
    }
}

/// The extension equals the characters after the last dot, when that dot is
/// not the first character.
proof fn lemma_extension_at(name: Seq<char>, d: int)
    requires
        1 <= d < name.len(),
        name[d] == '.',
        forall|t: int| d < t < name.len() ==> name[t] != '.',
    ensures
        extension_spec(name) == Some(name.subrange(d + 1, name.len() as int)),
    decreases name.len(),
{
    if d == name.len() - 1 {
        assert(name.subrange(d + 1, name.len() as int) =~= Seq::<char>::empty());
    } else {
        lemma_extension_at(name.drop_last(), d);
        assert(name.subrange(d + 1, name.len() as int) =~= name.drop_last().subrange(
            d + 1,
            name.len() - 1,
        ).push(name.last()));
    }
}

/// A name with no dot past its first character has no extension.
proof fn lemma_extension_none(name: Seq<char>)
    requires
        forall|t: int| 1 <= t < name.len() ==> name[t] != '.',
    ensures
        extension_spec(name) is None,
    decreases name.len(),
{
    if name.len() > 1 {
        lemma_extension_none(name.drop_last());
    }
}

/// The extension of a file name, as the dispatcher reads it.
pub fn extension_of(name: &str) -> (r: Option<String>)
    ensures
        r matches Some(e) ==> extension_spec(name@) == Some(e@),
        r is None ==> extension_spec(name@) is None,
{
    let n = name.unicode_len();
    let mut i: usize = n;
    while i > 0
        invariant
            i <= n,
            n == name@.len(),
            forall|t: int| i <= t < n ==> name@[t] != '.',
        decreases i,
    {
        if name.get_char(i - 1) == '.' {
            if i - 1 == 0 {
                proof {
                    lemma_extension_none(name@);
                }
                return None;
            }
            let e = name.substring_char(i, n);
            proof {
                lemma_extension_at(name@, i - 1 as int);
            }
            return Some(String::from_str(e));
        }
        i -= 1;
    }
    proof {
        lemma_extension_none(name@);
    }
    None
}

/// The supported input formats, and the unsupported remainder.
#[derive(Clone, Copy, PartialEq, Eq, Structural, Debug)]
pub enum FileKind {
    Epub,
    Pdf,
    PlainText,
    Unsupported,
}

/// Which extractor an extension selects.
pub open spec fn classify_spec(e: Seq<char>) -> FileKind {
    if e == "epub"@ {
        FileKind::Epub
    } else if e == "pdf"@ {
        FileKind::Pdf
    } else if e == "txt"@ {
        FileKind::PlainText
    } else {
        FileKind::Unsupported
    }
}

/// Dispatches an extension to its extractor: `epub`, `pdf` and `txt` have
/// one each; every other extension is skipped with a logged message.
pub fn classify_extension(ext: &str) -> (r: FileKind)
    ensures
        r == classify_spec(ext@),
{
    if str_eq(ext, "epub") {
        FileKind::Epub
    } else if str_eq(ext, "pdf") {
        FileKind::Pdf
    } else if str_eq(ext, "txt") {
        FileKind::PlainText
    } else {
        FileKind::Unsupported
    }
}

/// The time-of-day made filesystem-safe: every colon becomes an underscore.
pub open spec fn colon_to_underscore(s: Seq<char>) -> Seq<char> {
    s.map_values(|c: char| if c == ':' { '_' } else { c })
}

/// The output file's name for a run, built from the timestamp's text: the
/// date part, an underscore, the time-of-day part with its colons replaced
/// by underscores, and the `.txt` suffix. Nothing when the timestamp does
/// not hold two whitespace-separated parts.
pub open spec fn output_name_spec(ts: Seq<char>) -> Option<Seq<char>> {
    let parts = tokens_of(ts);
    if parts.len() < 2 {
        None
    } else {
        Some(parts[0] + seq!['_'] + colon_to_underscore(parts[1]) + ".txt"@)
    }
}

/// Builds the run's output file name out of the timestamp's text.
pub fn output_file_name(timestamp: &str) -> (r: Option<String>)
    ensures
        r matches Some(f) ==> output_name_spec(timestamp@) == Some(f@),
        r is None ==> output_name_spec(timestamp@) is None,
{
    let parts = crate::text::split_whitespace_tokens(timestamp);
    let ghost partsv = parts@.map_values(|t: String| t@);
    if parts.len() < 2 {
        return None;
    }
    let mut name = parts[0].clone();
    push_char(&mut name, '_');
    let time = &parts[1];
    let m = time.as_str().unicode_len();
    let mut j: usize = 0;
    while j < m
        invariant
            j <= m,
            m == time@.len(),
            time@ == partsv[1],
            name@ == partsv[0] + seq!['_'] + colon_to_underscore(time@.take(j as int)),
        decreases m - j,
    {
        let c = time.as_str().get_char(j);
        let rc: char = if c == ':' {
            '_'
        } else {
            c
        };
        push_char(&mut name, rc);
        proof {
            assert(name@ =~= partsv[0] + seq!['_'] + colon_to_underscore(
                time@.take(j + 1 as int),
            ));
        }
        j += 1;
    }
    let name = name.concat(".txt");
    proof {
        assert(time@.take(m as int) =~= time@);
        assert(name@ =~= partsv[0] + seq!['_'] + colon_to_underscore(partsv[1]) + ".txt"@);
    }
    Some(name)
}

/// How the elapsed time is reported: under a second, the millisecond count
/// as it stands, flagged true; from one second up, whole seconds, flagged
/// false.
pub fn elapsed_display(time_in_ms: u64) -> (r: (u64, bool))
    ensures
        time_in_ms < 1000 ==> r == (time_in_ms, true),
        time_in_ms >= 1000 ==> r == (time_in_ms / 1000, false),
{
    if time_in_ms < 1000 {
        (time_in_ms, true)
    } else {
        (time_in_ms / 1000, false)
    }
}

} // verus!

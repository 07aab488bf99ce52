//! Cleaning raw extracted text and splitting it into candidate tokens.
//! Cleaning collapses a fixed list of extraction artifacts — double hyphen,
//! single hyphen, a mis-decoded em dash, and a literal opening bracket — into
//! spaces; tokenizing splits the result on runs of whitespace.

use vstd::prelude::*;
use crate::ext::push_char;

verus! {

/// The whitespace characters that tokens are split on: the Unicode
/// White_Space set, as std's whitespace splitting uses it.
pub open spec fn is_space_char(c: char) -> bool {
    ||| c == ' '
    ||| c == '\t'
    ||| c == '\n'
    ||| c == '\u{000B}'
    ||| c == '\u{000C}'
    ||| c == '\r'
    ||| c == '\u{0085}'
    ||| c == '\u{00A0}'
    ||| c == '\u{1680}'
    ||| ('\u{2000}' <= c && c <= '\u{200A}')
    ||| c == '\u{2028}'
    ||| c == '\u{2029}'
    ||| c == '\u{202F}'
    ||| c == '\u{205F}'
    ||| c == '\u{3000}'
}

/// Whether this character is one that tokens are split on.
pub fn is_space(c: char) -> (r: bool)
    ensures
        r == is_space_char(c),
{
    c == ' ' || c == '\t' || c == '\n' || c == '\u{000B}' || c == '\u{000C}' || c == '\r'
        || c == '\u{0085}' || c == '\u{00A0}' || c == '\u{1680}' || ('\u{2000}' <= c
        && c <= '\u{200A}') || c == '\u{2028}' || c == '\u{2029}' || c == '\u{202F}'
        || c == '\u{205F}' || c == '\u{3000}'
}

/// What replacing every occurrence of a non-empty pattern with one space
/// yields, scanning from the left without overlap.
pub open spec fn replace_spec(s: Seq<char>, pat: Seq<char>) -> Seq<char>
    decreases s.len(),
{
    if pat.len() == 0 || s.len() == 0 {
        s
    } else if s.len() >= pat.len() && s.take(pat.len() as int) == pat {
        seq![' '] + replace_spec(s.skip(pat.len() as int), pat)
    } else {
        seq![s[0]] + replace_spec(s.skip(1), pat)
    }
}

/// Replaces every occurrence of the pattern with a single space, scanning
/// from the left without overlap.
pub fn replace_with_space(s: &str, pat: &str) -> (r: String)
    ensures
        r@ == replace_spec(s@, pat@),
{
    let n = s.unicode_len();
    let m = pat.unicode_len();
    if m == 0 {
        return s.to_owned();
    }
    let mut out = String::new();
    let mut i: usize = 0;
    proof {
        assert(s@.skip(0) =~= s@);
        assert(out@ + replace_spec(s@, pat@) =~= replace_spec(s@, pat@));
    }
    while i < n
        invariant
            i <= n,
            1 <= m,
            n == s@.len(),
            m == pat@.len(),
            out@ + replace_spec(s@.skip(i as int), pat@) == replace_spec(s@, pat@),
        decreases n - i,
    {
        let ghost rest = s@.skip(i as int);
        if m <= n - i && crate::words::match_at(s, n, i, pat, m) {
            proof {
                assert(rest.take(m as int) =~= s@.subrange(i as int, i + m as int));
                assert(rest.skip(m as int) =~= s@.skip(i + m as int));
            }
            push_char(&mut out, ' ');
            i += m;
        } else {
            proof {
                if m <= n - i {
                    assert(rest.take(m as int) =~= s@.subrange(i as int, i + m as int));
                } else {
                    assert(rest.len() < m);
                }
                assert(rest.skip(1) =~= s@.skip(i + 1 as int));
                assert(rest[0] == s@[i as int]);
            }
            let c = s.get_char(i);
            push_char(&mut out, c);
            i += 1;
        }
    }
    proof {
        assert(s@.skip(n as int) =~= Seq::<char>::empty());
        assert(out@ =~= out@ + replace_spec(s@.skip(n as int), pat@));
    }
    out
}

/// What cleaning raw text yields: the double hyphen, the single hyphen, the
/// mis-decoded em dash, and the opening bracket are each replaced by a
/// space, in that order.
pub open spec fn clean_spec(s: Seq<char>) -> Seq<char> {
    replace_spec(
        replace_spec(replace_spec(replace_spec(s, "--"@), "-"@), "\u{e2}\u{20ac}\u{201d}"@),
        "["@,
    )
}

/// Cleans raw extracted text: collapses the artifact substrings into spaces
/// so that tokenizing treats them as boundaries.
pub fn clean_text(text: &str) -> (r: String)
    ensures
        r@ == clean_spec(text@),
{
    let a = replace_with_space(text, "--");
    let b = replace_with_space(a.as_str(), "-");
    let c = replace_with_space(b.as_str(), "\u{e2}\u{20ac}\u{201d}");
    replace_with_space(c.as_str(), "[")
}

/// The tokens found in `s` when `cur` holds the characters of a token
/// already begun: whitespace closes the open token, every other character
/// extends it.
pub open spec fn split_rec(s: Seq<char>, cur: Seq<char>) -> Seq<Seq<char>>
    decreases s.len(),
{
    if s.len() == 0 {
        if cur.len() == 0 {
            Seq::empty()
        } else {
            seq![cur]
        }
    } else if is_space_char(s[0]) {
        if cur.len() == 0 {
            split_rec(s.drop_first(), Seq::empty())
        } else {
            seq![cur] + split_rec(s.drop_first(), Seq::empty())
        }
    } else {
        split_rec(s.drop_first(), cur.push(s[0]))
    }
}

/// The whitespace-delimited tokens of `s`, in order, none of them empty.
pub open spec fn tokens_of(s: Seq<char>) -> Seq<Seq<char>> {
    split_rec(s, Seq::empty())
}

/// Splits text into its whitespace-delimited tokens, in order.
pub fn split_whitespace_tokens(s: &str) -> (r: Vec<String>)
    ensures
        r@.map_values(|t: String| t@) == tokens_of(s@),
{
    let n = s.unicode_len();
    let mut out: Vec<String> = Vec::new();
    let mut cur = String::new();
    let mut i: usize = 0;
    proof {
        assert(s@.skip(0) =~= s@);
        assert(out@.map_values(|t: String| t@) =~= Seq::<Seq<char>>::empty());
        assert(out@.map_values(|t: String| t@) + split_rec(s@, cur@) =~= split_rec(s@, cur@));
        assert(cur@ =~= Seq::<char>::empty());
    }
    while i < n
        invariant
            i <= n,
            n == s@.len(),
            out@.map_values(|t: String| t@) + split_rec(s@.skip(i as int), cur@) == tokens_of(s@),
        decreases n - i,
    {
        let ghost rest = s@.skip(i as int);
        proof {
            assert(rest.drop_first() =~= s@.skip(i + 1 as int));
            assert(rest[0] == s@[i as int]);
        }
        let c = s.get_char(i);
        if is_space(c) {
            if cur.as_str().is_empty() {
                proof {
                    assert(cur@ =~= Seq::<char>::empty());
                }
            } else {
                let ghost out0 = out@;
                let ghost curv = cur@;
                out.push(cur);
                cur = String::new();
                proof {
                    assert(out@.map_values(|t: String| t@) =~= out0.map_values(
                        |t: String| t@,
                    ).push(curv));
                    assert(out0.map_values(|t: String| t@).push(curv) + split_rec(
                        s@.skip(i + 1 as int),
                        cur@,
                    ) =~= out0.map_values(|t: String| t@) + (seq![curv] + split_rec(
                        s@.skip(i + 1 as int),
                        cur@,
                    )));
                }
            }
        } else {
            push_char(&mut cur, c);
        }
        i += 1;
    }
    proof {
        assert(s@.skip(n as int) =~= Seq::<char>::empty());
    }
    if !cur.as_str().is_empty() {
        out.push(cur);
        proof {
            assert(out@.map_values(|t: String| t@) =~= tokens_of(s@));
        }
    } else {
        proof {
            assert(out@.map_values(|t: String| t@) =~= tokens_of(s@));
        }
    }
    out
}

} // verus!

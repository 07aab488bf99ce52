//! The per-format extractors. An EPUB is walked chapter by chapter and each
//! chapter's HTML is rendered to text; a PDF gives its whole text in one
//! call; both then run through the cleaning and filtering pipeline with the
//! run's shared novelty set.

use vstd::prelude::*;
use crate::ext::{
    epub_cursor, epub_current_page, epub_go_next, epub_num_pages, epub_ok, epub_pages,
    epub_pages_of, html_ok, html_to_text, open_epub, page_ok, pdf_ok, pdf_to_text, text_of_html,
    text_of_pdf, EpubBook,
};
use crate::pipeline::{chunk_out, chunk_seen, process_chunk};
use crate::pipeline::{lemma_concat_not_contains, lemma_novelty_monotonic, lemma_known_word_excluded, lemma_seen_monotonic};
use crate::text::tokens_of;
use crate::text::clean_spec;
use crate::words::WordSet;

verus! {

/// The novelty set after the first `k` chapters of an EPUB, in spine order,
/// have each been rendered to text and filtered.
pub open spec fn epub_seen(
    pages: Seq<Seq<u8>>,
    k: int,
    known: Set<Seq<char>>,
    seen0: Set<Seq<char>>,
) -> Set<Seq<char>>
    decreases k,
{
    if k <= 0 {
        seen0
    } else {
        chunk_seen(text_of_html(pages[k - 1]), known, epub_seen(pages, k - 1, known, seen0))
    }
}

/// The words written for the first `k` chapters of an EPUB, in order.
pub open spec fn epub_out(
    pages: Seq<Seq<u8>>,
    k: int,
    known: Set<Seq<char>>,
    seen0: Set<Seq<char>>,
) -> Seq<Seq<char>>
    decreases k,
{
    if k <= 0 {
        Seq::empty()
    } else {
        epub_out(pages, k - 1, known, seen0) + chunk_out(
            text_of_html(pages[k - 1]),
            known,
            epub_seen(pages, k - 1, known, seen0),
        )
    }
}

/// How many chapters a walk of the EPUB visits: every one up to, but
/// excluding, the last. The final chapter is deliberately left unvisited;
/// that boundary is part of this tool's observable behaviour and is kept.
pub open spec fn epub_visited(pages: Seq<Seq<u8>>) -> int {
    if pages.len() == 0 {
        0
    } else {
        pages.len() - 1
    }
}

/// Whether a walk of this container runs to its end: the container holds a
/// chapter at all, and every visited chapter can be read and its HTML
/// rendered.
pub open spec fn epub_walk_ok(book: EpubBook) -> bool {
    &&& epub_pages(book).len() >= 1
    &&& forall|i: int|
        0 <= i < epub_visited(epub_pages(book)) ==> #[trigger] page_ok(book, i) && html_ok(
            epub_pages(book)[i],
        )
}

/// Renders one chapter's HTML to plain text and runs it through the
/// pipeline. None means the HTML could not be rendered; the novelty set is
/// then untouched.
pub fn process_page(html: &Vec<u8>, known: &WordSet, unique: &mut WordSet) -> (r: Option<
    Vec<String>,
>)
    ensures
        r is Some <==> html_ok(html@),
        r matches Some(out) ==> {
            &&& final(unique)@ == chunk_seen(text_of_html(html@), known@, old(unique)@)
            &&& out@.map_values(|w: String| w@) == chunk_out(
                text_of_html(html@),
                known@,
                old(unique)@,
            )
        },
        r is None ==> *final(unique) == *old(unique),
{
    match html_to_text(html) {
        Some(t) => Some(process_chunk(t.as_str(), known, unique)),
        None => None,
    }
}

/// Walks an open EPUB's chapters from the first up to, but excluding, the
/// last, filtering each one's text. Returns the accepted words and whether
/// the walk ran to its end, which it does exactly when the container holds
/// a chapter and every visited chapter is readable and renderable. A
/// container without chapters, an unreadable chapter or an unrenderable one
/// stops the walk at the first such chapter, with the words accepted so
/// far; the caller treats that as fatal.
pub fn process_epub_book(book: &mut EpubBook, known: &WordSet, unique: &mut WordSet) -> (r: (
    Vec<String>,
    bool,
))
    requires
        epub_cursor(*old(book)) == 0,
    ensures
        epub_pages(*final(book)) == epub_pages(*old(book)),
        r.1 == epub_walk_ok(*old(book)),
        r.1 ==> {
            &&& final(unique)@ == epub_seen(
                epub_pages(*old(book)),
                epub_visited(epub_pages(*old(book))),
                known@,
                old(unique)@,
            )
            &&& r.0@.map_values(|w: String| w@) == epub_out(
                epub_pages(*old(book)),
                epub_visited(epub_pages(*old(book))),
                known@,
                old(unique)@,
            )
        },
        !r.1 ==> exists|k: int|
            #![trigger epub_seen(epub_pages(*old(book)), k, known@, old(unique)@)]
            {
                &&& 0 <= k <= epub_visited(epub_pages(*old(book)))
                &&& forall|i: int| 0 <= i < k ==> #[trigger] page_ok(*old(book), i)
                &&& forall|i: int| 0 <= i < k ==> #[trigger] html_ok(epub_pages(*old(book))[i])
                &&& k < epub_visited(epub_pages(*old(book))) ==> !(page_ok(*old(book), k)
                    && html_ok(epub_pages(*old(book))[k]))
                &&& final(unique)@ == epub_seen(epub_pages(*old(book)), k, known@, old(unique)@)
                &&& r.0@.map_values(|w: String| w@) == epub_out(
                    epub_pages(*old(book)),
                    k,
                    known@,
                    old(unique)@,
                )
            },
{
    let ghost pages = epub_pages(*book);
    let ghost seen0 = unique@;
    let mut out: Vec<String> = Vec::new();
    let mut index: usize = 0;
    let last_page = epub_num_pages(book);
    if last_page == 0 {
        proof {
            assert(!epub_walk_ok(*old(book)));
            assert(out@.map_values(|w: String| w@) =~= epub_out(pages, 0, known@, seen0));
            assert(exists|k: int|
                #![trigger epub_seen(epub_pages(*old(book)), k, known@, old(unique)@)]
                {
                    &&& 0 <= k <= epub_visited(epub_pages(*old(book)))
                    &&& forall|i: int| 0 <= i < k ==> #[trigger] page_ok(*old(book), i)
                    &&& forall|i: int| 0 <= i < k ==> #[trigger] html_ok(epub_pages(*old(book))[i])
                    &&& k < epub_visited(epub_pages(*old(book))) ==> !(page_ok(*old(book), k)
                        && html_ok(epub_pages(*old(book))[k]))
                    &&& unique@ == epub_seen(epub_pages(*old(book)), k, known@, old(unique)@)
                    &&& out@.map_values(|w: String| w@) == epub_out(
                        epub_pages(*old(book)),
                        k,
                        known@,
                        old(unique)@,
                    )
                }) by {
                assert(0 <= 0 <= epub_visited(epub_pages(*old(book))));
                assert(forall|i: int| 0 <= i < 0 ==> #[trigger] page_ok(*old(book), i));
                assert(forall|i: int| 0 <= i < 0 ==> #[trigger] html_ok(epub_pages(*old(book))[i]));
                assert(!(0 < epub_visited(epub_pages(*old(book)))));
                assert(unique@ == epub_seen(epub_pages(*old(book)), 0, known@, old(unique)@));
                assert(out@.map_values(|w: String| w@) == epub_out(
                    epub_pages(*old(book)),
                    0,
                    known@,
                    old(unique)@,
                ));
            }
        }
        return (out, false);
    }
    while index + 1 < last_page
        invariant
            pages == epub_pages(*old(book)),
            seen0 == old(unique)@,
            epub_pages(*book) == pages,
            epub_cursor(*book) == index,
            forall|i: int| #[trigger] page_ok(*book, i) == page_ok(*old(book), i),
            last_page == pages.len(),
            1 <= last_page,
            index < last_page,
            forall|i: int| 0 <= i < index ==> #[trigger] page_ok(*old(book), i),
            forall|i: int| 0 <= i < index ==> #[trigger] html_ok(pages[i]),
            unique@ == epub_seen(pages, index as int, known@, seen0),
            out@.map_values(|w: String| w@) == epub_out(pages, index as int, known@, seen0),
        decreases last_page - index,
    {
        let html = match epub_current_page(book) {
            Some(h) => h,
            None => {
                proof {
                    assert(!page_ok(*old(book), index as int));
                    assert(!epub_walk_ok(*old(book)));
                    assert((index as int) < epub_visited(pages));
                    assert(!(page_ok(*old(book), index as int) && html_ok(pages[index as int])));
                    assert(0 <= index as int <= epub_visited(pages));
                    assert(unique@ == epub_seen(pages, index as int, known@, seen0));
                    assert(out@.map_values(|w: String| w@) == epub_out(
                        pages,
                        index as int,
                        known@,
                        seen0,
                    ));
                }
                return (out, false);
            },
        };
        proof {
            assert(html@ == pages[index as int]);
            assert(page_ok(*old(book), index as int));
        }
        let ghost out_before = out@;
        let mut part = match process_page(&html, known, unique) {
            Some(p) => p,
            None => {
                proof {
                    assert(!html_ok(pages[index as int]));
                    assert(!epub_walk_ok(*old(book)));
                    assert((index as int) < epub_visited(pages));
                    assert(!(page_ok(*old(book), index as int) && html_ok(pages[index as int])));
                    assert(0 <= index as int <= epub_visited(pages));
                    assert(unique@ == epub_seen(pages, index as int, known@, seen0));
                    assert(out@.map_values(|w: String| w@) == epub_out(
                        pages,
                        index as int,
                        known@,
                        seen0,
                    ));
                }
                return (out, false);
            },
        };
        proof {
            assert(html_ok(pages[index as int]));
        }
        let ghost partv = part@;
        out.append(&mut part);
        proof {
            assert(out@.map_values(|w: String| w@) =~= out_before.map_values(|w: String| w@)
                + partv.map_values(|w: String| w@));
        }
        let advanced = epub_go_next(book);
        proof {
            assert(advanced);
        }
        index += 1;
        proof {
            assert forall|i: int| 0 <= i < index implies #[trigger] page_ok(*old(book), i) by {
                if i == index - 1 {
                    assert(page_ok(*old(book), i));
                }
            }
            assert forall|i: int| 0 <= i < index implies #[trigger] html_ok(pages[i]) by {
                if i == index - 1 {
                    assert(html_ok(pages[i]));
                }
            }
        }
    }
    proof {
        assert(index as int == epub_visited(pages));
        assert(epub_walk_ok(*old(book)));
    }
    (out, true)
}

/// Opens an EPUB container out of its bytes and walks its chapters through
/// the pipeline. None means the container could not be opened — exactly
/// when epub parses nothing out of the bytes; the novelty set is then
/// untouched. Within Some, the flag says whether the walk ran to its end;
/// the accepted words correspond to a prefix of the visited chapters of the
/// container those bytes hold, the whole of them when the flag is set.
pub fn process_epub_bytes(bytes: Vec<u8>, known: &WordSet, unique: &mut WordSet) -> (r: Option<(
    Vec<String>,
    bool,
)>)
    ensures
        r is Some <==> epub_ok(bytes@),
        r is None ==> *final(unique) == *old(unique),
        r matches Some(p) ==> exists|k: int|
            {
                &&& 0 <= k <= epub_visited(epub_pages_of(bytes@))
                &&& (p.1 ==> k == epub_visited(epub_pages_of(bytes@)))
                &&& final(unique)@ == epub_seen(epub_pages_of(bytes@), k, known@, old(unique)@)
                &&& p.0@.map_values(|w: String| w@) == epub_out(
                    epub_pages_of(bytes@),
                    k,
                    known@,
                    old(unique)@,
                )
            },
{
    let ghost b = bytes@;
    let mut book = match open_epub(bytes) {
        Some(d) => d,
        None => {
            return None;
        },
    };
    let ghost book0 = book;
    let (words, ok) = process_epub_book(&mut book, known, unique);
    proof {
        assert(epub_pages(book0) == epub_pages_of(b));
        if ok {
            assert(unique@ == epub_seen(
                epub_pages_of(b),
                epub_visited(epub_pages_of(b)),
                known@,
                old(unique)@,
            ));
            assert(words@.map_values(|w: String| w@) == epub_out(
                epub_pages_of(b),
                epub_visited(epub_pages_of(b)),
                known@,
                old(unique)@,
            ));
        } else {
            let k = choose|k: int|
                {
                    &&& 0 <= k <= epub_visited(epub_pages(book0))
                    &&& unique@ == epub_seen(epub_pages(book0), k, known@, old(unique)@)
                    &&& words@.map_values(|w: String| w@) == epub_out(
                        epub_pages(book0),
                        k,
                        known@,
                        old(unique)@,
                    )
                };
            assert(unique@ == epub_seen(epub_pages_of(b), k, known@, old(unique)@));
            assert(words@.map_values(|w: String| w@) == epub_out(
                epub_pages_of(b),
                k,
                known@,
                old(unique)@,
            ));
        }
    }
    Some((words, ok))
}

/// Extracts the whole text of a PDF given as bytes and runs it through the
/// pipeline in one pass. None means extraction failed — exactly when
/// pdf_extract recovers no text from the bytes; the novelty set is then
/// untouched.
pub fn process_pdf_bytes(bytes: &Vec<u8>, known: &WordSet, unique: &mut WordSet) -> (r: Option<
    Vec<String>,
>)
    ensures
        r is Some <==> pdf_ok(bytes@),
        r matches Some(out) ==> {
            &&& final(unique)@ == chunk_seen(text_of_pdf(bytes@), known@, old(unique)@)
            &&& out@.map_values(|w: String| w@) == chunk_out(
                text_of_pdf(bytes@),
                known@,
                old(unique)@,
            )
        },
        r is None ==> *final(unique) == *old(unique),
{
    match pdf_to_text(bytes) {
        Some(t) => Some(process_chunk(t.as_str(), known, unique)),
        None => None,
    }
}


/// Once a sanitized word stands in the novelty set, no later chapter of the
/// walk writes it again; and it stays in the set to the end of the walk.
pub proof fn lemma_epub_novelty_monotonic(
    pages: Seq<Seq<u8>>,
    k: int,
    known: Set<Seq<char>>,
    seen0: Set<Seq<char>>,
    w: Seq<char>,
)
    requires
        seen0.contains(w),
    ensures
        !epub_out(pages, k, known, seen0).contains(w),
        epub_seen(pages, k, known, seen0).contains(w),
    decreases
            if k <= 0 {
                0int
            } else {
                k
            },
{
    if k <= 0 {
        if epub_out(pages, k, known, seen0).contains(w) {
            let j = choose|j: int|
                0 <= j < epub_out(pages, k, known, seen0).len() && epub_out(pages, k, known, seen0)[j]
                    == w;
        }
    } else {
        lemma_epub_novelty_monotonic(pages, k - 1, known, seen0, w);
        let mid = epub_seen(pages, k - 1, known, seen0);
        let toks = tokens_of(clean_spec(text_of_html(pages[k - 1])));
        lemma_novelty_monotonic(toks, known, mid, w);
        lemma_seen_monotonic(toks, known, mid);
        lemma_concat_not_contains(epub_out(pages, k - 1, known, seen0), crate::pipeline::out_after(toks, known, mid), w);
    }
}

/// A word of the known-word dictionary never reaches the output of an EPUB
/// walk, in whichever chapter and however often it occurs.
pub proof fn lemma_epub_known_word_excluded(
    pages: Seq<Seq<u8>>,
    k: int,
    known: Set<Seq<char>>,
    seen0: Set<Seq<char>>,
    w: Seq<char>,
)
    requires
        known.contains(w),
    ensures
        !epub_out(pages, k, known, seen0).contains(w),
    decreases
            if k <= 0 {
                0int
            } else {
                k
            },
{
    if k <= 0 {
        if epub_out(pages, k, known, seen0).contains(w) {
            let j = choose|j: int|
                0 <= j < epub_out(pages, k, known, seen0).len() && epub_out(pages, k, known, seen0)[j]
                    == w;
        }
    } else {
        lemma_epub_known_word_excluded(pages, k - 1, known, seen0, w);
        let mid = epub_seen(pages, k - 1, known, seen0);
        let toks = tokens_of(clean_spec(text_of_html(pages[k - 1])));
        lemma_known_word_excluded(toks, known, mid, w);
        lemma_concat_not_contains(epub_out(pages, k - 1, known, seen0), crate::pipeline::out_after(toks, known, mid), w);
    }
}


/// An EPUB walk is the run of its rendered chapters: the fold over the
/// first `k` chapters equals the chunk-run fold over their plain texts, so
/// the run-wide laws cover EPUB files alongside every other format.
pub proof fn lemma_epub_walk_is_chunk_run(
    pages: Seq<Seq<u8>>,
    k: int,
    known: Set<Seq<char>>,
    seen0: Set<Seq<char>>,
)
    requires
        0 <= k <= pages.len(),
    ensures
        epub_seen(pages, k, known, seen0) == crate::pipeline::lines_seen(
            pages.take(k).map_values(|p: Seq<u8>| text_of_html(p)),
            known,
            seen0,
        ),
        epub_out(pages, k, known, seen0) == crate::pipeline::lines_out(
            pages.take(k).map_values(|p: Seq<u8>| text_of_html(p)),
            known,
            seen0,
        ),
    decreases k,
{
    let m = pages.take(k).map_values(|p: Seq<u8>| text_of_html(p));
    if k == 0 {
        assert(m =~= Seq::<Seq<char>>::empty());
    } else {
        lemma_epub_walk_is_chunk_run(pages, k - 1, known, seen0);
        let m1 = pages.take(k - 1).map_values(|p: Seq<u8>| text_of_html(p));
        assert(m.drop_last() =~= m1);
        assert(m.last() == text_of_html(pages[k - 1]));
    }
}

} // verus!

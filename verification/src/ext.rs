//! Trusted declarations for the outside crates and the few std functions that
//! vstd gives no specification. Everything else in the library is verified
//! against the contracts stated here.

use vstd::prelude::*;

verus! {

/// Relies on std's String::push: appends the one character to the end of the
/// string.
#[verifier::external_body]
pub(crate) fn push_char(s: &mut String, c: char)
    ensures
        final(s)@ == old(s)@.push(c),
{
    s.push(c);
}

/// The plain text that html2text renders for a given HTML byte sequence, at
/// an effectively unlimited line width. A function of the bytes alone.
pub uninterp spec fn text_of_html(b: Seq<u8>) -> Seq<char>;

/// Whether html2text renders the given HTML bytes at that width, rather
/// than reporting an error. A function of the bytes alone.
pub uninterp spec fn html_ok(b: Seq<u8>) -> bool;

/// Relies on html2text::from_read: renders HTML bytes as plain text, or
/// reports an error through its Result. The width handed over is large
/// enough that no line of interest is ever wrapped, so both the outcome and
/// the text depend on the bytes alone.
#[verifier::external_body]
pub(crate) fn html_to_text(html: &Vec<u8>) -> (r: Option<String>)
    ensures
        r is Some <==> html_ok(html@),
        r matches Some(t) ==> t@ == text_of_html(html@),
{
    match html2text::from_read(&html[..], 65535) {
        Ok(t) => Some(t),
        Err(_) => None,
    }
}

/// The text that pdf_extract recovers from a PDF given as bytes. A function
/// of the bytes alone.
pub uninterp spec fn text_of_pdf(b: Seq<u8>) -> Seq<char>;

/// Whether pdf_extract recovers text from the given bytes, rather than
/// reporting an error. A function of the bytes alone.
pub uninterp spec fn pdf_ok(b: Seq<u8>) -> bool;

/// Relies on pdf_extract::extract_text_from_mem: extracts the whole text of
/// the document in one call, or reports an error through its Result. The
/// crate is relied on to report failure that way; on some documents it
/// aborts the process instead of returning (an unsupported font encoding, a
/// missing glyph width, an unexpected colorspace, among others), which ends
/// the run as a failed extraction does. No statable condition on the bytes
/// separates those documents out, so no `requires` can exclude them, and
/// containing the abort would take std's panic machinery, which stays out
/// of this library.
#[verifier::external_body]
pub(crate) fn pdf_to_text(bytes: &Vec<u8>) -> (r: Option<String>)
    ensures
        r is Some <==> pdf_ok(bytes@),
        r matches Some(t) ==> t@ == text_of_pdf(bytes@),
{
    match pdf_extract::extract_text_from_mem(&bytes[..]) {
        Ok(t) => Some(t),
        Err(_) => None,
    }
}

/// An open EPUB container. Verus refuses the declaration of epub's own
/// document type (its generic parameter is bound by std's io traits), so the
/// document is held opaquely in this struct, and the two names below give its
/// contents and cursor to the contracts.
#[verifier::external_body]
pub struct EpubBook {
    doc: epub::doc::EpubDoc<std::io::Cursor<Vec<u8>>>,
}

/// The chapter contents of an open EPUB container, in spine order: what
/// epub's get_current hands back at each position. Fixed by the container's
/// bytes, which no method of the document changes.
pub uninterp spec fn epub_pages(d: EpubBook) -> Seq<Seq<u8>>;

/// The position of the current chapter in the spine: epub's `current` field,
/// which starts at zero and moves only through go_next and its siblings.
pub uninterp spec fn epub_cursor(d: EpubBook) -> int;

/// Whether the chapter at spine position `i` of this container can be read:
/// whether epub's get_current would hand its content back there. Fixed by
/// the container's bytes, which no method of the document changes.
pub uninterp spec fn page_ok(d: EpubBook, i: int) -> bool;

/// Whether epub parses a container out of the given bytes at all. A
/// function of the bytes alone.
pub uninterp spec fn epub_ok(b: Seq<u8>) -> bool;

/// The chapter contents of the container that the given bytes parse to, in
/// spine order. A function of the bytes alone.
pub uninterp spec fn epub_pages_of(b: Seq<u8>) -> Seq<Seq<u8>>;

/// Relies on epub's EpubDoc::from_reader: parses an EPUB container out of
/// the given bytes, or reports an error through its Result; the fresh
/// document's current chapter is the first one. The crate is relied on to
/// report failure that way; on some malformed containers (one whose root
/// file path is empty and so has no parent) it aborts the process instead
/// of returning, which ends the run as a failed open does. No statable
/// condition on the bytes separates those containers out, so no `requires`
/// can exclude them, and containing the abort would take std's panic
/// machinery, which stays out of this library.
#[verifier::external_body]
pub(crate) fn open_epub(bytes: Vec<u8>) -> (r: Option<EpubBook>)
    ensures
        r is Some <==> epub_ok(bytes@),
        r matches Some(d) ==> {
            &&& epub_cursor(d) == 0
            &&& epub_pages(d) == epub_pages_of(bytes@)
        },
{
    epub::doc::EpubDoc::from_reader(std::io::Cursor::new(bytes)).ok().map(|doc| EpubBook { doc })
}

/// Relies on epub's EpubDoc::get_num_chapters: the number of chapters in
/// the spine.
#[verifier::external_body]
pub(crate) fn epub_num_pages(d: &EpubBook) -> (r: usize)
    ensures
        r == epub_pages(*d).len(),
{
    d.doc.get_num_chapters()
}

/// Relies on epub's EpubDoc::get_current: returns the content of the current
/// chapter, or None when the container is broken at that entry. Reading moves
/// neither the cursor nor the contents.
#[verifier::external_body]
pub(crate) fn epub_current_page(d: &mut EpubBook) -> (r: Option<Vec<u8>>)
    ensures
        epub_pages(*final(d)) == epub_pages(*old(d)),
        epub_cursor(*final(d)) == epub_cursor(*old(d)),
        forall|i: int| #[trigger] page_ok(*final(d), i) == page_ok(*old(d), i),
        r is Some <==> page_ok(*old(d), epub_cursor(*old(d))),
        r matches Some(v) ==> {
            &&& 0 <= epub_cursor(*old(d)) < epub_pages(*old(d)).len()
            &&& v@ == epub_pages(*old(d))[epub_cursor(*old(d))]
        },
{
    d.doc.get_current().map(|p| p.0)
}

/// Relies on epub's EpubDoc::go_next: advances the cursor by one and returns
/// true exactly when a next chapter exists; otherwise leaves it in place.
#[verifier::external_body]
pub(crate) fn epub_go_next(d: &mut EpubBook) -> (r: bool)
    ensures
        epub_pages(*final(d)) == epub_pages(*old(d)),
        forall|i: int| #[trigger] page_ok(*final(d), i) == page_ok(*old(d), i),
        r == (epub_cursor(*old(d)) + 1 < epub_pages(*old(d)).len()),
        r ==> epub_cursor(*final(d)) == epub_cursor(*old(d)) + 1,
        !r ==> epub_cursor(*final(d)) == epub_cursor(*old(d)),
{
    d.doc.go_next()
}

} // verus!

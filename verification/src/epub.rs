//! Building an EPUB from page images: the metadata entries it carries, the
//! names and XHTML of its pages, and the calls into `epub-builder` that put
//! them together.

use vstd::prelude::*;
use crate::document::DocumentMetadata;
use crate::error::{AppError, ErrorKind};
use crate::text::{chars_of, concat, decimal, eq_str, push_decimal};
use epub_builder::{EpubBuilder, EpubContent, EpubVersion, MetadataOpfV3, ReferenceType, ZipLibrary};

verus! {

/// Minimal CSS so each page image fills the viewport.
pub const EPUB_STYLESHEET: &'static str = "body {\n    margin: 0;\n    padding: 0;\n    text-align: center;\n}\nimg {\n    max-width: 100%;\n    height: auto;\n}";

/// The title of an EPUB made without metadata.
pub const DEFAULT_EPUB_TITLE: &'static str = "AnyflipDL Document";

/// A builder failure, reported as a conversion error with its message.
pub fn epub_err(msg: &str) -> (e: AppError)
    ensures
        e.is(ErrorKind::ConversionError, msg@),
{
    AppError::ConversionError(msg.to_string())
}

pub open spec fn entry(k: Seq<char>, v: Seq<char>) -> (Seq<char>, Seq<char>) {
    (k, v)
}

/// The metadata entries, in the order they are given to the builder: title
/// and language; then, for a document with metadata, its author (when
/// known), its source URL and a description naming it; then the publisher.
pub open spec fn metadata_entries(m: Option<DocumentMetadata>) -> Seq<(Seq<char>, Seq<char>)> {
    let title = match m {
        Some(d) => d.title@,
        None => DEFAULT_EPUB_TITLE@,
    };
    let head = seq![entry("title"@, title), entry("lang"@, "en"@)];
    let middle = match m {
        Some(d) => {
            let author = match d.author {
                Some(a) => seq![entry("creator"@, a@)],
                None => Seq::empty(),
            };
            author + seq![
                entry("source"@, d.url@),
                entry("description"@, "Converted from Anyflip: "@ + d.url@),
            ]
        },
        None => Seq::empty(),
    };
    head + middle + seq![entry("publisher"@, "AnyflipDL"@)]
}

pub open spec fn entry_views(v: Seq<(String, String)>) -> Seq<(Seq<char>, Seq<char>)> {
    v.map_values(|p: (String, String)| (p.0@, p.1@))
}

fn push_entry(v: &mut Vec<(String, String)>, k: &str, value: &str)
    ensures
        entry_views(final(v)@) == entry_views(old(v)@).push((k@, value@)),
{
    v.push((k.to_string(), value.to_string()));
    assert(entry_views(v@) =~= entry_views(old(v)@).push((k@, value@)));
}

/// The metadata entries of an EPUB (see [`metadata_entries`]).
pub fn epub_metadata_entries(metadata: &Option<DocumentMetadata>) -> (r: Vec<(String, String)>)
    ensures
        entry_views(r@) == metadata_entries(*metadata),
{
    let mut r: Vec<(String, String)> = Vec::new();
    match metadata {
        Some(d) => push_entry(&mut r, "title", d.title.as_str()),
        None => push_entry(&mut r, "title", DEFAULT_EPUB_TITLE),
    }
    push_entry(&mut r, "lang", "en");
    match metadata {
        Some(d) => {
            match &d.author {
                Some(a) => push_entry(&mut r, "creator", a.as_str()),
                None => {},
            }
            push_entry(&mut r, "source", d.url.as_str());
            let description = concat("Converted from Anyflip: ", d.url.as_str());
            push_entry(&mut r, "description", description.as_str());
        },
        None => {},
    }
    push_entry(&mut r, "publisher", "AnyflipDL");
    assert(entry_views(r@) =~= metadata_entries(*metadata));
    r
}

/// One page of the EPUB.
#[derive(Debug, Clone)]
pub struct EpubPage {
    /// Where the page image is stored: `images/{n}.webp`.
    pub image_href: String,
    /// Where the page document is stored: `page_{n}.xhtml`.
    pub content_href: String,
    /// The page document, which shows the image.
    pub xhtml: String,
    /// `Page {n}`.
    pub title: String,
    /// The first page is the cover; the others are text.
    pub is_cover: bool,
}

/// The XHTML document of page `n`, showing its image.
pub open spec fn page_xhtml(n: nat) -> Seq<char> {
    "<?xml version=\"1.0\" encoding=\"UTF-8\"?>\n<!DOCTYPE html>\n<html xmlns=\"http://www.w3.org/1999/xhtml\">\n<head>\n  <title>Page "@
        + decimal(n) + "</title>\n  <link rel=\"stylesheet\" type=\"text/css\" href=\"stylesheet.css\"/>\n</head>\n<body>\n  <img src=\"images/"@
        + decimal(n) + ".webp\" alt=\"Page "@ + decimal(n)
        + "\" type=\"image/webp\"/>\n</body>\n</html>"@
}

/// The names, document and role of page `page_num` (1-based).
pub fn epub_page(page_num: u64) -> (p: EpubPage)
    ensures
        p.image_href@ == "images/"@ + decimal(page_num as nat) + ".webp"@,
        p.content_href@ == "page_"@ + decimal(page_num as nat) + ".xhtml"@,
        p.xhtml@ == page_xhtml(page_num as nat),
        p.title@ == "Page "@ + decimal(page_num as nat),
        p.is_cover == (page_num == 1),
{
    let mut image_href = "images/".to_string();
    push_decimal(&mut image_href, page_num);
    image_href.append(".webp");
    let mut content_href = "page_".to_string();
    push_decimal(&mut content_href, page_num);
    content_href.append(".xhtml");
    let mut title = "Page ".to_string();
    push_decimal(&mut title, page_num);
    let mut xhtml = "<?xml version=\"1.0\" encoding=\"UTF-8\"?>\n<!DOCTYPE html>\n<html xmlns=\"http://www.w3.org/1999/xhtml\">\n<head>\n  <title>Page ".to_string();
    push_decimal(&mut xhtml, page_num);
    xhtml.append("</title>\n  <link rel=\"stylesheet\" type=\"text/css\" href=\"stylesheet.css\"/>\n</head>\n<body>\n  <img src=\"images/");
    push_decimal(&mut xhtml, page_num);
    xhtml.append(".webp\" alt=\"Page ");
    push_decimal(&mut xhtml, page_num);
    xhtml.append("\" type=\"image/webp\"/>\n</body>\n</html>");
    EpubPage { image_href, content_href, xhtml, title, is_cover: page_num == 1 }
}

/// Checks what is needed before converting pages: the page directory must
/// exist and there must be pages.
pub fn conversion_preconditions(temp_dir_exists: bool, temp_dir_text: &str, page_count: usize) -> (r:
    Result<(), AppError>)
    ensures
        !temp_dir_exists ==> (r matches Err(e) && e.is(
            ErrorKind::FileSystemError,
            "Temp directory does not exist: "@ + temp_dir_text@,
        )),
        temp_dir_exists && page_count == 0 ==> (r matches Err(e) && e.is(
            ErrorKind::ConversionError,
            "No pages to convert"@,
        )),
        temp_dir_exists && page_count > 0 ==> r is Ok,
{
    if !temp_dir_exists {
        return Err(AppError::FileSystemError(concat("Temp directory does not exist: ", temp_dir_text)));
    }
    if page_count == 0 {
        return Err(AppError::ConversionError("No pages to convert".to_string()));
    }
    Ok(())
}

// ---------------------------------------------------------------------------
// Building the book
// ---------------------------------------------------------------------------

/// `epub_builder::ZipLibrary`, the in-memory archive the book is written to.
#[verifier::external_type_specification]
#[verifier::external_body]
pub struct ExZipLibrary(ZipLibrary);

/// A book being built: an `epub_builder::EpubBuilder` over an in-memory
/// archive. The builder's type is bounded by a trait that `epub-builder`
/// does not export, so it is held here out of the verifier's sight; what the
/// verifier sees of it is the list of files added to the book, with their
/// contents ([`epub_files`]).
#[verifier::external_body]
pub struct EpubDocument {
    builder: EpubBuilder<ZipLibrary>,
}

/// The files added to a book so far (stylesheet, images, page documents),
/// each by its path in the book and the bytes written for it, in the order
/// they were added.
pub uninterp spec fn epub_files(doc: EpubDocument) -> Seq<(Seq<char>, Seq<u8>)>;

/// `ZipLibrary::new`: an empty archive, or the error's message.
#[verifier::external_body]
fn zip_library_new() -> (r: Result<ZipLibrary, String>) {
    ZipLibrary::new().map_err(|e| e.to_string())
}

/// `EpubBuilder::new`: a book with no files added yet, or the error's
/// message.
#[verifier::external_body]
fn epub_builder_new(zip: ZipLibrary) -> (r: Result<EpubDocument, String>)
    ensures
        r matches Ok(d) ==> epub_files(d) == Seq::<(Seq<char>, Seq<u8>)>::empty(),
{
    match EpubBuilder::new(zip) {
        Ok(builder) => Ok(EpubDocument { builder }),
        Err(e) => Err(e.to_string()),
    }
}

/// `EpubBuilder::metadata`: sets one metadata entry; adds no file.
#[verifier::external_body]
fn epub_set_metadata(doc: &mut EpubDocument, key: &str, value: &str) -> (r: Result<(), String>)
    ensures
        epub_files(*final(doc)) == epub_files(*old(doc)),
{
    doc.builder.metadata(key, value).map(|_| ()).map_err(|e| e.to_string())
}

/// `EpubBuilder::add_metadata_opf` with `MetadataOpfV3::new(property,
/// content)`: a `<meta property="..">` element in the package document;
/// adds no file.
#[verifier::external_body]
fn epub_add_meta_property(doc: &mut EpubDocument, property: &str, content: &str)
    ensures
        epub_files(*final(doc)) == epub_files(*old(doc)),
{
    doc.builder.add_metadata_opf(Box::new(MetadataOpfV3::new(property.to_string(), content.to_string())));
}

/// Records one metadata entry of [`metadata_entries`] in the book. The
/// builder's own keys take the title, language and description, and its
/// `author` key the creator; the source URL and the publisher, which it has
/// no key for, become `dcterms:source` and `dcterms:publisher` properties.
fn add_entry(doc: &mut EpubDocument, key: &str, value: &str) -> (r: Result<(), String>)
    ensures
        epub_files(*final(doc)) == epub_files(*old(doc)),
{
    let k = chars_of(key);
    if eq_str(&k, "creator") {
        epub_set_metadata(doc, "author", value)
    } else if eq_str(&k, "source") || eq_str(&k, "publisher") {
        let property = concat("dcterms:", key);
        epub_add_meta_property(doc, property.as_str(), value);
        Ok(())
    } else {
        epub_set_metadata(doc, key, value)
    }
}

/// `EpubBuilder::epub_version(EpubVersion::V30)`; adds no file.
#[verifier::external_body]
fn epub_use_version_3(doc: &mut EpubDocument)
    ensures
        epub_files(*final(doc)) == epub_files(*old(doc)),
{
    doc.builder.epub_version(EpubVersion::V30);
}

/// `EpubBuilder::stylesheet`: adds `stylesheet.css` holding `css` when it
/// succeeds, and no file when it fails.
#[verifier::external_body]
fn epub_add_stylesheet(doc: &mut EpubDocument, css: &[u8]) -> (r: Result<(), String>)
    ensures
        r is Ok ==> epub_files(*final(doc)) == epub_files(*old(doc)).push(("stylesheet.css"@, css@)),
        r is Err ==> epub_files(*final(doc)) == epub_files(*old(doc)),
{
    doc.builder.stylesheet(css).map(|_| ()).map_err(|e| e.to_string())
}

/// `EpubBuilder::add_resource`: adds the file at `path` holding `data` when
/// it succeeds, and no file when it fails.
#[verifier::external_body]
fn epub_add_resource(doc: &mut EpubDocument, path: &str, data: &[u8], mime: &str) -> (r: Result<(), String>)
    ensures
        r is Ok ==> epub_files(*final(doc)) == epub_files(*old(doc)).push((path@, data@)),
        r is Err ==> epub_files(*final(doc)) == epub_files(*old(doc)),
{
    doc.builder.add_resource(path, data, mime).map(|_| ()).map_err(|e| e.to_string())
}

/// `EpubBuilder::add_content` with `EpubContent::new(href, xhtml)`, its
/// title, and the reference type `Cover` or `Text`: adds the document at
/// `href` holding the UTF-8 bytes of `xhtml` when it succeeds, and no file
/// when it fails.
#[verifier::external_body]
fn epub_add_content(doc: &mut EpubDocument, href: &str, xhtml: &str, title: &str, is_cover: bool) -> (r:
    Result<(), String>)
    ensures
        r is Ok ==> epub_files(*final(doc)) == epub_files(*old(doc)).push(
            (href@, vstd::utf8::encode_utf8(xhtml@)),
        ),
        r is Err ==> epub_files(*final(doc)) == epub_files(*old(doc)),
{
    let reftype = if is_cover { ReferenceType::Cover } else { ReferenceType::Text };
    let content = EpubContent::new(href, xhtml.as_bytes()).title(title).reftype(reftype);
    doc.builder.add_content(content).map(|_| ()).map_err(|e| e.to_string())
}

/// `EpubBuilder::generate` into a byte buffer: the finished book, or the
/// error's message. The builder stamps the current time into the book, so
/// nothing is claimed of the bytes.
#[verifier::external_body]
fn epub_generate(doc: EpubDocument) -> (r: Result<Vec<u8>, String>) {
    let mut out: Vec<u8> = Vec::new();
    match doc.builder.generate(&mut out) {
        Ok(()) => Ok(out),
        Err(e) => Err(e.to_string()),
    }
}

/// Where the image of page `k` is stored in the book.
pub open spec fn image_path(k: nat) -> Seq<char> {
    "images/"@ + decimal(k) + ".webp"@
}

/// Where the document of page `k` is stored in the book.
pub open spec fn content_path(k: nat) -> Seq<char> {
    "page_"@ + decimal(k) + ".xhtml"@
}

/// The files of a started book: the stylesheet.
pub open spec fn book_start() -> Seq<(Seq<char>, Seq<u8>)> {
    seq![("stylesheet.css"@, vstd::utf8::encode_utf8(EPUB_STYLESHEET@))]
}

/// The files of a book with pages `1..=k` of `pages`: the stylesheet, then
/// each page's image and document.
pub open spec fn book_files(pages: Seq<Seq<u8>>, k: nat) -> Seq<(Seq<char>, Seq<u8>)>
    decreases k,
{
    if k == 0 {
        book_start()
    } else {
        book_files(pages, (k - 1) as nat).push((image_path(k), pages[k - 1])).push(
            (content_path(k), vstd::utf8::encode_utf8(page_xhtml(k))),
        )
    }
}

/// The bytes held under `path` in a list of files (the last file with that
/// path), if any.
pub open spec fn file_content(files: Seq<(Seq<char>, Seq<u8>)>, path: Seq<char>) -> Option<Seq<u8>>
    decreases files.len(),
{
    if files.len() == 0 {
        None
    } else if files.last().0 == path {
        Some(files.last().1)
    } else {
        file_content(files.drop_last(), path)
    }
}

/// No two files have the same path.
pub open spec fn paths_distinct(files: Seq<(Seq<char>, Seq<u8>)>) -> bool {
    forall|i: int, j: int| 0 <= i < j < files.len() ==> (#[trigger] files[i]).0 != (#[trigger] files[j]).0
}

pub open spec fn byte_views(pages: Seq<Vec<u8>>) -> Seq<Seq<u8>> {
    pages.map_values(|p: Vec<u8>| p@)
}

/// Starts a book: an empty archive and builder, the metadata entries of
/// [`epub_metadata_entries`], EPUB 3, and the stylesheet
/// [`EPUB_STYLESHEET`]. Any failure is a conversion error.
pub fn epub_begin(metadata: &Option<DocumentMetadata>) -> (r: Result<EpubDocument, AppError>)
    ensures
        r matches Ok(d) ==> epub_files(d) == book_start(),
        r matches Err(e) ==> e.kind() == ErrorKind::ConversionError,
{
    let zip = match zip_library_new() {
        Ok(z) => z,
        Err(m) => return Err(AppError::ConversionError(concat("Failed to create EPUB zip library: ", m.as_str()))),
    };
    let mut doc = match epub_builder_new(zip) {
        Ok(d) => d,
        Err(m) => return Err(AppError::ConversionError(concat("Failed to create EPUB builder: ", m.as_str()))),
    };
    let entries = epub_metadata_entries(metadata);
    let ghost start = epub_files(doc);
    let mut i: usize = 0;
    while i < entries.len()
        invariant
            i <= entries.len(),
            epub_files(doc) == start,
            start == Seq::<(Seq<char>, Seq<u8>)>::empty(),
        decreases entries.len() - i,
    {
        if let Err(m) = add_entry(&mut doc, entries[i].0.as_str(), entries[i].1.as_str()) {
            return Err(epub_err(m.as_str()));
        }
        i += 1;
    }
    epub_use_version_3(&mut doc);
    if let Err(m) = epub_add_stylesheet(&mut doc, EPUB_STYLESHEET.as_bytes()) {
        return Err(epub_err(m.as_str()));
    }
    proof {
        reveal_strlit("stylesheet.css");
        assert(epub_files(doc) =~= book_start());
    }
    Ok(doc)
}

/// Adds page `page_num` to a book: its image `images/{n}.webp` holding
/// `data`, then its document `page_{n}.xhtml` ([`epub_page`]). Any failure
/// is a conversion error.
pub fn epub_append_page(doc: &mut EpubDocument, page_num: u64, data: &[u8]) -> (r: Result<(), AppError>)
    ensures
        r is Ok ==> epub_files(*final(doc)) == epub_files(*old(doc)).push(
            (image_path(page_num as nat), data@),
        ).push((content_path(page_num as nat), vstd::utf8::encode_utf8(page_xhtml(page_num as nat)))),
        r matches Err(e) ==> e.kind() == ErrorKind::ConversionError,
{
    let page = epub_page(page_num);
    if let Err(m) = epub_add_resource(doc, page.image_href.as_str(), data, "image/webp") {
        return Err(epub_err(m.as_str()));
    }
    if let Err(m) = epub_add_content(doc, page.content_href.as_str(), page.xhtml.as_str(), page.title.as_str(), page.is_cover) {
        return Err(epub_err(m.as_str()));
    }
    Ok(())
}

/// Puts together the book of a document whose page images (pages `1..=n`,
/// in reading order) are given: [`epub_begin`], then [`epub_append_page`]
/// for each page. In the book, `images/{k}.webp` holds exactly the bytes of
/// the `k`-th page, for every page, and no two files share a path. Any
/// failure is a conversion error.
pub fn assemble_epub(metadata: &Option<DocumentMetadata>, pages: &Vec<Vec<u8>>) -> (r: Result<EpubDocument, AppError>)
    ensures
        r matches Ok(d) ==> epub_files(d) == book_files(byte_views(pages@), pages.len() as nat),
        r matches Ok(d) ==> forall|k: int|
            1 <= k <= pages.len() ==> file_content(
                epub_files(d),
                "images/"@ + #[trigger] decimal(k as nat) + ".webp"@,
            ) == Some(pages@[k - 1]@),
        r matches Ok(d) ==> paths_distinct(epub_files(d)),
        r matches Err(e) ==> e.kind() == ErrorKind::ConversionError,
{
    let mut doc = epub_begin(metadata)?;
    let ghost pv = byte_views(pages@);
    let mut k: usize = 0;
    while k < pages.len()
        invariant
            k <= pages.len(),
            pv == byte_views(pages@),
            epub_files(doc) == book_files(pv, k as nat),
        decreases pages.len() - k,
    {
        epub_append_page(&mut doc, (k + 1) as u64, pages[k].as_slice())?;
        assert(pv[k as int] == pages@[k as int]@);
        k += 1;
    }
    proof {
        assert forall|j: int| 1 <= j <= pages.len() implies file_content(
            epub_files(doc),
            "images/"@ + #[trigger] decimal(j as nat) + ".webp"@,
        ) == Some(pages@[j - 1]@) by {
            law_book_holds_pages_in_order(pv, j as nat);
            assert(pv[j - 1] == pages@[j - 1]@);
        }
        law_book_paths_distinct(pv);
    }
    Ok(doc)
}

/// Builds the EPUB of a document whose page images (pages `1..=n`, in
/// order) are given: [`assemble_epub`], then the finished book's bytes. Any
/// failure is a conversion error.
pub fn build_epub(metadata: &Option<DocumentMetadata>, pages: &Vec<Vec<u8>>) -> (r: Result<Vec<u8>, AppError>)
    ensures
        r matches Err(e) ==> e.kind() == ErrorKind::ConversionError,
{
    let doc = assemble_epub(metadata, pages)?;
    match epub_generate(doc) {
        Ok(bytes) => Ok(bytes),
        Err(m) => Err(epub_err(m.as_str())),
    }
}

/// The files of a book of `k` pages, by position: the stylesheet first, then
/// for each page `j` its image (holding the `j`-th page's bytes) and its
/// document.
proof fn lemma_book_layout(pages: Seq<Seq<u8>>, k: nat)
    ensures
        book_files(pages, k).len() == 2 * k + 1,
        book_files(pages, k)[0].0 == "stylesheet.css"@,
        forall|j: int|
            1 <= j <= k ==> #[trigger] book_files(pages, k)[2 * j - 1] == (image_path(j as nat), pages[j - 1]),
        forall|j: int| 1 <= j <= k ==> (#[trigger] book_files(pages, k)[2 * j]).0 == content_path(j as nat),
    decreases k,
{
    if k > 0 {
        lemma_book_layout(pages, (k - 1) as nat);
        let b = book_files(pages, (k - 1) as nat);
        let c = book_files(pages, k);
        assert forall|j: int| 1 <= j <= k implies #[trigger] c[2 * j - 1] == (image_path(j as nat), pages[j - 1]) by {
            if j < k {
                assert(c[2 * j - 1] == b[2 * j - 1]);
            }
        }
        assert forall|j: int| 1 <= j <= k implies (#[trigger] c[2 * j]).0 == content_path(j as nat) by {
            if j < k {
                assert(c[2 * j] == b[2 * j]);
            }
        }
        assert(c[0] == b[0]);
    }
}

proof fn lemma_first_chars(a: nat)
    ensures
        image_path(a)[0] == 'i',
        content_path(a)[0] == 'p',
        ("stylesheet.css"@)[0] == 's',
        image_path(a).len() == decimal(a).len() + 12,
        content_path(a).len() == decimal(a).len() + 11,
        image_path(a).subrange(7, 7 + decimal(a).len() as int) == decimal(a),
        content_path(a).subrange(5, 5 + decimal(a).len() as int) == decimal(a),
{
    reveal_strlit("images/");
    reveal_strlit(".webp");
    reveal_strlit("page_");
    reveal_strlit(".xhtml");
    reveal_strlit("stylesheet.css");
    assert(image_path(a).subrange(7, 7 + decimal(a).len() as int) =~= decimal(a));
    assert(content_path(a).subrange(5, 5 + decimal(a).len() as int) =~= decimal(a));
}

/// Different pages have different image paths and different document
/// paths, and no image path is a document path or the stylesheet's.
proof fn lemma_paths_differ(a: nat, b: nat)
    ensures
        a != b ==> image_path(a) != image_path(b),
        a != b ==> content_path(a) != content_path(b),
        image_path(a) != content_path(b),
        image_path(a) != "stylesheet.css"@,
        content_path(a) != "stylesheet.css"@,
{
    lemma_first_chars(a);
    lemma_first_chars(b);
    if image_path(a) == image_path(b) {
        assert(decimal(a).len() == decimal(b).len());
        crate::temp::lemma_decimal_injective(a, b);
    }
    if content_path(a) == content_path(b) {
        assert(decimal(a).len() == decimal(b).len());
        crate::temp::lemma_decimal_injective(a, b);
    }
}

/// No two files of a book share a path.
pub proof fn law_book_paths_distinct(pages: Seq<Seq<u8>>)
    ensures
        paths_distinct(book_files(pages, pages.len())),
{
    let n = pages.len();
    let f = book_files(pages, n);
    lemma_book_layout(pages, n);
    assert forall|i: int, j: int| 0 <= i < j < f.len() implies (#[trigger] f[i]).0 != (#[trigger] f[j]).0 by {
        let jj: int = (j + 1) / 2;
        let ii: int = (i + 1) / 2;
        assert(1 <= jj <= n);
        if j % 2 == 1 {
            assert(j == 2 * jj - 1);
            assert(f[j] == (image_path(jj as nat), pages[jj - 1]));
        } else {
            assert(j == 2 * jj);
            assert(f[j].0 == content_path(jj as nat));
        }
        if i == 0 {
            lemma_paths_differ(jj as nat, jj as nat);
        } else {
            assert(1 <= ii <= n);
            lemma_paths_differ(ii as nat, jj as nat);
            lemma_paths_differ(jj as nat, ii as nat);
            if i % 2 == 1 {
                assert(i == 2 * ii - 1);
                assert(f[i] == (image_path(ii as nat), pages[ii - 1]));
            } else {
                assert(i == 2 * ii);
                assert(f[i].0 == content_path(ii as nat));
            }
            if i % 2 == j % 2 {
                assert(ii != jj);
            }
        }
    }
}

proof fn lemma_file_content_at(files: Seq<(Seq<char>, Seq<u8>)>, i: int)
    requires
        paths_distinct(files),
        0 <= i < files.len(),
    ensures
        file_content(files, files[i].0) == Some(files[i].1),
    decreases files.len(),
{
    if i < files.len() - 1 {
        let t = files.drop_last();
        assert(files.last() == files[files.len() - 1]);
        assert(files[i].0 != files[files.len() - 1].0);
        assert forall|a: int, b: int| 0 <= a < b < t.len() implies (#[trigger] t[a]).0 != (#[trigger] t[b]).0 by {
            assert(t[a] == files[a]);
            assert(t[b] == files[b]);
        }
        assert(t[i] == files[i]);
        lemma_file_content_at(t, i);
    }
}

/// A book holds its pages in reading order: the image stored as
/// `images/{k}.webp` is exactly the `k`-th page given, for every page.
pub proof fn law_book_holds_pages_in_order(pages: Seq<Seq<u8>>, k: nat)
    requires
        1 <= k <= pages.len(),
    ensures
        file_content(book_files(pages, pages.len()), "images/"@ + decimal(k) + ".webp"@) == Some(
            pages[k - 1],
        ),
{
    lemma_book_layout(pages, pages.len());
    law_book_paths_distinct(pages);
    let f = book_files(pages, pages.len());
    assert(f[2 * k - 1] == (image_path(k), pages[k - 1]));
    lemma_file_content_at(f, 2 * k - 1);
}

} // verus!

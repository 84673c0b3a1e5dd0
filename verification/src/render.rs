//! Sources and their rendering into XHTML spine items.
//!
//! Each source's bytes are decoded (UTF-8, or Shift_JIS when the path's
//! extension says so), rendered to HTML by Aozora Flavored Markdown, and
//! the HTML is wrapped in an XHTML document that carries the book's
//! language, the stylesheet link and the writing-mode body class.

use vstd::prelude::*;
use vstd::utf8::{decode_utf8, valid_utf8};

use crate::error::Error;
use crate::metadata::{Metadata, WritingMode};
use crate::paths::{extension_chars, path_extension_spec, source_title, source_title_spec};
use crate::text::{
    ascii_lower_seq, ascii_lowercase, escape_attr, escape_attr_spec, format_zero_padded, push_str,
    string_of, zero_padded,
};

verus! {

/// One manuscript file: where it was read from and its raw bytes.
#[derive(Debug, Clone)]
pub struct SourceFile {
    pub path: String,
    pub bytes: Vec<u8>,
}

/// One book's worth of inputs: its metadata and its sources in spine
/// order.
#[derive(Debug, Clone)]
pub struct Manuscript {
    pub metadata: Metadata,
    pub sources: Vec<SourceFile>,
}

/// One chapter of the book as it goes into the EPUB.
#[derive(Debug, Clone)]
pub struct SpineItem {
    /// File name inside the package, e.g. `chapter-001.xhtml`.
    pub href: String,
    /// `<title>` of the chapter.
    pub title: String,
    /// The full XHTML document.
    pub xhtml: String,
}

/// Every chapter, in spine order.
#[derive(Debug, Clone)]
pub struct RenderOutput {
    pub items: Vec<SpineItem>,
}

// ---------------------------------------------------------------------------
// Decoding
// ---------------------------------------------------------------------------

/// What `aozora_encoding::decode_sjis` makes of a byte string: the decoded
/// text, or nothing when the bytes are not valid Shift_JIS.
pub uninterp spec fn sjis_decoded(bytes: Seq<u8>) -> Option<Seq<char>>;

/// `aozora_encoding::decode_sjis`: strict Shift_JIS decoding (no lossy
/// replacement). The contract claims only that the outcome is the
/// function `sjis_decoded` of the bytes.
#[verifier::external_body]
fn decode_sjis(bytes: &[u8]) -> (r: Option<String>)
    ensures
        match r {
            Some(s) => sjis_decoded(bytes@) == Some(s@),
            None => sjis_decoded(bytes@) is None,
        },
{
    aozora_encoding::decode_sjis(bytes).ok()
}

/// `n` is the length of the longest prefix of `bytes` that is valid UTF-8,
/// as `Utf8Error::valid_up_to` reports it.
pub open spec fn utf8_valid_up_to(bytes: Seq<u8>, n: int) -> bool {
    &&& 0 <= n < bytes.len()
    &&& valid_utf8(bytes.take(n))
    &&& forall|m: int| n < m <= bytes.len() ==> !valid_utf8(#[trigger] bytes.take(m))
}

/// `std::str::from_utf8`: succeeds exactly on valid UTF-8 and then holds
/// the decoded characters; on failure it reports the longest valid prefix.
#[verifier::external_body]
fn str_from_utf8(bytes: &[u8]) -> (r: core::result::Result<&str, usize>)
    ensures
        r is Ok <==> valid_utf8(bytes@),
        match r {
            Ok(s) => s@ == decode_utf8(bytes@),
            Err(n) => utf8_valid_up_to(bytes@, n as int),
        },
{
    std::str::from_utf8(bytes).map_err(|e| e.valid_up_to())
}

/// Whether an extension, compared case-insensitively, marks a Shift_JIS
/// source: `sjis`, `shift_jis` or `shift-jis`.
pub open spec fn is_sjis_extension(ext: Seq<char>) -> bool {
    let e = ascii_lower_seq(ext);
    e == "sjis"@ || e == "shift_jis"@ || e == "shift-jis"@
}

pub open spec fn is_sjis_path(path: Seq<char>) -> bool {
    match path_extension_spec(path) {
        Some(ext) => is_sjis_extension(ext),
        None => false,
    }
}

/// The outcome of decoding a source with path `path` and bytes `bytes`.
pub open spec fn decode_outcome(
    path: Seq<char>,
    bytes: Seq<u8>,
    r: core::result::Result<String, Error>,
) -> bool {
    if is_sjis_path(path) {
        match r {
            Ok(s) => sjis_decoded(bytes) == Some(s@),
            Err(e) => sjis_decoded(bytes) is None && e is Sjis,
        }
    } else {
        &&& (r is Ok <==> valid_utf8(bytes))
        &&& match r {
            Ok(s) => s@ == decode_utf8(bytes),
            Err(e) => match e {
                Error::Utf8 { valid_up_to } => utf8_valid_up_to(bytes, valid_up_to as int),
                _ => false,
            },
        }
    }
}

fn is_sjis(path: &str) -> (r: bool)
    ensures
        r == is_sjis_path(path@),
{
    match extension_chars(path) {
        None => false,
        Some(ext) => {
            let e = ascii_lowercase(string_of(&ext).as_str());
            let s1 = string_of(&crate::text::chars_of("sjis"));
            let s2 = string_of(&crate::text::chars_of("shift_jis"));
            let s3 = string_of(&crate::text::chars_of("shift-jis"));
            e == s1 || e == s2 || e == s3
        },
    }
}

/// Decodes a source's bytes: as Shift_JIS when its extension is `sjis`,
/// `shift_jis` or `shift-jis` (in any ASCII case), as UTF-8 otherwise.
pub fn decode_source(source: &SourceFile) -> (r: core::result::Result<String, Error>)
    ensures
        decode_outcome(source.path@, source.bytes@, r),
{
    if is_sjis(source.path.as_str()) {
        match decode_sjis(source.bytes.as_slice()) {
            Some(s) => Ok(s),
            None => Err(Error::Sjis),
        }
    } else {
        match str_from_utf8(source.bytes.as_slice()) {
            Ok(s) => Ok(s.to_owned()),
            Err(n) => Err(Error::Utf8 { valid_up_to: n }),
        }
    }
}

/// Whether a source with path `path` and bytes `bytes` decodes.
pub open spec fn decodes(path: Seq<char>, bytes: Seq<u8>) -> bool {
    if is_sjis_path(path) {
        sjis_decoded(bytes) is Some
    } else {
        valid_utf8(bytes)
    }
}

/// Every source of the manuscript decodes.
pub open spec fn all_decode(manuscript: &Manuscript) -> bool {
    forall|j: int|
        0 <= j < manuscript.sources@.len() ==> decodes(
            (#[trigger] manuscript.sources@[j]).path@,
            manuscript.sources@[j].bytes@,
        )
}

/// Decodes every source in order, stopping at the first that does not
/// decode: its error is the result. Otherwise the `i`-th text is the
/// decoding of the `i`-th source.
pub fn decode_all(manuscript: &Manuscript) -> (r: core::result::Result<Vec<String>, Error>)
    ensures
        match r {
            Ok(texts) => {
                &&& texts@.len() == manuscript.sources@.len()
                &&& forall|i: int|
                    0 <= i < texts@.len() ==> decode_outcome(
                        manuscript.sources@[i].path@,
                        manuscript.sources@[i].bytes@,
                        Ok::<String, Error>(#[trigger] texts@[i]),
                    )
            },
            Err(e) => exists|k: int|
                {
                    &&& 0 <= k < manuscript.sources@.len()
                    &&& forall|j: int|
                        0 <= j < k ==> decodes(
                            (#[trigger] manuscript.sources@[j]).path@,
                            manuscript.sources@[j].bytes@,
                        )
                    &&& decode_outcome(
                        manuscript.sources@[k].path@,
                        manuscript.sources@[k].bytes@,
                        Err::<String, Error>(e),
                    )
                },
        },
{
    let n = manuscript.sources.len();
    let mut texts: Vec<String> = Vec::with_capacity(n);
    let mut i: usize = 0;
    while i < n
        invariant
            i <= n,
            n == manuscript.sources@.len(),
            texts@.len() == i,
            forall|j: int|
                0 <= j < i ==> decode_outcome(
                    manuscript.sources@[j].path@,
                    manuscript.sources@[j].bytes@,
                    Ok::<String, Error>(#[trigger] texts@[j]),
                ),
        decreases n - i,
    {
        let r = decode_source(&manuscript.sources[i]);
        match r {
            Ok(t) => {
                texts.push(t);
            },
            Err(e) => {
                proof {
                    assert forall|j: int| 0 <= j < i implies decodes(
                        (#[trigger] manuscript.sources@[j]).path@,
                        manuscript.sources@[j].bytes@,
                    ) by {
                        assert(decode_outcome(
                            manuscript.sources@[j].path@,
                            manuscript.sources@[j].bytes@,
                            Ok::<String, Error>(texts@[j]),
                        ));
                    }
                }
                return Err(e);
            },
        }
        i = i + 1;
    }
    Ok(texts)
}

// ---------------------------------------------------------------------------
// XHTML envelope
// ---------------------------------------------------------------------------

/// The body class for a writing mode.
pub open spec fn body_class(mode: WritingMode) -> Seq<char> {
    match mode {
        WritingMode::Horizontal => "aozora-md-horizontal"@,
        WritingMode::Vertical => "aozora-md-vertical"@,
    }
}

/// The XHTML document of one chapter, with title and language escaped for
/// attribute and text use and the body HTML inserted as it is.
pub open spec fn wrap_xhtml_spec(
    title: Seq<char>,
    body_html: Seq<char>,
    lang: Seq<char>,
    mode: WritingMode,
) -> Seq<char> {
    let t = escape_attr_spec(title);
    let l = escape_attr_spec(lang);
    "<?xml version=\"1.0\" encoding=\"utf-8\"?>\n<!DOCTYPE html>\n<html xmlns=\"http://www.w3.org/1999/xhtml\" xmlns:epub=\"http://www.idpf.org/2007/ops\" xml:lang=\""@
        + l + "\" lang=\""@ + l
        + "\">\n  <head>\n    <meta charset=\"utf-8\" />\n    <title>"@ + t
        + "</title>\n    <link rel=\"stylesheet\" type=\"text/css\" href=\"css/aozora-md.css\" />\n  </head>\n  <body class=\""@
        + body_class(mode) + "\">\n"@ + body_html + "\n  </body>\n</html>\n"@
}

/// Wraps rendered HTML into the chapter's XHTML document.
pub fn wrap_xhtml(title: &str, body_html: &str, lang: &str, mode: WritingMode) -> (r: String)
    ensures
        r@ == wrap_xhtml_spec(title@, body_html@, lang@, mode),
{
    let t = escape_attr(title);
    let l = escape_attr(lang);
    let mut out = String::new();
    push_str(
        &mut out,
        "<?xml version=\"1.0\" encoding=\"utf-8\"?>\n<!DOCTYPE html>\n<html xmlns=\"http://www.w3.org/1999/xhtml\" xmlns:epub=\"http://www.idpf.org/2007/ops\" xml:lang=\"",
    );
    push_str(&mut out, l.as_str());
    push_str(&mut out, "\" lang=\"");
    push_str(&mut out, l.as_str());
    push_str(&mut out, "\">\n  <head>\n    <meta charset=\"utf-8\" />\n    <title>");
    push_str(&mut out, t.as_str());
    push_str(
        &mut out,
        "</title>\n    <link rel=\"stylesheet\" type=\"text/css\" href=\"css/aozora-md.css\" />\n  </head>\n  <body class=\"",
    );
    match mode {
        WritingMode::Horizontal => push_str(&mut out, "aozora-md-horizontal"),
        WritingMode::Vertical => push_str(&mut out, "aozora-md-vertical"),
    }
    push_str(&mut out, "\">\n");
    push_str(&mut out, body_html);
    push_str(&mut out, "\n  </body>\n</html>\n");
    out
}

// ---------------------------------------------------------------------------
// Spine items
// ---------------------------------------------------------------------------

/// The file name of the `n`-th chapter (1-based): `chapter-001.xhtml`,
/// `chapter-002.xhtml`, ...; past 999 the number simply grows wider.
pub open spec fn chapter_href_spec(n: nat) -> Seq<char> {
    "chapter-"@ + zero_padded(n, 3) + ".xhtml"@
}

/// `format!("chapter-{:03}.xhtml", n)`.
pub fn chapter_href(n: u64) -> (r: String)
    ensures
        r@ == chapter_href_spec(n as nat),
{
    let mut out = String::new();
    push_str(&mut out, "chapter-");
    let d = format_zero_padded(n, 3);
    push_str(&mut out, d.as_str());
    push_str(&mut out, ".xhtml");
    out
}

/// The spine item that the `i`-th source (0-based) becomes, given the
/// HTML its text renders to.
pub open spec fn spine_item_spec(
    meta: &Metadata,
    i: int,
    path: Seq<char>,
    body_html: Seq<char>,
    item: SpineItem,
) -> bool {
    &&& item.href@ == chapter_href_spec((i + 1) as nat)
    &&& item.title@ == source_title_spec(path)
    &&& item.xhtml@ == wrap_xhtml_spec(
        source_title_spec(path),
        body_html,
        meta.language@,
        meta.writing_mode,
    )
}

/// One spine item per source, in order, the `i`-th made from the `i`-th
/// source and the HTML its text renders to.
pub open spec fn render_output_spec(
    manuscript: &Manuscript,
    bodies: Seq<String>,
    r: RenderOutput,
) -> bool {
    &&& r.items@.len() == manuscript.sources@.len()
    &&& forall|i: int|
        0 <= i < r.items@.len() ==> spine_item_spec(
            &manuscript.metadata,
            i,
            manuscript.sources@[i].path@,
            bodies[i]@,
            #[trigger] r.items@[i],
        )
}

/// Turns every source into its spine item. `bodies[i]` is the HTML that
/// the decoded text of `manuscript.sources[i]` renders to.
pub fn render_all(manuscript: &Manuscript, bodies: &Vec<String>) -> (r: RenderOutput)
    requires
        bodies@.len() == manuscript.sources@.len(),
    ensures
        render_output_spec(manuscript, bodies@, r),
{
    let n = manuscript.sources.len();
    let mut items: Vec<SpineItem> = Vec::with_capacity(n);
    let mut i: usize = 0;
    while i < n
        invariant
            i <= n,
            n == manuscript.sources@.len(),
            bodies@.len() == n,
            items@.len() == i,
            forall|k: int|
                0 <= k < i ==> spine_item_spec(
                    &manuscript.metadata,
                    k,
                    manuscript.sources@[k].path@,
                    bodies@[k]@,
                    #[trigger] items@[k],
                ),
        decreases n - i,
    {
        let source = &manuscript.sources[i];
        let title = source_title(source.path.as_str());
        let xhtml = wrap_xhtml(
            title.as_str(),
            bodies[i].as_str(),
            manuscript.metadata.language.as_str(),
            manuscript.metadata.writing_mode,
        );
        let href = chapter_href((i as u64) + 1);
        items.push(SpineItem { href, title, xhtml });
        i = i + 1;
    }
    RenderOutput { items }
}

} // verus!

//! The EPUB scaffolding: the OCF `META-INF/container.xml`, the OPF package
//! document, the navigation document, and the bundle of every file that
//! goes into the container.
//!
//! `dcterms:modified` is written as `xsd:dateTime` in UTC with a `Z`
//! suffix and no fractional seconds. Metadata is validated before anything
//! is composed: a blank title or creator, or a language tag outside the
//! BCP 47 subset, is an error rather than a malformed package.

use vstd::prelude::*;
use vstd::string::StrSliceExecFns;
use vstd::utf8::encode_utf8;

use crate::error::Error;
use crate::metadata::{metadata_violation_of, validate_metadata, Metadata, WritingMode};
use crate::render::{Manuscript, RenderOutput, SpineItem};
use crate::text::{format_zero_padded, push_str, zero_padded};
use crate::xml::{
    attrs_view, document_text, events_view, write_document, XmlEvent, XmlEventView,
};

verus! {

/// The stylesheet shipped with every book, styling the writing-mode body
/// classes and ruby.
pub const AOZORA_MD_CSS: &'static str = "@charset \"utf-8\";\n\nhtml,\nbody {\n  margin: 0;\n  padding: 0;\n}\n\nbody.aozora-md-horizontal {\n  writing-mode: horizontal-tb;\n  -epub-writing-mode: horizontal-tb;\n}\n\nbody.aozora-md-vertical {\n  writing-mode: vertical-rl;\n  -epub-writing-mode: vertical-rl;\n}\n\nruby rt {\n  font-size: 0.5em;\n}\n";

/// One file of the container: its path inside the ZIP and its bytes.
#[derive(Debug, Clone)]
pub struct NamedFile {
    pub path: String,
    pub contents: Vec<u8>,
}

/// Every file of the EPUB, in canonical order.
#[derive(Debug, Clone)]
pub struct Bundle {
    pub mimetype: &'static str,
    pub container: String,
    pub package_opf: String,
    pub nav_xhtml: String,
    pub spine: Vec<NamedFile>,
    pub assets: Vec<NamedFile>,
}

// ---------------------------------------------------------------------------
// Event building blocks
// ---------------------------------------------------------------------------

fn owned(s: &str) -> (r: String)
    ensures
        r@ == s@,
{
    s.to_owned()
}

fn push_event(v: &mut Vec<XmlEvent>, e: XmlEvent)
    ensures
        events_view(final(v)@) == events_view(old(v)@).push(e@),
{
    let ghost before = v@;
    v.push(e);
    assert(events_view(v@) =~= events_view(before).push(e@));
}

fn no_attrs() -> (r: Vec<(String, String)>)
    ensures
        attrs_view(r@) == Seq::<(Seq<char>, Seq<char>)>::empty(),
{
    let r: Vec<(String, String)> = Vec::new();
    assert(attrs_view(r@) =~= Seq::<(Seq<char>, Seq<char>)>::empty());
    r
}

fn push_attr(v: &mut Vec<(String, String)>, k: &str, val: &str)
    ensures
        attrs_view(final(v)@) == attrs_view(old(v)@).push((k@, val@)),
{
    let ghost before = v@;
    v.push((owned(k), owned(val)));
    assert(attrs_view(v@) =~= attrs_view(before).push((k@, val@)));
}

fn attrs1(k1: &str, v1: &str) -> (r: Vec<(String, String)>)
    ensures
        attrs_view(r@) == seq![(k1@, v1@)],
{
    let mut a = no_attrs();
    push_attr(&mut a, k1, v1);
    assert(attrs_view(a@) =~= seq![(k1@, v1@)]);
    a
}

fn attrs2(k1: &str, v1: &str, k2: &str, v2: &str) -> (r: Vec<(String, String)>)
    ensures
        attrs_view(r@) == seq![(k1@, v1@), (k2@, v2@)],
{
    let mut a = attrs1(k1, v1);
    push_attr(&mut a, k2, v2);
    assert(attrs_view(a@) =~= seq![(k1@, v1@), (k2@, v2@)]);
    a
}

fn attrs3(k1: &str, v1: &str, k2: &str, v2: &str, k3: &str, v3: &str) -> (r: Vec<(String, String)>)
    ensures
        attrs_view(r@) == seq![(k1@, v1@), (k2@, v2@), (k3@, v3@)],
{
    let mut a = attrs2(k1, v1, k2, v2);
    push_attr(&mut a, k3, v3);
    assert(attrs_view(a@) =~= seq![(k1@, v1@), (k2@, v2@), (k3@, v3@)]);
    a
}

fn attrs4(k1: &str, v1: &str, k2: &str, v2: &str, k3: &str, v3: &str, k4: &str, v4: &str) -> (r:
    Vec<(String, String)>)
    ensures
        attrs_view(r@) == seq![(k1@, v1@), (k2@, v2@), (k3@, v3@), (k4@, v4@)],
{
    let mut a = attrs3(k1, v1, k2, v2, k3, v3);
    push_attr(&mut a, k4, v4);
    assert(attrs_view(a@) =~= seq![(k1@, v1@), (k2@, v2@), (k3@, v3@), (k4@, v4@)]);
    a
}

fn start(name: &str, attrs: Vec<(String, String)>) -> (e: XmlEvent)
    ensures
        e@ == XmlEventView::Start(name@, attrs_view(attrs@)),
{
    XmlEvent::Start { name: owned(name), attrs }
}

fn empty(name: &str, attrs: Vec<(String, String)>) -> (e: XmlEvent)
    ensures
        e@ == XmlEventView::Empty(name@, attrs_view(attrs@)),
{
    XmlEvent::Empty { name: owned(name), attrs }
}

fn end(name: &str) -> (e: XmlEvent)
    ensures
        e@ == XmlEventView::End(name@),
{
    XmlEvent::End(owned(name))
}

fn text(t: &str) -> (e: XmlEvent)
    ensures
        e@ == XmlEventView::Text(t@),
{
    XmlEvent::Text(owned(t))
}

fn decl() -> (e: XmlEvent)
    ensures
        e@ == XmlEventView::Decl("1.0"@, "utf-8"@),
{
    XmlEvent::Decl { version: owned("1.0"), encoding: owned("utf-8") }
}

pub open spec fn start_ev(name: Seq<char>) -> XmlEventView {
    XmlEventView::Start(name, Seq::empty())
}

/// `<name attrs>text</name>`, the shape of every Dublin Core element.
pub open spec fn dc_events(
    name: Seq<char>,
    text: Seq<char>,
    attrs: Seq<(Seq<char>, Seq<char>)>,
) -> Seq<XmlEventView> {
    seq![XmlEventView::Start(name, attrs), XmlEventView::Text(text), XmlEventView::End(name)]
}

/// Appends a Dublin Core element with its text and attributes.
fn write_dc(events: &mut Vec<XmlEvent>, name: &str, t: &str, attrs: Vec<(String, String)>)
    ensures
        events_view(final(events)@) == events_view(old(events)@) + dc_events(
            name@,
            t@,
            attrs_view(attrs@),
        ),
{
    let ghost before = events_view(events@);
    let ghost a = attrs_view(attrs@);
    push_event(events, start(name, attrs));
    push_event(events, text(t));
    push_event(events, end(name));
    assert(events_view(events@) =~= before + dc_events(name@, t@, a));
}

// ---------------------------------------------------------------------------
// container.xml
// ---------------------------------------------------------------------------

/// The events of `META-INF/container.xml`: one rootfile, the package
/// document at `OEBPS/package.opf`.
pub open spec fn container_events() -> Seq<XmlEventView> {
    seq![
        XmlEventView::Decl("1.0"@, "utf-8"@),
        XmlEventView::Start(
            "container"@,
            seq![("version"@, "1.0"@), ("xmlns"@, "urn:oasis:names:tc:opendocument:xmlns:container"@)],
        ),
        start_ev("rootfiles"@),
        XmlEventView::Empty(
            "rootfile"@,
            seq![("full-path"@, "OEBPS/package.opf"@), ("media-type"@, "application/oebps-package+xml"@)],
        ),
        XmlEventView::End("rootfiles"@),
        XmlEventView::End("container"@),
    ]
}

fn container_event_list() -> (v: Vec<XmlEvent>)
    ensures
        events_view(v@) == container_events(),
{
    let mut v: Vec<XmlEvent> = Vec::new();
    assert(events_view(v@) =~= Seq::<XmlEventView>::empty());
    push_event(&mut v, decl());
    push_event(
        &mut v,
        start(
            "container",
            attrs2("version", "1.0", "xmlns", "urn:oasis:names:tc:opendocument:xmlns:container"),
        ),
    );
    push_event(&mut v, start("rootfiles", no_attrs()));
    push_event(
        &mut v,
        empty(
            "rootfile",
            attrs2(
                "full-path",
                "OEBPS/package.opf",
                "media-type",
                "application/oebps-package+xml",
            ),
        ),
    );
    push_event(&mut v, end("rootfiles"));
    push_event(&mut v, end("container"));
    assert(events_view(v@) =~= container_events());
    v
}

/// `META-INF/container.xml`.
pub fn container_xml() -> (r: core::result::Result<String, Error>)
    ensures
        r is Ok,
        match r {
            Ok(s) => s@ == document_text(container_events()),
            Err(_) => false,
        },
{
    let v = container_event_list();
    write_document(&v)
}

// ---------------------------------------------------------------------------
// package.opf
// ---------------------------------------------------------------------------

/// The manifest and spine id of the `n`-th chapter: `ch001`, `ch002`, ...
pub open spec fn chapter_id_spec(n: nat) -> Seq<char> {
    "ch"@ + zero_padded(n, 3)
}

fn chapter_id(n: u64) -> (r: String)
    ensures
        r@ == chapter_id_spec(n as nat),
{
    let mut out = owned("ch");
    let d = format_zero_padded(n, 3);
    push_str(&mut out, d.as_str());
    out
}

/// The spine's page progression: right to left for vertical books.
pub open spec fn progression(mode: WritingMode) -> Seq<char> {
    match mode {
        WritingMode::Vertical => "rtl"@,
        WritingMode::Horizontal => "ltr"@,
    }
}

/// The manifest entry of the `i`-th chapter (0-based).
pub open spec fn manifest_chapter(i: int, href: Seq<char>) -> XmlEventView {
    XmlEventView::Empty(
        "item"@,
        seq![
            ("id"@, chapter_id_spec((i + 1) as nat)),
            ("href"@, href),
            ("media-type"@, "application/xhtml+xml"@),
        ],
    )
}

/// The spine reference to the `i`-th chapter (0-based).
pub open spec fn spine_ref(i: int) -> XmlEventView {
    XmlEventView::Empty("itemref"@, seq![("idref"@, chapter_id_spec((i + 1) as nat))])
}

pub open spec fn manifest_chapters(hrefs: Seq<Seq<char>>) -> Seq<XmlEventView> {
    Seq::new(hrefs.len(), |i: int| manifest_chapter(i, hrefs[i]))
}

pub open spec fn spine_refs(n: nat) -> Seq<XmlEventView> {
    Seq::new(n, |i: int| spine_ref(i))
}

/// Everything of the package document before the chapter entries of the
/// manifest.
pub open spec fn opf_head(
    meta: &Metadata,
    id: Seq<char>,
    stamp: Seq<char>,
) -> Seq<XmlEventView> {
    seq![
        XmlEventView::Decl("1.0"@, "utf-8"@),
        XmlEventView::Start(
            "package"@,
            seq![
                ("xmlns"@, "http://www.idpf.org/2007/opf"@),
                ("version"@, "3.0"@),
                ("unique-identifier"@, "bookid"@),
                ("xml:lang"@, meta.language@),
            ],
        ),
        XmlEventView::Start("metadata"@, seq![("xmlns:dc"@, "http://purl.org/dc/elements/1.1/"@)]),
    ] + dc_events("dc:identifier"@, id, seq![("id"@, "bookid"@)]) + dc_events(
        "dc:title"@,
        meta.title@,
        Seq::empty(),
    ) + dc_events("dc:creator"@, meta.creator@, Seq::empty()) + dc_events(
        "dc:language"@,
        meta.language@,
        Seq::empty(),
    ) + dc_events("meta"@, stamp, seq![("property"@, "dcterms:modified"@)]) + seq![
        XmlEventView::End("metadata"@),
        start_ev("manifest"@),
        XmlEventView::Empty(
            "item"@,
            seq![
                ("id"@, "nav"@),
                ("href"@, "nav.xhtml"@),
                ("media-type"@, "application/xhtml+xml"@),
                ("properties"@, "nav"@),
            ],
        ),
        XmlEventView::Empty(
            "item"@,
            seq![("id"@, "css"@), ("href"@, "css/aozora-md.css"@), ("media-type"@, "text/css"@)],
        ),
    ]
}

/// The events of the package document: metadata, a manifest holding the
/// navigation document, the stylesheet and every chapter, and a spine
/// referring to every chapter in order.
pub open spec fn opf_events(
    meta: &Metadata,
    id: Seq<char>,
    hrefs: Seq<Seq<char>>,
    stamp: Seq<char>,
) -> Seq<XmlEventView> {
    opf_head(meta, id, stamp) + manifest_chapters(hrefs) + seq![
        XmlEventView::End("manifest"@),
        XmlEventView::Start(
            "spine"@,
            seq![("page-progression-direction"@, progression(meta.writing_mode))],
        ),
    ] + spine_refs(hrefs.len()) + seq![
        XmlEventView::End("spine"@),
        XmlEventView::End("package"@),
    ]
}

pub open spec fn item_hrefs(items: Seq<SpineItem>) -> Seq<Seq<char>> {
    items.map_values(|it: SpineItem| it.href@)
}

fn opf_head_events(meta: &Metadata, id: &str, stamp: &str) -> (v: Vec<XmlEvent>)
    ensures
        events_view(v@) == opf_head(meta, id@, stamp@),
{
    let mut v: Vec<XmlEvent> = Vec::new();
    assert(events_view(v@) =~= Seq::<XmlEventView>::empty());
    push_event(&mut v, decl());
    let pa = attrs4(
        "xmlns",
        "http://www.idpf.org/2007/opf",
        "version",
        "3.0",
        "unique-identifier",
        "bookid",
        "xml:lang",
        meta.language.as_str(),
    );
    push_event(&mut v, start("package", pa));
    push_event(&mut v, start("metadata", attrs1("xmlns:dc", "http://purl.org/dc/elements/1.1/")));
    write_dc(&mut v, "dc:identifier", id, attrs1("id", "bookid"));
    write_dc(&mut v, "dc:title", meta.title.as_str(), no_attrs());
    write_dc(&mut v, "dc:creator", meta.creator.as_str(), no_attrs());
    write_dc(&mut v, "dc:language", meta.language.as_str(), no_attrs());
    write_dc(&mut v, "meta", stamp, attrs1("property", "dcterms:modified"));
    push_event(&mut v, end("metadata"));
    push_event(&mut v, start("manifest", no_attrs()));
    let nav = attrs4(
        "id",
        "nav",
        "href",
        "nav.xhtml",
        "media-type",
        "application/xhtml+xml",
        "properties",
        "nav",
    );
    write_manifest_item(&mut v, nav);
    let css = attrs3("id", "css", "href", "css/aozora-md.css", "media-type", "text/css");
    write_manifest_item(&mut v, css);
    assert(events_view(v@) =~= opf_head(meta, id@, stamp@));
    v
}

/// Appends one manifest entry with the given attributes.
fn write_manifest_item(events: &mut Vec<XmlEvent>, attrs: Vec<(String, String)>)
    ensures
        events_view(final(events)@) == events_view(old(events)@).push(
            XmlEventView::Empty("item"@, attrs_view(attrs@)),
        ),
{
    push_event(events, empty("item", attrs));
}

fn opf_event_list(meta: &Metadata, id: &str, items: &Vec<SpineItem>, stamp: &str) -> (v: Vec<
    XmlEvent,
>)
    ensures
        events_view(v@) == opf_events(meta, id@, item_hrefs(items@), stamp@),
{
    let mut v = opf_head_events(meta, id, stamp);
    let ghost head = events_view(v@);
    let ghost hrefs = item_hrefs(items@);
    let n = items.len();
    let mut i: usize = 0;
    while i < n
        invariant
            i <= n,
            n == items@.len(),
            hrefs == item_hrefs(items@),
            events_view(v@) == head + manifest_chapters(hrefs.take(i as int)),
        decreases n - i,
    {
        let id_i = chapter_id((i as u64) + 1);
        let a = attrs3(
            "id",
            id_i.as_str(),
            "href",
            items[i].href.as_str(),
            "media-type",
            "application/xhtml+xml",
        );
        write_manifest_item(&mut v, a);
        proof {
            assert(manifest_chapters(hrefs.take(i + 1)) =~= manifest_chapters(
                hrefs.take(i as int),
            ).push(manifest_chapter(i as int, hrefs[i as int])));
        }
        i = i + 1;
    }
    assert(hrefs.take(n as int) == hrefs);
    let ghost mid = events_view(v@);
    push_event(&mut v, end("manifest"));
    let sa = match meta.writing_mode {
        WritingMode::Vertical => attrs1("page-progression-direction", "rtl"),
        WritingMode::Horizontal => attrs1("page-progression-direction", "ltr"),
    };
    push_event(&mut v, start("spine", sa));
    let ghost spine_start = events_view(v@);
    let mut j: usize = 0;
    while j < n
        invariant
            j <= n,
            events_view(v@) == spine_start + spine_refs(j as nat),
        decreases n - j,
    {
        let id_j = chapter_id((j as u64) + 1);
        push_event(&mut v, empty("itemref", attrs1("idref", id_j.as_str())));
        proof {
            assert(spine_refs((j + 1) as nat) =~= spine_refs(j as nat).push(spine_ref(j as int)));
        }
        j = j + 1;
    }
    push_event(&mut v, end("spine"));
    push_event(&mut v, end("package"));
    assert(events_view(v@) =~= opf_events(meta, id@, hrefs, stamp@));
    v
}

/// The OPF package document.
pub fn package_opf(meta: &Metadata, id: &str, rendered: &RenderOutput, stamp: &str) -> (r:
    core::result::Result<String, Error>)
    ensures
        r is Ok,
        match r {
            Ok(s) => s@ == document_text(opf_events(meta, id@, item_hrefs(rendered.items@), stamp@)),
            Err(_) => false,
        },
{
    let v = opf_event_list(meta, id, &rendered.items, stamp);
    write_document(&v)
}

// ---------------------------------------------------------------------------
// nav.xhtml
// ---------------------------------------------------------------------------

/// The `j`-th of the five events listing one chapter:
/// `<li><a href="..">title</a></li>`.
pub open spec fn nav_entry_event(item: SpineItem, j: int) -> XmlEventView {
    if j == 0 {
        start_ev("li"@)
    } else if j == 1 {
        XmlEventView::Start("a"@, seq![("href"@, item.href@)])
    } else if j == 2 {
        XmlEventView::Text(item.title@)
    } else if j == 3 {
        XmlEventView::End("a"@)
    } else {
        XmlEventView::End("li"@)
    }
}

/// The list entries of every chapter, five events each, in order.
pub open spec fn nav_entries(items: Seq<SpineItem>) -> Seq<XmlEventView> {
    Seq::new(5 * items.len(), |k: int| nav_entry_event(items[k / 5], k % 5))
}

pub open spec fn nav_head(meta: &Metadata) -> Seq<XmlEventView> {
    seq![
        XmlEventView::Decl("1.0"@, "utf-8"@),
        XmlEventView::DocType(" html"@),
        XmlEventView::Start(
            "html"@,
            seq![
                ("xmlns"@, "http://www.w3.org/1999/xhtml"@),
                ("xmlns:epub"@, "http://www.idpf.org/2007/ops"@),
                ("xml:lang"@, meta.language@),
                ("lang"@, meta.language@),
            ],
        ),
        start_ev("head"@),
        XmlEventView::Empty("meta"@, seq![("charset"@, "utf-8"@)]),
        start_ev("title"@),
        XmlEventView::Text(meta.title@),
        XmlEventView::End("title"@),
        XmlEventView::End("head"@),
        start_ev("body"@),
        XmlEventView::Start("nav"@, seq![("epub:type"@, "toc"@), ("id"@, "toc"@)]),
        start_ev("h1"@),
        XmlEventView::Text("\u{76ee}\u{6b21}"@),
        XmlEventView::End("h1"@),
        start_ev("ol"@),
    ]
}

/// The events of the navigation document: a table of contents listing
/// every chapter, in order, by its title.
pub open spec fn nav_events(meta: &Metadata, items: Seq<SpineItem>) -> Seq<XmlEventView> {
    nav_head(meta) + nav_entries(items) + seq![
        XmlEventView::End("ol"@),
        XmlEventView::End("nav"@),
        XmlEventView::End("body"@),
        XmlEventView::End("html"@),
    ]
}

fn nav_head_events(meta: &Metadata) -> (v: Vec<XmlEvent>)
    ensures
        events_view(v@) == nav_head(meta),
{
    let mut v: Vec<XmlEvent> = Vec::new();
    assert(events_view(v@) =~= Seq::<XmlEventView>::empty());
    push_event(&mut v, decl());
    push_event(&mut v, XmlEvent::DocType(owned(" html")));
    let ha = attrs4(
        "xmlns",
        "http://www.w3.org/1999/xhtml",
        "xmlns:epub",
        "http://www.idpf.org/2007/ops",
        "xml:lang",
        meta.language.as_str(),
        "lang",
        meta.language.as_str(),
    );
    push_event(&mut v, start("html", ha));
    push_event(&mut v, start("head", no_attrs()));
    push_event(&mut v, empty("meta", attrs1("charset", "utf-8")));
    push_event(&mut v, start("title", no_attrs()));
    push_event(&mut v, text(meta.title.as_str()));
    push_event(&mut v, end("title"));
    push_event(&mut v, end("head"));
    push_event(&mut v, start("body", no_attrs()));
    push_event(&mut v, start("nav", attrs2("epub:type", "toc", "id", "toc")));
    push_event(&mut v, start("h1", no_attrs()));
    push_event(&mut v, text("\u{76ee}\u{6b21}"));
    push_event(&mut v, end("h1"));
    push_event(&mut v, start("ol", no_attrs()));
    assert(events_view(v@) =~= nav_head(meta));
    v
}

proof fn lemma_div_mod_5(i: int, j: int)
    requires
        0 <= i,
        0 <= j < 5,
    ensures
        (5 * i + j) / 5 == i,
        (5 * i + j) % 5 == j,
{
    assert((5 * i + j) / 5 == i) by (nonlinear_arith)
        requires
            0 <= i,
            0 <= j < 5,
    ;
    assert((5 * i + j) % 5 == j) by (nonlinear_arith)
        requires
            0 <= i,
            0 <= j < 5,
    ;
}

/// The navigation document.
pub fn nav_xhtml(meta: &Metadata, rendered: &RenderOutput) -> (r: core::result::Result<
    String,
    Error,
>)
    ensures
        r is Ok,
        match r {
            Ok(s) => s@ == document_text(nav_events(meta, rendered.items@)),
            Err(_) => false,
        },
{
    let mut v = nav_head_events(meta);
    let ghost head = events_view(v@);
    let items = &rendered.items;
    let n = items.len();
    let mut i: usize = 0;
    while i < n
        invariant
            i <= n,
            n == items@.len(),
            events_view(v@) == head + nav_entries(items@.take(i as int)),
        decreases n - i,
    {
        let it = &items[i];
        push_event(&mut v, start("li", no_attrs()));
        push_event(&mut v, start("a", attrs1("href", it.href.as_str())));
        push_event(&mut v, text(it.title.as_str()));
        push_event(&mut v, end("a"));
        push_event(&mut v, end("li"));
        proof {
            let before = nav_entries(items@.take(i as int));
            let after = nav_entries(items@.take(i + 1));
            let it_s = items@[i as int];
            assert forall|k: int| 0 <= k < after.len() implies after[k] == (before + seq![
                nav_entry_event(it_s, 0),
                nav_entry_event(it_s, 1),
                nav_entry_event(it_s, 2),
                nav_entry_event(it_s, 3),
                nav_entry_event(it_s, 4),
            ])[k] by {
                let q = k / 5;
                let m = k % 5;
                lemma_div_mod_5(q, m);
                assert(k == 5 * q + m) by (nonlinear_arith)
                    requires
                        q == k / 5,
                        m == k % 5,
                ;
                if k < 5 * i {
                    assert(q < i) by (nonlinear_arith)
                        requires
                            k == 5 * q + m,
                            0 <= m < 5,
                            k < 5 * i,
                    ;
                    assert(items@.take(i + 1)[q] == items@.take(i as int)[q]);
                } else {
                    assert(q == i) by (nonlinear_arith)
                        requires
                            k == 5 * q + m,
                            0 <= m < 5,
                            5 * i <= k < 5 * (i + 1),
                    ;
                }
            }
            assert(after =~= before + seq![
                nav_entry_event(it_s, 0),
                nav_entry_event(it_s, 1),
                nav_entry_event(it_s, 2),
                nav_entry_event(it_s, 3),
                nav_entry_event(it_s, 4),
            ]);
        }
        i = i + 1;
    }
    assert(items@.take(n as int) == items@);
    push_event(&mut v, end("ol"));
    push_event(&mut v, end("nav"));
    push_event(&mut v, end("body"));
    push_event(&mut v, end("html"));
    assert(events_view(v@) =~= nav_events(meta, items@));
    write_document(&v)
}

// ---------------------------------------------------------------------------
// The bundle
// ---------------------------------------------------------------------------

/// The media type that the `mimetype` file holds.
pub open spec fn epub_mimetype() -> Seq<char> {
    "application/epub+zip"@
}

/// The book's `dc:identifier`: the one `book.toml` gives, or a fresh
/// `urn:uuid:` one.
pub open spec fn book_id(meta: &Metadata, fresh_uuid: Seq<char>) -> Seq<char> {
    match meta.identifier {
        Some(id) => id@,
        None => "urn:uuid:"@ + fresh_uuid,
    }
}

/// The container file of a chapter: `OEBPS/<href>` holding its XHTML as
/// UTF-8.
pub open spec fn spine_file_spec(item: SpineItem, f: NamedFile) -> bool {
    &&& f.path@ == "OEBPS/"@ + item.href@
    &&& f.contents@ == encode_utf8(item.xhtml@)
}

/// Everything the bundle of a book holds, given its identifier and
/// modification time.
pub open spec fn bundle_spec(
    manuscript: &Manuscript,
    rendered: &RenderOutput,
    id: Seq<char>,
    stamp: Seq<char>,
    b: Bundle,
) -> bool {
    let meta = &manuscript.metadata;
    &&& b.mimetype@ == epub_mimetype()
    &&& b.container@ == document_text(container_events())
    &&& b.package_opf@ == document_text(opf_events(meta, id, item_hrefs(rendered.items@), stamp))
    &&& b.nav_xhtml@ == document_text(nav_events(meta, rendered.items@))
    &&& b.spine@.len() == rendered.items@.len()
    &&& forall|i: int|
        0 <= i < b.spine@.len() ==> spine_file_spec(rendered.items@[i], #[trigger] b.spine@[i])
    &&& b.assets@.len() == 1
    &&& b.assets@[0].path@ == "OEBPS/css/aozora-md.css"@
    &&& b.assets@[0].contents@ == encode_utf8(AOZORA_MD_CSS@)
}

/// What composing gives: the metadata error when the metadata breaks a
/// rule; otherwise the bundle.
pub open spec fn compose_outcome(
    manuscript: &Manuscript,
    rendered: &RenderOutput,
    id: Seq<char>,
    stamp: Seq<char>,
    r: core::result::Result<Bundle, Error>,
) -> bool {
    match metadata_violation_of(&manuscript.metadata) {
        Some((field, reason)) => match r {
            Err(Error::MetadataInvalid { field: f, reason: why }) => f@ == field && why@ == reason,
            _ => false,
        },
        None => match r {
            Ok(b) => bundle_spec(manuscript, rendered, id, stamp, b),
            Err(_) => false,
        },
    }
}

fn spine_files(items: &Vec<SpineItem>) -> (r: Vec<NamedFile>)
    ensures
        r@.len() == items@.len(),
        forall|i: int| 0 <= i < r@.len() ==> spine_file_spec(items@[i], #[trigger] r@[i]),
{
    let mut out: Vec<NamedFile> = Vec::new();
    let mut i: usize = 0;
    while i < items.len()
        invariant
            i <= items@.len(),
            out@.len() == i,
            forall|k: int| 0 <= k < i ==> spine_file_spec(items@[k], #[trigger] out@[k]),
        decreases items.len() - i,
    {
        let mut path = owned("OEBPS/");
        push_str(&mut path, items[i].href.as_str());
        let contents = items[i].xhtml.as_str().as_bytes_vec();
        out.push(NamedFile { path, contents });
        i = i + 1;
    }
    out
}

/// Composes the bundle with a given fresh identifier (used when
/// `book.toml` names none) and modification time.
pub fn compose_with(
    manuscript: &Manuscript,
    rendered: &RenderOutput,
    fresh_uuid: &str,
    stamp: &str,
) -> (r: core::result::Result<Bundle, Error>)
    ensures
        compose_outcome(
            manuscript,
            rendered,
            book_id(&manuscript.metadata, fresh_uuid@),
            stamp@,
            r,
        ),
{
    let meta = &manuscript.metadata;
    match validate_metadata(meta) {
        Err(e) => {
            return Err(e);
        },
        Ok(()) => {},
    }
    let id = match &meta.identifier {
        Some(given) => given.clone(),
        None => {
            let mut s = owned("urn:uuid:");
            push_str(&mut s, fresh_uuid);
            s
        },
    };
    let container = container_xml()?;
    let package_opf = package_opf(meta, id.as_str(), rendered, stamp)?;
    let nav_xhtml = nav_xhtml(meta, rendered)?;
    let spine = spine_files(&rendered.items);
    let mut assets: Vec<NamedFile> = Vec::new();
    assets.push(
        NamedFile { path: owned("OEBPS/css/aozora-md.css"), contents: AOZORA_MD_CSS.as_bytes_vec() },
    );
    Ok(
        Bundle {
            mimetype: "application/epub+zip",
            container,
            package_opf,
            nav_xhtml,
            spine,
            assets,
        },
    )
}

/// A version 4 UUID in its hyphenated lower-case text form: 36
/// characters, `-` at positions 8, 13, 18 and 23, lower-case hex digits
/// elsewhere, version digit `4` at position 14.
pub open spec fn is_uuid_v4_text(s: Seq<char>) -> bool {
    &&& s.len() == 36
    &&& forall|i: int|
        0 <= i < 36 ==> if i == 8 || i == 13 || i == 18 || i == 23 {
            #[trigger] s[i] == '-'
        } else {
            ('0' <= s[i] && s[i] <= '9') || ('a' <= s[i] && s[i] <= 'f')
        }
    &&& s[14] == '4'
}

/// `uuid::Uuid::new_v4()` in its `Display` form (hyphenated, lower case).
/// The contract claims the shape of that text; the value is random.
#[verifier::external_body]
fn new_uuid_v4() -> (r: String)
    ensures
        is_uuid_v4_text(r@),
{
    uuid::Uuid::new_v4().to_string()
}

/// The `chrono` format of `dcterms:modified`: UTC, `Z`-suffixed, whole
/// seconds.
pub open spec fn stamp_format() -> Seq<char> {
    "%Y-%m-%dT%H:%M:%SZ"@
}

/// `s[i]` is an ASCII digit.
pub open spec fn digit_at(s: Seq<char>, i: int) -> bool {
    '0' <= s[i] && s[i] <= '9'
}

/// The text `%Y-%m-%dT%H:%M:%SZ` gives for a UTC time after the Unix
/// epoch: the year (four digits, or `+` and more digits past 9999), then
/// `-MM-DDTHH:MM:SSZ` with two digits each: no offset, no fraction.
pub open spec fn is_utc_stamp(s: Seq<char>) -> bool {
    let n = s.len() as int;
    let y = s.take(n - 16);
    &&& n >= 20
    &&& (y.len() == 4 && forall|i: int| 0 <= i < 4 ==> digit_at(y, i)) || (y.len() >= 5 && y[0]
        == '+' && forall|i: int| 1 <= i < y.len() ==> digit_at(y, i))
    &&& s[n - 16] == '-' && digit_at(s, n - 15) && digit_at(s, n - 14)
    &&& s[n - 13] == '-' && digit_at(s, n - 12) && digit_at(s, n - 11)
    &&& s[n - 10] == 'T' && digit_at(s, n - 9) && digit_at(s, n - 8)
    &&& s[n - 7] == ':' && digit_at(s, n - 6) && digit_at(s, n - 5)
    &&& s[n - 4] == ':' && digit_at(s, n - 3) && digit_at(s, n - 2)
    &&& s[n - 1] == 'Z'
}

/// `chrono::Utc::now().format(fmt)`, written out. Only the modification
/// format is accepted (any other could be invalid, which makes the
/// formatting panic). `Utc::now` reads the clock as a time after the Unix
/// epoch (it panics on a clock set before it); chrono writes its year
/// with four digits up to 9999 and with a `+` sign and five or more
/// digits after, and month, day, hour, minute and second with two digits
/// each. The contract claims that shape; the time itself is the clock's.
#[verifier::external_body]
fn utc_now_formatted(fmt: &str) -> (r: String)
    requires
        fmt@ == stamp_format(),
    ensures
        is_utc_stamp(r@),
{
    chrono::Utc::now().format(fmt).to_string()
}

/// Composes the bundle of a book: validates the metadata, then writes the
/// container, the package document (stamped with the current time, and
/// identified by a fresh UUID when `book.toml` gives no identifier), the
/// navigation document, the chapters and the stylesheet.
pub fn compose(manuscript: &Manuscript, rendered: &RenderOutput) -> (r: core::result::Result<
    Bundle,
    Error,
>)
    ensures
        exists|fresh: Seq<char>, stamp: Seq<char>|
            {
                &&& (manuscript.metadata.identifier is None ==> is_uuid_v4_text(fresh))
                &&& is_utc_stamp(stamp)
                &&& compose_outcome(
                    manuscript,
                    rendered,
                    book_id(&manuscript.metadata, fresh),
                    stamp,
                    r,
                )
            },
{
    // A UUID is drawn only for a book that names no identifier.
    let fresh = match &manuscript.metadata.identifier {
        Some(_) => String::new(),
        None => new_uuid_v4(),
    };
    let stamp = utc_now_formatted("%Y-%m-%dT%H:%M:%SZ");
    let r = compose_with(manuscript, rendered, fresh.as_str(), stamp.as_str());
    assert((manuscript.metadata.identifier is None ==> is_uuid_v4_text(fresh@)) && is_utc_stamp(
        stamp@,
    ));
    r
}

} // verus!

//! Properties of the library as a whole, relating its functions' results.

use vstd::prelude::*;
use vstd::utf8::{decode_utf8, encode_utf8, encode_utf8_decode_utf8, decode_utf8_encode_utf8, is_ascii_chars, is_ascii_chars_encode_utf8, valid_utf8};

use crate::adr::{adr_number_spec, highest_adr};
use crate::compose::{
    bundle_spec, chapter_id_spec, epub_mimetype, manifest_chapter, manifest_chapters, nav_entries,
    nav_entry_event, nav_events, nav_head, opf_events, opf_head, progression, spine_ref,
    spine_refs, start_ev,
};
use crate::metadata::{all_alnum, all_alpha, later_subtag_ok, primary_subtag_ok, Metadata, WritingMode};
use crate::paths::{lemma_common_prefix_unique, lex_lt};
use crate::package::{archive_spec, Compression, ArchiveEntry};
use crate::paths::source_title_spec;
use crate::render::{
    body_class, chapter_href_spec, render_output_spec, wrap_xhtml_spec, Manuscript, RenderOutput, SpineItem,
};
use crate::compose::Bundle;
use crate::text::{escape_attr_spec, escape_char, lemma_zero_padded_injective, zero_padded};
use crate::xml::{document_text, with_final_newline, XmlEventView};

verus! {

// ---------------------------------------------------------------------------
// Escaping
// ---------------------------------------------------------------------------

/// Whether `t` starts with `p`.
pub open spec fn starts_with(t: Seq<char>, p: Seq<char>) -> bool {
    p.len() <= t.len() && t.take(p.len() as int) == p
}

/// Reads the five entity references that attribute escaping writes back
/// as the characters they stand for; everything else is kept.
pub open spec fn unescape_attr_spec(t: Seq<char>) -> Seq<char>
    decreases t.len(),
{
    if t.len() == 0 {
        Seq::empty()
    } else if starts_with(t, seq!['&', 'a', 'm', 'p', ';']) {
        seq!['&'] + unescape_attr_spec(t.skip(5))
    } else if starts_with(t, seq!['&', 'l', 't', ';']) {
        seq!['<'] + unescape_attr_spec(t.skip(4))
    } else if starts_with(t, seq!['&', 'g', 't', ';']) {
        seq!['>'] + unescape_attr_spec(t.skip(4))
    } else if starts_with(t, seq!['&', 'q', 'u', 'o', 't', ';']) {
        seq!['"'] + unescape_attr_spec(t.skip(6))
    } else if starts_with(t, seq!['&', '#', '3', '9', ';']) {
        seq!['\''] + unescape_attr_spec(t.skip(5))
    } else {
        seq![t[0]] + unescape_attr_spec(t.drop_first())
    }
}

proof fn lemma_unescape_prefix(e: Seq<char>, rest: Seq<char>, c: char)
    requires
        e == escape_char(c),
    ensures
        unescape_attr_spec(e + rest) == seq![c] + unescape_attr_spec(rest),
{
    reveal_strlit("&amp;");
    reveal_strlit("&lt;");
    reveal_strlit("&gt;");
    reveal_strlit("&quot;");
    reveal_strlit("&#39;");
    assert("&amp;"@ == seq!['&', 'a', 'm', 'p', ';']);
    assert("&lt;"@ == seq!['&', 'l', 't', ';']);
    assert("&gt;"@ == seq!['&', 'g', 't', ';']);
    assert("&quot;"@ == seq!['&', 'q', 'u', 'o', 't', ';']);
    assert("&#39;"@ == seq!['&', '#', '3', '9', ';']);
    let t = e + rest;
    assert(t.len() > 0);
    if c == '&' {
        assert(t.take(5) =~= "&amp;"@);
        assert(t.skip(5) =~= rest);
    } else if c == '<' {
        assert(!starts_with(t, "&amp;"@)) by {
            if 5 <= t.len() {
                assert(t.take(5)[1] != "&amp;"@[1]);
            }
        }
        assert(t.take(4) =~= "&lt;"@);
        assert(t.skip(4) =~= rest);
    } else if c == '>' {
        assert(!starts_with(t, "&amp;"@)) by {
            if 5 <= t.len() {
                assert(t.take(5)[1] != "&amp;"@[1]);
            }
        }
        assert(!starts_with(t, "&lt;"@)) by {
            assert(t.take(4)[1] != "&lt;"@[1]);
        }
        assert(t.take(4) =~= "&gt;"@);
        assert(t.skip(4) =~= rest);
    } else if c == '"' {
        assert(!starts_with(t, "&amp;"@)) by {
            assert(t.take(5)[1] != "&amp;"@[1]);
        }
        assert(!starts_with(t, "&lt;"@)) by {
            assert(t.take(4)[1] != "&lt;"@[1]);
        }
        assert(!starts_with(t, "&gt;"@)) by {
            assert(t.take(4)[1] != "&gt;"@[1]);
        }
        assert(t.take(6) =~= "&quot;"@);
        assert(t.skip(6) =~= rest);
    } else if c == '\'' {
        assert(!starts_with(t, "&amp;"@)) by {
            assert(t.take(5)[1] != "&amp;"@[1]);
        }
        assert(!starts_with(t, "&lt;"@)) by {
            assert(t.take(4)[1] != "&lt;"@[1]);
        }
        assert(!starts_with(t, "&gt;"@)) by {
            assert(t.take(4)[1] != "&gt;"@[1]);
        }
        assert(!starts_with(t, "&quot;"@)) by {
            if 6 <= t.len() {
                assert(t.take(6)[1] != "&quot;"@[1]);
            }
        }
        assert(t.take(5) =~= "&#39;"@);
        assert(t.skip(5) =~= rest);
    } else {
        assert(t[0] == c);
        assert(!starts_with(t, "&amp;"@)) by {
            if 5 <= t.len() {
                assert(t.take(5)[0] != "&amp;"@[0]);
            }
        }
        assert(!starts_with(t, "&lt;"@)) by {
            if 4 <= t.len() {
                assert(t.take(4)[0] != "&lt;"@[0]);
            }
        }
        assert(!starts_with(t, "&gt;"@)) by {
            if 4 <= t.len() {
                assert(t.take(4)[0] != "&gt;"@[0]);
            }
        }
        assert(!starts_with(t, "&quot;"@)) by {
            if 6 <= t.len() {
                assert(t.take(6)[0] != "&quot;"@[0]);
            }
        }
        assert(!starts_with(t, "&#39;"@)) by {
            if 5 <= t.len() {
                assert(t.take(5)[0] != "&#39;"@[0]);
            }
        }
        assert(t.drop_first() =~= rest);
    }
}

/// Attribute escaping is undone by reading the entity references back:
/// text is escaped exactly once, and nothing of it is lost.
pub proof fn lemma_escape_attr_roundtrip(s: Seq<char>)
    ensures
        unescape_attr_spec(escape_attr_spec(s)) == s,
    decreases s.len(),
{
    if s.len() > 0 {
        lemma_escape_attr_roundtrip(s.drop_first());
        lemma_unescape_prefix(escape_char(s[0]), escape_attr_spec(s.drop_first()), s[0]);
        assert(seq![s[0]] + s.drop_first() =~= s);
    }
}

/// Escaped text holds no `<`, `>`, `"` or `'`: whatever a title or
/// language tag holds, it can neither open a tag nor end an attribute.
pub proof fn lemma_escape_attr_no_markup(s: Seq<char>)
    ensures
        forall|i: int|
            0 <= i < escape_attr_spec(s).len() ==> {
                let c = #[trigger] escape_attr_spec(s)[i];
                c != '<' && c != '>' && c != '"' && c != '\''
            },
    decreases s.len(),
{
    reveal_strlit("&amp;");
    reveal_strlit("&lt;");
    reveal_strlit("&gt;");
    reveal_strlit("&quot;");
    reveal_strlit("&#39;");
    if s.len() > 0 {
        lemma_escape_attr_no_markup(s.drop_first());
        let e = escape_char(s[0]);
        let r = escape_attr_spec(s.drop_first());
        assert forall|i: int| 0 <= i < (e + r).len() implies {
            let c = #[trigger] (e + r)[i];
            c != '<' && c != '>' && c != '"' && c != '\''
        } by {
            if i >= e.len() {
                assert((e + r)[i] == r[i - e.len()]);
            }
        }
    }
}

// ---------------------------------------------------------------------------
// Chapter names
// ---------------------------------------------------------------------------

proof fn lemma_middle_equal(x: Seq<char>, a: Seq<char>, b: Seq<char>, y: Seq<char>)
    requires
        x + a + y == x + b + y,
    ensures
        a == b,
{
    let l = x + a + y;
    assert((x + a + y).len() == x.len() + a.len() + y.len());
    assert((x + b + y).len() == x.len() + b.len() + y.len());
    assert(a.len() == b.len());
    assert(a =~= l.subrange(x.len() as int, (x.len() + a.len()) as int));
    assert(b =~= (x + b + y).subrange(x.len() as int, (x.len() + b.len()) as int));
}

/// Different chapters get different file names.
pub proof fn lemma_chapter_href_injective(a: nat, b: nat)
    requires
        chapter_href_spec(a) == chapter_href_spec(b),
    ensures
        a == b,
{
    lemma_middle_equal("chapter-"@, zero_padded(a, 3), zero_padded(b, 3), ".xhtml"@);
    lemma_zero_padded_injective(a, b, 3);
}

/// Different chapters get different manifest ids.
pub proof fn lemma_chapter_id_injective(a: nat, b: nat)
    requires
        chapter_id_spec(a) == chapter_id_spec(b),
    ensures
        a == b,
{
    lemma_middle_equal("ch"@, zero_padded(a, 3), zero_padded(b, 3), Seq::empty());
    assert("ch"@ + zero_padded(a, 3) + Seq::<char>::empty() == chapter_id_spec(a));
    assert("ch"@ + zero_padded(b, 3) + Seq::<char>::empty() == chapter_id_spec(b));
    lemma_zero_padded_injective(a, b, 3);
}

// ---------------------------------------------------------------------------
// The package document
// ---------------------------------------------------------------------------

/// In the package document the manifest lists the chapters in order, the
/// spine refers to them in the same order by the same ids, and the spine's
/// page progression follows the writing mode: for the `i`-th chapter, the
/// manifest item with id `ch<i+1>` and its spine reference `ch<i+1>`.
pub proof fn lemma_opf_chapter(
    meta: &Metadata,
    id: Seq<char>,
    hrefs: Seq<Seq<char>>,
    stamp: Seq<char>,
    i: int,
)
    requires
        0 <= i < hrefs.len(),
    ensures
        ({
            let ev = opf_events(meta, id, hrefs, stamp);
            let h = opf_head(meta, id, stamp).len() as int;
            let n = hrefs.len() as int;
            &&& ev.len() == h + 2 * n + 4
            &&& ev[h + i] == XmlEventView::Empty(
                "item"@,
                seq![
                    ("id"@, chapter_id_spec((i + 1) as nat)),
                    ("href"@, hrefs[i]),
                    ("media-type"@, "application/xhtml+xml"@),
                ],
            )
            &&& ev[h + n + 1] == XmlEventView::Start(
                "spine"@,
                seq![("page-progression-direction"@, progression(meta.writing_mode))],
            )
            &&& ev[h + n + 2 + i] == XmlEventView::Empty(
                "itemref"@,
                seq![("idref"@, chapter_id_spec((i + 1) as nat))],
            )
        }),
{
    let ev = opf_events(meta, id, hrefs, stamp);
    let head = opf_head(meta, id, stamp);
    let h = head.len() as int;
    let n = hrefs.len() as int;
    let mc = manifest_chapters(hrefs);
    let mid = seq![
        XmlEventView::End("manifest"@),
        XmlEventView::Start(
            "spine"@,
            seq![("page-progression-direction"@, progression(meta.writing_mode))],
        ),
    ];
    let sr = spine_refs(hrefs.len());
    let tail = seq![XmlEventView::End("spine"@), XmlEventView::End("package"@)];
    assert(ev == head + mc + mid + sr + tail);
    assert(ev[h + i] == mc[i]);
    assert(ev[h + n + 1] == mid[1]);
    assert(ev[h + n + 2 + i] == sr[i]);
}

/// Two different chapters never share a manifest id, so every spine
/// reference names exactly one manifest item.
pub proof fn lemma_opf_ids_distinct(i: int, j: int)
    requires
        0 <= i,
        0 <= j,
        i != j,
    ensures
        chapter_id_spec((i + 1) as nat) != chapter_id_spec((j + 1) as nat),
{
    if chapter_id_spec((i + 1) as nat) == chapter_id_spec((j + 1) as nat) {
        lemma_chapter_id_injective((i + 1) as nat, (j + 1) as nat);
    }
}

// ---------------------------------------------------------------------------
// The navigation document
// ---------------------------------------------------------------------------

/// The navigation document links the `i`-th chapter, by its href and
/// title, at a fixed place of its list.
pub proof fn lemma_nav_lists_chapter(meta: &Metadata, items: Seq<SpineItem>, i: int)
    requires
        0 <= i < items.len(),
    ensures
        ({
            let ev = nav_events(meta, items);
            let h = nav_head(meta).len() as int;
            &&& ev[h + 5 * i + 1] == XmlEventView::Start("a"@, seq![("href"@, items[i].href@)])
            &&& ev[h + 5 * i + 2] == XmlEventView::Text(items[i].title@)
        }),
{
    let ev = nav_events(meta, items);
    let head = nav_head(meta);
    let h = head.len() as int;
    let ne = nav_entries(items);
    let tail = seq![
        XmlEventView::End("ol"@),
        XmlEventView::End("nav"@),
        XmlEventView::End("body"@),
        XmlEventView::End("html"@),
    ];
    assert(ev == head + ne + tail);
    assert(5 * i + 2 < 5 * items.len()) by (nonlinear_arith)
        requires
            0 <= i < items.len(),
    ;
    assert((5 * i + 1) / 5 == i && (5 * i + 1) % 5 == 1) by (nonlinear_arith)
        requires
            0 <= i,
    ;
    assert((5 * i + 2) / 5 == i && (5 * i + 2) % 5 == 2) by (nonlinear_arith)
        requires
            0 <= i,
    ;
    assert(ev[h + 5 * i + 1] == ne[5 * i + 1]);
    assert(ev[h + 5 * i + 2] == ne[5 * i + 2]);
}

/// Every link of the navigation document is the link of some chapter at
/// that chapter's place; with distinct chapter hrefs, each chapter is
/// listed exactly once.
pub proof fn lemma_nav_links_only_chapters(meta: &Metadata, items: Seq<SpineItem>, k: int)
    requires
        0 <= k < nav_events(meta, items).len(),
        nav_events(meta, items)[k] is Start,
        nav_events(meta, items)[k]->Start_0 == "a"@,
    ensures
        ({
            let h = nav_head(meta).len() as int;
            let i = (k - h) / 5;
            &&& 0 <= i < items.len()
            &&& k == h + 5 * i + 1
            &&& nav_events(meta, items)[k] == XmlEventView::Start(
                "a"@,
                seq![("href"@, items[i].href@)],
            )
        }),
{
    reveal_strlit("a");
    reveal_strlit("html");
    reveal_strlit("head");
    reveal_strlit("title");
    reveal_strlit("body");
    reveal_strlit("nav");
    reveal_strlit("h1");
    reveal_strlit("ol");
    reveal_strlit("li");
    let ev = nav_events(meta, items);
    let head = nav_head(meta);
    let h = head.len() as int;
    let ne = nav_entries(items);
    let tail = seq![
        XmlEventView::End("ol"@),
        XmlEventView::End("nav"@),
        XmlEventView::End("body"@),
        XmlEventView::End("html"@),
    ];
    assert(ev == head + ne + tail);
    assert("a"@.len() == 1);
    assert("html"@.len() == 4);
    assert("head"@.len() == 4);
    assert("title"@.len() == 5);
    assert("body"@.len() == 4);
    assert("nav"@.len() == 3);
    assert("h1"@.len() == 2);
    assert("ol"@.len() == 2);
    assert("li"@.len() == 2);
    assert(head.len() == 15);
    if k < h {
        assert(ev[k] == head[k]);
        assert(!(head[k] is Start && head[k]->Start_0 == "a"@)) by {
            if k == 2 {
                assert(head[2]->Start_0 == "html"@);
            } else if k == 3 {
                assert(head[3]->Start_0 == "head"@);
            } else if k == 5 {
                assert(head[5]->Start_0 == "title"@);
            } else if k == 9 {
                assert(head[9]->Start_0 == "body"@);
            } else if k == 10 {
                assert(head[10]->Start_0 == "nav"@);
            } else if k == 11 {
                assert(head[11]->Start_0 == "h1"@);
            } else if k == 14 {
                assert(head[14]->Start_0 == "ol"@);
            } else {
                assert(!(head[k] is Start));
            }
        }
        assert(false);
    } else if k >= h + ne.len() {
        let t = k - h - ne.len();
        assert(ev[k] == tail[t]);
        assert(tail[t] is End) by {
            assert(0 <= t < 4);
            if t == 0 {
            } else if t == 1 {
            } else if t == 2 {
            } else {
            }
        }
        assert(false);
    } else {
        let j = k - h;
        assert(ev[k] == ne[j]);
        let i = j / 5;
        let m = j % 5;
        assert(j == 5 * i + m && 0 <= m < 5) by (nonlinear_arith)
            requires
                i == j / 5,
                m == j % 5,
                j >= 0,
        ;
        assert(0 <= i < items.len()) by (nonlinear_arith)
            requires
                j == 5 * i + m,
                0 <= m < 5,
                0 <= j < 5 * items.len(),
        ;
        assert(ne[j] == nav_entry_event(items[i], m));
        if m != 1 {
            assert(false);
        }
    }
}

// ---------------------------------------------------------------------------
// Files
// ---------------------------------------------------------------------------

/// Every XML document the library writes ends with a newline.
pub proof fn lemma_documents_end_with_newline(events: Seq<XmlEventView>)
    ensures
        document_text(events).len() > 0,
        document_text(events).last() == '\n',
{
}

/// The `mimetype` file holds exactly the 20 ASCII bytes of
/// `application/epub+zip`, with no trailing newline.
pub proof fn lemma_mimetype_bytes()
    ensures
        encode_utf8(epub_mimetype()).len() == 20,
        encode_utf8(epub_mimetype()) == seq![
            0x61u8, 0x70, 0x70, 0x6c, 0x69, 0x63, 0x61, 0x74, 0x69, 0x6f, 0x6e, 0x2f, 0x65, 0x70,
            0x75, 0x62, 0x2b, 0x7a, 0x69, 0x70,
        ],
{
    reveal_strlit("application/epub+zip");
    let s = epub_mimetype();
    assert(is_ascii_chars(s));
    is_ascii_chars_encode_utf8(s);
    assert(encode_utf8(s) =~= seq![
        0x61u8, 0x70, 0x70, 0x6c, 0x69, 0x63, 0x61, 0x74, 0x69, 0x6f, 0x6e, 0x2f, 0x65, 0x70,
        0x75, 0x62, 0x2b, 0x7a, 0x69, 0x70,
    ]);
}

/// Decoding a UTF-8 source loses nothing: the chapter text encodes back to
/// the source's bytes.
pub proof fn lemma_utf8_source_roundtrip(bytes: Seq<u8>)
    requires
        valid_utf8(bytes),
    ensures
        encode_utf8(decode_utf8(bytes)) == bytes,
{
    decode_utf8_encode_utf8(bytes);
}

/// Every source becomes exactly one chapter of the container, in source
/// order: after the four package files and the stylesheet, the `i`-th
/// entry is `OEBPS/chapter-<i+1>.xhtml`, deflated, holding the `i`-th
/// source's HTML wrapped in its chapter document.
pub proof fn lemma_source_becomes_chapter(
    manuscript: &Manuscript,
    bodies: Seq<String>,
    rendered: RenderOutput,
    id: Seq<char>,
    stamp: Seq<char>,
    b: Bundle,
    entries: Seq<ArchiveEntry>,
    i: int,
)
    requires
        bodies.len() == manuscript.sources@.len(),
        render_output_spec(manuscript, bodies, rendered),
        bundle_spec(manuscript, &rendered, id, stamp, b),
        archive_spec(b, entries),
        0 <= i < manuscript.sources@.len(),
    ensures
        entries.len() == 5 + manuscript.sources@.len(),
        entries[4].name@ == "OEBPS/css/aozora-md.css"@,
        entries[5 + i].name@ == "OEBPS/"@ + chapter_href_spec((i + 1) as nat),
        entries[5 + i].contents@ == encode_utf8(
            wrap_xhtml_spec(
                source_title_spec(manuscript.sources@[i].path@),
                bodies[i]@,
                manuscript.metadata.language@,
                manuscript.metadata.writing_mode,
            ),
        ),
        entries[5 + i].compression == Compression::Deflated,
{
    let na = b.assets@.len() as int;
    let first: int = 0;
    assert(crate::package::deflated_entry(b.assets@[first], entries[4 + first]));
    assert(crate::package::deflated_entry(b.spine@[i], entries[4 + na + i]));
    assert(crate::render::spine_item_spec(
        &manuscript.metadata,
        i,
        manuscript.sources@[i].path@,
        bodies[i]@,
        rendered.items@[i],
    ));
    assert(crate::compose::spine_file_spec(rendered.items@[i], b.spine@[i]));
}

// ---------------------------------------------------------------------------
// ADR numbering
// ---------------------------------------------------------------------------

/// The highest ADR number is at least the number of every file, so the
/// next number is used by none of them.
pub proof fn lemma_highest_adr_bound(names: Seq<String>, i: int)
    requires
        0 <= i < names.len(),
        adr_number_spec(names[i]@) is Some,
    ensures
        adr_number_spec(names[i]@)->Some_0 <= highest_adr(names),
    decreases names.len(),
{
    if i < names.len() - 1 {
        assert(names.drop_last()[i] == names[i]);
        lemma_highest_adr_bound(names.drop_last(), i);
    }
}


// ---------------------------------------------------------------------------
// What each document says
// ---------------------------------------------------------------------------

/// The package document's metadata names the book as `book.toml` does:
/// `dc:identifier` holds the identifier, `dc:title` the title,
/// `dc:creator` the creator, `dc:language` the language and
/// `dcterms:modified` the modification time, each as the text right
/// after its opening tag; the package element carries the language and
/// names `bookid` as its identifier, and the manifest lists the
/// navigation document (as `nav`) and the stylesheet.
pub proof fn lemma_opf_metadata_elements(
    meta: &Metadata,
    id: Seq<char>,
    hrefs: Seq<Seq<char>>,
    stamp: Seq<char>,
)
    ensures
        ({
            let ev = opf_events(meta, id, hrefs, stamp);
            &&& ev.len() > 21
            &&& ev[1] == XmlEventView::Start(
                "package"@,
                seq![
                    ("xmlns"@, "http://www.idpf.org/2007/opf"@),
                    ("version"@, "3.0"@),
                    ("unique-identifier"@, "bookid"@),
                    ("xml:lang"@, meta.language@),
                ],
            )
            &&& ev[3] == XmlEventView::Start("dc:identifier"@, seq![("id"@, "bookid"@)])
            &&& ev[4] == XmlEventView::Text(id)
            &&& ev[6] == XmlEventView::Start("dc:title"@, Seq::empty())
            &&& ev[7] == XmlEventView::Text(meta.title@)
            &&& ev[9] == XmlEventView::Start("dc:creator"@, Seq::empty())
            &&& ev[10] == XmlEventView::Text(meta.creator@)
            &&& ev[12] == XmlEventView::Start("dc:language"@, Seq::empty())
            &&& ev[13] == XmlEventView::Text(meta.language@)
            &&& ev[15] == XmlEventView::Start("meta"@, seq![("property"@, "dcterms:modified"@)])
            &&& ev[16] == XmlEventView::Text(stamp)
            &&& ev[20] == XmlEventView::Empty(
                "item"@,
                seq![
                    ("id"@, "nav"@),
                    ("href"@, "nav.xhtml"@),
                    ("media-type"@, "application/xhtml+xml"@),
                    ("properties"@, "nav"@),
                ],
            )
            &&& ev[21] == XmlEventView::Empty(
                "item"@,
                seq![("id"@, "css"@), ("href"@, "css/aozora-md.css"@), ("media-type"@, "text/css"@)],
            )
        }),
{
    let ev = opf_events(meta, id, hrefs, stamp);
    let head = opf_head(meta, id, stamp);
    let rest = ev.skip(head.len() as int);
    assert(ev == head + rest);
    assert(head.len() == 22);
    assert(ev[3] == head[3]);
    assert(ev[4] == head[4]);
    assert(ev[6] == head[6]);
    assert(ev[7] == head[7]);
    assert(ev[9] == head[9]);
    assert(ev[10] == head[10]);
    assert(ev[12] == head[12]);
    assert(ev[13] == head[13]);
    assert(ev[15] == head[15]);
    assert(ev[16] == head[16]);
    assert(ev[1] == head[1]);
    assert(ev[20] == head[20]);
    assert(ev[21] == head[21]);
}

/// The navigation document is an EPUB table of contents in the book's
/// language and under its title: its `nav` element carries
/// `epub:type="toc"`, and every chapter's link lies inside that element,
/// before it closes.
pub proof fn lemma_nav_is_toc(meta: &Metadata, items: Seq<SpineItem>)
    ensures
        ({
            let ev = nav_events(meta, items);
            let n = items.len() as int;
            &&& ev.len() == 19 + 5 * n
            &&& ev[2] == XmlEventView::Start(
                "html"@,
                seq![
                    ("xmlns"@, "http://www.w3.org/1999/xhtml"@),
                    ("xmlns:epub"@, "http://www.idpf.org/2007/ops"@),
                    ("xml:lang"@, meta.language@),
                    ("lang"@, meta.language@),
                ],
            )
            &&& ev[5] == XmlEventView::Start("title"@, Seq::empty())
            &&& ev[6] == XmlEventView::Text(meta.title@)
            &&& ev[10] == XmlEventView::Start("nav"@, seq![("epub:type"@, "toc"@), ("id"@, "toc"@)])
            &&& ev[16 + 5 * n] == XmlEventView::End("nav"@)
            &&& forall|k: int| 10 < k < 16 + 5 * n ==> ev[k] != XmlEventView::End("nav"@)
            &&& forall|i: int|
                0 <= i < n ==> {
                    &&& 10 < 16 + 5 * i < 16 + 5 * n
                    &&& ev[16 + 5 * i] == XmlEventView::Start(
                        "a"@,
                        seq![("href"@, (#[trigger] items[i]).href@)],
                    )
                }
        }),
{
    reveal_strlit("a");
    reveal_strlit("li");
    reveal_strlit("ol");
    reveal_strlit("nav");
    reveal_strlit("title");
    reveal_strlit("head");
    reveal_strlit("h1");
    let ev = nav_events(meta, items);
    let head = nav_head(meta);
    let ne = nav_entries(items);
    let n = items.len() as int;
    let tail = seq![
        XmlEventView::End("ol"@),
        XmlEventView::End("nav"@),
        XmlEventView::End("body"@),
        XmlEventView::End("html"@),
    ];
    assert(ev == head + ne + tail);
    assert(head.len() == 15);
    assert(ne.len() == 5 * n);
    assert(ev[10] == head[10]);
    assert(ev[2] == head[2]);
    assert(ev[5] == head[5]);
    assert(ev[6] == head[6]);
    assert(ev[16 + 5 * n] == tail[1]);
    assert forall|k: int| 10 < k < 16 + 5 * n implies ev[k] != XmlEventView::End("nav"@) by {
        if k < 15 {
            assert(ev[k] == head[k]);
            if k == 13 {
                assert(head[13] == XmlEventView::End("h1"@));
                assert("h1"@ != "nav"@) by {
                    assert("h1"@.len() != "nav"@.len());
                }
            }
        } else if k < 15 + 5 * n {
            let j = k - 15;
            assert(ev[k] == ne[j]);
            let i = j / 5;
            let m = j % 5;
            assert(j == 5 * i + m && 0 <= m < 5) by (nonlinear_arith)
                requires
                    i == j / 5,
                    m == j % 5,
                    j >= 0,
            ;
            assert(0 <= i < n) by (nonlinear_arith)
                requires
                    j == 5 * i + m,
                    0 <= m < 5,
                    0 <= j < 5 * n,
            ;
            assert(ne[j] == nav_entry_event(items[i], m));
            if m == 3 {
                assert("a"@ != "nav"@) by {
                    assert("a"@.len() != "nav"@.len());
                }
            } else if m == 4 {
                assert("li"@ != "nav"@) by {
                    assert("li"@.len() != "nav"@.len());
                }
            }
        } else {
            assert(ev[k] == tail[0]);
            assert("ol"@ != "nav"@) by {
                assert("ol"@.len() != "nav"@.len());
            }
        }
    }
    assert forall|i: int| 0 <= i < n implies {
        &&& 10 < 16 + 5 * i < 16 + 5 * n
        &&& ev[16 + 5 * i] == XmlEventView::Start("a"@, seq![("href"@, (#[trigger] items[i]).href@)])
    } by {
        lemma_nav_lists_chapter(meta, items, i);
    }
}

/// A chapter document holds its rendered HTML verbatim, whatever the
/// writing mode: it is the document of the same chapter with an empty
/// body, with the HTML put right after the opening `<body ...>` line (whose
/// class names the writing mode) and before the closing lines.
pub proof fn lemma_chapter_holds_body(
    title: Seq<char>,
    body_html: Seq<char>,
    lang: Seq<char>,
    mode: WritingMode,
)
    ensures
        ({
            let e = wrap_xhtml_spec(title, Seq::empty(), lang, mode);
            let tail = "\n  </body>\n</html>\n"@;
            let open = match mode {
                WritingMode::Horizontal => "aozora-md-horizontal\">\n"@,
                WritingMode::Vertical => "aozora-md-vertical\">\n"@,
            };
            let front = e.take(e.len() - tail.len());
            &&& e.len() >= open.len() + tail.len()
            &&& e.skip(e.len() - tail.len()) == tail
            &&& front.skip(front.len() - open.len()) == open
            &&& wrap_xhtml_spec(title, body_html, lang, mode) == front + body_html + tail
        }),
{
    let t = escape_attr_spec(title);
    let l = escape_attr_spec(lang);
    let tail = "\n  </body>\n</html>\n"@;
    let cls = body_class(mode);
    let x = "<?xml version=\"1.0\" encoding=\"utf-8\"?>\n<!DOCTYPE html>\n<html xmlns=\"http://www.w3.org/1999/xhtml\" xmlns:epub=\"http://www.idpf.org/2007/ops\" xml:lang=\""@
        + l + "\" lang=\""@ + l
        + "\">\n  <head>\n    <meta charset=\"utf-8\" />\n    <title>"@ + t
        + "</title>\n    <link rel=\"stylesheet\" type=\"text/css\" href=\"css/aozora-md.css\" />\n  </head>\n  <body class=\""@;
    let y = cls + "\">\n"@;
    let front = x + y;
    let e = wrap_xhtml_spec(title, Seq::empty(), lang, mode);
    assert(e =~= front + tail);
    assert(e.take(e.len() - tail.len()) =~= front);
    assert(e.skip(e.len() - tail.len()) =~= tail);
    let open = match mode {
        WritingMode::Horizontal => "aozora-md-horizontal\">\n"@,
        WritingMode::Vertical => "aozora-md-vertical\">\n"@,
    };
    reveal_strlit("aozora-md-horizontal");
    reveal_strlit("aozora-md-vertical");
    reveal_strlit("aozora-md-horizontal\">\n");
    reveal_strlit("aozora-md-vertical\">\n");
    reveal_strlit("\">\n");
    assert(y =~= open);
    assert(front.skip(front.len() - open.len()) =~= y);
    assert(wrap_xhtml_spec(title, body_html, lang, mode) =~= front + body_html + tail);
}

// ---------------------------------------------------------------------------
// The order of sources
// ---------------------------------------------------------------------------

/// Paths sort by code point at their first difference, and a proper
/// prefix sorts first: given `a` and `b` that agree on their first `k`
/// characters, `a` sorts before `b` exactly when `a[k] < b[k]` where both
/// go on and differ there, always when `a` ends at `k` and `b` goes on,
/// and never when `b` ends at `k`.
pub proof fn lemma_path_order(a: Seq<char>, b: Seq<char>, k: int)
    requires
        0 <= k <= a.len(),
        k <= b.len(),
        forall|i: int| 0 <= i < k ==> a[i] == b[i],
    ensures
        k < a.len() && k < b.len() && a[k] != b[k] ==> (lex_lt(a, b) <==> a[k] < b[k]),
        k == a.len() && k < b.len() ==> lex_lt(a, b),
        k == b.len() ==> !lex_lt(a, b),
{
    if k == a.len() || k == b.len() || a[k] != b[k] {
        lemma_common_prefix_unique(a, b, k);
    }
}

// ---------------------------------------------------------------------------
// Language tags
// ---------------------------------------------------------------------------

/// The characters a language subtag may hold: a primary subtag is made of
/// ASCII letters (`a`-`z`, `A`-`Z`) and a later one of ASCII letters and
/// digits (`0`-`9`), every one of them; so 2-3 such letters always make a
/// primary subtag, and 2-8 such letters or digits a later subtag.
pub proof fn lemma_subtag_characters(s: Seq<char>, followed: bool)
    ensures
        all_alpha(s) <==> forall|i: int|
            0 <= i < s.len() ==> ('a' <= #[trigger] s[i] && s[i] <= 'z') || ('A' <= s[i] && s[i]
                <= 'Z'),
        all_alnum(s) <==> forall|i: int|
            0 <= i < s.len() ==> ('a' <= #[trigger] s[i] && s[i] <= 'z') || ('A' <= s[i] && s[i]
                <= 'Z') || ('0' <= s[i] && s[i] <= '9'),
        2 <= s.len() <= 3 && all_alpha(s) ==> primary_subtag_ok(s),
        2 <= s.len() <= 8 && all_alnum(s) ==> later_subtag_ok(s, followed),
{
}

} // verus!

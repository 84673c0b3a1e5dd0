//! The smaller pieces: text helpers, paths, decoding, the XHTML envelope,
//! the XML writer and the bundle.

use aozora_flavored_markdown_epub::{
    chapter_href, compose_with, decode_all, decode_source, default_mode, escape_attr, finish_writer,
    format_zero_padded, is_blank, is_md, render_all, source_title, wrap_xhtml, write_document,
    Error, Manuscript, Metadata, SourceFile, WritingMode, XmlEvent, AOZORA_MD_CSS,
};

fn meta(language: &str, mode: WritingMode) -> Metadata {
    Metadata {
        title: "Book".to_owned(),
        creator: "Me".to_owned(),
        language: language.to_owned(),
        identifier: None,
        writing_mode: mode,
    }
}

#[test]
fn escape_attr_escapes_the_five_characters() {
    assert_eq!(escape_attr(r#"a&b<c>d"e'f"#), "a&amp;b&lt;c&gt;d&quot;e&#39;f");
    assert_eq!(escape_attr("&amp;"), "&amp;amp;");
    assert_eq!(escape_attr("縦書き"), "縦書き");
    assert_eq!(escape_attr(""), "");
}

#[test]
fn format_zero_padded_values() {
    assert_eq!(format_zero_padded(1, 3), "001");
    assert_eq!(format_zero_padded(42, 4), "0042");
    assert_eq!(format_zero_padded(1234, 3), "1234");
    assert_eq!(format_zero_padded(0, 0), "0");
    assert_eq!(format_zero_padded(u64::MAX, 3), "18446744073709551615");
}

#[test]
fn blank_means_only_white_space() {
    assert!(is_blank(""));
    assert!(is_blank(" \t\r\n"));
    assert!(is_blank("\u{3000}\u{a0}\u{2028}\u{85}"));
    assert!(!is_blank(" a "));
    assert!(!is_blank("\u{200b}"));
}

#[test]
fn default_writing_mode_is_horizontal() {
    assert_eq!(default_mode(), WritingMode::Horizontal);
}

#[test]
fn source_titles_follow_file_stems() {
    assert_eq!(source_title("manuscript/001-intro.md"), "001-intro");
    assert_eq!(source_title("a/b.c/story.tar.md"), "story.tar");
    assert_eq!(source_title(".hidden"), ".hidden");
    assert_eq!(source_title("dir/"), "dir");
    assert_eq!(source_title("/"), "untitled");
    assert_eq!(source_title(""), "untitled");
    assert_eq!(source_title(".."), "untitled");
    assert_eq!(source_title("x/.."), "untitled");
    assert_eq!(source_title("x/./y.md"), "y");
    assert_eq!(source_title("章.md"), "章");
}

#[test]
fn md_extension_is_exact() {
    assert!(is_md("a/b.md"));
    assert!(is_md("a/.x.md"));
    assert!(!is_md("a/b.MD"));
    assert!(!is_md("a/.md"));
    // A trailing `/` names the same file, as with `Path::extension`.
    assert!(is_md("a/b.md/"));
    assert!(!is_md("a/b.mdx"));
    assert!(!is_md("md"));
}

#[test]
fn decode_source_reads_utf8() {
    let ok = decode_source(&SourceFile { path: "a.md".to_owned(), bytes: "本文".as_bytes().to_vec() });
    assert_eq!(ok.unwrap(), "本文");
    let bad = decode_source(&SourceFile { path: "a.md".to_owned(), bytes: vec![b'a', b'b', 0xff, b'c'] });
    assert!(matches!(bad, Err(Error::Utf8 { valid_up_to: 2 })));
    let cut = decode_source(&SourceFile { path: "a.md".to_owned(), bytes: vec![0xe6, 0x97] });
    assert!(matches!(cut, Err(Error::Utf8 { valid_up_to: 0 })));
}

#[test]
fn decode_source_reads_shift_jis_by_extension() {
    let sjis = vec![0x93, 0xfa, 0x96, 0x7b];
    for path in ["a.sjis", "a.SJIS", "dir/b.Shift_JIS", "c.shift-jis"] {
        let text = decode_source(&SourceFile { path: path.to_owned(), bytes: sjis.clone() });
        assert_eq!(text.unwrap(), "日本", "{path}");
    }
    // The same bytes under another extension are read as UTF-8 and fail.
    let utf8 = decode_source(&SourceFile { path: "a.md".to_owned(), bytes: sjis.clone() });
    assert!(matches!(utf8, Err(Error::Utf8 { valid_up_to: 0 })));
    // Bytes that are no Shift_JIS at all.
    let bad = decode_source(&SourceFile { path: "a.sjis".to_owned(), bytes: vec![0x82] });
    assert!(matches!(bad, Err(Error::Sjis)));
}

#[test]
fn chapter_hrefs_are_three_digits_wide() {
    assert_eq!(chapter_href(1), "chapter-001.xhtml");
    assert_eq!(chapter_href(42), "chapter-042.xhtml");
    assert_eq!(chapter_href(1000), "chapter-1000.xhtml");
}

#[test]
fn wrap_xhtml_exact_document() {
    let doc = wrap_xhtml("A & \"B\"", "<p>x</p>", "ja-JP", WritingMode::Vertical);
    assert_eq!(
        doc,
        "<?xml version=\"1.0\" encoding=\"utf-8\"?>\n\
<!DOCTYPE html>\n\
<html xmlns=\"http://www.w3.org/1999/xhtml\" xmlns:epub=\"http://www.idpf.org/2007/ops\" xml:lang=\"ja-JP\" lang=\"ja-JP\">\n  \
<head>\n    \
<meta charset=\"utf-8\" />\n    \
<title>A &amp; &quot;B&quot;</title>\n    \
<link rel=\"stylesheet\" type=\"text/css\" href=\"css/aozora-md.css\" />\n  \
</head>\n  \
<body class=\"aozora-md-vertical\">\n\
<p>x</p>\n  \
</body>\n\
</html>\n"
    );
    let h = wrap_xhtml("t", "", "en", WritingMode::Horizontal);
    assert!(h.contains("<body class=\"aozora-md-horizontal\">"));
}

#[test]
fn render_all_numbers_chapters_in_order() {
    let manuscript = Manuscript {
        metadata: meta("en", WritingMode::Horizontal),
        sources: vec![
            SourceFile { path: "m/b.md".to_owned(), bytes: vec![] },
            SourceFile { path: "m/a.md".to_owned(), bytes: vec![] },
        ],
    };
    let bodies = vec!["<p>1</p>".to_owned(), "<p>2</p>".to_owned()];
    let out = render_all(&manuscript, &bodies);
    assert_eq!(out.items.len(), 2);
    assert_eq!(out.items[0].href, "chapter-001.xhtml");
    assert_eq!(out.items[0].title, "b");
    assert_eq!(out.items[0].xhtml, wrap_xhtml("b", "<p>1</p>", "en", WritingMode::Horizontal));
    assert_eq!(out.items[1].href, "chapter-002.xhtml");
    assert_eq!(out.items[1].title, "a");
}

#[test]
fn finish_writer_adds_one_final_newline() {
    assert_eq!(finish_writer(b"<a/>".to_vec()).unwrap(), "<a/>\n");
    assert_eq!(finish_writer(b"<a/>\n".to_vec()).unwrap(), "<a/>\n");
    assert_eq!(finish_writer(Vec::new()).unwrap(), "\n");
    assert!(matches!(finish_writer(vec![0xc0]), Err(Error::XmlBuild(_))));
}

#[test]
fn write_document_indents_and_escapes() {
    let events = vec![
        XmlEvent::Start { name: "a".to_owned(), attrs: vec![("k".to_owned(), "<\"&".to_owned())] },
        XmlEvent::Empty { name: "b".to_owned(), attrs: vec![] },
        XmlEvent::Start { name: "c".to_owned(), attrs: vec![] },
        XmlEvent::Text("x < y & z".to_owned()),
        XmlEvent::End("c".to_owned()),
        XmlEvent::End("a".to_owned()),
    ];
    assert_eq!(
        write_document(&events).unwrap(),
        "<a k=\"&lt;&quot;&amp;\">\n  <b/>\n  <c>x &lt; y &amp; z</c>\n</a>\n"
    );
}

#[test]
fn compose_with_exact_bundle() {
    let manuscript = Manuscript {
        metadata: meta("en", WritingMode::Horizontal),
        sources: vec![SourceFile { path: "m/one.md".to_owned(), bytes: vec![] }],
    };
    let rendered = render_all(&manuscript, &vec!["<p>1</p>".to_owned()]);
    let bundle = compose_with(
        &manuscript,
        &rendered,
        "00000000-0000-4000-8000-000000000000",
        "2026-01-01T00:00:00Z",
    )
    .unwrap();
    assert_eq!(bundle.mimetype, "application/epub+zip");
    assert!(bundle
        .package_opf
        .contains(r#"<dc:identifier id="bookid">urn:uuid:00000000-0000-4000-8000-000000000000</dc:identifier>"#));
    assert!(bundle
        .package_opf
        .contains(r#"<meta property="dcterms:modified">2026-01-01T00:00:00Z</meta>"#));
    assert!(bundle.package_opf.contains(r#"<spine page-progression-direction="ltr">"#));
    assert_eq!(bundle.assets.len(), 1);
    assert_eq!(bundle.assets[0].path, "OEBPS/css/aozora-md.css");
    assert_eq!(bundle.assets[0].contents, AOZORA_MD_CSS.as_bytes());
    assert_eq!(bundle.spine.len(), 1);
    assert_eq!(bundle.spine[0].path, "OEBPS/chapter-001.xhtml");
    assert_eq!(bundle.spine[0].contents, rendered.items[0].xhtml.as_bytes());
    assert!(bundle.nav_xhtml.contains(r#"<a href="chapter-001.xhtml">one</a>"#));
}

#[test]
fn compose_with_checks_metadata_first() {
    let manuscript = Manuscript {
        metadata: meta("en_US", WritingMode::Horizontal),
        sources: vec![],
    };
    let rendered = render_all(&manuscript, &vec![]);
    let err = compose_with(&manuscript, &rendered, "u", "s").unwrap_err();
    assert!(matches!(err, Error::MetadataInvalid { field: "language", .. }));
}

#[test]
fn decode_all_stops_at_the_first_bad_source() {
    let src = |path: &str, bytes: &[u8]| SourceFile { path: path.to_owned(), bytes: bytes.to_vec() };
    let good = Manuscript {
        metadata: meta("ja", WritingMode::Vertical),
        sources: vec![src("a.md", "一".as_bytes()), src("b.sjis", &[0x93, 0xfa])],
    };
    assert_eq!(decode_all(&good).unwrap(), vec!["一".to_owned(), "日".to_owned()]);
    let bad = Manuscript {
        metadata: meta("ja", WritingMode::Vertical),
        sources: vec![src("a.md", b"ok"), src("b.md", &[b'x', 0xff]), src("c.sjis", &[0x82])],
    };
    assert!(matches!(decode_all(&bad), Err(Error::Utf8 { valid_up_to: 1 })));
    let empty = Manuscript { metadata: meta("ja", WritingMode::Vertical), sources: vec![] };
    assert!(decode_all(&empty).unwrap().is_empty());
}

//! End-to-end tests of the library pipeline: a manuscript and the HTML of
//! its sources go through `build`, and the entries of the container are
//! inspected in archive order.

use aozora_flavored_markdown_epub::{
    archive_entries, build, select_sources, ArchiveEntry, Compression, Error, Manuscript,
    Metadata, SourceFile, WritingMode,
};

fn metadata(title: &str, creator: &str, language: &str, mode: WritingMode) -> Metadata {
    Metadata {
        title: title.to_owned(),
        creator: creator.to_owned(),
        language: language.to_owned(),
        identifier: None,
        writing_mode: mode,
    }
}

fn horizontal_book() -> Metadata {
    metadata("Test Book", "Test Author", "ja", WritingMode::Horizontal)
}

fn vertical_book() -> Metadata {
    metadata("縦書きの本", "著者", "ja", WritingMode::Vertical)
}

/// The manuscript of `sources` (file name, Markdown text) under
/// `manuscript/`, with the HTML each source renders to.
fn fixture(meta: Metadata, sources: &[(&str, &str, &str)]) -> (Manuscript, Vec<String>) {
    let manuscript = Manuscript {
        metadata: meta,
        sources: sources
            .iter()
            .map(|(name, text, _)| SourceFile {
                path: format!("manuscript/{name}"),
                bytes: text.as_bytes().to_vec(),
            })
            .collect(),
    };
    let bodies = sources.iter().map(|(_, _, html)| html.to_string()).collect();
    (manuscript, bodies)
}

fn build_entries(meta: Metadata, sources: &[(&str, &str, &str)]) -> Vec<ArchiveEntry> {
    let (manuscript, bodies) = fixture(meta, sources);
    archive_entries(build(&manuscript, &bodies).expect("build succeeds"))
}

fn entry_text(entries: &[ArchiveEntry], name: &str) -> String {
    let bytes = &entries
        .iter()
        .find(|e| e.name == name)
        .unwrap_or_else(|| panic!("entry {name} not found"))
        .contents;
    String::from_utf8(bytes.clone()).expect("entry is valid UTF-8")
}

fn opf(entries: &[ArchiveEntry]) -> String {
    entry_text(entries, "OEBPS/package.opf")
}

#[test]
fn produces_spec_compliant_ocf_container() {
    let entries = build_entries(
        horizontal_book(),
        &[
            ("001-intro.md", "# Intro\n\nHello.\n", "<h1>Intro</h1>\n<p>Hello.</p>\n"),
            ("002-body.md", "# Body\n\nWorld.\n", "<h1>Body</h1>\n<p>World.</p>\n"),
        ],
    );

    // mimetype must be the first entry, Stored, exactly 20 bytes.
    assert_eq!(entries[0].name, "mimetype");
    assert_eq!(entries[0].compression, Compression::Stored);
    assert_eq!(entries[0].contents, b"application/epub+zip");

    // container.xml is the second entry.
    assert_eq!(entries[1].name, "META-INF/container.xml");

    // every entry uses only Stored or Deflated (OCF constraint).
    for e in &entries {
        assert!(
            matches!(e.compression, Compression::Stored | Compression::Deflated),
            "{} uses an unexpected compression method",
            e.name
        );
    }

    // all required members are present.
    let names: Vec<&str> = entries.iter().map(|e| e.name.as_str()).collect();
    for required in [
        "OEBPS/package.opf",
        "OEBPS/nav.xhtml",
        "OEBPS/css/aozora-md.css",
        "OEBPS/chapter-001.xhtml",
        "OEBPS/chapter-002.xhtml",
    ] {
        assert!(names.contains(&required), "missing {required}");
    }

    // container.xml points at the OPF root.
    let container = entry_text(&entries, "META-INF/container.xml");
    assert!(container.contains("OEBPS/package.opf"));
}

#[test]
fn spine_and_manifest_agree_in_lexicographic_order() {
    let entries = build_entries(
        horizontal_book(),
        &[("001-intro.md", "# Intro\n", "<h1>Intro</h1>\n"), ("002-body.md", "# Body\n", "<h1>Body</h1>\n")],
    );
    let opf = opf(&entries);

    // chapters keep lexicographic order in both manifest and spine.
    assert!(opf.find("ch001").unwrap() < opf.find("ch002").unwrap());
    // every spine idref is backed by a manifest item.
    assert!(opf.contains(r#"<item id="ch001""#));
    assert!(opf.contains(r#"<item id="ch002""#));
    assert!(opf.contains(r#"<itemref idref="ch001""#));
    assert!(opf.contains(r#"<itemref idref="ch002""#));
}

#[test]
fn nav_lists_every_chapter() {
    let entries = build_entries(
        horizontal_book(),
        &[("001-a.md", "# A\n", "<h1>A</h1>\n"), ("002-b.md", "# B\n", "<h1>B</h1>\n")],
    );
    let nav = entry_text(&entries, "OEBPS/nav.xhtml");
    assert_eq!(nav.matches("chapter-001.xhtml").count(), 1);
    assert_eq!(nav.matches("chapter-002.xhtml").count(), 1);
}

#[test]
fn vertical_book_binds_right_to_left() {
    let entries = build_entries(
        vertical_book(),
        &[("001.md", "# 章\n\n本文。\n", "<h1>章</h1>\n<p>本文。</p>\n")],
    );
    let opf = opf(&entries);
    assert!(opf.contains(r#"<spine page-progression-direction="rtl">"#), "opf: {opf}");
}

#[test]
fn horizontal_book_binds_left_to_right() {
    let entries = build_entries(horizontal_book(), &[("001.md", "# Ch\n", "<h1>Ch</h1>\n")]);
    let opf = opf(&entries);
    assert!(opf.contains(r#"<spine page-progression-direction="ltr">"#), "opf: {opf}");
}

#[test]
fn rejects_invalid_language() {
    let (manuscript, bodies) = fixture(
        metadata("T", "A", "japanese", WritingMode::Horizontal),
        &[("001.md", "x", "<p>x</p>\n")],
    );
    let err = build(&manuscript, &bodies).unwrap_err();
    assert!(matches!(
        err,
        Error::MetadataInvalid {
            field: "language",
            ..
        }
    ));
}

#[test]
fn sources_are_taken_in_lexicographic_order() {
    let listed = vec![
        "manuscript/002-body.md".to_owned(),
        "manuscript/notes.txt".to_owned(),
        "manuscript/001-intro.md".to_owned(),
        "manuscript/README".to_owned(),
        "manuscript/010-end.md".to_owned(),
        "manuscript/draft.MD".to_owned(),
    ];
    assert_eq!(
        select_sources(&listed),
        vec![
            "manuscript/001-intro.md".to_owned(),
            "manuscript/002-body.md".to_owned(),
            "manuscript/010-end.md".to_owned(),
        ]
    );
}

#[test]
fn chapters_carry_title_language_and_writing_mode() {
    let entries = build_entries(
        vertical_book(),
        &[("001-序章.md", "# 序\n", "<h1>序</h1>\n"), ("002-本編.md", "# 本\n", "<h1>本</h1>\n")],
    );
    let ch1 = entry_text(&entries, "OEBPS/chapter-001.xhtml");
    assert!(ch1.contains("<title>001-序章</title>"), "{ch1}");
    assert!(ch1.contains(r#"xml:lang="ja" lang="ja""#), "{ch1}");
    assert!(ch1.contains(r#"<body class="aozora-md-vertical">"#), "{ch1}");
    assert!(ch1.contains("<h1>序</h1>"), "{ch1}");
    let ch2 = entry_text(&entries, "OEBPS/chapter-002.xhtml");
    assert!(ch2.contains("<title>002-本編</title>"), "{ch2}");
    // Archive order: mimetype, container, package, nav, stylesheet, chapters.
    let names: Vec<&str> = entries.iter().map(|e| e.name.as_str()).collect();
    assert_eq!(
        names,
        vec![
            "mimetype",
            "META-INF/container.xml",
            "OEBPS/package.opf",
            "OEBPS/nav.xhtml",
            "OEBPS/css/aozora-md.css",
            "OEBPS/chapter-001.xhtml",
            "OEBPS/chapter-002.xhtml",
        ]
    );
    for e in &entries[1..] {
        assert_eq!(e.compression, Compression::Deflated, "{}", e.name);
    }
}

#[test]
fn fresh_identifier_is_a_version_4_uuid_urn() {
    let entries = build_entries(horizontal_book(), &[("001.md", "# Ch\n", "<h1>Ch</h1>\n")]);
    let opf = opf(&entries);
    let open = r#"<dc:identifier id="bookid">"#;
    let start = opf.find(open).expect("identifier") + open.len();
    let end = start + opf[start..].find("</dc:identifier>").unwrap();
    let id = &opf[start..end];
    let uuid = id.strip_prefix("urn:uuid:").expect("urn:uuid: prefix");
    assert_eq!(uuid.len(), 36, "{uuid}");
    for (i, c) in uuid.chars().enumerate() {
        if [8, 13, 18, 23].contains(&i) {
            assert_eq!(c, '-');
        } else {
            assert!(c.is_ascii_digit() || ('a'..='f').contains(&c), "{uuid}");
        }
    }
    assert_eq!(uuid.as_bytes()[14], b'4');
}

#[test]
fn given_identifier_is_kept_and_time_is_utc() {
    let mut meta = horizontal_book();
    meta.identifier = Some("urn:isbn:9784000000000".to_owned());
    let entries = build_entries(meta, &[("001.md", "# Ch\n", "<h1>Ch</h1>\n")]);
    let opf = opf(&entries);
    assert!(opf.contains(r#"<dc:identifier id="bookid">urn:isbn:9784000000000</dc:identifier>"#));
    let open = r#"<meta property="dcterms:modified">"#;
    let start = opf.find(open).unwrap() + open.len();
    let stamp = &opf[start..start + 20];
    assert!(stamp.ends_with('Z'), "{stamp}");
    assert_eq!(&stamp[4..5], "-");
    assert_eq!(&stamp[10..11], "T");
    assert!(opf[start + 20..].starts_with("</meta>"), "{opf}");
}

#[test]
fn blank_title_fails_before_anything_is_written() {
    let (manuscript, bodies) = fixture(
        metadata(" ", "A", "ja", WritingMode::Horizontal),
        &[("001.md", "x", "<p>x</p>\n")],
    );
    assert!(matches!(
        build(&manuscript, &bodies).unwrap_err(),
        Error::MetadataInvalid { field: "title", .. }
    ));
}

#[test]
fn undecodable_source_fails_before_metadata_is_checked() {
    let manuscript = Manuscript {
        metadata: metadata("T", "A", "japanese", WritingMode::Horizontal),
        sources: vec![
            SourceFile { path: "manuscript/001.md".to_owned(), bytes: b"# ok\n".to_vec() },
            SourceFile { path: "manuscript/002.md".to_owned(), bytes: vec![b'a', 0xfe] },
            SourceFile { path: "manuscript/003.sjis".to_owned(), bytes: vec![0x82] },
        ],
    };
    let bodies = vec![String::new(), String::new(), String::new()];
    assert!(matches!(build(&manuscript, &bodies).unwrap_err(), Error::Utf8 { valid_up_to: 1 }));
}

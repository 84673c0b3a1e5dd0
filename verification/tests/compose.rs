//! Metadata validation, language tags and the XML scaffolding.

use aozora_flavored_markdown_epub::{
    container_xml, is_bcp47_subset, nav_xhtml, package_opf, validate_metadata, Error, Metadata,
    RenderOutput, SpineItem, WritingMode,
};

fn dummy_metadata(title: &str, creator: &str, language: &str) -> Metadata {
    Metadata {
        title: title.to_owned(),
        creator: creator.to_owned(),
        language: language.to_owned(),
        identifier: None,
        writing_mode: WritingMode::Horizontal,
    }
}

#[test]
fn bcp47_accepts_simple_two_letter_tags() {
    assert!(is_bcp47_subset("ja"));
    assert!(is_bcp47_subset("en"));
    assert!(is_bcp47_subset("zh"));
}

#[test]
fn bcp47_accepts_region_subtag() {
    assert!(is_bcp47_subset("en-US"));
    assert!(is_bcp47_subset("ja-JP"));
    assert!(is_bcp47_subset("zh-Hant-TW"));
}

#[test]
fn bcp47_rejects_empty_or_garbage() {
    assert!(!is_bcp47_subset(""));
    assert!(!is_bcp47_subset("x"));
    assert!(!is_bcp47_subset("toolong"));
    assert!(!is_bcp47_subset("123"));
    assert!(!is_bcp47_subset("ja-x"));
    assert!(!is_bcp47_subset("ja-toolongtag"));
}

#[test]
fn bcp47_edge_cases() {
    assert!(is_bcp47_subset("ja-Jpan-JP"));
    // A singleton such as the private-use `x` needs a subtag after it.
    assert!(is_bcp47_subset("ja-Jpan-JP-x-private"));
    assert!(is_bcp47_subset("en-a-bb-x-12"));
    assert!(!is_bcp47_subset("ja-JP-x"));
    assert!(!is_bcp47_subset("ja-x-y"));
    assert!(!is_bcp47_subset("ja-_-ab"));
    assert!(is_bcp47_subset("und"));
    assert!(is_bcp47_subset("en-12345678"));
    assert!(!is_bcp47_subset("en-123456789"));
    assert!(!is_bcp47_subset("ja-"));
    assert!(!is_bcp47_subset("-ja"));
    assert!(!is_bcp47_subset("ja--JP"));
    assert!(!is_bcp47_subset("j1"));
    assert!(!is_bcp47_subset("ja_JP"));
    assert!(!is_bcp47_subset("日本"));
    assert!(!is_bcp47_subset("ja-日本"));
}

#[test]
fn validate_metadata_rejects_blank_title() {
    let err = validate_metadata(&dummy_metadata("", "Author", "ja")).unwrap_err();
    assert!(matches!(err, Error::MetadataInvalid { field: "title", .. }));
}

#[test]
fn validate_metadata_rejects_blank_creator() {
    let err = validate_metadata(&dummy_metadata("Title", "   ", "ja")).unwrap_err();
    assert!(matches!(
        err,
        Error::MetadataInvalid {
            field: "creator",
            ..
        }
    ));
}

#[test]
fn validate_metadata_rejects_bad_language() {
    let err = validate_metadata(&dummy_metadata("Title", "Author", "japanese")).unwrap_err();
    assert!(matches!(
        err,
        Error::MetadataInvalid {
            field: "language",
            ..
        }
    ));
}

#[test]
fn validate_metadata_accepts_valid_input() {
    validate_metadata(&dummy_metadata("Title", "Author", "ja-JP")).unwrap();
}

#[test]
fn validate_metadata_reasons_and_order() {
    // The title is checked first, then the creator, then the language.
    match validate_metadata(&dummy_metadata("\u{3000}\t", "", "bad tag")).unwrap_err() {
        Error::MetadataInvalid { field, reason } => {
            assert_eq!(field, "title");
            assert_eq!(reason, "dc:title must be a non-empty string");
        }
        other => panic!("unexpected {other:?}"),
    }
    match validate_metadata(&dummy_metadata("T", "\n", "bad tag")).unwrap_err() {
        Error::MetadataInvalid { field, reason } => {
            assert_eq!(field, "creator");
            assert_eq!(reason, "dc:creator must be a non-empty string");
        }
        other => panic!("unexpected {other:?}"),
    }
    match validate_metadata(&dummy_metadata("T", "A", "japanese")).unwrap_err() {
        Error::MetadataInvalid { field, reason } => {
            assert_eq!(field, "language");
            assert_eq!(
                reason,
                "dc:language must be a BCP 47 tag (e.g. `ja`, `ja-JP`); got \"japanese\""
            );
        }
        other => panic!("unexpected {other:?}"),
    }
    // A non-breaking space alone is blank too (Unicode White_Space).
    assert!(validate_metadata(&dummy_metadata("\u{a0}", "A", "ja")).is_err());
    // A title with text around white space is fine.
    assert!(validate_metadata(&dummy_metadata(" T ", "A", "ja")).is_ok());
}

#[test]
fn package_opf_escapes_user_supplied_text() {
    // Title contains an ampersand and angle brackets; quick-xml
    // must escape them once and only once.
    let meta = dummy_metadata("Tom & Jerry <draft>", "山田\"太郎\"", "ja");
    let rendered = RenderOutput { items: vec![] };
    let opf = package_opf(&meta, "urn:uuid:test", &rendered, "2026-01-01T00:00:00Z").unwrap();
    assert!(opf.contains("Tom &amp; Jerry &lt;draft&gt;"), "opf: {opf}");
    assert!(opf.contains("山田&quot;太郎&quot;"), "opf: {opf}");
    // No double-encoding.
    assert!(!opf.contains("&amp;amp;"), "opf: {opf}");
}

#[test]
fn container_xml_round_trips_to_well_formed_output() {
    let xml = container_xml().unwrap();
    assert!(xml.contains("OEBPS/package.opf"));
    assert!(xml.contains("application/oebps-package+xml"));
    assert!(xml.starts_with("<?xml"));
}

#[test]
fn container_xml_exact_text() {
    let xml = container_xml().unwrap();
    assert_eq!(
        xml,
        "<?xml version=\"1.0\" encoding=\"utf-8\"?>\n\
<container version=\"1.0\" xmlns=\"urn:oasis:names:tc:opendocument:xmlns:container\">\n  \
<rootfiles>\n    \
<rootfile full-path=\"OEBPS/package.opf\" media-type=\"application/oebps-package+xml\"/>\n  \
</rootfiles>\n\
</container>\n"
    );
}

fn item(n: usize, title: &str) -> SpineItem {
    SpineItem {
        href: format!("chapter-{n:03}.xhtml"),
        title: title.to_owned(),
        xhtml: String::new(),
    }
}

#[test]
fn package_opf_lists_chapters_in_manifest_and_spine() {
    let mut meta = dummy_metadata("T", "A", "ja");
    meta.writing_mode = WritingMode::Vertical;
    let rendered = RenderOutput { items: vec![item(1, "a"), item(2, "b")] };
    let opf = package_opf(&meta, "urn:isbn:1", &rendered, "2026-01-01T00:00:00Z").unwrap();
    assert!(opf.contains(r#"<item id="ch001" href="chapter-001.xhtml" media-type="application/xhtml+xml"/>"#));
    assert!(opf.contains(r#"<item id="ch002" href="chapter-002.xhtml" media-type="application/xhtml+xml"/>"#));
    assert!(opf.contains(r#"<item id="nav" href="nav.xhtml" media-type="application/xhtml+xml" properties="nav"/>"#));
    assert!(opf.contains(r#"<item id="css" href="css/aozora-md.css" media-type="text/css"/>"#));
    assert!(opf.contains(r#"<spine page-progression-direction="rtl">"#));
    assert!(opf.find(r#"<itemref idref="ch001"/>"#).unwrap() < opf.find(r#"<itemref idref="ch002"/>"#).unwrap());
    assert!(opf.contains(r#"<dc:identifier id="bookid">urn:isbn:1</dc:identifier>"#));
    assert!(opf.contains(r#"<meta property="dcterms:modified">2026-01-01T00:00:00Z</meta>"#));
    assert!(opf.contains(r#"<package xmlns="http://www.idpf.org/2007/opf" version="3.0" unique-identifier="bookid" xml:lang="ja">"#));
    assert!(opf.ends_with("</package>\n"));
}

#[test]
fn nav_lists_titles_in_order() {
    let meta = dummy_metadata("Book & Co", "A", "en");
    let rendered = RenderOutput { items: vec![item(1, "One"), item(2, "<Two>")] };
    let nav = nav_xhtml(&meta, &rendered).unwrap();
    assert!(nav.starts_with("<?xml version=\"1.0\" encoding=\"utf-8\"?>\n<!DOCTYPE  html>"));
    assert!(nav.contains("<title>Book &amp; Co</title>"));
    assert!(nav.contains("<h1>目次</h1>"));
    assert!(nav.contains(r#"<a href="chapter-001.xhtml">One</a>"#));
    assert!(nav.contains(r#"<a href="chapter-002.xhtml">&lt;Two&gt;</a>"#));
    assert!(nav.find("chapter-001").unwrap() < nav.find("chapter-002").unwrap());
    assert!(nav.ends_with("</html>\n"));
}

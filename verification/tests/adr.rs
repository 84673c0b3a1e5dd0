//! Architecture decision records: numbering and scaffolding.

use aozora_flavored_markdown_epub::{adr_body, adr_file_name, adr_number, next_adr_number};

fn names(list: &[&str]) -> Vec<String> {
    list.iter().map(|s| s.to_string()).collect()
}

#[test]
fn next_adr_number_increments_from_zero() {
    let dir = names(&["0000-template.md", "0003-aaa.md", "0001-bbb.md"]);
    assert_eq!(next_adr_number(&dir), Some(4));
}

#[test]
fn next_adr_number_handles_empty_dir() {
    assert_eq!(next_adr_number(&Vec::new()), Some(1));
}

#[test]
fn next_adr_number_skips_non_numeric_files() {
    let dir = names(&["README.md", "0002-xxx.md"]);
    assert_eq!(next_adr_number(&dir), Some(3));
}

#[test]
fn new_adr_success_and_missing_template() {
    // The template as `docs/adr/0000-template.md` holds it.
    let template = "# 0000. Template\n- Status: superseded by …\nbody\n";
    let next = next_adr_number(&names(&["0000-template.md"])).unwrap();
    assert_eq!(next, 1);
    assert_eq!(adr_file_name(next, "my-slug"), "0001-my-slug.md");
    let body = adr_body(template, next, "My Title");
    assert!(body.contains("# 0001. My Title"));
    assert!(body.contains("- Status: proposed\n"));
    assert!(!body.contains("# 0000. Template"));
    assert!(!body.contains("superseded by"));
    assert_eq!(body, "# 0001. My Title\n- Status: proposed\nbody\n");
}

#[test]
fn adr_number_reads_the_prefix_before_the_first_hyphen() {
    assert_eq!(adr_number("0042-some-thing.md"), Some(42));
    assert_eq!(adr_number("7"), Some(7));
    assert_eq!(adr_number("4294967295-max.md"), Some(u32::MAX));
    assert_eq!(adr_number("4294967296-over.md"), None);
    assert_eq!(adr_number("+5-plus.md"), Some(5));
    assert_eq!(adr_number("-5.md"), None);
    assert_eq!(adr_number("README.md"), None);
    assert_eq!(adr_number(""), None);
    assert_eq!(adr_number("12a-x.md"), None);
}

#[test]
fn next_adr_number_has_none_after_the_largest() {
    assert_eq!(next_adr_number(&names(&["4294967295-last.md"])), None);
    assert_eq!(next_adr_number(&names(&["4294967294-x.md", "0001-a.md"])), Some(u32::MAX));
}

#[test]
fn adr_file_name_pads_to_four_digits_and_no_further() {
    assert_eq!(adr_file_name(7, "a"), "0007-a.md");
    assert_eq!(adr_file_name(12345, "big"), "12345-big.md");
    assert_eq!(adr_file_name(0, ""), "0000-.md");
}

#[test]
fn adr_body_replaces_every_occurrence_and_leaves_the_rest() {
    let template = "# 0000. Template\n# 0000. Template\n- Status: superseded by …\nno change\n";
    assert_eq!(
        adr_body(template, 12, "Twelve"),
        "# 0012. Twelve\n# 0012. Twelve\n- Status: proposed\nno change\n"
    );
    assert_eq!(adr_body("nothing here", 3, "T"), "nothing here");
}

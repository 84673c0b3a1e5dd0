//! Book metadata (`book.toml`) and its validation.
//!
//! Validation is narrow on purpose: it rejects exactly what would leave
//! the package unreadable on the major reading systems: a blank
//! `dc:title`, a blank `dc:creator`, or a `dc:language` outside the common
//! BCP 47 shape (a 2-3 letter primary subtag, then any number of 2-8
//! character alphanumeric subtags or one-character singletons that another
//! subtag follows, all separated by `-`).

use vstd::prelude::*;

use crate::error::Error;
use crate::text::{
    chars_of, is_ascii_alnum, is_ascii_alpha, is_blank, is_blank_spec, push_str, string_of,
};

verus! {

/// Horizontal (left-to-right) or vertical (top-to-bottom, right-to-left)
/// typesetting of the whole book.
#[derive(Debug, Clone, Copy, PartialEq, Eq, Structural)]
pub enum WritingMode {
    Horizontal,
    Vertical,
}

/// The writing mode a book gets when `book.toml` names none.
pub fn default_mode() -> (m: WritingMode)
    ensures
        m == WritingMode::Horizontal,
{
    WritingMode::Horizontal
}

/// The Dublin Core metadata of one book.
#[derive(Debug, Clone)]
pub struct Metadata {
    pub title: String,
    pub creator: String,
    pub language: String,
    pub identifier: Option<String>,
    pub writing_mode: WritingMode,
}

// ---------------------------------------------------------------------------
// Splitting on a separator
// ---------------------------------------------------------------------------

/// `s.split(sep)` as a sequence of pieces: every occurrence of `sep` ends
/// one piece and starts the next, so there is always at least one piece
/// and the pieces hold no `sep`.
pub open spec fn split_seq(s: Seq<char>, sep: char) -> Seq<Seq<char>>
    decreases s.len(),
{
    if s.len() == 0 {
        seq![Seq::<char>::empty()]
    } else {
        let prev = split_seq(s.drop_last(), sep);
        if s.last() == sep {
            prev.push(Seq::<char>::empty())
        } else {
            prev.update(prev.len() - 1, prev.last().push(s.last()))
        }
    }
}

pub proof fn lemma_split_seq_nonempty(s: Seq<char>, sep: char)
    ensures
        split_seq(s, sep).len() >= 1,
    decreases s.len(),
{
    if s.len() > 0 {
        lemma_split_seq_nonempty(s.drop_last(), sep);
    }
}

/// The pieces of `s` between occurrences of `sep`.
pub fn split_on(s: &str, sep: char) -> (r: Vec<Vec<char>>)
    ensures
        r@.len() == split_seq(s@, sep).len(),
        forall|i: int| 0 <= i < r@.len() ==> (#[trigger] r@[i])@ == split_seq(s@, sep)[i],
{
    let cs = chars_of(s);
    let mut parts: Vec<Vec<char>> = Vec::new();
    let mut cur: Vec<char> = Vec::new();
    let mut i: usize = 0;
    proof {
        assert(cs@.take(0) =~= Seq::<char>::empty());
    }
    while i < cs.len()
        invariant
            i <= cs.len(),
            cs@ == s@,
            parts@.len() + 1 == split_seq(cs@.take(i as int), sep).len(),
            forall|k: int| 0 <= k < parts@.len() ==> (#[trigger] parts@[k])@ == split_seq(cs@.take(i as int), sep)[k],
            cur@ == split_seq(cs@.take(i as int), sep).last(),
        decreases cs.len() - i,
    {
        let c = cs[i];
        let ghost before = split_seq(cs@.take(i as int), sep);
        proof {
            lemma_split_seq_nonempty(cs@.take(i as int), sep);
            assert(cs@.take(i + 1).drop_last() == cs@.take(i as int));
            assert(cs@.take(i + 1).last() == c);
        }
        if c == sep {
            parts.push(cur);
            cur = Vec::new();
        } else {
            cur.push(c);
        }
        i = i + 1;
        proof {
            let after = split_seq(cs@.take(i as int), sep);
            if c == sep {
                assert(after == before.push(Seq::<char>::empty()));
                assert forall|k: int| 0 <= k < parts@.len() implies (#[trigger] parts@[k])@ == after[k] by {
                    if k < parts@.len() - 1 {
                        assert(after[k] == before[k]);
                    }
                }
            } else {
                assert(after == before.update(before.len() - 1, before.last().push(c)));
                assert forall|k: int| 0 <= k < parts@.len() implies (#[trigger] parts@[k])@ == after[k] by {
                    assert(after[k] == before[k]);
                }
            }
        }
    }
    parts.push(cur);
    proof {
        assert(cs@.take(cs.len() as int) == cs@);
        let fin = split_seq(cs@, sep);
        lemma_split_seq_nonempty(cs@, sep);
        assert forall|k: int| 0 <= k < parts@.len() implies (#[trigger] parts@[k])@ == fin[k] by {
        }
    }
    parts
}

// ---------------------------------------------------------------------------
// BCP 47 subset
// ---------------------------------------------------------------------------

pub open spec fn all_alpha(s: Seq<char>) -> bool {
    forall|i: int| 0 <= i < s.len() ==> is_ascii_alpha(#[trigger] s[i])
}

pub open spec fn all_alnum(s: Seq<char>) -> bool {
    forall|i: int| 0 <= i < s.len() ==> is_ascii_alnum(#[trigger] s[i])
}

/// A primary language subtag: 2 or 3 ASCII letters.
pub open spec fn primary_subtag_ok(p: Seq<char>) -> bool {
    2 <= p.len() <= 3 && all_alpha(p)
}

/// A later subtag: 2 to 8 ASCII letters or digits, or a single ASCII
/// letter or digit (a singleton, such as the private-use `x`) when another
/// subtag follows it.
pub open spec fn later_subtag_ok(p: Seq<char>, followed: bool) -> bool {
    ||| 2 <= p.len() <= 8 && all_alnum(p)
    ||| p.len() == 1 && all_alnum(p) && followed
}

/// The BCP 47 shape that `dc:language` must have: a non-empty tag whose
/// `-`-separated subtags are a valid primary subtag followed by valid
/// later subtags.
pub open spec fn is_bcp47_subset_spec(tag: Seq<char>) -> bool {
    let parts = split_seq(tag, '-');
    &&& tag.len() > 0
    &&& primary_subtag_ok(parts[0])
    &&& forall|i: int| 1 <= i < parts.len() ==> later_subtag_ok(#[trigger] parts[i], i + 1 < parts.len())
}

fn all_chars(p: &Vec<char>, alnum: bool) -> (r: bool)
    ensures
        r == (if alnum {
            all_alnum(p@)
        } else {
            all_alpha(p@)
        }),
{
    let mut i: usize = 0;
    while i < p.len()
        invariant
            i <= p.len(),
            forall|j: int|
                0 <= j < i ==> (if alnum {
                    is_ascii_alnum(#[trigger] p@[j])
                } else {
                    is_ascii_alpha(p@[j])
                }),
        decreases p.len() - i,
    {
        let c = p[i];
        let alpha = ('a' <= c && c <= 'z') || ('A' <= c && c <= 'Z');
        let ok = if alnum {
            alpha || ('0' <= c && c <= '9')
        } else {
            alpha
        };
        if !ok {
            return false;
        }
        i = i + 1;
    }
    true
}

/// Whether `tag` has the accepted BCP 47 shape (`ja`, `en-US`,
/// `zh-Hant-TW`, `ja-Jpan-JP-x-private`, ...). A single-character subtag
/// is accepted only with another subtag after it, so `ja-x` is not.
pub fn is_bcp47_subset(tag: &str) -> (r: bool)
    ensures
        r == is_bcp47_subset_spec(tag@),
{
    if tag.is_empty() {
        return false;
    }
    let parts = split_on(tag, '-');
    let ghost sp = split_seq(tag@, '-');
    proof {
        lemma_split_seq_nonempty(tag@, '-');
        assert(parts@[0]@ == sp[0]);
    }
    let primary = &parts[0];
    if primary.len() < 2 || primary.len() > 3 {
        return false;
    }
    if !all_chars(primary, false) {
        return false;
    }
    let mut i: usize = 1;
    while i < parts.len()
        invariant
            1 <= i <= parts@.len(),
            sp == split_seq(tag@, '-'),
            parts@.len() == sp.len(),
            forall|k: int| 0 <= k < parts@.len() ==> (#[trigger] parts@[k])@ == sp[k],
            forall|k: int| 1 <= k < i ==> later_subtag_ok(#[trigger] sp[k], k + 1 < sp.len()),
        decreases parts.len() - i,
    {
        let sub = &parts[i];
        let followed = i + 1 < parts.len();
        assert(sub@ == sp[i as int]);
        if sub.len() == 0 || sub.len() > 8 || (sub.len() == 1 && !followed) {
            assert(!later_subtag_ok(sp[i as int], followed));
            return false;
        }
        if !all_chars(sub, true) {
            assert(!later_subtag_ok(sp[i as int], followed));
            return false;
        }
        i = i + 1;
    }
    true
}

// ---------------------------------------------------------------------------
// Validation
// ---------------------------------------------------------------------------

/// `format!("{:?}", s)`: the string in double quotes with `"`, `\` and
/// control characters escaped.
pub uninterp spec fn debug_quoted_spec(s: Seq<char>) -> Seq<char>;

/// Writes `s` as `{:?}` formats a `str`.
#[verifier::external_body]
fn debug_quoted(s: &str) -> (r: String)
    ensures
        r@ == debug_quoted_spec(s@),
{
    format!("{:?}", s)
}

/// The reason given for a `dc:language` that is not a BCP 47 tag.
pub open spec fn language_reason(lang: Seq<char>) -> Seq<char> {
    "dc:language must be a BCP 47 tag (e.g. `ja`, `ja-JP`); got "@ + debug_quoted_spec(lang)
}

/// What `validate_metadata` reports for `meta`: the first rule broken, as
/// its field and reason, or nothing when all hold.
pub open spec fn metadata_violation(
    title: Seq<char>,
    creator: Seq<char>,
    language: Seq<char>,
) -> Option<(Seq<char>, Seq<char>)> {
    if is_blank_spec(title) {
        Some(("title"@, "dc:title must be a non-empty string"@))
    } else if is_blank_spec(creator) {
        Some(("creator"@, "dc:creator must be a non-empty string"@))
    } else if !is_bcp47_subset_spec(language) {
        Some(("language"@, language_reason(language)))
    } else {
        None
    }
}

pub open spec fn metadata_violation_of(meta: &Metadata) -> Option<(Seq<char>, Seq<char>)> {
    metadata_violation(meta.title@, meta.creator@, meta.language@)
}

/// Whether `r` is exactly the outcome that `metadata_violation_of(meta)`
/// describes.
pub open spec fn validation_outcome(meta: &Metadata, r: core::result::Result<(), Error>) -> bool {
    match metadata_violation_of(meta) {
        None => r is Ok,
        Some((field, reason)) => match r {
            Err(Error::MetadataInvalid { field: f, reason: why }) => f@ == field && why@ == reason,
            _ => false,
        },
    }
}

/// Rejects metadata that would leave the EPUB unreadable: a blank title,
/// a blank creator, or a language tag outside the BCP 47 subset, checked
/// in that order.
pub fn validate_metadata(meta: &Metadata) -> (r: core::result::Result<(), Error>)
    ensures
        validation_outcome(meta, r),
{
    if is_blank(meta.title.as_str()) {
        return Err(
            Error::MetadataInvalid {
                field: "title",
                reason: string_of(&chars_of("dc:title must be a non-empty string")),
            },
        );
    }
    if is_blank(meta.creator.as_str()) {
        return Err(
            Error::MetadataInvalid {
                field: "creator",
                reason: string_of(&chars_of("dc:creator must be a non-empty string")),
            },
        );
    }
    if !is_bcp47_subset(meta.language.as_str()) {
        let mut reason = string_of(
            &chars_of("dc:language must be a BCP 47 tag (e.g. `ja`, `ja-JP`); got "),
        );
        let q = debug_quoted(meta.language.as_str());
        push_str(&mut reason, q.as_str());
        return Err(Error::MetadataInvalid { field: "language", reason });
    }
    Ok(())
}

} // verus!

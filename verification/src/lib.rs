//! EPUB 3.3 packaging for Aozora Flavored Markdown manuscripts.
//!
//! A book goes through four phases:
//!
//! 1. **Discover**: the sources of a manuscript directory are taken in
//!    spine order ([`select_sources`]) and `book.toml` gives the
//!    [`Metadata`].
//! 2. **Render**: every source is decoded ([`decode_source`]), rendered to
//!    HTML, and wrapped in an XHTML spine item ([`render_all`]).
//! 3. **Compose**: the OPF package document, the navigation document, the
//!    OCF `META-INF/container.xml` and the `mimetype` file are written
//!    ([`compose`]).
//! 4. **Package**: everything goes into the ZIP container in OCF order
//!    ([`archive_entries`]).

mod adr;
mod compose;
mod error;
mod laws;
mod metadata;
mod package;
mod paths;
mod render;
mod text;
mod xml;

use vstd::prelude::*;

pub use adr::{adr_body, adr_file_name, adr_number, next_adr_number};
pub use compose::{
    compose, compose_with, container_xml, nav_xhtml, package_opf, Bundle, NamedFile, AOZORA_MD_CSS,
};
pub use error::{Error, Result};
pub use metadata::{default_mode, is_bcp47_subset, validate_metadata, Metadata, WritingMode};
pub use package::{archive_entries, ArchiveEntry, Compression};
pub use paths::{is_md, select_sources, source_title};
pub use render::{
    chapter_href, decode_all, decode_source, render_all, wrap_xhtml, Manuscript, RenderOutput, SourceFile,
    SpineItem,
};
pub use text::{escape_attr, format_zero_padded, is_blank};
pub use xml::{finish_writer, write_document, XmlEvent};

use compose::{compose_outcome, book_id, is_utc_stamp, is_uuid_v4_text};
use render::{all_decode, decode_outcome, decodes, render_output_spec};

verus! {

/// Turns a manuscript into the bundle of its EPUB, phase by phase: the
/// sources are decoded (the first that does not decode is the error),
/// rendered into chapters, and composed (where invalid metadata is the
/// error). `bodies[i]` is the HTML that the decoded text of
/// `manuscript.sources[i]` renders to.
pub fn build(manuscript: &Manuscript, bodies: &Vec<String>) -> (r: core::result::Result<
    Bundle,
    Error,
>)
    requires
        bodies@.len() == manuscript.sources@.len(),
    ensures
        !all_decode(manuscript) ==> exists|k: int|
            #![trigger manuscript.sources@[k]]
            {
                &&& 0 <= k < manuscript.sources@.len()
                &&& forall|j: int|
                    0 <= j < k ==> decodes(
                        (#[trigger] manuscript.sources@[j]).path@,
                        manuscript.sources@[j].bytes@,
                    )
                &&& match r {
                    Err(e) => decode_outcome(
                        manuscript.sources@[k].path@,
                        manuscript.sources@[k].bytes@,
                        Err::<String, Error>(e),
                    ),
                    Ok(_) => false,
                }
            },
        all_decode(manuscript) ==> exists|rendered: RenderOutput, fresh: Seq<char>, stamp: Seq<char>|
            {
                &&& render_output_spec(manuscript, bodies@, rendered)
                &&& (manuscript.metadata.identifier is None ==> is_uuid_v4_text(fresh))
                &&& is_utc_stamp(stamp)
                &&& compose_outcome(
                    manuscript,
                    &rendered,
                    book_id(&manuscript.metadata, fresh),
                    stamp,
                    r,
                )
            },
{
    match decode_all(manuscript) {
        Err(e) => {
            proof {
                let k = choose|k: int|
                    #![trigger manuscript.sources@[k]]
                    {
                        &&& 0 <= k < manuscript.sources@.len()
                        &&& forall|j: int|
                            0 <= j < k ==> decodes(
                                (#[trigger] manuscript.sources@[j]).path@,
                                manuscript.sources@[j].bytes@,
                            )
                        &&& decode_outcome(
                            manuscript.sources@[k].path@,
                            manuscript.sources@[k].bytes@,
                            Err::<String, Error>(e),
                        )
                    };
                assert(!decodes(manuscript.sources@[k].path@, manuscript.sources@[k].bytes@));
            }
            return Err(e);
        },
        Ok(texts) => {
            proof {
                assert forall|j: int| 0 <= j < manuscript.sources@.len() implies decodes(
                    (#[trigger] manuscript.sources@[j]).path@,
                    manuscript.sources@[j].bytes@,
                ) by {
                    assert(decode_outcome(
                        manuscript.sources@[j].path@,
                        manuscript.sources@[j].bytes@,
                        Ok::<String, Error>(texts@[j]),
                    ));
                }
            }
        },
    }
    let rendered = render_all(manuscript, bodies);
    compose(manuscript, &rendered)
}

} // verus!

//! The layout of the `.epub` ZIP container (OCF).
//!
//! The `mimetype` file comes first and is stored uncompressed, holding
//! exactly `application/epub+zip`; `META-INF/container.xml` comes second;
//! then the package document, the navigation document, the assets and the
//! chapters, all deflated.

use vstd::prelude::*;
use vstd::string::StrSliceExecFns;
use vstd::utf8::encode_utf8;

use crate::compose::{Bundle, NamedFile};

verus! {

/// How one entry is stored in the ZIP.
#[derive(Debug, Clone, Copy, PartialEq, Eq, Structural)]
pub enum Compression {
    /// Compression method 0: the bytes as they are.
    Stored,
    /// Compression method 8.
    Deflated,
}

/// One entry of the ZIP, in archive order.
#[derive(Debug, Clone)]
pub struct ArchiveEntry {
    pub name: String,
    pub contents: Vec<u8>,
    pub compression: Compression,
}

/// The entry for one file of the bundle, deflated.
pub open spec fn deflated_entry(f: NamedFile, e: ArchiveEntry) -> bool {
    &&& e.name@ == f.path@
    &&& e.contents@ == f.contents@
    &&& e.compression == Compression::Deflated
}

/// The entries of the container for a bundle, in archive order.
pub open spec fn archive_spec(b: Bundle, entries: Seq<ArchiveEntry>) -> bool {
    let na = b.assets@.len();
    let ns = b.spine@.len();
    &&& entries.len() == 4 + na + ns
    &&& entries[0].name@ == "mimetype"@
    &&& entries[0].contents@ == encode_utf8(b.mimetype@)
    &&& entries[0].compression == Compression::Stored
    &&& entries[1].name@ == "META-INF/container.xml"@
    &&& entries[1].contents@ == encode_utf8(b.container@)
    &&& entries[1].compression == Compression::Deflated
    &&& entries[2].name@ == "OEBPS/package.opf"@
    &&& entries[2].contents@ == encode_utf8(b.package_opf@)
    &&& entries[2].compression == Compression::Deflated
    &&& entries[3].name@ == "OEBPS/nav.xhtml"@
    &&& entries[3].contents@ == encode_utf8(b.nav_xhtml@)
    &&& entries[3].compression == Compression::Deflated
    &&& forall|i: int| 0 <= i < na ==> deflated_entry(b.assets@[i], #[trigger] entries[4 + i])
    &&& forall|i: int|
        0 <= i < ns ==> deflated_entry(b.spine@[i], #[trigger] entries[4 + na + i])
}

fn entry(name: &str, contents: Vec<u8>, compression: Compression) -> (e: ArchiveEntry)
    ensures
        e.name@ == name@,
        e.contents@ == contents@,
        e.compression == compression,
{
    ArchiveEntry { name: name.to_owned(), contents, compression }
}

fn push_files(out: &mut Vec<ArchiveEntry>, files: Vec<NamedFile>)
    ensures
        final(out)@.len() == old(out)@.len() + files@.len(),
        forall|i: int| 0 <= i < old(out)@.len() ==> #[trigger] final(out)@[i] == old(out)@[i],
        forall|i: int|
            0 <= i < files@.len() ==> deflated_entry(
                files@[i],
                #[trigger] final(out)@[old(out)@.len() + i],
            ),
{
    let ghost start = out@.len();
    let ghost fs = files@;
    for f in it: files
        invariant
            it.seq() == fs,
            out@.len() == start + it.index(),
            forall|k: int| 0 <= k < start ==> #[trigger] out@[k] == old(out)@[k],
            forall|k: int| 0 <= k < it.index() ==> deflated_entry(fs[k], #[trigger] out@[start + k]),
    {
        let e = ArchiveEntry { name: f.path, contents: f.contents, compression: Compression::Deflated };
        out.push(e);
    }
}

/// The entries of the `.epub` container for a bundle: `mimetype` first
/// and stored, then `META-INF/container.xml`, `OEBPS/package.opf`,
/// `OEBPS/nav.xhtml`, the assets and the chapters, all deflated.
pub fn archive_entries(bundle: Bundle) -> (r: Vec<ArchiveEntry>)
    ensures
        archive_spec(bundle, r@),
{
    let ghost b = bundle;
    let Bundle { mimetype, container, package_opf, nav_xhtml, spine, assets } = bundle;
    let mut out: Vec<ArchiveEntry> = Vec::new();
    out.push(entry("mimetype", mimetype.as_bytes_vec(), Compression::Stored));
    out.push(entry("META-INF/container.xml", container.as_str().as_bytes_vec(), Compression::Deflated));
    out.push(entry("OEBPS/package.opf", package_opf.as_str().as_bytes_vec(), Compression::Deflated));
    out.push(entry("OEBPS/nav.xhtml", nav_xhtml.as_str().as_bytes_vec(), Compression::Deflated));
    push_files(&mut out, assets);
    push_files(&mut out, spine);
    out
}

} // verus!

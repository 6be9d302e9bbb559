use vstd::prelude::*;
use crate::config::opt_view;
use crate::paths::{parent_of, path_parent};
use crate::utils::{is_directory_entry, sanitized, unzip_destination};

verus! {

/// One entry of a zip archive: its name as stored, its Unix mode where the
/// archive records one, and its uncompressed contents.
pub struct ArchiveEntry {
    pub name: String,
    pub unix_mode: Option<u32>,
    pub contents: Vec<u8>,
}

/// An entry as plain values: name, Unix mode, contents.
pub open spec fn entry_view(e: ArchiveEntry) -> (Seq<char>, Option<u32>, Seq<u8>) {
    (e.name@, e.unix_mode, e.contents@)
}

/// How many entries the `zip` crate finds in the central directory of an
/// archive held in memory; `None` when it cannot open the archive.
pub uninterp spec fn zip_entry_count(archive: Seq<u8>) -> Option<usize>;

/// The entry at an index as the `zip` crate reads it from an archive held in
/// memory (name, Unix mode, uncompressed contents); `None` when the archive
/// cannot be opened, the index is past the last entry, or the entry cannot
/// be decompressed and checked.
pub uninterp spec fn zip_entry(archive: Seq<u8>, index: usize) -> Option<(Seq<char>, Option<u32>, Seq<u8>)>;

/// Every entry of an archive, in order; `None` when the archive cannot be
/// opened or one of its entries cannot be read.
pub open spec fn zip_entries(archive: Seq<u8>) -> Option<Seq<(Seq<char>, Option<u32>, Seq<u8>)>> {
    match zip_entry_count(archive) {
        None => None,
        Some(n) => if forall|i: usize| i < n ==> (#[trigger] zip_entry(archive, i)) is Some {
            Some(Seq::new(n as nat, |i: int| zip_entry(archive, i as usize)->0))
        } else {
            None
        },
    }
}

/// The number of entries of an archive.
///
/// Trusted: opens the bytes with `zip::ZipArchive::new` over a
/// `std::io::Cursor` and returns `ZipArchive::len`, or `None` when opening
/// fails. Reading from memory, the result is a function of the bytes alone
/// (`zip_entry_count`).
#[verifier::external_body]
fn entry_count(archive: &[u8]) -> (r: Option<usize>)
    ensures
        r == zip_entry_count(archive@),
{
    match zip::ZipArchive::new(std::io::Cursor::new(archive)) {
        Ok(zip) => Some(zip.len()),
        Err(_) => None,
    }
}

/// The entry of an archive at an index.
///
/// Trusted: opens the bytes with `zip::ZipArchive::new` over a
/// `std::io::Cursor`, takes the entry with `ZipArchive::by_index`, reads its
/// contents with `read_to_end` (which checks the entry's CRC at its end) and
/// its name and mode with `ZipFile::name` and `ZipFile::unix_mode`. `None`
/// when any of these fails. Reading from memory, the result is a function of
/// the bytes and the index alone (`zip_entry`).
#[verifier::external_body]
fn read_entry(archive: &[u8], index: usize) -> (r: Option<ArchiveEntry>)
    ensures
        match r {
            Some(e) => zip_entry(archive@, index) == Some(entry_view(e)),
            None => zip_entry(archive@, index) is None,
        },
{
    let mut zip = zip::ZipArchive::new(std::io::Cursor::new(archive)).ok()?;
    let mut file = zip.by_index(index).ok()?;
    let mut contents: Vec<u8> = Vec::new();
    std::io::Read::read_to_end(&mut file, &mut contents).ok()?;
    Some(ArchiveEntry { name: file.name().to_owned(), unix_mode: file.unix_mode(), contents })
}

/// What to create on disk for one archive entry: a directory, or a file with
/// its contents, at `path`, after creating `parent` (the path's parent
/// directory, if it has one), with the entry's Unix mode where it has one.
pub enum ExtractStep {
    Directory { path: String, parent: Option<String>, mode: Option<u32> },
    File { path: String, parent: Option<String>, mode: Option<u32>, contents: Vec<u8> },
}

/// Whether a step extracts the entry `e` below the directory `dst`: the
/// path is `dst`, `/` and the sanitized name; the step is a directory exactly
/// when the name ends with `/`; a file carries the entry's contents.
pub open spec fn extracts(step: ExtractStep, dst: Seq<char>, e: (Seq<char>, Option<u32>, Seq<u8>)) -> bool {
    let target = dst + "/"@ + sanitized(e.0);
    let is_dir = e.0.len() > 0 && e.0.last() == '/';
    match step {
        ExtractStep::Directory { path, parent, mode } => {
            &&& is_dir
            &&& path@ == target
            &&& opt_view(parent) == path_parent(target)
            &&& mode == e.1
        },
        ExtractStep::File { path, parent, mode, contents } => {
            &&& !is_dir
            &&& path@ == target
            &&& opt_view(parent) == path_parent(target)
            &&& mode == e.1
            &&& contents@ == e.2
        },
    }
}

/// The steps that extract an archive below the directory `dst`, one per
/// entry and in the archive's order. `None` when the archive cannot be
/// opened or an entry cannot be read, where a program that unpacks as it
/// reads would stop with an error.
pub fn unzip_shell(archive: &[u8], dst: &str) -> (r: Option<Vec<ExtractStep>>)
    ensures
        match zip_entries(archive@) {
            None => r is None,
            Some(es) => r matches Some(steps) && steps@.len() == es.len()
                && forall|i: int| 0 <= i < es.len() ==> extracts(#[trigger] steps@[i], dst@, es[i]),
        },
{
    let n = match entry_count(archive) {
        None => return None,
        Some(n) => n,
    };
    let mut steps: Vec<ExtractStep> = Vec::new();
    for i in 0..n
        invariant
            zip_entry_count(archive@) == Some(n),
            steps@.len() == i,
            forall|j: int| 0 <= j < i ==> (#[trigger] zip_entry(archive@, j as usize)) is Some,
            forall|j: int| 0 <= j < i ==> extracts(#[trigger] steps@[j], dst@, zip_entry(archive@, j as usize)->0),
    {
        let e = match read_entry(archive, i) {
            None => {
                assert(!(forall|k: usize| k < n ==> (#[trigger] zip_entry(archive@, k)) is Some));
                return None;
            },
            Some(e) => e,
        };
        let ghost ev = entry_view(e);
        let dir = is_directory_entry(e.name.as_str());
        let path = unzip_destination(dst, e.name.as_str());
        let parent = parent_of(path.as_str());
        let ArchiveEntry { name: _, unix_mode, contents } = e;
        let step = if dir {
            ExtractStep::Directory { path, parent: parent, mode: unix_mode }
        } else {
            ExtractStep::File { path, parent: parent, mode: unix_mode, contents }
        };
        assert(opt_view(parent) == path_parent(dst@ + "/"@ + sanitized(ev.0)));
        assert(extracts(step, dst@, ev));
        steps.push(step);
        assert forall|j: int| 0 <= j < i + 1 implies extracts(#[trigger] steps@[j], dst@, zip_entry(archive@, j as usize)->0) by {
            if j == i {
                assert(j as usize == i);
            }
        }
        assert forall|j: int| 0 <= j < i + 1 implies (#[trigger] zip_entry(archive@, j as usize)) is Some by {
            if j == i {
                assert(j as usize == i);
            }
        }
    }
    proof {
        assert forall|k: usize| k < n implies (#[trigger] zip_entry(archive@, k)) is Some by {
            assert(zip_entry(archive@, (k as int) as usize) is Some);
        }
        let es = zip_entries(archive@)->0;
        assert forall|j: int| 0 <= j < es.len() implies extracts(#[trigger] steps@[j], dst@, es[j]) by {
            assert(es[j] == zip_entry(archive@, j as usize)->0);
        }
    }
    Some(steps)
}

} // verus!

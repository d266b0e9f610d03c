//! Building the archive of a module's directory tree, in memory.
//!
//! The caller walks the tree and hands over what it found, entry by entry;
//! the archive comes back as bytes. Every entry is named by its path relative
//! to the root, with `/` as the only separator; a directory's name ends in
//! `/`. Every entry carries the same permission bits, and files are stored as
//! they are. There is no partial archive: the first entry that cannot be
//! written ends the build.

use crate::text::push_char;
use vstd::prelude::*;
use vstd::string::*;
use vstd::utf8::encode_utf8;

verus! {

/// The permission bits of every entry.
pub const ENTRY_MODE: u32 = 0o755;

/// The longest name, in bytes, that the archive format can record.
pub const MAX_NAME_BYTES: usize = 65535;

/// How the bytes of a file are kept in the archive.
#[derive(Clone, Copy, Debug, PartialEq, Eq, Structural)]
pub enum Method {
    /// As they are, without compression.
    Stored,
}

/// One entry of the tree to archive.
#[derive(Clone, Debug, PartialEq, Eq)]
pub enum SourceEntry {
    /// A directory, by its path relative to the root.
    Directory { rel_path: String },
    /// A file, by its path relative to the root, with all its bytes.
    File { rel_path: String, content: Vec<u8> },
}

/// One entry as an archive holds it.
pub struct ArchiveEntry {
    /// The entry's name.
    pub name: Seq<char>,
    /// Whether the entry is a directory.
    pub directory: bool,
    /// The bytes of a file; a directory has none.
    pub content: Seq<u8>,
    /// The permission bits, without the bits that tell the kind of entry.
    pub mode: u32,
    /// How the content is kept.
    pub method: Method,
}

/// Why an archive could not be built.
#[derive(Clone, Copy, Debug, PartialEq, Eq, Structural)]
pub enum ArchiveError {
    /// The name of the entry at `index` is longer than the format can record.
    NameTooLong { index: usize },
    /// The entry at `index` could not be written; an entry whose name is
    /// already taken is one such.
    Rejected { index: usize },
    /// Every entry was written, but the archive could not be completed.
    Unfinished,
}

/// `path` with every backslash turned into a slash.
pub open spec fn normalized(path: Seq<char>) -> Seq<char> {
    Seq::new(
        path.len(),
        |i: int|
            if path[i] == '\\' {
                '/'
            } else {
                path[i]
            },
    )
}

/// The name of the entry at `rel_path`: the normalized path, with a slash
/// after it for a directory.
pub open spec fn entry_name(rel_path: Seq<char>, directory: bool) -> Seq<char> {
    if directory {
        normalized(rel_path).push('/')
    } else {
        normalized(rel_path)
    }
}

/// Whether `name` is short enough to be recorded: its UTF-8 encoding fits.
pub open spec fn fits(name: Seq<char>) -> bool {
    encode_utf8(name).len() <= MAX_NAME_BYTES
}

impl SourceEntry {
    /// The name that the entry gets in the archive.
    pub open spec fn name(self) -> Seq<char> {
        match self {
            SourceEntry::Directory { rel_path } => entry_name(rel_path@, true),
            SourceEntry::File { rel_path, .. } => entry_name(rel_path@, false),
        }
    }

    /// The entry as the archive is to hold it.
    pub open spec fn planned(self) -> ArchiveEntry {
        match self {
            SourceEntry::Directory { .. } => ArchiveEntry {
                name: self.name(),
                directory: true,
                content: Seq::empty(),
                mode: ENTRY_MODE,
                method: Method::Stored,
            },
            SourceEntry::File { content, .. } => ArchiveEntry {
                name: self.name(),
                directory: false,
                content: content@,
                mode: ENTRY_MODE,
                method: Method::Stored,
            },
        }
    }
}

/// What the archive of `entries` is to hold: one entry for each, in order.
pub open spec fn planned_all(entries: Seq<SourceEntry>) -> Seq<ArchiveEntry> {
    Seq::new(entries.len(), |i: int| entries[i].planned())
}

/// Whether some entry of `entries` is named `name`.
pub open spec fn has_name(entries: Seq<ArchiveEntry>, name: Seq<char>) -> bool {
    exists|i: int| 0 <= i < entries.len() && (#[trigger] entries[i]).name == name
}

/// Whether no two entries of `entries` have the same name.
pub open spec fn distinct_names(entries: Seq<ArchiveEntry>) -> bool {
    forall|i: int, j: int|
        0 <= i < j < entries.len() ==> (#[trigger] entries[i]).name != (#[trigger] entries[j]).name
}

/// An archive under construction: a `zip::write::ZipWriter` over a cursor
/// into a vector of bytes. Verus sees nothing of it but what `held` says.
#[verifier::external_body]
pub struct ArchiveWriter {
    inner: zip::write::ZipWriter<std::io::Cursor<Vec<u8>>>,
}

/// `zip::result::ZipError`, the error of the archive writer. Nothing is read
/// from it.
#[verifier::external_type_specification]
#[verifier::external_body]
pub struct ExZipError(zip::result::ZipError);

/// `std::io::Error`, the error of a write. Nothing is read from it.
#[verifier::external_type_specification]
#[verifier::external_body]
pub struct ExIoError(std::io::Error);

/// The entries that `w` holds, in the order in which they went in.
pub uninterp spec fn held(w: ArchiveWriter) -> Seq<ArchiveEntry>;

/// The bytes of the finished archive that holds `entries`.
pub uninterp spec fn encoded(entries: Seq<ArchiveEntry>) -> Seq<u8>;

/// Whether a writer that holds `before` lets `next` in after them.
pub uninterp spec fn accepts(before: Seq<ArchiveEntry>, next: ArchiveEntry) -> bool;

/// Whether a writer that holds `entries` can be finished.
pub uninterp spec fn finishes(entries: Seq<ArchiveEntry>) -> bool;

/// `entry` as it is when it has just gone in: still without content.
pub open spec fn begun(entry: ArchiveEntry) -> ArchiveEntry {
    ArchiveEntry { content: Seq::empty(), ..entry }
}

/// Whether a writer that holds `before` takes `entry`: it lets the entry in,
/// and lets it in with all its content.
pub open spec fn takes(before: Seq<ArchiveEntry>, entry: ArchiveEntry) -> bool {
    accepts(before, begun(entry)) && accepts(before, entry)
}

/// Whether a writer takes the first `n` entries of `plan`, each after those
/// before it.
pub open spec fn takes_first(plan: Seq<ArchiveEntry>, n: int) -> bool {
    forall|i: int| 0 <= i < n ==> takes(plan.take(i), #[trigger] plan[i])
}

/// `ZipWriter::new`, on a cursor into an empty vector: the writer holds no
/// entry.
#[verifier::external_body]
fn writer_new() -> (w: ArchiveWriter)
    ensures
        held(w) == Seq::<ArchiveEntry>::empty(),
{
    ArchiveWriter { inner: zip::write::ZipWriter::new(std::io::Cursor::new(Vec::new())) }
}

/// `ZipWriter::add_directory`: where it succeeds, the writer holds one more
/// entry, a directory of that name with the permission bits `mode`. Whether
/// it succeeds depends on what the writer holds and on the entry alone. It
/// fails where the writer holds an entry of that name already. A name of
/// more than `MAX_NAME_BYTES` bytes makes it panic, and one that does not end
/// in a slash is changed, so neither is let in.
#[verifier::external_body]
fn writer_add_directory(w: ArchiveWriter, name: &str, mode: u32) -> (r: Result<
    ArchiveWriter,
    zip::result::ZipError,
>)
    requires
        fits(name@),
        name@.len() > 0,
        name@.last() == '/',
        mode <= 0o777,
    ensures
        r matches Ok(after) ==> held(after) == held(w).push(
            ArchiveEntry {
                name: name@,
                directory: true,
                content: Seq::empty(),
                mode,
                method: Method::Stored,
            },
        ),
        r is Ok <==> accepts(
            held(w),
            (ArchiveEntry {
                name: name@,
                directory: true,
                content: Seq::empty(),
                mode,
                method: Method::Stored,
            }),
        ),
        has_name(held(w), name@) ==> r is Err,
{
    let mut w = w;
    let options = zip::write::FileOptions::<zip::write::ExtendedFileOptions>::default()
        .last_modified_time(zip::DateTime::default())
        .unix_permissions(mode);
    match w.inner.add_directory(name, options) {
        Ok(()) => Ok(w),
        Err(e) => Err(e),
    }
}

/// `ZipWriter::start_file`: where it succeeds, the writer holds one more
/// entry, a file of that name, still empty, kept by `method` with the
/// permission bits `mode`. Whether it succeeds depends on what the writer
/// holds and on the entry alone. It fails where the writer holds an entry of
/// that name already. A name of more than `MAX_NAME_BYTES` bytes makes it
/// panic, so none is let in.
#[verifier::external_body]
fn writer_start_file(w: ArchiveWriter, name: &str, method: Method, mode: u32) -> (r: Result<
    ArchiveWriter,
    zip::result::ZipError,
>)
    requires
        fits(name@),
        mode <= 0o777,
    ensures
        r matches Ok(after) ==> held(after) == held(w).push(
            ArchiveEntry { name: name@, directory: false, content: Seq::empty(), mode, method },
        ),
        r is Ok <==> accepts(
            held(w),
            (ArchiveEntry { name: name@, directory: false, content: Seq::empty(), mode, method }),
        ),
        has_name(held(w), name@) ==> r is Err,
{
    let mut w = w;
    let kept = match method {
        Method::Stored => zip::CompressionMethod::Stored,
    };
    let options = zip::write::FileOptions::<zip::write::ExtendedFileOptions>::default()
        .last_modified_time(zip::DateTime::default())
        .compression_method(kept)
        .unix_permissions(mode);
    match w.inner.start_file(name, options) {
        Ok(()) => Ok(w),
        Err(e) => Err(e),
    }
}

/// `Write::write_all` on a `ZipWriter` whose last entry is a file: where it
/// succeeds, `data` is appended to that file's content. Whether it succeeds
/// depends on what the writer held before that file, and on the file as it
/// is with `data` appended.
#[verifier::external_body]
fn writer_write_all(w: ArchiveWriter, data: &[u8]) -> (r: Result<ArchiveWriter, std::io::Error>)
    requires
        held(w).len() > 0,
        !held(w).last().directory,
    ensures
        r matches Ok(after) ==> held(after) == held(w).drop_last().push(
            ArchiveEntry { content: held(w).last().content + data@, ..held(w).last() },
        ),
        r is Ok <==> accepts(
            held(w).drop_last(),
            (ArchiveEntry { content: held(w).last().content + data@, ..held(w).last() }),
        ),
{
    let mut w = w;
    match std::io::Write::write_all(&mut w.inner, data) {
        Ok(()) => Ok(w),
        Err(e) => Err(e),
    }
}

/// `ZipWriter::finish`: where it succeeds, the bytes under the cursor are the
/// archive of the entries that the writer holds. Whether it succeeds, and
/// the bytes, depend on nothing else: every entry went in with the same
/// fixed date, the one that `zip::DateTime::default` gives.
#[verifier::external_body]
fn writer_finish(w: ArchiveWriter) -> (r: Result<Vec<u8>, zip::result::ZipError>)
    ensures
        r matches Ok(bytes) ==> bytes@ == encoded(held(w)),
        r is Ok <==> finishes(held(w)),
{
    match w.inner.finish() {
        Ok(cursor) => Ok(cursor.into_inner()),
        Err(e) => Err(e),
    }
}

/// Gives the name of the entry at `rel_path`.
pub fn name_entry(rel_path: &str, directory: bool) -> (name: String)
    ensures
        name@ == entry_name(rel_path@, directory),
{
    let mut name = String::new();
    for c in it: rel_path.chars()
        invariant
            it.seq() == rel_path@,
            name@ == normalized(rel_path@.take(it.index() as int)),
    {
        let ghost i = it.index() as int;
        if c == '\\' {
            push_char(&mut name, '/');
        } else {
            push_char(&mut name, c);
        }
        assert(name@ =~= normalized(rel_path@.take(i + 1)));
    }
    assert(rel_path@.take(rel_path@.len() as int) =~= rel_path@);
    if directory {
        push_char(&mut name, '/');
    }
    name
}

/// Archives `entries`, in order.
///
/// The archive is built exactly if every name fits, the writer takes every
/// planned entry after those before it, and the archive can be finished.
/// Its bytes are then the archive of what was planned: one entry for each
/// source entry, named by its normalized path, with the fixed permission
/// bits, files stored with their content. Otherwise the error tells the
/// first entry that stood in the way: one whose name does not fit is refused
/// before anything of it is written, one that the writer does not take is
/// rejected. An entry whose name is taken already is never taken.
pub fn zip_folder(entries: &Vec<SourceEntry>) -> (r: Result<Vec<u8>, ArchiveError>)
    ensures
        r is Ok <==> {
            &&& forall|j: int| 0 <= j < entries.len() ==> fits((#[trigger] entries[j]).name())
            &&& takes_first(planned_all(entries@), entries.len() as int)
            &&& finishes(planned_all(entries@))
        },
        match r {
            Ok(bytes) => {
                &&& bytes@ == encoded(planned_all(entries@))
                &&& distinct_names(planned_all(entries@))
            },
            Err(ArchiveError::NameTooLong { index }) => {
                &&& index < entries.len()
                &&& !fits(entries[index as int].name())
                &&& forall|j: int| 0 <= j < index ==> fits((#[trigger] entries[j]).name())
                &&& takes_first(planned_all(entries@), index as int)
            },
            Err(ArchiveError::Rejected { index }) => {
                &&& index < entries.len()
                &&& forall|j: int| 0 <= j <= index ==> fits((#[trigger] entries[j]).name())
                &&& takes_first(planned_all(entries@), index as int)
                &&& !takes(
                    planned_all(entries@).take(index as int),
                    planned_all(entries@)[index as int],
                )
            },
            Err(ArchiveError::Unfinished) => {
                &&& forall|j: int| 0 <= j < entries.len() ==> fits((#[trigger] entries[j]).name())
                &&& takes_first(planned_all(entries@), entries.len() as int)
                &&& !finishes(planned_all(entries@))
            },
        },
{
    let ghost plan = planned_all(entries@);
    let mut w = writer_new();
    let mut i: usize = 0;
    proof {
        assert(plan.take(0) =~= Seq::<ArchiveEntry>::empty());
    }
    while i < entries.len()
        invariant
            i <= entries.len(),
            plan == planned_all(entries@),
            held(w) == plan.take(i as int),
            distinct_names(held(w)),
            takes_first(plan, i as int),
            forall|j: int| 0 <= j < i ==> fits((#[trigger] entries[j]).name()),
        decreases entries.len() - i,
    {
        let ghost before = held(w);
        let ghost next = plan[i as int];
        proof {
            assert(next == entries[i as int].planned());
            assert(plan.take(i + 1) =~= before.push(next));
        }
        match &entries[i] {
            SourceEntry::Directory { rel_path } => {
                let name = name_entry(rel_path.as_str(), true);
                if name.as_str().as_bytes().len() > MAX_NAME_BYTES {
                    return Err(ArchiveError::NameTooLong { index: i });
                }
                assert(begun(next) == next);
                match writer_add_directory(w, name.as_str(), ENTRY_MODE) {
                    Ok(after) => {
                        w = after;
                    },
                    Err(_) => {
                        return Err(ArchiveError::Rejected { index: i });
                    },
                }
            },
            SourceEntry::File { rel_path, content } => {
                let name = name_entry(rel_path.as_str(), false);
                if name.as_str().as_bytes().len() > MAX_NAME_BYTES {
                    return Err(ArchiveError::NameTooLong { index: i });
                }
                match writer_start_file(w, name.as_str(), Method::Stored, ENTRY_MODE) {
                    Ok(started) => {
                        proof {
                            assert(Seq::<u8>::empty() + content@ =~= content@);
                            assert(held(started).drop_last() =~= before);
                        }
                        match writer_write_all(started, content.as_slice()) {
                            Ok(after) => {
                                w = after;
                            },
                            Err(_) => {
                                return Err(ArchiveError::Rejected { index: i });
                            },
                        }
                    },
                    Err(_) => {
                        return Err(ArchiveError::Rejected { index: i });
                    },
                }
            },
        }
        proof {
            assert(held(w) == before.push(next));
            assert(takes(plan.take(i as int), plan[i as int]));
            assert(!has_name(before, next.name));
            assert forall|a: int, b: int| 0 <= a < b < held(w).len() implies (#[trigger] held(
                w,
            )[a]).name != (#[trigger] held(w)[b]).name by {
                if b == before.len() {
                    assert(before[a].name != next.name);
                } else {
                    assert(before[a].name != before[b].name);
                }
            }
        }
        i = i + 1;
    }
    proof {
        assert(plan.take(entries.len() as int) =~= plan);
    }
    match writer_finish(w) {
        Ok(bytes) => Ok(bytes),
        Err(_) => Err(ArchiveError::Unfinished),
    }
}

} // verus!

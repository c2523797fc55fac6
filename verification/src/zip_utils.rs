//! The archiver: packs what a directory walk found into a zip archive, each
//! entry under its path relative to the walked directory.

use crate::error::ExportError;
use crate::path::{lemma_relative_name_start, relative_name, relative_path};
use crate::zip_writer::{
    add_directory, archive_entries, directory_name, finish, has_archive, has_name, is_archive_of,
    new_writer, permission_bits, start_file, takes_data, takes_directory, takes_file, write_data,
    ArchiveWriter, Compression, Entry,
};
use vstd::prelude::*;
use vstd::string::StringExecFns;

verus! {

/// The permission bits that every entry of an archive gets.
pub const ENTRY_MODE: u32 = 0o755;

/// What a walk found at a path.
#[derive(Debug, Clone, PartialEq, Eq)]
pub enum ItemKind {
    /// A regular file, with its content.
    File(Vec<u8>),
    /// A regular file whose content could not be read.
    Unreadable,
    /// A directory, or anything else that is not a regular file.
    Directory,
}

/// One entry of a directory walk.
#[derive(Debug, Clone, PartialEq, Eq)]
pub struct DirItem {
    pub path: String,
    pub kind: ItemKind,
}

/// The record of a regular file: its name and content, the fixed permission
/// bits, and the chosen compression.
pub open spec fn file_entry(name: Seq<char>, content: Seq<u8>, method: Compression) -> Entry {
    (name, content, permission_bits(ENTRY_MODE), method == Compression::Bzip2)
}

/// The record of a directory: its name with a slash at its end, no data, the
/// fixed permission bits, and no compression.
pub open spec fn directory_entry(name: Seq<char>) -> Entry {
    (directory_name(name), Seq::empty(), permission_bits(ENTRY_MODE), false)
}

/// The entry of a walk that started at `root` cannot be archived: it does not
/// lie under `root`, or it is a file that could not be read.
pub open spec fn rejected(item: DirItem, root: Seq<char>, sep: char) -> bool {
    relative_name(item.path@, root, sep) is None || item.kind is Unreadable
}

/// The record that an entry of a walk gets. A regular file gets a file record
/// under its relative name. Anything else gets a directory record, but for
/// the walked directory itself, whose relative name is empty: it gets none.
pub open spec fn record_of(item: DirItem, root: Seq<char>, sep: char, method: Compression) -> Option<
    Entry,
> {
    match (relative_name(item.path@, root, sep), item.kind) {
        (Some(name), ItemKind::File(content)) => Some(file_entry(name, content@, method)),
        (Some(name), ItemKind::Directory) => if name.len() > 0 {
            Some(directory_entry(name))
        } else {
            None
        },
        _ => None,
    }
}

/// Every entry of the walk lies under `root` and could be read.
pub open spec fn archivable(items: Seq<DirItem>, root: Seq<char>, sep: char) -> bool {
    forall|i: int| 0 <= i < items.len() ==> !rejected(#[trigger] items[i], root, sep)
}

/// The records that a walk gives, in walk order.
pub open spec fn records(items: Seq<DirItem>, root: Seq<char>, sep: char, method: Compression) -> Seq<
    Entry,
>
    decreases items.len(),
{
    if items.len() == 0 {
        Seq::empty()
    } else {
        let front = records(items.drop_last(), root, sep, method);
        match record_of(items.last(), root, sep, method) {
            Some(entry) => front.push(entry),
            None => front,
        }
    }
}

/// A writer that holds `entries` takes a file entry of this name together
/// with its content.
pub open spec fn accepts_file(
    entries: Seq<Entry>,
    name: Seq<char>,
    content: Seq<u8>,
    method: Compression,
) -> bool {
    &&& takes_file(entries, name, method == Compression::Bzip2)
    &&& content.len() == 0 || takes_data(
        entries.push(file_entry(name, Seq::empty(), method)),
        content,
    )
}

/// A writer that holds `entries` takes the record of `item`. An entry of the
/// walk that gets no record asks nothing of the writer.
pub open spec fn accepts(
    entries: Seq<Entry>,
    item: DirItem,
    root: Seq<char>,
    sep: char,
    method: Compression,
) -> bool {
    match (relative_name(item.path@, root, sep), item.kind) {
        (Some(name), ItemKind::File(content)) => accepts_file(entries, name, content@, method),
        (Some(name), ItemKind::Directory) => name.len() == 0 || takes_directory(entries, name),
        _ => true,
    }
}

/// A writer that holds `start` takes the records of the whole walk, one after
/// the other: each entry's record is taken by a writer that holds `start` and
/// the records of the entries before it.
pub open spec fn accepted(
    start: Seq<Entry>,
    items: Seq<DirItem>,
    root: Seq<char>,
    sep: char,
    method: Compression,
) -> bool
    decreases items.len(),
{
    if items.len() == 0 {
        true
    } else {
        &&& accepted(start, items.drop_last(), root, sep, method)
        &&& accepts(
            start + records(items.drop_last(), root, sep, method),
            items.last(),
            root,
            sep,
            method,
        )
    }
}

/// The entries with one more record behind them, if there is one.
pub open spec fn with_record(entries: Seq<Entry>, record: Option<Entry>) -> Seq<Entry> {
    match record {
        Some(entry) => entries.push(entry),
        None => entries,
    }
}

/// No two entries have the same name.
pub open spec fn distinct_names(entries: Seq<Entry>) -> bool {
    forall|i: int, j: int|
        0 <= i < j < entries.len() ==> (#[trigger] entries[i]).0 != (#[trigger] entries[j]).0
}

/// The line that reports how archiving `dir` into `filename` ended.
pub open spec fn report(dir: Seq<char>, filename: Seq<char>, failure: Option<ExportError>) -> Seq<
    char,
> {
    match failure {
        None => "done: "@ + dir + " written to "@ + filename,
        Some(e) => "Error: "@ + e.name(),
    }
}

/// The failure that a result holds, if any.
pub open spec fn failure_of<T>(outcome: Result<T, ExportError>) -> Option<ExportError> {
    match outcome {
        Ok(_) => None,
        Err(e) => Some(e),
    }
}

impl View for ArchiveWriter {
    type V = Seq<Entry>;

    /// The entries added so far.
    open spec fn view(&self) -> Seq<Entry> {
        archive_entries(*self)
    }
}

impl ArchiveWriter {
    /// An archive without entries.
    pub fn new() -> (writer: ArchiveWriter)
        ensures
            writer@ == Seq::<Entry>::empty(),
    {
        new_writer()
    }

    /// Adds a file entry of the given name and content behind the others.
    /// The writer takes it where it takes the name and then the content; it
    /// takes no name twice.
    pub fn add_file(&mut self, name: &str, content: &[u8], method: Compression) -> (added: Result<
        (),
        ExportError,
    >)
        ensures
            added is Ok <==> accepts_file(old(self)@, name@, content@, method),
            added is Ok ==> final(self)@ == old(self)@.push(file_entry(name@, content@, method)),
            added is Ok ==> !has_name(old(self)@, name@),
            added matches Err(e) ==> e == ExportError::ArchiveWrite,
    {
        if archive_step(start_file(self, name, method, ENTRY_MODE)).is_err() {
            return Err(ExportError::ArchiveWrite);
        }
        let ghost started = self@;
        let written = archive_step(write_data(self, content));
        assert(written is Ok ==> self@ == old(self)@.push(file_entry(name@, content@, method))) by {
            assert(started.last().1 + content@ == content@);
        }
        written
    }

    /// Adds a directory entry behind the others. Its name is the given one
    /// with a slash at its end; the writer takes no name twice.
    pub fn add_dir(&mut self, name: &str) -> (added: Result<(), ExportError>)
        ensures
            added is Ok <==> takes_directory(old(self)@, name@),
            added is Ok ==> final(self)@ == old(self)@.push(directory_entry(name@)),
            added is Ok ==> !has_name(old(self)@, directory_name(name@)),
            added matches Err(e) ==> e == ExportError::ArchiveWrite,
    {
        archive_step(add_directory(self, name, ENTRY_MODE))
    }

    /// Closes the archive and hands out its bytes. It succeeds where there
    /// is an archive of the entries.
    pub fn finish(self) -> (bytes: Result<Vec<u8>, ExportError>)
        ensures
            bytes is Ok <==> has_archive(self@),
            bytes matches Ok(b) ==> is_archive_of(b@, self@),
            bytes matches Err(e) ==> e == ExportError::ArchiveWrite,
    {
        archive_step(finish(self))
    }
}

/// Turns the outcome of a step of the zip writer into an outcome of the
/// archiver: what succeeded stays, and every failure is an `ArchiveWrite`.
pub fn archive_step<T, E>(step: Result<T, E>) -> (outcome: Result<T, ExportError>)
    ensures
        match step {
            Ok(value) => outcome == Ok::<T, ExportError>(value),
            Err(_) => outcome == Err::<T, ExportError>(ExportError::ArchiveWrite),
        },
{
    match step {
        Ok(value) => Ok(value),
        Err(_) => Err(ExportError::ArchiveWrite),
    }
}

/// The line that reports how archiving `dir` into `filename` ended.
pub fn report_line<T>(dir: &str, filename: &str, outcome: &Result<T, ExportError>) -> (line: String)
    ensures
        line@ == report(dir@, filename@, failure_of(*outcome)),
{
    match outcome {
        Ok(_) => {
            let mut line = String::from_str("done: ");
            line.append(dir);
            line.append(" written to ");
            line.append(filename);
            line
        },
        Err(e) => {
            let mut line = String::from_str("Error: ");
            let name = e.describe();
            line.append(name.as_str());
            line
        },
    }
}

/// The archiver.
pub struct ZipUtils {}

impl ZipUtils {
    /// Archives the walk of `dir` with bzip2 compression and reports how it
    /// went: the bytes of the archive or the failure, and the line to print.
    /// There is an archive exactly when `dir` is a directory, every entry of
    /// the walk can be archived, and the zip writer takes every record and
    /// can be finished.
    pub fn zip_dir_to_file(
        dir: &str,
        filename: &str,
        is_dir: bool,
        items: &Vec<DirItem>,
        sep: char,
    ) -> (out: (Result<Vec<u8>, ExportError>, String))
        ensures
            out.0 is Ok <==> is_dir && archivable(items@, dir@, sep) && accepted(
                Seq::empty(),
                items@,
                dir@,
                sep,
                Compression::Bzip2,
            ) && has_archive(records(items@, dir@, sep, Compression::Bzip2)),
            out.0 matches Ok(bytes) ==> is_archive_of(
                bytes@,
                records(items@, dir@, sep, Compression::Bzip2),
            ) && distinct_names(records(items@, dir@, sep, Compression::Bzip2)),
            out.0 matches Err(e) ==> e == (if is_dir {
                ExportError::ArchiveWrite
            } else {
                ExportError::SourceNotFound
            }),
            out.1@ == report(dir@, filename@, failure_of(out.0)),
    {
        let outcome = Self::doit(dir, is_dir, items, sep, Compression::Bzip2);
        let line = report_line(dir, filename, &outcome);
        (outcome, line)
    }

    /// Adds a record to `writer` for every entry of a walk that started at
    /// `prefix`: a file record for a regular file, a directory record for
    /// anything else but the walked directory itself. It succeeds exactly
    /// when every entry lies under `prefix` and could be read, and the writer
    /// takes every record; it stops at the first entry for which that fails.
    /// A walk that asks for no record asks nothing of the writer.
    pub fn zip_dir(
        items: &Vec<DirItem>,
        prefix: &str,
        sep: char,
        writer: &mut ArchiveWriter,
        method: Compression,
    ) -> (done: Result<(), ExportError>)
        ensures
            done is Ok <==> archivable(items@, prefix@, sep) && accepted(
                old(writer)@,
                items@,
                prefix@,
                sep,
                method,
            ),
            archivable(items@, prefix@, sep) && records(items@, prefix@, sep, method).len() == 0
                ==> done is Ok,
            done is Ok ==> final(writer)@ == old(writer)@ + records(items@, prefix@, sep, method),
            done is Ok && distinct_names(old(writer)@) ==> distinct_names(final(writer)@),
            done matches Err(e) ==> e == ExportError::ArchiveWrite,
    {
        proof {
            if records(items@, prefix@, sep, method).len() == 0 {
                lemma_empty_walk_is_accepted(old(writer)@, items@, prefix@, sep, method);
            }
        }
        let mut i: usize = 0;
        while i < items.len()
            invariant
                i <= items.len(),
                archivable(items@.take(i as int), prefix@, sep),
                accepted(old(writer)@, items@.take(i as int), prefix@, sep, method),
                writer@ == old(writer)@ + records(items@.take(i as int), prefix@, sep, method),
                distinct_names(old(writer)@) ==> distinct_names(writer@),
                records(items@, prefix@, sep, method).len() == 0 ==> accepted(
                    old(writer)@,
                    items@,
                    prefix@,
                    sep,
                    method,
                ),
            decreases items.len() - i,
        {
            proof {
                lemma_walk_step(old(writer)@, items@, i as int, prefix@, sep, method);
            }
            if Self::zip_item(&items[i], prefix, sep, writer, method).is_err() {
                return Err(ExportError::ArchiveWrite);
            }
            i += 1;
        }
        assert(items@.take(items.len() as int) == items@);
        Ok(())
    }

    /// Adds the record of one entry of a walk to `writer`, if it gets one.
    fn zip_item(
        item: &DirItem,
        prefix: &str,
        sep: char,
        writer: &mut ArchiveWriter,
        method: Compression,
    ) -> (done: Result<(), ExportError>)
        ensures
            done is Ok <==> !rejected(*item, prefix@, sep) && accepts(
                old(writer)@,
                *item,
                prefix@,
                sep,
                method,
            ),
            done is Ok ==> final(writer)@ == with_record(
                old(writer)@,
                record_of(*item, prefix@, sep, method),
            ),
            done is Ok && distinct_names(old(writer)@) ==> distinct_names(final(writer)@),
            done matches Err(e) ==> e == ExportError::ArchiveWrite,
    {
        let name = match relative_path(item.path.as_str(), prefix, sep) {
            Some(name) => name,
            None => {
                return Err(ExportError::ArchiveWrite);
            },
        };
        match &item.kind {
            ItemKind::File(content) => {
                let added = writer.add_file(name.as_str(), content.as_slice(), method);
                proof {
                    if added is Ok {
                        lemma_fresh_name_stays_distinct(
                            old(writer)@,
                            file_entry(name@, content@, method),
                        );
                    }
                }
                added
            },
            ItemKind::Unreadable => Err(ExportError::ArchiveWrite),
            ItemKind::Directory => {
                if name.as_str().is_empty() {
                    Ok(())
                } else {
                    let added = writer.add_dir(name.as_str());
                    proof {
                        if added is Ok {
                            lemma_fresh_name_stays_distinct(old(writer)@, directory_entry(name@));
                        }
                    }
                    added
                }
            },
        }
    }

    /// Archives the walk of `src_dir`. `is_dir` tells whether `src_dir` is a
    /// directory; where it is not, nothing is archived. There is an archive
    /// exactly when `src_dir` is a directory, every entry of the walk can be
    /// archived, and the zip writer takes every record and can be finished.
    pub fn doit(
        src_dir: &str,
        is_dir: bool,
        items: &Vec<DirItem>,
        sep: char,
        method: Compression,
    ) -> (archive: Result<Vec<u8>, ExportError>)
        ensures
            archive is Ok <==> is_dir && archivable(items@, src_dir@, sep) && accepted(
                Seq::empty(),
                items@,
                src_dir@,
                sep,
                method,
            ) && has_archive(records(items@, src_dir@, sep, method)),
            archive matches Ok(bytes) ==> is_archive_of(
                bytes@,
                records(items@, src_dir@, sep, method),
            ) && distinct_names(records(items@, src_dir@, sep, method)),
            archive matches Err(e) ==> e == (if is_dir {
                ExportError::ArchiveWrite
            } else {
                ExportError::SourceNotFound
            }),
    {
        if !is_dir {
            return Err(ExportError::SourceNotFound);
        }
        let mut writer = ArchiveWriter::new();
        match Self::zip_dir(items, src_dir, sep, &mut writer, method) {
            Ok(_) => {
                assert(writer@ == records(items@, src_dir@, sep, method));
                writer.finish()
            },
            Err(e) => Err(e),
        }
    }
}

/// Entries with distinct names stay so when an entry of a new name joins.
pub proof fn lemma_fresh_name_stays_distinct(entries: Seq<Entry>, entry: Entry)
    requires
        !has_name(entries, entry.0),
    ensures
        distinct_names(entries) ==> distinct_names(entries.push(entry)),
{
    if distinct_names(entries) {
        let all = entries.push(entry);
        assert forall|i: int, j: int| 0 <= i < j < all.len() implies (#[trigger] all[i]).0 != (
        #[trigger] all[j]).0 by {
            if j == entries.len() {
                assert(entries[i].0 != entry.0);
            } else {
                assert(entries[i].0 != entries[j].0);
            }
        }
    }
}

/// One step of a walk: what holds of the first `i + 1` entries in terms of
/// the first `i` and entry `i`, and that a walk whose entry `i` fails, fails.
proof fn lemma_walk_step(
    start: Seq<Entry>,
    items: Seq<DirItem>,
    i: int,
    root: Seq<char>,
    sep: char,
    method: Compression,
)
    requires
        0 <= i < items.len(),
    ensures
        archivable(items.take(i), root, sep) && !rejected(items[i], root, sep) ==> archivable(
            items.take(i + 1),
            root,
            sep,
        ),
        accepted(start, items.take(i + 1), root, sep, method) <==> accepted(
            start,
            items.take(i),
            root,
            sep,
            method,
        ) && accepts(start + records(items.take(i), root, sep, method), items[i], root, sep, method),
        start + records(items.take(i + 1), root, sep, method) == with_record(
            start + records(items.take(i), root, sep, method),
            record_of(items[i], root, sep, method),
        ),
        archivable(items, root, sep) ==> !rejected(items[i], root, sep),
        accepted(start, items, root, sep, method) ==> accepted(
            start,
            items.take(i + 1),
            root,
            sep,
            method,
        ),
{
    let more = items.take(i + 1);
    assert(more.drop_last() == items.take(i));
    assert(more.last() == items[i]);
    if archivable(items.take(i), root, sep) && !rejected(items[i], root, sep) {
        assert forall|j: int| 0 <= j < more.len() implies !rejected(#[trigger] more[j], root, sep) by {
            if j < i {
                assert(!rejected(items.take(i)[j], root, sep));
            }
        }
    }
    lemma_accepted_prefix(start, items, i + 1, root, sep, method);
}

/// A writer that takes the records of a walk takes those of every part of
/// the walk that starts at its first entry.
pub proof fn lemma_accepted_prefix(
    start: Seq<Entry>,
    items: Seq<DirItem>,
    k: int,
    root: Seq<char>,
    sep: char,
    method: Compression,
)
    requires
        0 <= k <= items.len(),
    ensures
        accepted(start, items, root, sep, method) ==> accepted(
            start,
            items.take(k),
            root,
            sep,
            method,
        ),
    decreases items.len(),
{
    if k == items.len() {
        assert(items.take(k) == items);
    } else {
        lemma_accepted_prefix(start, items.drop_last(), k, root, sep, method);
        assert(items.drop_last().take(k) == items.take(k));
    }
}

/// A walk that asks for no record asks nothing of the writer.
pub proof fn lemma_empty_walk_is_accepted(
    start: Seq<Entry>,
    items: Seq<DirItem>,
    root: Seq<char>,
    sep: char,
    method: Compression,
)
    requires
        records(items, root, sep, method).len() == 0,
    ensures
        accepted(start, items, root, sep, method),
    decreases items.len(),
{
    if items.len() > 0 {
        lemma_empty_walk_is_accepted(start, items.drop_last(), root, sep, method);
    }
}

/// The records of a walk are exactly the records of its entries: a record is
/// among them when, and only when, an entry of the walk gets that record.
pub proof fn lemma_record_members(
    items: Seq<DirItem>,
    root: Seq<char>,
    sep: char,
    method: Compression,
    entry: Entry,
)
    ensures
        records(items, root, sep, method).contains(entry) <==> exists|i: int|
            0 <= i < items.len() && record_of(#[trigger] items[i], root, sep, method) == Some(
                entry,
            ),
    decreases items.len(),
{
    if items.len() > 0 {
        let front = items.drop_last();
        let all = records(items, root, sep, method);
        let before = records(front, root, sep, method);
        lemma_record_members(front, root, sep, method, entry);
        if exists|i: int|
            0 <= i < items.len() && record_of(#[trigger] items[i], root, sep, method) == Some(
                entry,
            ) {
            let i = choose|i: int|
                0 <= i < items.len() && record_of(#[trigger] items[i], root, sep, method) == Some(
                    entry,
                );
            if i < front.len() {
                assert(record_of(front[i], root, sep, method) == Some(entry));
                let k = choose|k: int| 0 <= k < before.len() && before[k] == entry;
                assert(all[k] == entry);
            } else {
                assert(all[all.len() - 1] == entry);
            }
        }
    }
}

/// Every regular file of the walk is in the archive, under its path relative
/// to the walked directory and with its content.
pub proof fn lemma_file_is_archived(
    items: Seq<DirItem>,
    root: Seq<char>,
    sep: char,
    method: Compression,
    i: int,
)
    requires
        0 <= i < items.len(),
        items[i].kind is File,
        relative_name(items[i].path@, root, sep) is Some,
    ensures
        records(items, root, sep, method).contains(
            file_entry(
                relative_name(items[i].path@, root, sep)->0,
                items[i].kind->File_0@,
                method,
            ),
        ),
{
    lemma_record_members(
        items,
        root,
        sep,
        method,
        file_entry(relative_name(items[i].path@, root, sep)->0, items[i].kind->File_0@, method),
    );
}

/// The walked directory itself can be archived and gets no record.
pub proof fn lemma_root_is_skipped(item: DirItem, sep: char, method: Compression)
    requires
        item.kind is Directory,
    ensures
        relative_name(item.path@, item.path@, sep) == Some(Seq::<char>::empty()),
        !rejected(item, item.path@, sep),
        record_of(item, item.path@, sep, method) is None,
{
}

/// No name in the archive begins with a slash: the names are relative to the
/// walked directory.
pub proof fn lemma_record_names_are_relative(
    items: Seq<DirItem>,
    root: Seq<char>,
    sep: char,
    method: Compression,
    k: int,
)
    requires
        0 <= k < records(items, root, sep, method).len(),
    ensures
        records(items, root, sep, method)[k].0.len() == 0 || records(
            items,
            root,
            sep,
            method,
        )[k].0[0] != '/',
{
    let all = records(items, root, sep, method);
    lemma_record_members(items, root, sep, method, all[k]);
    let i = choose|i: int|
        0 <= i < items.len() && record_of(#[trigger] items[i], root, sep, method) == Some(all[k]);
    lemma_relative_name_start(items[i].path@, root, sep);
}

/// Every record carries the fixed permission bits, and only file records are
/// compressed, with the chosen method.
pub proof fn lemma_record_options(
    items: Seq<DirItem>,
    root: Seq<char>,
    sep: char,
    method: Compression,
    k: int,
)
    requires
        0 <= k < records(items, root, sep, method).len(),
    ensures
        records(items, root, sep, method)[k].2 == 0o755,
        records(items, root, sep, method)[k].3 ==> method == Compression::Bzip2,
{
    let all = records(items, root, sep, method);
    lemma_record_members(items, root, sep, method, all[k]);
    assert(0o755u32 & 0o777u32 == 0o755u32) by (bit_vector);
}

} // verus!

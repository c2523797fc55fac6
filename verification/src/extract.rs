//! The diff extractor: turns the change entries of the selected commits into
//! file writes below the export root, in the order in which they are made.

use crate::path::{normalize_path, normalized};
use crate::text::{decode_text, str_eq};
use vstd::prelude::*;
use vstd::slice::slice_to_vec;
use vstd::string::StringSliceAdditionalSpecFns;
use vstd::utf8::{decode_utf8, encode_utf8, valid_utf8};

verus! {

broadcast use {vstd::utf8::decode_utf8_encode_utf8, vstd::utf8::encode_utf8_decode_utf8};

/// One changed path of a diff between two trees, as seen from the newer tree.
#[derive(Debug, Clone, PartialEq, Eq)]
pub struct ChangeEntry {
    /// The path in the newer tree, if the entry has one.
    pub path: Option<String>,
    /// The content of the blob at that path; `None` where the blob cannot be
    /// resolved, as for a deleted file.
    pub content: Option<Vec<u8>>,
}

/// The content of a blob: text where it is well-formed UTF-8, raw bytes
/// otherwise.
#[derive(Debug, Clone, PartialEq, Eq)]
pub enum Content {
    Text(String),
    Binary(Vec<u8>),
}

/// One file to write: a path relative to the export root and what goes there.
#[derive(Debug, Clone, PartialEq, Eq)]
pub struct FileWrite {
    pub path: String,
    pub content: Content,
}

/// A content as a mathematical value.
pub enum ContentView {
    Text(Seq<char>),
    Binary(Seq<u8>),
}

/// A file write as a mathematical value.
pub struct WriteView {
    pub path: Seq<char>,
    pub content: ContentView,
}

impl View for Content {
    type V = ContentView;

    open spec fn view(&self) -> ContentView {
        match self {
            Content::Text(text) => ContentView::Text(text@),
            Content::Binary(bytes) => ContentView::Binary(bytes@),
        }
    }
}

impl View for FileWrite {
    type V = WriteView;

    open spec fn view(&self) -> WriteView {
        WriteView { path: self.path@, content: self.content@ }
    }
}

/// The views of a list of file writes.
pub open spec fn write_views(writes: Seq<FileWrite>) -> Seq<WriteView> {
    writes.map_values(|w: FileWrite| w@)
}

/// How bytes are classified: as the text they encode, or as binary.
pub open spec fn classified(bytes: Seq<u8>) -> ContentView {
    if valid_utf8(bytes) {
        ContentView::Text(decode_utf8(bytes))
    } else {
        ContentView::Binary(bytes)
    }
}

/// The bytes that are written for a content.
pub open spec fn content_bytes(content: ContentView) -> Seq<u8> {
    match content {
        ContentView::Text(text) => encode_utf8(text),
        ContentView::Binary(bytes) => bytes,
    }
}

/// The path that an entry is written to, relative to the export root. An
/// entry without a path is written to the empty path.
pub open spec fn destination(path: Option<String>, sep: char) -> Seq<char> {
    match path {
        Some(p) => normalized(p@, sep),
        None => Seq::empty(),
    }
}

/// The write that a change entry asks for. An entry whose blob cannot be
/// resolved asks for none.
pub open spec fn entry_write(entry: ChangeEntry, sep: char) -> Option<WriteView> {
    match entry.content {
        Some(bytes) => Some(
            WriteView { path: destination(entry.path, sep), content: classified(bytes@) },
        ),
        None => None,
    }
}

/// The writes that the entries of one diff ask for, in the order of the diff.
pub open spec fn entry_writes(entries: Seq<ChangeEntry>, sep: char) -> Seq<WriteView>
    decreases entries.len(),
{
    if entries.len() == 0 {
        Seq::empty()
    } else {
        let front = entry_writes(entries.drop_last(), sep);
        match entry_write(entries.last(), sep) {
            Some(write) => front.push(write),
            None => front,
        }
    }
}

/// The writes that a commit asks for: those of its diff against each parent,
/// parent after parent. A commit without parents asks for none.
pub open spec fn commit_writes(parents: Seq<Vec<ChangeEntry>>, sep: char) -> Seq<WriteView>
    decreases parents.len(),
{
    if parents.len() == 0 {
        Seq::empty()
    } else {
        commit_writes(parents.drop_last(), sep) + entry_writes(parents.last()@, sep)
    }
}

/// What the export root holds after the writes have been made in order: for
/// each path the bytes that were written to it last.
pub open spec fn exported(writes: Seq<WriteView>) -> Map<Seq<char>, Seq<u8>>
    decreases writes.len(),
{
    if writes.len() == 0 {
        Map::empty()
    } else {
        exported(writes.drop_last()).insert(writes.last().path, content_bytes(writes.last().content))
    }
}

impl Content {
    /// The bytes to write for this content.
    pub fn as_bytes(&self) -> (bytes: &[u8])
        ensures
            bytes@ == content_bytes(self@),
    {
        match self {
            Content::Text(text) => text.as_str().as_bytes(),
            Content::Binary(bytes) => bytes.as_slice(),
        }
    }
}

/// Classifies the content of a blob: text where the bytes are well-formed
/// UTF-8, binary otherwise.
pub fn classify(bytes: &[u8]) -> (content: Content)
    ensures
        content@ == classified(bytes@),
{
    match decode_text(bytes) {
        Some(text) => Content::Text(text),
        None => Content::Binary(slice_to_vec(bytes)),
    }
}

/// The path below the export root that an entry is written to, with `sep`
/// between its parts.
pub fn destination_path(path: &Option<String>, sep: char) -> (out: String)
    ensures
        out@ == destination(*path, sep),
{
    match path {
        Some(p) => normalize_path(p.as_str(), sep),
        None => String::new(),
    }
}

/// The write that a change entry asks for, if any.
pub fn plan_entry(entry: &ChangeEntry, sep: char) -> (write: Option<FileWrite>)
    ensures
        match write {
            Some(w) => entry_write(*entry, sep) == Some(w@),
            None => entry_write(*entry, sep) is None,
        },
{
    match &entry.content {
        Some(bytes) => Some(
            FileWrite {
                path: destination_path(&entry.path, sep),
                content: classify(bytes.as_slice()),
            },
        ),
        None => None,
    }
}

/// Appends to `writes` the writes that the entries of one diff ask for.
pub fn extract_entries(entries: &Vec<ChangeEntry>, sep: char, writes: &mut Vec<FileWrite>)
    ensures
        write_views(final(writes)@) == write_views(old(writes)@) + entry_writes(entries@, sep),
{
    let mut i: usize = 0;
    while i < entries.len()
        invariant
            i <= entries.len(),
            write_views(writes@) == write_views(old(writes)@) + entry_writes(
                entries@.take(i as int),
                sep,
            ),
        decreases entries.len() - i,
    {
        proof {
            assert(entries@.take(i + 1).drop_last() == entries@.take(i as int));
        }
        match plan_entry(&entries[i], sep) {
            Some(write) => {
                let ghost before = writes@;
                writes.push(write);
                assert(write_views(writes@) == write_views(before).push(write@));
            },
            None => {},
        }
        i += 1;
    }
    assert(entries@.take(entries.len() as int) == entries@);
}

/// The writes that a selected commit asks for. `parents` holds the diff of
/// the commit against each of its parents.
pub fn extract_commit(parents: &Vec<Vec<ChangeEntry>>, sep: char) -> (writes: Vec<FileWrite>)
    ensures
        write_views(writes@) == commit_writes(parents@, sep),
{
    let mut writes: Vec<FileWrite> = Vec::new();
    let mut i: usize = 0;
    while i < parents.len()
        invariant
            i <= parents.len(),
            write_views(writes@) == commit_writes(parents@.take(i as int), sep),
        decreases parents.len() - i,
    {
        proof {
            assert(parents@.take(i + 1).drop_last() == parents@.take(i as int));
        }
        extract_entries(&parents[i], sep, &mut writes);
        i += 1;
    }
    assert(parents@.take(parents.len() as int) == parents@);
    writes
}

/// What the export root holds at `path` once the writes have been made in
/// order: the content of the last write to that path, if there is one.
pub fn final_content<'a>(writes: &'a Vec<FileWrite>, path: &str) -> (content: Option<&'a Content>)
    ensures
        match content {
            Some(c) => exported(write_views(writes@)).contains_key(path@) && exported(
                write_views(writes@),
            )[path@] == content_bytes(c@),
            None => !exported(write_views(writes@)).contains_key(path@),
        },
{
    let mut i: usize = writes.len();
    while i > 0
        invariant
            i <= writes.len(),
            forall|j: int| i <= j < writes.len() ==> write_views(writes@)[j].path != path@,
        decreases i,
    {
        i -= 1;
        if str_eq(writes[i].path.as_str(), path) {
            proof {
                lemma_last_write_wins(write_views(writes@), i as int);
            }
            return Some(&writes[i].content);
        }
    }
    proof {
        lemma_exported_paths(write_views(writes@), path@);
    }
    None
}

/// A path is in the export root exactly when some write went to it.
pub proof fn lemma_exported_paths(writes: Seq<WriteView>, path: Seq<char>)
    ensures
        exported(writes).contains_key(path) <==> exists|i: int|
            0 <= i < writes.len() && (#[trigger] writes[i]).path == path,
    decreases writes.len(),
{
    if writes.len() > 0 {
        let front = writes.drop_last();
        lemma_exported_paths(front, path);
        if exists|i: int| 0 <= i < writes.len() && (#[trigger] writes[i]).path == path {
            let i = choose|i: int| 0 <= i < writes.len() && (#[trigger] writes[i]).path == path;
            if i < front.len() {
                assert(front[i].path == path);
            }
        }
    }
}

/// The last write to a path wins: where no later write goes to the path of
/// write `i`, the export root holds at that path what write `i` wrote.
pub proof fn lemma_last_write_wins(writes: Seq<WriteView>, i: int)
    requires
        0 <= i < writes.len(),
        forall|j: int| i < j < writes.len() ==> (#[trigger] writes[j]).path != writes[i].path,
    ensures
        exported(writes).contains_key(writes[i].path),
        exported(writes)[writes[i].path] == content_bytes(writes[i].content),
    decreases writes.len(),
{
    if i < writes.len() - 1 {
        lemma_last_write_wins(writes.drop_last(), i);
    }
}

/// Writes made later win over writes made earlier: after the writes of
/// `earlier` and then those of `later`, a path that `later` wrote to holds
/// what `later` left there, and any other path holds what `earlier` left.
pub proof fn lemma_later_writes_win(earlier: Seq<WriteView>, later: Seq<WriteView>, path: Seq<char>)
    ensures
        exported(later).contains_key(path) ==> exported(earlier + later).contains_key(path)
            && exported(earlier + later)[path] == exported(later)[path],
        !exported(later).contains_key(path) ==> (exported(earlier + later).contains_key(path)
            <==> exported(earlier).contains_key(path)),
        !exported(later).contains_key(path) && exported(earlier).contains_key(path) ==> exported(
            earlier + later,
        )[path] == exported(earlier)[path],
    decreases later.len(),
{
    if later.len() > 0 {
        assert((earlier + later).drop_last() == earlier + later.drop_last());
        lemma_later_writes_win(earlier, later.drop_last(), path);
    }
}

/// Exported content is the content of the blob: the bytes written for a
/// classified blob are the bytes of the blob, and where the blob is text, the
/// written bytes decode to that text.
pub proof fn lemma_content_round_trip(bytes: Seq<u8>)
    ensures
        content_bytes(classified(bytes)) == bytes,
        valid_utf8(bytes) ==> classified(bytes) == ContentView::Text(decode_utf8(bytes))
            && decode_utf8(content_bytes(classified(bytes))) == decode_utf8(bytes),
        !valid_utf8(bytes) ==> classified(bytes) == ContentView::Binary(bytes),
{
}

/// Text survives the export: a blob that holds the encoding of a text is
/// classified as that text and written as the same bytes.
pub proof fn lemma_text_round_trip(text: Seq<char>)
    ensures
        classified(encode_utf8(text)) == ContentView::Text(text),
        content_bytes(classified(encode_utf8(text))) == encode_utf8(text),
{
    vstd::utf8::encode_utf8_valid_utf8(text);
}

} // verus!

//! Commit selection: which commits of a walk are exported, and in what order.

use crate::error::ExportError;
use crate::text::{decode_text, lemma_empty_needle_matches, match_str, str_eq, text_matches};
use vstd::prelude::*;
use vstd::utf8::{decode_utf8, valid_utf8};

verus! {

/// A commit as the repository hands it over: its identifier as a hash string
/// and the bytes of its message, author name and author email.
#[derive(Debug, Clone, PartialEq, Eq)]
pub struct RawCommit {
    pub id: String,
    pub message: Vec<u8>,
    pub author_name: Vec<u8>,
    pub author_email: Vec<u8>,
}

/// A commit whose message, author name and author email are text.
#[derive(Debug, Clone, PartialEq, Eq)]
pub struct CommitRecord {
    pub id: String,
    pub message: String,
    pub author_name: String,
    pub author_email: String,
}

/// What selection reads of a commit.
pub struct CommitView {
    pub id: Seq<char>,
    pub message: Seq<char>,
    pub author_name: Seq<char>,
    pub author_email: Seq<char>,
}

impl View for CommitRecord {
    type V = CommitView;

    open spec fn view(&self) -> CommitView {
        CommitView {
            id: self.id@,
            message: self.message@,
            author_name: self.author_name@,
            author_email: self.author_email@,
        }
    }
}

impl RawCommit {
    /// All three fields of the commit are well-formed UTF-8.
    pub open spec fn decodable(self) -> bool {
        valid_utf8(self.message@) && valid_utf8(self.author_name@) && valid_utf8(
            self.author_email@,
        )
    }

    /// The commit with its three fields read as text.
    pub open spec fn decoded(self) -> CommitView {
        CommitView {
            id: self.id@,
            message: decode_utf8(self.message@),
            author_name: decode_utf8(self.author_name@),
            author_email: decode_utf8(self.author_email@),
        }
    }
}

/// The views of a list of strings.
pub open spec fn texts(strings: Seq<String>) -> Seq<Seq<char>> {
    strings.map_values(|s: String| s@)
}

/// The filter matches the message, the author name or the author email.
pub open spec fn filter_matches(commit: CommitView, filter: Seq<char>) -> bool {
    text_matches(commit.message, filter) || text_matches(commit.author_name, filter) || text_matches(
        commit.author_email,
        filter,
    )
}

/// The selection rule. A list of identifiers that is not empty decides alone;
/// without one the filter decides.
pub open spec fn selected(commit: CommitView, filter: Seq<char>, ids: Seq<Seq<char>>) -> bool {
    if ids.len() > 0 {
        ids.contains(commit.id)
    } else {
        filter_matches(commit, filter)
    }
}

/// The selection rule as a predicate on commits.
pub open spec fn selection_rule(filter: Seq<char>, ids: Seq<Seq<char>>) -> spec_fn(
    CommitView,
) -> bool {
    |commit: CommitView| selected(commit, filter, ids)
}

/// The identifier of a commit.
pub open spec fn id_of() -> spec_fn(CommitView) -> Seq<char> {
    |commit: CommitView| commit.id
}

/// The identifiers of the selected commits, in the order of the walk.
pub open spec fn selected_ids(
    commits: Seq<CommitView>,
    filter: Seq<char>,
    ids: Seq<Seq<char>>,
) -> Seq<Seq<char>> {
    commits.filter(selection_rule(filter, ids)).map_values(id_of())
}

/// Every commit of the walk can be read as text.
pub open spec fn all_decodable(commits: Seq<RawCommit>) -> bool {
    forall|i: int| 0 <= i < commits.len() ==> (#[trigger] commits[i]).decodable()
}

/// The commits of a walk read as text.
pub open spec fn decoded_walk(commits: Seq<RawCommit>) -> Seq<CommitView> {
    commits.map_values(|c: RawCommit| c.decoded())
}

/// Reads the three fields of a commit as text.
pub fn decode_commit(raw: &RawCommit) -> (decoded: Result<CommitRecord, ExportError>)
    ensures
        match decoded {
            Ok(record) => raw.decodable() && record@ == raw.decoded(),
            Err(e) => !raw.decodable() && e == ExportError::MalformedCommit,
        },
{
    let message = match decode_text(raw.message.as_slice()) {
        Some(text) => text,
        None => {
            return Err(ExportError::MalformedCommit);
        },
    };
    let author_name = match decode_text(raw.author_name.as_slice()) {
        Some(text) => text,
        None => {
            return Err(ExportError::MalformedCommit);
        },
    };
    let author_email = match decode_text(raw.author_email.as_slice()) {
        Some(text) => text,
        None => {
            return Err(ExportError::MalformedCommit);
        },
    };
    Ok(CommitRecord { id: raw.id.clone(), message, author_name, author_email })
}

/// True when the filter matches the message, the author name or the author
/// email of the commit.
pub fn commit_matches(commit: &CommitRecord, filter: &str) -> (matched: bool)
    ensures
        matched == filter_matches(commit@, filter@),
{
    match_str(commit.message.as_str(), filter) || match_str(commit.author_name.as_str(), filter)
        || match_str(commit.author_email.as_str(), filter)
}

/// True when `id` is one of `ids`.
pub fn has_id(ids: &Vec<String>, id: &str) -> (found: bool)
    ensures
        found == texts(ids@).contains(id@),
{
    let mut i: usize = 0;
    while i < ids.len()
        invariant
            i <= ids.len(),
            forall|j: int| 0 <= j < i ==> texts(ids@)[j] != id@,
        decreases ids.len() - i,
    {
        if str_eq(ids[i].as_str(), id) {
            assert(texts(ids@)[i as int] == id@);
            return true;
        }
        i += 1;
    }
    false
}

/// Applies the selection rule to one commit.
pub fn is_selected(commit: &CommitRecord, filter: &str, ids: &Vec<String>) -> (chosen: bool)
    ensures
        chosen == selected(commit@, filter@, texts(ids@)),
{
    if ids.len() > 0 {
        has_id(ids, commit.id.as_str())
    } else {
        commit_matches(commit, filter)
    }
}

/// Selects the commits of a walk. `commits` holds the walk in the order in
/// which the export is to proceed, oldest commit first. The result holds the
/// identifiers of the selected commits in the same order. A commit of the
/// walk that is not text fails the selection, selected or not.
pub fn select_commits(commits: &Vec<RawCommit>, filter: &str, ids: &Vec<String>) -> (chosen: Result<
    Vec<String>,
    ExportError,
>)
    ensures
        chosen is Ok <==> all_decodable(commits@),
        chosen matches Ok(list) ==> texts(list@) == selected_ids(
            decoded_walk(commits@),
            filter@,
            texts(ids@),
        ),
        chosen matches Err(e) ==> e == ExportError::MalformedCommit,
{
    let mut list: Vec<String> = Vec::new();
    let mut i: usize = 0;
    while i < commits.len()
        invariant
            i <= commits.len(),
            all_decodable(commits@.take(i as int)),
            texts(list@) == selected_ids(
                decoded_walk(commits@.take(i as int)),
                filter@,
                texts(ids@),
            ),
        decreases commits.len() - i,
    {
        let record = match decode_commit(&commits[i]) {
            Ok(record) => record,
            Err(e) => {
                return Err(e);
            },
        };
        let chosen = is_selected(&record, filter, ids);
        proof {
            let before = decoded_walk(commits@.take(i as int));
            let after = decoded_walk(commits@.take(i + 1));
            let rule = selection_rule(filter@, texts(ids@));
            assert(after.drop_last() == before);
            reveal(Seq::filter);
            assert(after.filter(rule) == if rule(record@) {
                before.filter(rule).push(record@)
            } else {
                before.filter(rule)
            });
        }
        if chosen {
            let ghost old_list = list@;
            list.push(record.id.clone());
            assert(texts(list@) == texts(old_list).push(record@.id));
        }
        i += 1;
    }
    assert(commits@.take(commits.len() as int) == commits@);
    Ok(list)
}

/// Without a list of identifiers, an identifier is among the selected ones
/// exactly when it belongs to a commit of the walk whose message, author name
/// or author email the filter matches.
pub proof fn lemma_filter_decides(commits: Seq<CommitView>, filter: Seq<char>, id: Seq<char>)
    ensures
        selected_ids(commits, filter, Seq::empty()).contains(id) <==> exists|i: int|
            0 <= i < commits.len() && (#[trigger] commits[i]).id == id && filter_matches(
                commits[i],
                filter,
            ),
{
    lemma_selected_members(commits, filter, Seq::empty(), id);
}

/// An identifier is among the selected ones exactly when it belongs to a
/// commit of the walk that the selection rule accepts.
pub proof fn lemma_selected_members(
    commits: Seq<CommitView>,
    filter: Seq<char>,
    ids: Seq<Seq<char>>,
    id: Seq<char>,
)
    ensures
        selected_ids(commits, filter, ids).contains(id) <==> exists|i: int|
            0 <= i < commits.len() && (#[trigger] commits[i]).id == id && selected(
                commits[i],
                filter,
                ids,
            ),
{
    let rule = selection_rule(filter, ids);
    let kept = commits.filter(rule);
    let out = selected_ids(commits, filter, ids);
    if out.contains(id) {
        let k = choose|k: int| 0 <= k < out.len() && out[k] == id;
        commits.lemma_filter_pred(rule, k);
        commits.lemma_filter_contains_rev(rule, kept[k]);
    }
    if exists|i: int|
        0 <= i < commits.len() && (#[trigger] commits[i]).id == id && selected(
            commits[i],
            filter,
            ids,
        ) {
        let i = choose|i: int|
            0 <= i < commits.len() && (#[trigger] commits[i]).id == id && selected(
                commits[i],
                filter,
                ids,
            );
        commits.lemma_filter_contains(rule, i);
        let k = choose|k: int| 0 <= k < kept.len() && kept[k] == commits[i];
        assert(out[k] == id);
    }
}

/// With a list of identifiers that is not empty, the filter has no say: any
/// two filters select the same commits.
pub proof fn lemma_ids_decide_alone(
    commits: Seq<CommitView>,
    filter: Seq<char>,
    other_filter: Seq<char>,
    ids: Seq<Seq<char>>,
)
    requires
        ids.len() > 0,
    ensures
        selected_ids(commits, filter, ids) == selected_ids(commits, other_filter, ids),
{
    assert(selection_rule(filter, ids) =~= selection_rule(other_filter, ids));
}

/// Selecting from a walk made of two parts gives what is selected from the
/// first part, followed by what is selected from the second: selection keeps
/// the order of the walk.
pub proof fn lemma_selection_keeps_order(
    earlier: Seq<CommitView>,
    later: Seq<CommitView>,
    filter: Seq<char>,
    ids: Seq<Seq<char>>,
)
    ensures
        selected_ids(earlier + later, filter, ids) == selected_ids(earlier, filter, ids)
            + selected_ids(later, filter, ids),
{
    Seq::filter_distributes_over_add(earlier, later, selection_rule(filter, ids));
}

/// A filter keeps a sequence whole when its rule accepts every element.
proof fn lemma_filter_keeps_all(commits: Seq<CommitView>, rule: spec_fn(CommitView) -> bool)
    requires
        forall|i: int| 0 <= i < commits.len() ==> rule(#[trigger] commits[i]),
    ensures
        commits.filter(rule) == commits,
    decreases commits.len(),
{
    reveal(Seq::filter);
    if commits.len() > 0 {
        lemma_filter_keeps_all(commits.drop_last(), rule);
    }
}

/// When the rule accepts every commit of the walk, the selection is the walk
/// itself: every identifier, in walk order.
pub proof fn lemma_all_selected(commits: Seq<CommitView>, filter: Seq<char>, ids: Seq<Seq<char>>)
    requires
        forall|i: int| 0 <= i < commits.len() ==> selected(#[trigger] commits[i], filter, ids),
    ensures
        selected_ids(commits, filter, ids) == commits.map_values(id_of()),
{
    lemma_filter_keeps_all(commits, selection_rule(filter, ids));
}

/// An empty filter without a list of identifiers selects the whole walk.
pub proof fn lemma_empty_filter_selects_all(commits: Seq<CommitView>)
    ensures
        selected_ids(commits, Seq::empty(), Seq::empty()) == commits.map_values(id_of()),
{
    assert forall|i: int| 0 <= i < commits.len() implies selected(
        #[trigger] commits[i],
        Seq::empty(),
        Seq::empty(),
    ) by {
        lemma_empty_needle_matches(commits[i].message);
    }
    lemma_all_selected(commits, Seq::empty(), Seq::empty());
}

} // verus!

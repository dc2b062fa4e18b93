//! Describing pending changes: from the status flags and diffs of a working
//! copy to the text that is shown to the language model.
//!
//! The caller walks the repository and hands over, per path, the status flags
//! and the diff it found. Which entries count, what each is called, and how
//! the summary reads is decided here.

use vstd::prelude::*;
use vstd::string::*;

verus! {

/// The status flags of one path that matter for a summary.
#[derive(Clone, Copy, Debug, PartialEq, Eq, Structural)]
pub struct StatusFlags {
    pub index_new: bool,
    pub index_modified: bool,
    pub index_deleted: bool,
    pub wt_new: bool,
    pub wt_modified: bool,
    pub wt_deleted: bool,
}

/// What happened to a path, as a summary names it.
#[derive(Clone, Copy, Debug, PartialEq, Eq, Structural)]
pub enum StatusKind {
    UntrackedNew,
    WorkingModified,
    WorkingDeleted,
    StagedNew,
    StagedModified,
    StagedDeleted,
}

/// Which changes a summary covers.
#[derive(Clone, Copy, Debug, PartialEq, Eq, Structural)]
pub enum ChangeScope {
    /// Only what is recorded in the index.
    Staged,
    /// Everything not yet committed, staged or not.
    All,
}

/// One path as the repository reports it: its flags, and the diff that was
/// found for it, if any was looked up.
#[derive(Clone, Debug, PartialEq, Eq)]
pub struct StatusEntry {
    pub flags: StatusFlags,
    pub path: String,
    pub diff: Option<String>,
}

/// One path that a summary mentions.
#[derive(Clone, Debug, PartialEq, Eq)]
pub struct ChangeEntry {
    pub status_kind: StatusKind,
    pub path: String,
    pub diff_text: Option<String>,
}

/// The kind that a set of flags stands for within a scope. Staged flags
/// win over working-tree flags, and within each group new wins over modified
/// and modified over deleted. Working-tree flags count only in scope `All`.
pub open spec fn spec_classify(flags: StatusFlags, scope: ChangeScope) -> Option<StatusKind> {
    if flags.index_new {
        Some(StatusKind::StagedNew)
    } else if flags.index_modified {
        Some(StatusKind::StagedModified)
    } else if flags.index_deleted {
        Some(StatusKind::StagedDeleted)
    } else if scope == ChangeScope::Staged {
        None
    } else if flags.wt_new {
        Some(StatusKind::UntrackedNew)
    } else if flags.wt_modified {
        Some(StatusKind::WorkingModified)
    } else if flags.wt_deleted {
        Some(StatusKind::WorkingDeleted)
    } else {
        None
    }
}

/// Whether a diff is shown for a change of this kind: not for untracked
/// files and not for deletions.
pub open spec fn spec_takes_diff(kind: StatusKind) -> bool {
    match kind {
        StatusKind::StagedNew | StatusKind::StagedModified | StatusKind::WorkingModified => true,
        StatusKind::UntrackedNew | StatusKind::StagedDeleted | StatusKind::WorkingDeleted => false,
    }
}

/// The words a summary uses for a kind.
pub open spec fn spec_description(kind: StatusKind) -> Seq<char> {
    match kind {
        StatusKind::StagedNew => "Staged (new)"@,
        StatusKind::StagedModified => "Staged (modified)"@,
        StatusKind::StagedDeleted => "Staged (deleted)"@,
        StatusKind::UntrackedNew => "Untracked (new)"@,
        StatusKind::WorkingModified => "Unstaged (modified)"@,
        StatusKind::WorkingDeleted => "Unstaged (deleted)"@,
    }
}

/// The diff that is shown for an entry: the one it carries, if its kind
/// takes one and it is not empty.
pub open spec fn shown_diff(entry: ChangeEntry) -> Option<Seq<char>> {
    match entry.diff_text {
        Some(diff) if spec_takes_diff(entry.status_kind) && diff@.len() > 0 => Some(diff@),
        _ => None,
    }
}

/// The block of text for one entry: a line that names the kind and the
/// path, then the diff between two empty lines where one is shown.
pub open spec fn block(entry: ChangeEntry) -> Seq<char> {
    let head = spec_description(entry.status_kind) + ": "@ + entry.path@ + "\n"@;
    match shown_diff(entry) {
        Some(diff) => head + "\n"@ + diff + "\n"@,
        None => head,
    }
}

/// The blocks of all entries, in order.
pub open spec fn blocks(entries: Seq<ChangeEntry>) -> Seq<char>
    decreases entries.len(),
{
    if entries.len() == 0 {
        Seq::empty()
    } else {
        blocks(entries.drop_last()) + block(entries.last())
    }
}

/// What a summary says when there is nothing to describe.
pub open spec fn sentinel(scope: ChangeScope) -> Seq<char> {
    match scope {
        ChangeScope::Staged => "No staged changes found."@,
        ChangeScope::All => "No uncommitted changes found."@,
    }
}

/// The summary of a list of entries.
pub open spec fn summary(entries: Seq<ChangeEntry>, scope: ChangeScope) -> Seq<char> {
    if entries.len() == 0 {
        sentinel(scope)
    } else {
        blocks(entries)
    }
}

/// The entry a reported path turns into, if its flags count in the scope.
pub open spec fn spec_change(raw: StatusEntry, scope: ChangeScope) -> Option<ChangeEntry> {
    match spec_classify(raw.flags, scope) {
        Some(kind) => Some(ChangeEntry { status_kind: kind, path: raw.path, diff_text: raw.diff }),
        None => None,
    }
}

/// The entries that count in the scope, in the order reported.
pub open spec fn spec_select(raw: Seq<StatusEntry>, scope: ChangeScope) -> Seq<ChangeEntry>
    decreases raw.len(),
{
    if raw.len() == 0 {
        Seq::empty()
    } else {
        let rest = spec_select(raw.drop_last(), scope);
        match spec_change(raw.last(), scope) {
            Some(entry) => rest.push(entry),
            None => rest,
        }
    }
}

/// Maps status flags to the one kind they stand for in a scope.
pub fn classify(flags: StatusFlags, scope: ChangeScope) -> (r: Option<StatusKind>)
    ensures
        r == spec_classify(flags, scope),
{
    if flags.index_new {
        Some(StatusKind::StagedNew)
    } else if flags.index_modified {
        Some(StatusKind::StagedModified)
    } else if flags.index_deleted {
        Some(StatusKind::StagedDeleted)
    } else {
        match scope {
            ChangeScope::Staged => None,
            ChangeScope::All => if flags.wt_new {
                Some(StatusKind::UntrackedNew)
            } else if flags.wt_modified {
                Some(StatusKind::WorkingModified)
            } else if flags.wt_deleted {
                Some(StatusKind::WorkingDeleted)
            } else {
                None
            },
        }
    }
}

impl StatusKind {
    /// Whether a diff is shown for changes of this kind.
    pub fn takes_diff(self) -> (r: bool)
        ensures
            r == spec_takes_diff(self),
    {
        match self {
            StatusKind::StagedNew | StatusKind::StagedModified | StatusKind::WorkingModified => true,
            StatusKind::UntrackedNew
            | StatusKind::StagedDeleted
            | StatusKind::WorkingDeleted => false,
        }
    }

    /// The words a summary uses for this kind.
    pub fn description(self) -> (r: &'static str)
        ensures
            r@ == spec_description(self),
    {
        match self {
            StatusKind::StagedNew => "Staged (new)",
            StatusKind::StagedModified => "Staged (modified)",
            StatusKind::StagedDeleted => "Staged (deleted)",
            StatusKind::UntrackedNew => "Untracked (new)",
            StatusKind::WorkingModified => "Unstaged (modified)",
            StatusKind::WorkingDeleted => "Unstaged (deleted)",
        }
    }
}

/// Whether the diff of a path with these flags is worth looking up: its
/// flags count in the scope and its kind takes a diff.
pub fn wants_diff(flags: StatusFlags, scope: ChangeScope) -> (r: bool)
    ensures
        r == match spec_classify(flags, scope) {
            Some(kind) => spec_takes_diff(kind),
            None => false,
        },
{
    match classify(flags, scope) {
        Some(kind) => kind.takes_diff(),
        None => false,
    }
}

/// The text that stands for "nothing to describe" in a scope.
pub fn sentinel_text(scope: ChangeScope) -> (r: &'static str)
    ensures
        r@ == sentinel(scope),
{
    match scope {
        ChangeScope::Staged => "No staged changes found.",
        ChangeScope::All => "No uncommitted changes found.",
    }
}

/// Appends the block of one entry to a summary under construction.
fn push_block(out: &mut String, entry: &ChangeEntry)
    ensures
        final(out)@ == old(out)@ + block(*entry),
{
    let ghost before = out@;
    out.append(entry.status_kind.description());
    out.append(": ");
    out.append(entry.path.as_str());
    out.append("\n");
    let ghost head = spec_description(entry.status_kind) + ": "@ + entry.path@ + "\n"@;
    assert(out@ =~= before + head);
    if entry.status_kind.takes_diff() {
        match &entry.diff_text {
            Some(diff) => {
                if diff.as_str().unicode_len() > 0 {
                    out.append("\n");
                    out.append(diff.as_str());
                    out.append("\n");
                    assert(out@ =~= before + (head + "\n"@ + diff@ + "\n"@));
                }
            },
            None => {},
        }
    }
}

/// Keeps the reported paths whose flags count in the scope, each with the
/// kind its flags stand for.
pub fn select_changes(raw: &Vec<StatusEntry>, scope: ChangeScope) -> (r: Vec<ChangeEntry>)
    ensures
        r@ == spec_select(raw@, scope),
{
    let mut kept: Vec<ChangeEntry> = Vec::new();
    let mut i: usize = 0;
    while i < raw.len()
        invariant
            i <= raw.len(),
            kept@ == spec_select(raw@.take(i as int), scope),
        decreases raw.len() - i,
    {
        let entry = &raw[i];
        assert(raw@.take(i + 1).drop_last() =~= raw@.take(i as int));
        match classify(entry.flags, scope) {
            Some(kind) => {
                kept.push(
                    ChangeEntry {
                        status_kind: kind,
                        path: entry.path.clone(),
                        diff_text: entry.diff.clone(),
                    },
                );
            },
            None => {},
        }
        i = i + 1;
    }
    assert(raw@.take(i as int) =~= raw@);
    kept
}

/// Writes the summary of a list of entries: their blocks in order, or the
/// scope's sentinel where the list is empty.
pub fn render_changes(entries: &Vec<ChangeEntry>, scope: ChangeScope) -> (r: String)
    ensures
        r@ == summary(entries@, scope),
{
    if entries.len() == 0 {
        return String::from_str(sentinel_text(scope));
    }
    let mut out = String::new();
    let mut i: usize = 0;
    while i < entries.len()
        invariant
            i <= entries.len(),
            out@ == blocks(entries@.take(i as int)),
        decreases entries.len() - i,
    {
        assert(entries@.take(i + 1).drop_last() =~= entries@.take(i as int));
        push_block(&mut out, &entries[i]);
        i = i + 1;
    }
    assert(entries@.take(i as int) =~= entries@);
    out
}

/// The summary of what is staged, from the paths the repository reports.
pub fn staged_changes(raw: &Vec<StatusEntry>) -> (r: String)
    ensures
        r@ == summary(spec_select(raw@, ChangeScope::Staged), ChangeScope::Staged),
{
    let entries = select_changes(raw, ChangeScope::Staged);
    render_changes(&entries, ChangeScope::Staged)
}

/// The summary of everything not yet committed, from the paths the
/// repository reports.
pub fn all_changes(raw: &Vec<StatusEntry>) -> (r: String)
    ensures
        r@ == summary(spec_select(raw@, ChangeScope::All), ChangeScope::All),
{
    let entries = select_changes(raw, ChangeScope::All);
    render_changes(&entries, ChangeScope::All)
}

/// Whether a text is the scope's sentinel, which stands for "nothing to
/// describe" and is no description of a change.
pub fn is_sentinel(text: &str, scope: ChangeScope) -> (r: bool)
    ensures
        r == (text@ == sentinel(scope)),
{
    String::from_str(text) == String::from_str(sentinel_text(scope))
}

/// Where no reported path has flags that count in the scope, nothing is
/// selected.
pub proof fn lemma_select_nothing(raw: Seq<StatusEntry>, scope: ChangeScope)
    requires
        forall|i: int| 0 <= i < raw.len() ==> spec_classify(#[trigger] raw[i].flags, scope).is_none(),
    ensures
        spec_select(raw, scope).len() == 0,
    decreases raw.len(),
{
    if raw.len() > 0 {
        let front = raw.drop_last();
        assert forall|i: int| 0 <= i < front.len() implies spec_classify(
            #[trigger] front[i].flags,
            scope,
        ).is_none() by {
            assert(front[i] == raw[i]);
        }
        lemma_select_nothing(front, scope);
        assert(spec_classify(raw[raw.len() - 1].flags, scope).is_none());
    }
}

/// Where no reported path has flags that count in the scope, the summary is
/// exactly the scope's sentinel.
pub proof fn law_nothing_to_describe(raw: Seq<StatusEntry>, scope: ChangeScope)
    requires
        forall|i: int| 0 <= i < raw.len() ==> spec_classify(#[trigger] raw[i].flags, scope).is_none(),
    ensures
        summary(spec_select(raw, scope), scope) == sentinel(scope),
        scope == ChangeScope::Staged ==> summary(spec_select(raw, scope), scope)
            == "No staged changes found."@,
{
    lemma_select_nothing(raw, scope);
}

/// The blocks of a list that is not empty start with the first letter of
/// the first entry's description.
proof fn lemma_blocks_start(entries: Seq<ChangeEntry>)
    requires
        entries.len() > 0,
    ensures
        blocks(entries).len() > 0,
        blocks(entries)[0] == spec_description(entries[0].status_kind)[0],
        spec_description(entries[0].status_kind)[0] == 'S' || spec_description(
            entries[0].status_kind,
        )[0] == 'U',
    decreases entries.len(),
{
    reveal_strlit("Staged (new)");
    reveal_strlit("Staged (modified)");
    reveal_strlit("Staged (deleted)");
    reveal_strlit("Untracked (new)");
    reveal_strlit("Unstaged (modified)");
    reveal_strlit("Unstaged (deleted)");
    let front = entries.drop_last();
    let last = entries.last();
    let desc = spec_description(last.status_kind);
    let head = desc + ": "@ + last.path@ + "\n"@;
    assert(desc.len() > 0);
    assert(head[0] == desc[0]);
    assert(block(last).len() > 0 && block(last)[0] == desc[0]) by {
        match shown_diff(last) {
            Some(diff) => {
                assert((head + "\n"@ + diff + "\n"@)[0] == head[0]);
            },
            None => {},
        }
    }
    if front.len() == 0 {
        assert(blocks(front) =~= Seq::<char>::empty());
        assert(blocks(entries) =~= block(last));
        assert(last == entries[0]);
    } else {
        lemma_blocks_start(front);
        assert(front[0] == entries[0]);
        assert(blocks(entries)[0] == blocks(front)[0]);
    }
}

/// A summary is the sentinel only when there is nothing to describe: no
/// list of entries, however chosen, renders to the sentinel's text.
pub proof fn law_sentinel_means_empty(entries: Seq<ChangeEntry>, scope: ChangeScope)
    ensures
        summary(entries, scope) == sentinel(scope) <==> entries.len() == 0,
{
    if entries.len() > 0 {
        lemma_blocks_start(entries);
        reveal_strlit("No staged changes found.");
        reveal_strlit("No uncommitted changes found.");
        assert(sentinel(scope)[0] == 'N');
    }
}

/// Every path that is staged counts in both scopes, under the same kind:
/// widening the scope adds entries and changes none.
pub proof fn law_staged_counts_everywhere(flags: StatusFlags)
    ensures
        spec_classify(flags, ChangeScope::Staged).is_some() ==> spec_classify(
            flags,
            ChangeScope::All,
        ) == spec_classify(flags, ChangeScope::Staged),
{
}

} // verus!

//! What walking a directory decides, apart from the walking itself: in which order its entries
//! are visited, which are walked into, and which files in it are Markdown.
use std::path::PathBuf;

use vstd::prelude::*;

use crate::application::fault::WalkFault;
use crate::text::chars_of;

verus! {

/// A character with ASCII letters folded to lower case, as a number.
pub open spec fn ascii_folded(c: char) -> u32 {
    if 'A' <= c && c <= 'Z' {
        (c as u32 + 32) as u32
    } else {
        c as u32
    }
}

/// Whether two texts are equal when ASCII letters are compared without case
/// (`str::eq_ignore_ascii_case`).
pub open spec fn eq_ignore_ascii_case(a: Seq<char>, b: Seq<char>) -> bool {
    a.len() == b.len() && forall|i: int| 0 <= i < a.len() ==> #[trigger] ascii_folded(a[i])
        == ascii_folded(b[i])
}

/// Whether an extension names a Markdown file: `md` or `markdown`, in any ASCII case.
pub open spec fn markdown_extension(extension: Seq<char>) -> bool {
    eq_ignore_ascii_case(extension, seq!['m', 'd']) || eq_ignore_ascii_case(
        extension,
        seq!['m', 'a', 'r', 'k', 'd', 'o', 'w', 'n'],
    )
}

fn fold(c: char) -> (res: u32)
    ensures
        res == ascii_folded(c),
{
    if 'A' <= c && c <= 'Z' {
        c as u32 + 32
    } else {
        c as u32
    }
}

fn equal_ignoring_case(chars: &Vec<char>, expected: &Vec<char>) -> (res: bool)
    ensures
        res == eq_ignore_ascii_case(chars@, expected@),
{
    if chars.len() != expected.len() {
        return false;
    }
    let mut i: usize = 0;
    while i < chars.len()
        invariant
            chars@.len() == expected@.len(),
            i <= chars@.len(),
            forall|j: int| 0 <= j < i ==> #[trigger] ascii_folded(chars@[j]) == ascii_folded(expected@[j]),
        decreases chars@.len() - i,
    {
        if fold(chars[i]) != fold(expected[i]) {
            return false;
        }
        i = i + 1;
    }
    true
}

/// Whether a file with this extension is checked when a directory is walked: `md` or
/// `markdown`, in any ASCII case. An explicitly named file is checked whatever its extension.
pub fn is_markdown_extension(extension: &str) -> (res: bool)
    ensures
        res == markdown_extension(extension@),
{
    let chars = chars_of(extension);
    let md = vec!['m', 'd'];
    let markdown = vec!['m', 'a', 'r', 'k', 'd', 'o', 'w', 'n'];
    assert(md@ =~= seq!['m', 'd']);
    assert(markdown@ =~= seq!['m', 'a', 'r', 'k', 'd', 'o', 'w', 'n']);
    equal_ignoring_case(&chars, &md) || equal_ignoring_case(&chars, &markdown)
}

} // verus!

verus! {

/// Whether path `a` comes no later than path `b` in path order: `a <= b` for `PathBuf`, which
/// compares paths component by component. A function of the two paths alone.
pub uninterp spec fn path_order(a: PathBuf, b: PathBuf) -> bool;

/// `a <= b` for paths (`<PathBuf as PartialOrd>::le`). Path order is a total order, as `Ord`
/// documents for it, so when `a` is not at most `b`, `b` is at most `a`.
#[verifier::external_body]
fn path_le(a: &PathBuf, b: &PathBuf) -> (res: bool)
    ensures
        res == path_order(*a, *b),
        !res ==> path_order(*b, *a),
{
    a <= b
}

/// Whether every path in `paths` comes no later than the next one.
pub open spec fn path_sorted(paths: Seq<PathBuf>) -> bool {
    forall|i: int| 0 <= i < paths.len() - 1 ==> #[trigger] path_order(paths[i], paths[i + 1])
}

/// The stable merge of two listings: on a tie, the path of `a` comes first.
pub open spec fn merge_paths(a: Seq<PathBuf>, b: Seq<PathBuf>) -> Seq<PathBuf>
    decreases a.len() + b.len(),
{
    if a.len() == 0 {
        b
    } else if b.len() == 0 {
        a
    } else if path_order(a[0], b[0]) {
        seq![a[0]] + merge_paths(a.drop_first(), b)
    } else {
        seq![b[0]] + merge_paths(a, b.drop_first())
    }
}

/// A directory's listing in path order: a stable merge sort of the entries by path.
pub open spec fn sorted_listing(entries: Seq<PathBuf>) -> Seq<PathBuf>
    decreases entries.len(),
{
    if entries.len() <= 1 {
        entries
    } else {
        let middle = entries.len() / 2;
        merge_paths(
            sorted_listing(entries.take(middle as int)),
            sorted_listing(entries.skip(middle as int)),
        )
    }
}

/// Merging keeps every path of both listings, as often as it occurs.
proof fn lemma_merge_keeps_paths(a: Seq<PathBuf>, b: Seq<PathBuf>)
    ensures
        merge_paths(a, b).to_multiset() =~= a.to_multiset().add(b.to_multiset()),
    decreases a.len() + b.len(),
{
    broadcast use vstd::multiset::group_multiset_axioms;

    if a.len() == 0 {
        vstd::seq_lib::lemma_multiset_commutative(a, b);
        assert(a + b =~= b);
    } else if b.len() == 0 {
        vstd::seq_lib::lemma_multiset_commutative(a, b);
        assert(a + b =~= a);
    } else if path_order(a[0], b[0]) {
        let first = seq![a[0]];
        lemma_merge_keeps_paths(a.drop_first(), b);
        vstd::seq_lib::lemma_multiset_commutative(first, merge_paths(a.drop_first(), b));
        vstd::seq_lib::lemma_multiset_commutative(first, a.drop_first());
        assert(first + a.drop_first() =~= a);
    } else {
        let first = seq![b[0]];
        lemma_merge_keeps_paths(a, b.drop_first());
        vstd::seq_lib::lemma_multiset_commutative(first, merge_paths(a, b.drop_first()));
        vstd::seq_lib::lemma_multiset_commutative(first, b.drop_first());
        assert(first + b.drop_first() =~= b);
    }
}

/// Sorting a listing keeps every entry, as often as it occurs: it only reorders.
pub proof fn lemma_sorted_listing_keeps_entries(entries: Seq<PathBuf>)
    ensures
        sorted_listing(entries).to_multiset() =~= entries.to_multiset(),
    decreases entries.len(),
{
    if entries.len() > 1 {
        let middle = entries.len() / 2;
        let front = entries.take(middle as int);
        let back = entries.skip(middle as int);
        lemma_sorted_listing_keeps_entries(front);
        lemma_sorted_listing_keeps_entries(back);
        lemma_merge_keeps_paths(sorted_listing(front), sorted_listing(back));
        assert(front + back =~= entries);
        vstd::seq_lib::lemma_multiset_commutative(front, back);
    }
}

/// Adding a path after a sorted listing whose last path comes no later keeps it sorted.
proof fn lemma_push_sorted(paths: Seq<PathBuf>, next: PathBuf)
    requires
        path_sorted(paths),
        paths.len() > 0 ==> path_order(paths.last(), next),
    ensures
        path_sorted(paths.push(next)),
{
    let pushed = paths.push(next);
    assert forall|i: int| 0 <= i < pushed.len() - 1 implies #[trigger] path_order(pushed[i], pushed[i + 1]) by {
        if i < paths.len() - 1 {
            assert(path_order(paths[i], paths[i + 1]));
        }
    }
}

/// Merges two listings in path order into one.
fn merge_listings(a: &Vec<PathBuf>, b: &Vec<PathBuf>) -> (res: Vec<PathBuf>)
    requires
        path_sorted(a@),
        path_sorted(b@),
    ensures
        res@ == merge_paths(a@, b@),
        path_sorted(res@),
{
    let mut merged: Vec<PathBuf> = Vec::new();
    let mut i: usize = 0;
    let mut j: usize = 0;
    assert(a@.skip(0) =~= a@);
    assert(b@.skip(0) =~= b@);
    assert(merged@ + merge_paths(a@.skip(0), b@.skip(0)) =~= merge_paths(a@, b@));
    while i < a.len() || j < b.len()
        invariant
            i <= a@.len(),
            j <= b@.len(),
            path_sorted(a@),
            path_sorted(b@),
            path_sorted(merged@),
            merged@ + merge_paths(a@.skip(i as int), b@.skip(j as int)) == merge_paths(a@, b@),
            merged@.len() > 0 && i < a@.len() ==> path_order(merged@.last(), a@[i as int]),
            merged@.len() > 0 && j < b@.len() ==> path_order(merged@.last(), b@[j as int]),
        decreases a@.len() + b@.len() - i - j,
    {
        let ghost rest_a = a@.skip(i as int);
        let ghost rest_b = b@.skip(j as int);
        let take_a = if i >= a.len() {
            false
        } else if j >= b.len() {
            true
        } else {
            path_le(&a[i], &b[j])
        };
        if take_a {
            let ghost previous = merged@;
            let path = a[i].clone();
            proof {
                lemma_push_sorted(previous, path);
                assert(rest_a.drop_first() =~= a@.skip(i + 1));
                assert(rest_a[0] == a@[i as int]);
                if j >= b.len() {
                    assert(rest_b.len() == 0);
                    assert(merge_paths(rest_a.drop_first(), rest_b) == rest_a.drop_first());
                }
                assert(previous.push(path) + merge_paths(a@.skip(i + 1), rest_b) =~= previous + (seq![
                    path,
                ] + merge_paths(rest_a.drop_first(), rest_b)));
                if i + 1 < a@.len() {
                    assert(path_order(a@[i as int], a@[i + 1]));
                }
            }
            merged.push(path);
            i = i + 1;
        } else {
            let ghost previous = merged@;
            let path = b[j].clone();
            proof {
                lemma_push_sorted(previous, path);
                assert(rest_b.drop_first() =~= b@.skip(j + 1));
                assert(rest_b[0] == b@[j as int]);
                if i >= a.len() {
                    assert(rest_a.len() == 0);
                }
                assert(previous.push(path) + merge_paths(rest_a, b@.skip(j + 1)) =~= previous + (seq![
                    path,
                ] + merge_paths(rest_a, rest_b.drop_first())));
                if j + 1 < b@.len() {
                    assert(path_order(b@[j as int], b@[j + 1]));
                }
            }
            merged.push(path);
            j = j + 1;
        }
    }
    proof {
        assert(a@.skip(i as int).len() == 0);
        assert(merge_paths(a@.skip(i as int), b@.skip(j as int)) =~= Seq::<PathBuf>::empty());
        assert(merged@ + Seq::<PathBuf>::empty() =~= merged@);
    }
    merged
}

/// The paths of `paths` from index `from` up to `to`.
fn copy_paths(paths: &Vec<PathBuf>, from: usize, to: usize) -> (res: Vec<PathBuf>)
    requires
        from <= to <= paths@.len(),
    ensures
        res@ == paths@.subrange(from as int, to as int),
{
    let mut copied: Vec<PathBuf> = Vec::new();
    let mut k: usize = from;
    while k < to
        invariant
            from <= k <= to,
            to <= paths@.len(),
            copied@ == paths@.subrange(from as int, k as int),
        decreases to - k,
    {
        copied.push(paths[k].clone());
        k = k + 1;
        assert(copied@ =~= paths@.subrange(from as int, k as int));
    }
    copied
}

/// Sorts a directory's listing by path, keeping the listed order among equal paths.
pub fn sort_listing(entries: Vec<PathBuf>) -> (res: Vec<PathBuf>)
    ensures
        res@ == sorted_listing(entries@),
        path_sorted(res@),
    decreases entries@.len(),
{
    if entries.len() <= 1 {
        return entries;
    }
    let middle = entries.len() / 2;
    let front = copy_paths(&entries, 0, middle);
    let back = copy_paths(&entries, middle, entries.len());
    assert(front@ =~= entries@.take(middle as int));
    assert(back@ =~= entries@.skip(middle as int));
    let sorted_front = sort_listing(front);
    let sorted_back = sort_listing(back);
    merge_listings(&sorted_front, &sorted_back)
}

/// What examining one entry of a directory found.
#[derive(Debug)]
pub enum EntryKind {
    /// A directory that is not a symlink: it is walked into.
    Directory,
    /// A regular file that is not a symlink, with its extension as UTF-8 text if it has one.
    File(Option<String>),
    /// Anything else, such as a symlink to a file or a directory, a device, or a named pipe.
    Other,
    /// The entry vanished between the listing of its directory and its examination.
    Vanished,
}

/// What the caller of a [`DirectoryWalk`] does next.
#[derive(Debug)]
pub enum WalkAction {
    /// List the entries of this directory, in any order, and answer [`WalkEvent::Listed`].
    List(PathBuf),
    /// Find out what this entry is, without following a symlink, and answer
    /// [`WalkEvent::Examined`].
    Examine(PathBuf),
    /// The walk is over: the Markdown files found, in the order they were found.
    Done(Vec<PathBuf>),
    /// The walk failed: a directory could not be listed.
    Failed(WalkFault),
}

/// What came of a walk's action.
pub enum WalkEvent {
    /// The entries of the directory, in the order they were listed, or the operating system's
    /// reason why it could not be listed.
    Listed(Result<Vec<PathBuf>, String>),
    /// What the entry is.
    Examined(EntryKind),
}

/// The mathematical value of an [`EntryKind`]: whether the entry is walked into, and whether it
/// is a Markdown file.
pub enum EntryView {
    Directory,
    File(Option<Seq<char>>),
    Other,
    Vanished,
}

/// Which answer a walk waits for.
#[derive(Debug, Clone, Copy, PartialEq, Eq, Structural)]
pub enum WalkStage {
    /// Waiting for a directory's entries.
    Listing,
    /// Waiting to learn what an entry is.
    Examining,
    /// Over: nothing more is awaited.
    Done,
}

/// The mathematical value of a [`WalkAction`].
pub enum WalkActionView {
    List(PathBuf),
    Examine(PathBuf),
    Done(Seq<PathBuf>),
    Failed(WalkFault),
}

/// The mathematical value of a [`WalkEvent`].
pub enum WalkEventView {
    Listed(Result<Seq<PathBuf>, String>),
    Examined(EntryView),
}

/// The mathematical value of a [`DirectoryWalk`].
pub struct WalkView {
    /// The entries still to examine, in the order they will be examined.
    pub pending: Seq<PathBuf>,
    /// The Markdown files found so far, in the order they were found.
    pub found: Seq<PathBuf>,
    /// The directory being listed or the entry being examined, while the walk waits for one.
    pub current: Option<PathBuf>,
    /// Which answer the walk waits for.
    pub stage: WalkStage,
}

/// The value of an entry kind.
pub open spec fn entry_view(kind: EntryKind) -> EntryView {
    match kind {
        EntryKind::Directory => EntryView::Directory,
        EntryKind::File(Some(extension)) => EntryView::File(Some(extension@)),
        EntryKind::File(None) => EntryView::File(None),
        EntryKind::Other => EntryView::Other,
        EntryKind::Vanished => EntryView::Vanished,
    }
}

/// The value of a walk action.
pub open spec fn walk_action_view(action: WalkAction) -> WalkActionView {
    match action {
        WalkAction::List(path) => WalkActionView::List(path),
        WalkAction::Examine(path) => WalkActionView::Examine(path),
        WalkAction::Done(found) => WalkActionView::Done(found@),
        WalkAction::Failed(fault) => WalkActionView::Failed(fault),
    }
}

/// The value of a walk event.
pub open spec fn walk_event_view(event: WalkEvent) -> WalkEventView {
    match event {
        WalkEvent::Listed(Ok(entries)) => WalkEventView::Listed(Ok(entries@)),
        WalkEvent::Listed(Err(detail)) => WalkEventView::Listed(Err(detail)),
        WalkEvent::Examined(kind) => WalkEventView::Examined(entry_view(kind)),
    }
}

/// Whether an examined entry is collected: a regular file with a Markdown extension.
pub open spec fn collected(kind: EntryView) -> bool {
    match kind {
        EntryView::File(Some(extension)) => markdown_extension(extension),
        _ => false,
    }
}

/// Moves on to the next pending entry, or ends the walk and hands over what it found.
pub open spec fn walk_next(walk: WalkView) -> (WalkView, WalkActionView) {
    if walk.pending.len() > 0 {
        (
            WalkView {
                pending: walk.pending.drop_first(),
                current: Some(walk.pending[0]),
                stage: WalkStage::Examining,
                ..walk
            },
            WalkActionView::Examine(walk.pending[0]),
        )
    } else {
        (
            WalkView { found: Seq::empty(), current: None, stage: WalkStage::Done, ..walk },
            WalkActionView::Done(walk.found),
        )
    }
}

/// Whether a walk at `stage` waits for `event`.
pub open spec fn walk_accepts(stage: WalkStage, event: WalkEventView) -> bool {
    match event {
        WalkEventView::Listed(_) => stage == WalkStage::Listing,
        WalkEventView::Examined(_) => stage == WalkStage::Examining,
    }
}

/// The walk of a directory before its first answer: it lists the directory.
pub open spec fn walk_start(root: PathBuf) -> (WalkView, WalkActionView) {
    (
        WalkView {
            pending: Seq::empty(),
            found: Seq::empty(),
            current: Some(root),
            stage: WalkStage::Listing,
        },
        WalkActionView::List(root),
    )
}

/// The next state and action of a walk that receives `event`.
///
/// A directory's entries are sorted by path and examined next, in that order, before the entries
/// that were already pending, so the walk is a depth-first pre-order traversal visiting each
/// directory's entries in sorted path order. A directory that is not a symlink is listed in turn;
/// a regular file with a Markdown extension is collected; anything else, or an entry that
/// vanished, is skipped. A directory that cannot be listed fails the whole walk, with that
/// directory and the reason.
pub open spec fn walk_step(walk: WalkView, event: WalkEventView) -> (WalkView, WalkActionView) {
    match event {
        WalkEventView::Listed(Ok(entries)) => walk_next(
            WalkView { pending: sorted_listing(entries) + walk.pending, ..walk },
        ),
        WalkEventView::Listed(Err(detail)) => (
            WalkView { current: None, stage: WalkStage::Done, ..walk },
            WalkActionView::Failed(WalkFault::Unreadable { path: walk.current->0, detail }),
        ),
        WalkEventView::Examined(EntryView::Directory) => (
            WalkView { stage: WalkStage::Listing, ..walk },
            WalkActionView::List(walk.current->0),
        ),
        WalkEventView::Examined(kind) => if collected(kind) {
            walk_next(WalkView { found: walk.found.push(walk.current->0), ..walk })
        } else {
            walk_next(walk)
        },
    }
}

/// What every walk holds: it holds the directory or entry it waits for exactly while it waits.
pub open spec fn walk_wf(walk: WalkView) -> bool {
    walk.current is Some <==> walk.stage != WalkStage::Done
}

/// A directory's entries, sorted by path, are examined next, ahead of every entry that was
/// already pending: the walk goes depth first, each directory's entries in sorted path order.
pub proof fn lemma_listed_entries_come_next(walk: WalkView, entries: Seq<PathBuf>)
    requires
        walk.stage == WalkStage::Listing,
    ensures
        ({
            let sorted = sorted_listing(entries);
            let (after, action) = walk_step(walk, WalkEventView::Listed(Ok(entries)));
            &&& sorted.to_multiset() == entries.to_multiset()
            &&& sorted.len() > 0 ==> {
                &&& action == WalkActionView::Examine(sorted[0])
                &&& after.pending == sorted.drop_first() + walk.pending
                &&& after.found == walk.found
            }
            &&& sorted.len() == 0 ==> (after, action) == walk_next(walk)
        }),
{
    let sorted = sorted_listing(entries);
    lemma_sorted_listing_keeps_entries(entries);
    if sorted.len() > 0 {
        assert((sorted + walk.pending).drop_first() =~= sorted.drop_first() + walk.pending);
    } else {
        assert(sorted + walk.pending =~= walk.pending);
        assert(WalkView { pending: sorted + walk.pending, ..walk } == walk);
    }
}

/// Moving on examines the first pending entry and keeps what was found; with nothing pending,
/// the walk ends and gives what it found, in the order it was found.
pub proof fn lemma_walk_next(walk: WalkView)
    ensures
        walk.pending.len() > 0 ==> walk_next(walk).1 == WalkActionView::Examine(walk.pending[0])
            && walk_next(walk).0.found == walk.found && walk_next(walk).0.pending
            == walk.pending.drop_first(),
        walk.pending.len() == 0 ==> walk_next(walk).1 == WalkActionView::Done(walk.found)
            && walk_next(walk).0.stage == WalkStage::Done,
{
}

/// A walk collects exactly the regular files with a Markdown extension, each when it examines
/// it; a directory is listed next, and anything else is skipped.
pub proof fn lemma_examined_entry(walk: WalkView, kind: EntryView)
    requires
        walk_wf(walk),
        walk.stage == WalkStage::Examining,
    ensures
        ({
            let (after, action) = walk_step(walk, WalkEventView::Examined(kind));
            let kept = if collected(kind) {
                walk.found.push(walk.current->0)
            } else {
                walk.found
            };
            &&& kind is Directory ==> action == WalkActionView::List(walk.current->0) && after.found
                == walk.found && after.pending == walk.pending
            &&& !(kind is Directory) ==> (after, action) == walk_next(
                WalkView { found: kept, ..walk },
            )
        }),
{
}

/// A directory that cannot be listed ends the walk, whatever was found before, with a fault that
/// names that directory and gives the reason.
pub proof fn lemma_listing_fault_fails_walk(walk: WalkView, detail: String)
    requires
        walk_wf(walk),
        walk.stage == WalkStage::Listing,
    ensures
        walk_step(walk, WalkEventView::Listed(Err(detail))).1 == WalkActionView::Failed(
            WalkFault::Unreadable { path: walk.current->0, detail },
        ),
        walk_step(walk, WalkEventView::Listed(Err(detail))).0.stage == WalkStage::Done,
{
}

/// A walk starts well formed, every answer it waits for keeps it so, and it waits for the answer
/// to the action it last gave.
pub proof fn lemma_walk_stays_well_formed(root: PathBuf, walk: WalkView, event: WalkEventView)
    requires
        walk_wf(walk),
        walk_accepts(walk.stage, event),
    ensures
        walk_wf(walk_start(root).0),
        walk_wf(walk_step(walk, event).0),
        walk_waits_for(walk_step(walk, event).0, walk_step(walk, event).1),
{
}

/// Whether a walk waits for the answer to `action`; a walk that is over gave its result.
pub open spec fn walk_waits_for(walk: WalkView, action: WalkActionView) -> bool {
    match action {
        WalkActionView::List(path) => walk.stage == WalkStage::Listing && walk.current == Some(path),
        WalkActionView::Examine(path) => walk.stage == WalkStage::Examining && walk.current == Some(
            path,
        ),
        WalkActionView::Done(_) => walk.stage == WalkStage::Done,
        WalkActionView::Failed(_) => walk.stage == WalkStage::Done,
    }
}

/// Where a walk is, holding the directory or entry it waits for.
enum WalkWaiting {
    Listing(PathBuf),
    Examining(PathBuf),
    Done,
}

spec fn walk_waiting_stage(waiting: WalkWaiting) -> WalkStage {
    match waiting {
        WalkWaiting::Listing(_) => WalkStage::Listing,
        WalkWaiting::Examining(_) => WalkStage::Examining,
        WalkWaiting::Done => WalkStage::Done,
    }
}

spec fn walk_waiting_path(waiting: WalkWaiting) -> Option<PathBuf> {
    match waiting {
        WalkWaiting::Listing(path) => Some(path),
        WalkWaiting::Examining(path) => Some(path),
        WalkWaiting::Done => None,
    }
}

/// The walk of one directory, as a state machine: the caller lists directories and examines
/// entries, and the walk decides which to visit next and which files to keep, as [`walk_step`]
/// says, until [`WalkAction::Done`] or [`WalkAction::Failed`].
pub struct DirectoryWalk {
    stack: Vec<PathBuf>,
    found: Vec<PathBuf>,
    waiting: WalkWaiting,
}

impl View for DirectoryWalk {
    type V = WalkView;

    closed spec fn view(&self) -> WalkView {
        WalkView {
            pending: self.stack@.reverse(),
            found: self.found@,
            current: walk_waiting_path(self.waiting),
            stage: walk_waiting_stage(self.waiting),
        }
    }
}

impl DirectoryWalk {
    /// Every walk holds the directory or entry it waits for exactly while it waits.
    pub proof fn lemma_well_formed(&self)
        ensures
            walk_wf(self@),
    {
    }

    /// Starts the walk of `root`, and returns it with its first action: listing `root`.
    pub fn start(root: PathBuf) -> (res: (DirectoryWalk, WalkAction))
        ensures
            (res.0@, walk_action_view(res.1)) == walk_start(root),
    {
        let walk = DirectoryWalk {
            stack: Vec::new(),
            found: Vec::new(),
            waiting: WalkWaiting::Listing(root.clone()),
        };
        assert(walk@.pending =~= Seq::<PathBuf>::empty());
        (walk, WalkAction::List(root))
    }

    /// Which answer the walk waits for.
    pub fn stage(&self) -> (res: WalkStage)
        ensures
            res == self@.stage,
    {
        match self.waiting {
            WalkWaiting::Listing(_) => WalkStage::Listing,
            WalkWaiting::Examining(_) => WalkStage::Examining,
            WalkWaiting::Done => WalkStage::Done,
        }
    }

    /// Whether the walk waits for `event`.
    pub fn accepts(&self, event: &WalkEvent) -> (res: bool)
        ensures
            res == walk_accepts(self@.stage, walk_event_view(*event)),
    {
        let stage = self.stage();
        match event {
            WalkEvent::Listed(_) => stage == WalkStage::Listing,
            WalkEvent::Examined(_) => stage == WalkStage::Examining,
        }
    }

    /// Moves on to the next pending entry, or ends the walk with what it found.
    fn next(&mut self) -> (res: WalkAction)
        ensures
            (final(self)@, walk_action_view(res)) == walk_next(old(self)@),
    {
        match self.stack.pop() {
            Some(entry) => {
                proof {
                    assert(self.stack@.reverse() =~= old(self).stack@.reverse().drop_first());
                    assert(old(self).stack@.reverse()[0] == entry);
                }
                self.waiting = WalkWaiting::Examining(entry.clone());
                WalkAction::Examine(entry)
            },
            None => {
                self.waiting = WalkWaiting::Done;
                let mut found: Vec<PathBuf> = Vec::new();
                std::mem::swap(&mut found, &mut self.found);
                proof {
                    assert(old(self).stack@.reverse() =~= Seq::<PathBuf>::empty());
                    assert(self.found@ =~= Seq::<PathBuf>::empty());
                }
                WalkAction::Done(found)
            },
        }
    }

    /// Takes what came of the last action, and gives the next action, as [`walk_step`] says.
    pub fn step(&mut self, event: WalkEvent) -> (res: WalkAction)
        requires
            walk_accepts(old(self)@.stage, walk_event_view(event)),
        ensures
            (final(self)@, walk_action_view(res)) == walk_step(old(self)@, walk_event_view(event)),
            walk_wf(final(self)@),
            match walk_event_view(event) {
                WalkEventView::Listed(Ok(entries)) => path_sorted(sorted_listing(entries)),
                _ => true,
            },
    {
        let ghost before = self@;
        match event {
            WalkEvent::Listed(Ok(entries)) => {
                let mut entries = sort_listing(entries);
                let ghost listed = entries@;
                let mut stack: Vec<PathBuf> = Vec::new();
                std::mem::swap(&mut stack, &mut self.stack);
                assert(entries@ + stack@.reverse() == listed + before.pending);
                while entries.len() > 0
                    invariant
                        entries@ + stack@.reverse() == listed + before.pending,
                    decreases entries@.len(),
                {
                    let ghost previous_entries = entries@;
                    let ghost previous_stack = stack@;
                    let entry = entries.pop().unwrap();
                    stack.push(entry);
                    assert(stack@.reverse() =~= seq![entry] + previous_stack.reverse());
                    assert(entries@ + stack@.reverse() =~= previous_entries + previous_stack.reverse());
                }
                assert(stack@.reverse() =~= listed + before.pending);
                self.stack = stack;
                self.next()
            },
            WalkEvent::Listed(Err(detail)) => {
                let mut waiting = WalkWaiting::Done;
                std::mem::swap(&mut waiting, &mut self.waiting);
                match waiting {
                    WalkWaiting::Listing(path) => WalkAction::Failed(WalkFault::Unreadable { path, detail }),
                    _ => {
                        assert(false);
                        WalkAction::Done(Vec::new())
                    },
                }
            },
            WalkEvent::Examined(kind) => {
                let mut waiting = WalkWaiting::Done;
                std::mem::swap(&mut waiting, &mut self.waiting);
                let path = match waiting {
                    WalkWaiting::Examining(path) => path,
                    _ => {
                        assert(false);
                        return WalkAction::Done(Vec::new());
                    },
                };
                match kind {
                    EntryKind::Directory => {
                        self.waiting = WalkWaiting::Listing(path.clone());
                        WalkAction::List(path)
                    },
                    EntryKind::File(Some(extension)) => {
                        if is_markdown_extension(extension.as_str()) {
                            self.found.push(path);
                        }
                        self.next()
                    },
                    _ => self.next(),
                }
            },
        }
    }
}

} // verus!

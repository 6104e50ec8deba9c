//! Copy plans: the steps that bring matched files to their destinations.

use vstd::prelude::*;

use crate::paths::FilePath;
use crate::search::{record_views, MatchRecord, MatchView};

verus! {

/// One step of a copy.
#[derive(Clone, Debug, PartialEq, Eq)]
pub enum CopyStep {
    /// Make the directory, and every directory above it that is missing.
    /// Nothing is to be done where it is there already.
    EnsureDirectory(FilePath),
    /// Copy the bytes of the file at `from` to `to`, in place of whatever is
    /// there.
    CopyFile { from: FilePath, to: FilePath },
}

/// A step as plain values.
pub enum StepView {
    EnsureDirectory(Seq<Seq<char>>),
    CopyFile { from: Seq<Seq<char>>, to: Seq<Seq<char>> },
}

impl View for CopyStep {
    type V = StepView;

    open spec fn view(&self) -> StepView {
        match self {
            CopyStep::EnsureDirectory(directory) => StepView::EnsureDirectory(directory@),
            CopyStep::CopyFile { from, to } => StepView::CopyFile { from: from@, to: to@ },
        }
    }
}

/// The steps in `steps`, as plain values.
pub open spec fn step_views(steps: Seq<CopyStep>) -> Seq<StepView> {
    Seq::new(steps.len(), |i: int| steps[i]@)
}

/// What kind of entry a directory holds.
#[derive(Clone, Copy, Debug, PartialEq, Eq, Structural)]
pub enum EntryKind {
    File,
    Directory,
}

/// An entry below a directory that is mirrored, by the names that lead to it
/// from that directory.
#[derive(Clone, Debug, PartialEq, Eq)]
pub struct TreeEntry {
    pub relative: FilePath,
    pub kind: EntryKind,
}

/// The steps that copy one file: its directory is made first, then the file is
/// copied. A destination with no names has no directory to make.
pub open spec fn file_steps(from: Seq<Seq<char>>, to: Seq<Seq<char>>) -> Seq<StepView> {
    if to.len() > 0 {
        seq![StepView::EnsureDirectory(to.drop_last()), StepView::CopyFile { from, to }]
    } else {
        seq![StepView::CopyFile { from, to }]
    }
}

/// The steps that copy every record of a match set, record by record.
pub open spec fn copy_plan(records: Seq<MatchView>) -> Seq<StepView>
    decreases records.len(),
{
    if records.len() == 0 {
        Seq::empty()
    } else {
        copy_plan(records.drop_last()) + file_steps(
            records.last().source,
            records.last().destination,
        )
    }
}

/// The steps that bring one entry of a mirrored directory to its place.
pub open spec fn entry_steps(
    source: Seq<Seq<char>>,
    destination: Seq<Seq<char>>,
    entry: TreeEntry,
) -> Seq<StepView> {
    match entry.kind {
        EntryKind::Directory => seq![StepView::EnsureDirectory(destination + entry.relative@)],
        EntryKind::File => file_steps(source + entry.relative@, destination + entry.relative@),
    }
}

/// The steps that mirror a directory: the destination is made, then every
/// entry is brought to its place, in the order of the listing.
pub open spec fn mirror_plan(
    source: Seq<Seq<char>>,
    destination: Seq<Seq<char>>,
    entries: Seq<TreeEntry>,
) -> Seq<StepView>
    decreases entries.len(),
{
    if entries.len() == 0 {
        seq![StepView::EnsureDirectory(destination)]
    } else {
        mirror_plan(source, destination, entries.drop_last()) + entry_steps(
            source,
            destination,
            entries.last(),
        )
    }
}

/// Puts the steps that copy the file at `from` to `to` at the end of `steps`.
fn push_file_steps(steps: &mut Vec<CopyStep>, from: &FilePath, to: &FilePath)
    ensures
        step_views(final(steps)@) == step_views(old(steps)@) + file_steps(from@, to@),
{
    let ghost before = steps@;
    match to.parent() {
        Some(directory) => {
            steps.push(CopyStep::EnsureDirectory(directory));
        },
        None => {},
    }
    steps.push(CopyStep::CopyFile { from: from.clone(), to: to.clone() });
    assert(step_views(steps@) =~= step_views(before) + file_steps(from@, to@));
}

/// The steps that copy the file at `from` to `to`.
pub fn steps_for_file(from: &FilePath, to: &FilePath) -> (steps: Vec<CopyStep>)
    ensures
        step_views(steps@) == file_steps(from@, to@),
{
    let mut steps: Vec<CopyStep> = Vec::new();
    push_file_steps(&mut steps, from, to);
    assert(step_views(steps@) =~= file_steps(from@, to@));
    steps
}

/// The steps that copy every record of `records` to its destination.
pub fn plan_copies(records: &Vec<MatchRecord>) -> (steps: Vec<CopyStep>)
    ensures
        step_views(steps@) == copy_plan(record_views(records@)),
{
    let ghost views = record_views(records@);
    let mut steps: Vec<CopyStep> = Vec::new();
    let n = records.len();
    let mut i: usize = 0;
    assert(step_views(steps@) =~= copy_plan(views.take(0)));
    while i < n
        invariant
            n == records@.len(),
            i <= n,
            views == record_views(records@),
            step_views(steps@) == copy_plan(views.take(i as int)),
        decreases n - i,
    {
        assert(views.take(i + 1).drop_last() =~= views.take(i as int));
        assert(views.take(i + 1).last() == records@[i as int]@);
        push_file_steps(&mut steps, &records[i].source, &records[i].destination);
        i += 1;
    }
    assert(views.take(n as int) =~= views);
    steps
}

/// The steps that mirror the directory at `source` into `destination`:
/// `entries` lists what lies below `source`. Directories are made, files are
/// copied one by one.
pub fn mirror_steps(source: &FilePath, destination: &FilePath, entries: &Vec<TreeEntry>) -> (steps:
    Vec<CopyStep>)
    ensures
        step_views(steps@) == mirror_plan(source@, destination@, entries@),
{
    let mut steps: Vec<CopyStep> = Vec::new();
    steps.push(CopyStep::EnsureDirectory(destination.clone()));
    let n = entries.len();
    let mut i: usize = 0;
    assert(step_views(steps@) =~= mirror_plan(source@, destination@, entries@.take(0)));
    while i < n
        invariant
            n == entries@.len(),
            i <= n,
            step_views(steps@) == mirror_plan(source@, destination@, entries@.take(i as int)),
        decreases n - i,
    {
        assert(entries@.take(i + 1).drop_last() =~= entries@.take(i as int));
        assert(entries@.take(i + 1).last() == entries@[i as int]);
        let entry = &entries[i];
        let to = destination.join(&entry.relative);
        match entry.kind {
            EntryKind::Directory => {
                let ghost before = steps@;
                steps.push(CopyStep::EnsureDirectory(to));
                assert(step_views(steps@) =~= step_views(before) + entry_steps(
                    source@,
                    destination@,
                    *entry,
                ));
            },
            EntryKind::File => {
                let from = source.join(&entry.relative);
                push_file_steps(&mut steps, &from, &to);
            },
        }
        i += 1;
    }
    assert(entries@.take(n as int) =~= entries@);
    steps
}

/// In `steps` every copy to a destination with a directory comes directly
/// after the step that makes that directory.
pub open spec fn directories_come_first(steps: Seq<StepView>) -> bool {
    forall|k: int|
        0 <= k < steps.len() ==> match #[trigger] steps[k] {
            StepView::CopyFile { from, to } => to.len() > 0 ==> k > 0 && steps[k - 1]
                == StepView::EnsureDirectory(to.drop_last()),
            StepView::EnsureDirectory(_) => true,
        }
}

/// The copies that `steps` make, in their order, as records.
pub open spec fn copies_in(steps: Seq<StepView>) -> Seq<MatchView>
    decreases steps.len(),
{
    if steps.len() == 0 {
        Seq::empty()
    } else {
        match steps.last() {
            StepView::CopyFile { from, to } => copies_in(steps.drop_last()).push(
                MatchView { source: from, destination: to },
            ),
            StepView::EnsureDirectory(_) => copies_in(steps.drop_last()),
        }
    }
}

/// Two plans that make each directory first still do so one after the other.
proof fn lemma_directories_first_in_concatenation(first: Seq<StepView>, second: Seq<StepView>)
    requires
        directories_come_first(first),
        directories_come_first(second),
    ensures
        directories_come_first(first + second),
{
    let both = first + second;
    assert forall|k: int| 0 <= k < both.len() implies match #[trigger] both[k] {
        StepView::CopyFile { from, to } => to.len() > 0 ==> k > 0 && both[k - 1]
            == StepView::EnsureDirectory(to.drop_last()),
        StepView::EnsureDirectory(_) => true,
    } by {
        if k < first.len() {
            assert(both[k] == first[k]);
            if k > 0 {
                assert(both[k - 1] == first[k - 1]);
            }
        } else {
            let j = k - first.len();
            assert(both[k] == second[j]);
            if j > 0 {
                assert(both[k - 1] == second[j - 1]);
            }
        }
    }
}

/// The copies of two plans put together are the copies of the one, then those
/// of the other.
proof fn lemma_copies_in_concatenation(first: Seq<StepView>, second: Seq<StepView>)
    ensures
        copies_in(first + second) == copies_in(first) + copies_in(second),
    decreases second.len(),
{
    if second.len() == 0 {
        assert(first + second =~= first);
        assert(copies_in(first) + copies_in(second) =~= copies_in(first));
    } else {
        assert((first + second).drop_last() =~= first + second.drop_last());
        assert((first + second).last() == second.last());
        lemma_copies_in_concatenation(first, second.drop_last());
        match second.last() {
            StepView::CopyFile { from, to } => {
                let record = MatchView { source: from, destination: to };
                assert((copies_in(first) + copies_in(second.drop_last())).push(record)
                    =~= copies_in(first) + copies_in(second.drop_last()).push(record));
            },
            StepView::EnsureDirectory(_) => {},
        }
    }
}

/// The steps for one file make its directory first and copy that file alone.
pub proof fn lemma_file_steps(from: Seq<Seq<char>>, to: Seq<Seq<char>>)
    ensures
        directories_come_first(file_steps(from, to)),
        copies_in(file_steps(from, to)) == seq![MatchView { source: from, destination: to }],
{
    let steps = file_steps(from, to);
    let record = MatchView { source: from, destination: to };
    reveal_with_fuel(copies_in, 3);
    if to.len() > 0 {
        assert(steps.drop_last() =~= seq![StepView::EnsureDirectory(to.drop_last())]);
        assert(steps.drop_last().drop_last() =~= Seq::<StepView>::empty());
        assert(copies_in(steps.drop_last()) =~= Seq::<MatchView>::empty());
    } else {
        assert(steps.drop_last() =~= Seq::<StepView>::empty());
    }
    assert(copies_in(steps) =~= seq![record]);
}

/// A copy plan copies the records it was made for, each once and in their
/// order, and nothing else; each copy comes directly after the step that makes
/// its directory.
pub proof fn lemma_copy_plan(records: Seq<MatchView>)
    ensures
        copies_in(copy_plan(records)) == records,
        directories_come_first(copy_plan(records)),
    decreases records.len(),
{
    if records.len() == 0 {
        assert(copies_in(copy_plan(records)) =~= records);
    } else {
        let earlier = copy_plan(records.drop_last());
        let last = file_steps(records.last().source, records.last().destination);
        lemma_copy_plan(records.drop_last());
        lemma_file_steps(records.last().source, records.last().destination);
        lemma_copies_in_concatenation(earlier, last);
        lemma_directories_first_in_concatenation(earlier, last);
        assert(records.drop_last() + seq![records.last()] =~= records);
    }
}

/// In the plan that mirrors a directory each copy comes directly after the
/// step that makes its directory, and every copy goes from below the source
/// to the same place below the destination.
pub proof fn lemma_mirror_plan(
    source: Seq<Seq<char>>,
    destination: Seq<Seq<char>>,
    entries: Seq<TreeEntry>,
)
    ensures
        directories_come_first(mirror_plan(source, destination, entries)),
        mirror_plan(source, destination, entries)[0] == StepView::EnsureDirectory(destination),
        forall|k: int|
            0 <= k < copies_in(mirror_plan(source, destination, entries)).len() ==> {
                let copy = #[trigger] copies_in(mirror_plan(source, destination, entries))[k];
                &&& source.is_prefix_of(copy.source)
                &&& destination.is_prefix_of(copy.destination)
                &&& copy.source.skip(source.len() as int) == copy.destination.skip(
                    destination.len() as int,
                )
            },
    decreases entries.len(),
{
    let plan = mirror_plan(source, destination, entries);
    if entries.len() == 0 {
        reveal_with_fuel(copies_in, 2);
        assert(plan.drop_last() =~= Seq::<StepView>::empty());
        assert(copies_in(plan) =~= Seq::<MatchView>::empty());
    } else {
        let earlier = mirror_plan(source, destination, entries.drop_last());
        let entry = entries.last();
        let last = entry_steps(source, destination, entry);
        let from = source + entry.relative@;
        let to = destination + entry.relative@;
        lemma_mirror_plan(source, destination, entries.drop_last());
        lemma_copies_in_concatenation(earlier, last);
        assert(plan[0] == earlier[0]);
        match entry.kind {
            EntryKind::Directory => {
                reveal_with_fuel(copies_in, 2);
                assert(last.drop_last() =~= Seq::<StepView>::empty());
                assert(copies_in(last) =~= Seq::<MatchView>::empty());
                assert(directories_come_first(last));
                assert(copies_in(plan) =~= copies_in(earlier));
            },
            EntryKind::File => {
                lemma_file_steps(from, to);
                assert(from.subrange(0, source.len() as int) =~= source);
                assert(to.subrange(0, destination.len() as int) =~= destination);
                assert(from.skip(source.len() as int) =~= entry.relative@);
                assert(to.skip(destination.len() as int) =~= entry.relative@);
            },
        }
        lemma_directories_first_in_concatenation(earlier, last);
    }
}

} // verus!

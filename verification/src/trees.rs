//! A model of the files of a tree, and of what a copy plan does to them when
//! its steps are carried out. The library never touches a file system; the
//! laws below say what its plans do to one that behaves like this model.

use vstd::prelude::*;

use crate::paths::{lemma_destination_injective, lemma_destination_keeps_relative_path};
use crate::plan::{copy_plan, file_steps, StepView};
use crate::scan::{scan_outcome, FileContent};
use crate::search::{lemma_matches_are_qualifying_files, Criteria, DecisionView, MatchView,
    ScannedFile};

verus! {

/// The files of a file system: the bytes at each path that leads to a file.
pub type Files = Map<Seq<Seq<char>>, Seq<u8>>;

/// The files after a step. Making a directory changes no file; a copy puts
/// the bytes of its source at its destination, and does nothing where the
/// source is missing.
pub open spec fn after_step(files: Files, step: StepView) -> Files {
    match step {
        StepView::EnsureDirectory(_) => files,
        StepView::CopyFile { from, to } => if files.dom().contains(from) {
            files.insert(to, files[from])
        } else {
            files
        },
    }
}

/// The files after the steps of a plan, carried out in their order.
pub open spec fn after_plan(files: Files, steps: Seq<StepView>) -> Files
    decreases steps.len(),
{
    if steps.len() == 0 {
        files
    } else {
        after_step(after_plan(files, steps.drop_last()), steps.last())
    }
}

/// The files after a search whose listing was `listing`: after the copy plan
/// of its match set.
pub open spec fn after_run(files: Files, criteria: Criteria, listing: Seq<ScannedFile>) -> Files {
    after_plan(files, copy_plan(criteria.matches(listing)))
}

/// The listing shows the files as they are: whatever it gives as the bytes of
/// a path are the bytes of the file at that path.
pub open spec fn shows(listing: Seq<ScannedFile>, files: Files) -> bool {
    forall|i: int|
        0 <= i < listing.len() ==> match (#[trigger] listing[i]).content {
            FileContent::Bytes(bytes) => {
                &&& files.dom().contains(listing[i].path@)
                &&& files[listing[i].path@] == bytes@
            },
            FileContent::Unreadable => true,
        }
}

/// The listing gives the file at `path` with its bytes.
pub open spec fn lists(listing: Seq<ScannedFile>, files: Files, path: Seq<Seq<char>>) -> bool {
    exists|i: int|
        #![trigger listing[i]]
        0 <= i < listing.len() && listing[i].path@ == path && match listing[i].content {
            FileContent::Bytes(bytes) => bytes@ == files[path],
            FileContent::Unreadable => false,
        }
}

/// The listing gives every file below `root` with its bytes.
pub open spec fn lists_all_below(
    listing: Seq<ScannedFile>,
    files: Files,
    root: Seq<Seq<char>>,
) -> bool {
    forall|path: Seq<Seq<char>>|
        #![trigger files.dom().contains(path)]
        files.dom().contains(path) && root.is_prefix_of(path) ==> lists(listing, files, path)
}

/// Two directories are apart when neither lies in the other.
pub open spec fn apart(first: Seq<Seq<char>>, second: Seq<Seq<char>>) -> bool {
    !first.is_prefix_of(second) && !second.is_prefix_of(first)
}

/// The search writes nothing below its source root: no match has its
/// destination there.
pub open spec fn writes_outside_source(criteria: Criteria, listing: Seq<ScannedFile>) -> bool {
    forall|k: int|
        #![trigger criteria.matches(listing)[k]]
        0 <= k < criteria.matches(listing).len() ==> !criteria.source_root.is_prefix_of(
            criteria.matches(listing)[k].destination,
        )
}

/// Every record of `chosen` is a record of `records`.
pub open spec fn drawn_from(chosen: Seq<MatchView>, records: Seq<MatchView>) -> bool {
    forall|k: int| 0 <= k < chosen.len() ==> records.contains(#[trigger] chosen[k])
}

/// Where neither root lies in the other, no search writes below its source
/// root.
pub proof fn lemma_roots_apart_write_outside(criteria: Criteria, listing: Seq<ScannedFile>)
    requires
        apart(criteria.source_root, criteria.destination_root),
    ensures
        writes_outside_source(criteria, listing),
{
    let records = criteria.matches(listing);
    assert forall|k: int|
        #![trigger records[k]]
        0 <= k < records.len() implies !criteria.source_root.is_prefix_of(
        records[k].destination,
    ) by {
        lemma_matches_are_qualifying_files(criteria, listing, k);
        let destination = records[k].destination;
        let n = criteria.source_root.len() as int;
        let m = criteria.destination_root.len() as int;
        if criteria.source_root.is_prefix_of(destination) {
            if n <= m {
                assert(criteria.destination_root.subrange(0, n) =~= destination.subrange(0, n));
            } else {
                assert(criteria.source_root.subrange(0, m) =~= destination.subrange(
                    0,
                    n,
                ).subrange(0, m));
                assert(destination.subrange(0, n).subrange(0, m) =~= criteria.destination_root);
            }
        }
    }
}

/// After a run every matched file stands at its destination, the destination
/// root followed by the names that lead to the file from the source root, with
/// the bytes of its source; the source is as it was. This holds where the
/// listing shows the files and nothing is written below the source root.
pub proof fn lemma_matches_are_copied_byte_for_byte(
    criteria: Criteria,
    files: Files,
    listing: Seq<ScannedFile>,
    k: int,
)
    requires
        shows(listing, files),
        writes_outside_source(criteria, listing),
        0 <= k < criteria.matches(listing).len(),
    ensures
        ({
            let record = criteria.matches(listing)[k];
            let after = after_run(files, criteria, listing);
            &&& record.destination == criteria.destination_root + record.source.skip(
                criteria.source_root.len() as int,
            )
            &&& after.dom().contains(record.destination)
            &&& after.dom().contains(record.source)
            &&& after[record.destination] == files[record.source]
            &&& after[record.source] == files[record.source]
        }),
{
    let records = criteria.matches(listing);
    assert forall|j: int|
        #![trigger records[j]]
        0 <= j < records.len() implies records.contains(records[j]) by {}
    lemma_copies_made_are_byte_for_byte(criteria, files, listing, records, k);
    lemma_matches_are_qualifying_files(criteria, listing, k);
}

/// Whichever matches are copied, and in whatever order, each of them stands
/// at its destination with the bytes of its source afterwards, and its source
/// is as it was: a copy that was not made takes nothing from those that were.
/// This holds where the listing shows the files and nothing is written below
/// the source root.
pub proof fn lemma_copies_made_are_byte_for_byte(
    criteria: Criteria,
    files: Files,
    listing: Seq<ScannedFile>,
    made: Seq<MatchView>,
    k: int,
)
    requires
        shows(listing, files),
        writes_outside_source(criteria, listing),
        drawn_from(made, criteria.matches(listing)),
        0 <= k < made.len(),
    ensures
        ({
            let after = after_plan(files, copy_plan(made));
            &&& after.dom().contains(made[k].destination)
            &&& after.dom().contains(made[k].source)
            &&& after[made[k].destination] == files[made[k].source]
            &&& after[made[k].source] == files[made[k].source]
        }),
{
    lemma_plan_is_its_copies(files, made);
    lemma_selection_is_safe(criteria, files, listing, made);
    lemma_copies_bring_the_bytes(files, made, k);
    assert forall|j: int| 0 <= j < made.len() implies (#[trigger] made[j]).destination
        != made[k].source by {}
    lemma_copies_leave_other_paths(files, made, made[k].source);
}

/// The order in which the matches are copied does not matter, nor how often:
/// plans for the same records leave the same files. This holds where the
/// listing shows the files and nothing is written below the source root.
pub proof fn lemma_order_of_copies_is_immaterial(
    criteria: Criteria,
    files: Files,
    listing: Seq<ScannedFile>,
    other: Seq<MatchView>,
)
    requires
        shows(listing, files),
        writes_outside_source(criteria, listing),
        drawn_from(other, criteria.matches(listing)),
        drawn_from(criteria.matches(listing), other),
    ensures
        after_plan(files, copy_plan(other)) == after_run(files, criteria, listing),
{
    let records = criteria.matches(listing);
    let one = after_copies(files, records);
    let two = after_copies(files, other);
    lemma_plan_is_its_copies(files, records);
    lemma_plan_is_its_copies(files, other);
    assert forall|j: int|
        #![trigger records[j]]
        0 <= j < records.len() implies records.contains(records[j]) by {}
    lemma_selection_is_safe(criteria, files, listing, records);
    lemma_selection_is_safe(criteria, files, listing, other);
    assert forall|path: Seq<Seq<char>>| #[trigger]
        one.dom().contains(path) == two.dom().contains(path) by {
        lemma_same_records_same_file(files, records, other, path);
    }
    assert forall|path: Seq<Seq<char>>| one.dom().contains(path) implies #[trigger] one[path]
        == two[path] by {
        lemma_same_records_same_file(files, records, other, path);
    }
    assert(one =~= two);
}

/// A run writes at the destinations of its matches and nowhere else: every
/// other path holds after the run what it held before, or nothing as before.
pub proof fn lemma_run_writes_destinations_only(
    criteria: Criteria,
    files: Files,
    listing: Seq<ScannedFile>,
    path: Seq<Seq<char>>,
)
    requires
        forall|k: int|
            #![trigger criteria.matches(listing)[k]]
            0 <= k < criteria.matches(listing).len() ==> criteria.matches(listing)[k].destination
                != path,
    ensures
        after_run(files, criteria, listing).dom().contains(path) == files.dom().contains(path),
        after_run(files, criteria, listing)[path] == files[path],
{
    lemma_plan_is_its_copies(files, criteria.matches(listing));
    lemma_copies_leave_other_paths(files, criteria.matches(listing), path);
}

/// A second run with the same request changes nothing: each file that it
/// copies holds at its destination the same bytes already, and no other file
/// is made. This holds where the first run wrote nothing below the source
/// root, its listing gave every file below the source root with its bytes,
/// and the second listing shows the files that the first run left.
pub proof fn lemma_second_run_changes_nothing(
    criteria: Criteria,
    files: Files,
    first: Seq<ScannedFile>,
    second: Seq<ScannedFile>,
)
    requires
        writes_outside_source(criteria, first),
        shows(first, files),
        lists_all_below(first, files, criteria.source_root),
        shows(second, after_run(files, criteria, first)),
    ensures
        after_run(after_run(files, criteria, first), criteria, second) == after_run(
            files,
            criteria,
            first,
        ),
{
    let left = after_run(files, criteria, first);
    let made = criteria.matches(first);
    let again = criteria.matches(second);
    lemma_plan_is_its_copies(files, made);
    lemma_plan_is_its_copies(left, again);
    assert forall|j: int| 0 <= j < made.len() implies made.contains(#[trigger] made[j]) by {}
    lemma_selection_is_safe(criteria, files, first, made);
    assert forall|k: int| 0 <= k < again.len() implies {
        &&& left.dom().contains((#[trigger] again[k]).source)
        &&& left.dom().contains(again[k].destination)
        &&& left[again[k].destination] == left[again[k].source]
    } by {
        let record = again[k];
        // the second listing gave the source with the bytes that the first run left
        lemma_matches_are_qualifying_files(criteria, second, k);
        let i = choose|i: int|
            0 <= i < second.len() && criteria.qualifies(#[trigger] second[i]) && second[i].path@
                == record.source;
        assert(second[i].content is Bytes);
        let bytes = second[i].content->Bytes_0;
        assert(left[record.source] == bytes@);
        // the first run wrote nothing below the source root, so these are the
        // bytes that the source held before it
        assert forall|j: int| 0 <= j < made.len() implies (#[trigger] made[j]).destination
            != record.source by {}
        lemma_copies_leave_other_paths(files, made, record.source);
        // so the first listing gave this file with the same bytes, and the
        // first run copied it
        assert(lists(first, files, record.source));
        let h = choose|h: int|
            #![trigger first[h]]
            0 <= h < first.len() && first[h].path@ == record.source && match first[h].content {
                FileContent::Bytes(bytes) => bytes@ == files[record.source],
                FileContent::Unreadable => false,
            };
        assert(first[h].content is Bytes);
        assert(first[h].content->Bytes_0@ == bytes@);
        assert(scan_outcome(first[h].content, criteria.policy, criteria.keyword) == scan_outcome(
            second[i].content,
            criteria.policy,
            criteria.keyword,
        ));
        lemma_qualifying_file_has_a_record(criteria, first, h);
        let wanted = MatchView {
            source: first[h].path@,
            destination: criteria.destination(first[h].path@).unwrap(),
        };
        let j = choose|j: int| 0 <= j < made.len() && #[trigger] made[j] == wanted;
        assert(made[j].destination == record.destination);
        lemma_copies_bring_the_bytes(files, made, j);
    }
    lemma_copies_already_made(left, again);
}

/// The files after the copies of `records`, one after the other.
spec fn after_copies(files: Files, records: Seq<MatchView>) -> Files
    decreases records.len(),
{
    if records.len() == 0 {
        files
    } else {
        after_step(
            after_copies(files, records.drop_last()),
            StepView::CopyFile { from: records.last().source, to: records.last().destination },
        )
    }
}

/// The records can be copied in any order without one copy spoiling another:
/// every source is a file, no record is copied onto the source of a record,
/// and records with one destination have one source.
spec fn safe_to_copy(records: Seq<MatchView>, files: Files) -> bool {
    &&& forall|k: int|
        0 <= k < records.len() ==> files.dom().contains((#[trigger] records[k]).source)
    &&& forall|j: int, k: int|
        #![trigger records[j], records[k]]
        0 <= j < records.len() && 0 <= k < records.len() ==> records[j].destination
            != records[k].source
    &&& forall|j: int, k: int|
        #![trigger records[j], records[k]]
        0 <= j < records.len() && 0 <= k < records.len() && records[j].destination
            == records[k].destination ==> records[j].source == records[k].source
}

/// Two plans one after the other do what the second does to what the first
/// left.
proof fn lemma_after_concatenation(files: Files, first: Seq<StepView>, second: Seq<StepView>)
    ensures
        after_plan(files, first + second) == after_plan(after_plan(files, first), second),
    decreases second.len(),
{
    if second.len() == 0 {
        assert(first + second =~= first);
    } else {
        assert((first + second).drop_last() =~= first + second.drop_last());
        assert((first + second).last() == second.last());
        lemma_after_concatenation(files, first, second.drop_last());
    }
}

/// A copy plan does to the files what its copies do.
proof fn lemma_plan_is_its_copies(files: Files, records: Seq<MatchView>)
    ensures
        after_plan(files, copy_plan(records)) == after_copies(files, records),
    decreases records.len(),
{
    if records.len() > 0 {
        let earlier = copy_plan(records.drop_last());
        let from = records.last().source;
        let to = records.last().destination;
        let last = file_steps(from, to);
        lemma_plan_is_its_copies(files, records.drop_last());
        lemma_after_concatenation(files, earlier, last);
        let before = after_plan(files, earlier);
        reveal_with_fuel(after_plan, 3);
        if to.len() > 0 {
            assert(last.drop_last() =~= seq![StepView::EnsureDirectory(to.drop_last())]);
            assert(last.drop_last().drop_last() =~= Seq::<StepView>::empty());
        } else {
            assert(last.drop_last() =~= Seq::<StepView>::empty());
        }
        assert(after_plan(before, last) == after_step(before, StepView::CopyFile { from, to }));
    }
}

/// A path that is the destination of no record is left as it was.
proof fn lemma_copies_leave_other_paths(files: Files, records: Seq<MatchView>, path: Seq<Seq<char>>)
    requires
        forall|k: int| 0 <= k < records.len() ==> (#[trigger] records[k]).destination != path,
    ensures
        after_copies(files, records).dom().contains(path) == files.dom().contains(path),
        after_copies(files, records)[path] == files[path],
    decreases records.len(),
{
    if records.len() > 0 {
        let shorter = records.drop_last();
        assert forall|k: int| 0 <= k < shorter.len() implies (#[trigger] shorter[k]).destination
            != path by {
            assert(shorter[k] == records[k]);
        }
        lemma_copies_leave_other_paths(files, shorter, path);
        assert(records.last() == records[records.len() - 1]);
    }
}

/// Records that are safe to copy are still so without the last of them.
proof fn lemma_safe_without_last(records: Seq<MatchView>, files: Files)
    requires
        safe_to_copy(records, files),
        records.len() > 0,
    ensures
        safe_to_copy(records.drop_last(), files),
{
    let shorter = records.drop_last();
    assert forall|k: int| 0 <= k < shorter.len() implies files.dom().contains(
        (#[trigger] shorter[k]).source,
    ) by {
        assert(shorter[k] == records[k]);
    }
    assert forall|j: int, k: int|
        #![trigger shorter[j], shorter[k]]
        0 <= j < shorter.len() && 0 <= k < shorter.len() implies shorter[j].destination
        != shorter[k].source && (shorter[j].destination == shorter[k].destination
        ==> shorter[j].source == shorter[k].source) by {
        assert(shorter[j] == records[j]);
        assert(shorter[k] == records[k]);
    }
}

/// After the copies of `records` each destination holds the bytes that its
/// source held before.
proof fn lemma_copies_bring_the_bytes(files: Files, records: Seq<MatchView>, k: int)
    requires
        safe_to_copy(records, files),
        0 <= k < records.len(),
    ensures
        after_copies(files, records).dom().contains(records[k].destination),
        after_copies(files, records)[records[k].destination] == files[records[k].source],
    decreases records.len(),
{
    let shorter = records.drop_last();
    let last = records[records.len() - 1];
    assert(records.last() == last);
    assert forall|j: int| 0 <= j < shorter.len() implies (#[trigger] shorter[j]).destination
        != last.source by {
        assert(shorter[j] == records[j]);
    }
    lemma_copies_leave_other_paths(files, shorter, last.source);
    if k < shorter.len() {
        assert(shorter[k] == records[k]);
        lemma_safe_without_last(records, files);
        lemma_copies_bring_the_bytes(files, shorter, k);
        if records[k].destination == last.destination {
            assert(records[k].source == last.source);
        }
    }
}

/// Copies of files onto files that hold the same bytes already change
/// nothing.
proof fn lemma_copies_already_made(files: Files, records: Seq<MatchView>)
    requires
        forall|k: int|
            0 <= k < records.len() ==> {
                &&& files.dom().contains((#[trigger] records[k]).source)
                &&& files.dom().contains(records[k].destination)
                &&& files[records[k].destination] == files[records[k].source]
            },
    ensures
        after_copies(files, records) == files,
    decreases records.len(),
{
    if records.len() > 0 {
        let shorter = records.drop_last();
        let last = records[records.len() - 1];
        assert(records.last() == last);
        assert forall|k: int| 0 <= k < shorter.len() implies {
            &&& files.dom().contains((#[trigger] shorter[k]).source)
            &&& files.dom().contains(shorter[k].destination)
            &&& files[shorter[k].destination] == files[shorter[k].source]
        } by {
            assert(shorter[k] == records[k]);
        }
        lemma_copies_already_made(files, shorter);
        assert(files.insert(last.destination, files[last.source]) =~= files);
    }
}

/// Records drawn from the match set of a listing that shows the files are
/// safe to copy where nothing is written below the source root.
proof fn lemma_selection_is_safe(
    criteria: Criteria,
    files: Files,
    listing: Seq<ScannedFile>,
    chosen: Seq<MatchView>,
)
    requires
        shows(listing, files),
        writes_outside_source(criteria, listing),
        drawn_from(chosen, criteria.matches(listing)),
    ensures
        safe_to_copy(chosen, files),
{
    let records = criteria.matches(listing);
    assert forall|k: int| 0 <= k < chosen.len() implies files.dom().contains(
        (#[trigger] chosen[k]).source,
    ) by {
        let a = choose|a: int| 0 <= a < records.len() && records[a] == chosen[k];
        lemma_matches_are_qualifying_files(criteria, listing, a);
        let i = choose|i: int|
            0 <= i < listing.len() && criteria.qualifies(#[trigger] listing[i]) && listing[i].path@
                == records[a].source;
        assert(listing[i].content is Bytes);
    }
    assert forall|j: int, k: int|
        #![trigger chosen[j], chosen[k]]
        0 <= j < chosen.len() && 0 <= k < chosen.len() implies chosen[j].destination
        != chosen[k].source && (chosen[j].destination == chosen[k].destination
        ==> chosen[j].source == chosen[k].source) by {
        let a = choose|a: int| 0 <= a < records.len() && records[a] == chosen[j];
        let b = choose|b: int| 0 <= b < records.len() && records[b] == chosen[k];
        lemma_matches_are_qualifying_files(criteria, listing, a);
        lemma_matches_are_qualifying_files(criteria, listing, b);
        if records[a].destination == records[b].destination {
            lemma_destination_keeps_relative_path(
                criteria.source_root,
                records[a].source,
                criteria.destination_root,
            );
            lemma_destination_keeps_relative_path(
                criteria.source_root,
                records[b].source,
                criteria.destination_root,
            );
            lemma_destination_injective(
                criteria.source_root,
                records[a].source,
                records[b].source,
                criteria.destination_root,
            );
        }
    }
}

/// A listed file that qualifies and lies under the source root has its record
/// in the match set.
proof fn lemma_qualifying_file_has_a_record(
    criteria: Criteria,
    listing: Seq<ScannedFile>,
    i: int,
)
    requires
        0 <= i < listing.len(),
        criteria.qualifies(listing[i]),
        criteria.source_root.is_prefix_of(listing[i].path@),
    ensures
        exists|k: int|
            0 <= k < criteria.matches(listing).len() && #[trigger] criteria.matches(listing)[k]
                == (MatchView {
                source: listing[i].path@,
                destination: criteria.destination(listing[i].path@).unwrap(),
            }),
    decreases listing.len(),
{
    let shorter = listing.drop_last();
    let records = criteria.matches(listing);
    let wanted = MatchView {
        source: listing[i].path@,
        destination: criteria.destination(listing[i].path@).unwrap(),
    };
    assert(listing.last() == listing[listing.len() - 1]);
    if i == listing.len() - 1 {
        assert(criteria.decision(listing.last()) == DecisionView::Copy(wanted));
        assert(records[records.len() - 1] == wanted);
    } else {
        assert(shorter[i] == listing[i]);
        lemma_qualifying_file_has_a_record(criteria, shorter, i);
        let k = choose|k: int|
            0 <= k < criteria.matches(shorter).len() && #[trigger] criteria.matches(shorter)[k]
                == wanted;
        assert(records[k] == wanted);
    }
}

/// Copies of the same records, in whatever order, leave the same at `path`.
proof fn lemma_same_records_same_file(
    files: Files,
    records: Seq<MatchView>,
    other: Seq<MatchView>,
    path: Seq<Seq<char>>,
)
    requires
        safe_to_copy(records, files),
        safe_to_copy(other, files),
        drawn_from(other, records),
        drawn_from(records, other),
    ensures
        after_copies(files, records).dom().contains(path) == after_copies(
            files,
            other,
        ).dom().contains(path),
        after_copies(files, records)[path] == after_copies(files, other)[path],
{
    if exists|k: int| 0 <= k < other.len() && (#[trigger] other[k]).destination == path {
        let k = choose|k: int| 0 <= k < other.len() && (#[trigger] other[k]).destination == path;
        let j = choose|j: int| 0 <= j < records.len() && records[j] == other[k];
        lemma_copies_bring_the_bytes(files, other, k);
        lemma_copies_bring_the_bytes(files, records, j);
    } else {
        assert forall|j: int| 0 <= j < records.len() implies (#[trigger] records[j]).destination
            != path by {
            let k = choose|k: int| 0 <= k < other.len() && other[k] == records[j];
            assert(other[k].destination == records[j].destination);
        }
        lemma_copies_leave_other_paths(files, other, path);
        lemma_copies_leave_other_paths(files, records, path);
    }
}

} // verus!

//! The search itself: which of the listed files are copied, and where to.

use vstd::prelude::*;

use crate::paths::{destination_of, is_candidate_path, lemma_destination_injective,
    lemma_destination_keeps_relative_path, FilePath, PathError};
use crate::scan::{scan, scan_outcome, CasePolicy, FileContent, Keyword, ScanOutcome};
use crate::text::text_of;

verus! {

/// What a search is asked for.
pub struct SearchRequest {
    /// The directory whose tree is searched.
    pub source_root: FilePath,
    /// The directory that matching files are mirrored into.
    pub destination_root: FilePath,
    /// The keyword that a file must hold.
    pub keyword: Keyword,
}

/// A search request as plain values.
pub struct Criteria {
    pub source_root: Seq<Seq<char>>,
    pub destination_root: Seq<Seq<char>>,
    pub policy: CasePolicy,
    pub keyword: Seq<char>,
}

impl View for SearchRequest {
    type V = Criteria;

    open spec fn view(&self) -> Criteria {
        Criteria {
            source_root: self.source_root@,
            destination_root: self.destination_root@,
            policy: self.keyword.case_policy(),
            keyword: self.keyword.keyword(),
        }
    }
}

/// A listed file with what reading it gave.
#[derive(Clone, Debug, PartialEq, Eq)]
pub struct ScannedFile {
    pub path: FilePath,
    pub content: FileContent,
}

/// A file that matched, and the place that it is copied to.
#[derive(Clone, Debug, PartialEq, Eq)]
pub struct MatchRecord {
    pub source: FilePath,
    pub destination: FilePath,
}

/// A match record as plain values.
pub struct MatchView {
    pub source: Seq<Seq<char>>,
    pub destination: Seq<Seq<char>>,
}

impl View for MatchRecord {
    type V = MatchView;

    open spec fn view(&self) -> MatchView {
        MatchView { source: self.source@, destination: self.destination@ }
    }
}

/// What is done with one listed file.
#[derive(Clone, Debug, PartialEq, Eq)]
pub enum Decision {
    /// Not a candidate: the file is neither tested nor copied.
    Skip,
    /// A candidate that could not be read.
    Unreadable,
    /// A candidate whose bytes are not text.
    NotText,
    /// A candidate whose text does not hold the keyword.
    NoMatch,
    /// A match: the source is copied to the destination.
    Copy(MatchRecord),
    /// A match whose path does not lie under the source root, so that no
    /// destination can be named for it.
    OutsideRoot,
}

/// A decision as plain values.
pub enum DecisionView {
    Skip,
    Unreadable,
    NotText,
    NoMatch,
    Copy(MatchView),
    OutsideRoot,
}

impl View for Decision {
    type V = DecisionView;

    open spec fn view(&self) -> DecisionView {
        match self {
            Decision::Skip => DecisionView::Skip,
            Decision::Unreadable => DecisionView::Unreadable,
            Decision::NotText => DecisionView::NotText,
            Decision::NoMatch => DecisionView::NoMatch,
            Decision::Copy(record) => DecisionView::Copy(record@),
            Decision::OutsideRoot => DecisionView::OutsideRoot,
        }
    }
}

/// The match records in `records`, as plain values.
pub open spec fn record_views(records: Seq<MatchRecord>) -> Seq<MatchView> {
    Seq::new(records.len(), |i: int| records[i]@)
}

impl Criteria {
    /// A file qualifies when it is a candidate and its text holds the keyword.
    pub open spec fn qualifies(self, file: ScannedFile) -> bool {
        &&& is_candidate_path(file.path@)
        &&& scan_outcome(file.content, self.policy, self.keyword) == ScanOutcome::Matched
    }

    /// Where a file at `source` is copied to.
    pub open spec fn destination(self, source: Seq<Seq<char>>) -> Option<Seq<Seq<char>>> {
        destination_of(self.source_root, source, self.destination_root)
    }

    /// What is done with `file`.
    pub open spec fn decision(self, file: ScannedFile) -> DecisionView {
        if !is_candidate_path(file.path@) {
            DecisionView::Skip
        } else {
            match scan_outcome(file.content, self.policy, self.keyword) {
                ScanOutcome::Unreadable => DecisionView::Unreadable,
                ScanOutcome::NotText => DecisionView::NotText,
                ScanOutcome::NoMatch => DecisionView::NoMatch,
                ScanOutcome::Matched => match self.destination(file.path@) {
                    Some(destination) => DecisionView::Copy(
                        MatchView { source: file.path@, destination },
                    ),
                    None => DecisionView::OutsideRoot,
                },
            }
        }
    }

    /// Every qualifying file of the listing lies under the source root.
    pub open spec fn matches_lie_under_root(self, files: Seq<ScannedFile>) -> bool {
        forall|i: int|
            0 <= i < files.len() && self.qualifies(#[trigger] files[i])
                ==> self.source_root.is_prefix_of(files[i].path@)
    }

    /// The match set of a listing: one record for each qualifying file under
    /// the source root, in the order of the listing.
    pub open spec fn matches(self, files: Seq<ScannedFile>) -> Seq<MatchView>
        decreases files.len(),
    {
        if files.len() == 0 {
            Seq::empty()
        } else {
            let earlier = self.matches(files.drop_last());
            match self.decision(files.last()) {
                DecisionView::Copy(record) => earlier.push(record),
                _ => earlier,
            }
        }
    }
}

impl SearchRequest {
    /// Decides what is done with one listed file.
    pub fn decide(&self, file: &ScannedFile) -> (decision: Decision)
        ensures
            decision@ == self@.decision(*file),
    {
        if !file.path.is_candidate() {
            return Decision::Skip;
        }
        match scan(&file.content, &self.keyword) {
            ScanOutcome::Unreadable => Decision::Unreadable,
            ScanOutcome::NotText => Decision::NotText,
            ScanOutcome::NoMatch => Decision::NoMatch,
            ScanOutcome::Matched => match file.path.destination_in(
                &self.source_root,
                &self.destination_root,
            ) {
                Ok(destination) => Decision::Copy(
                    MatchRecord { source: file.path.clone(), destination },
                ),
                Err(_) => Decision::OutsideRoot,
            },
        }
    }

    /// The match set of a listing: a record for each file with the extension
    /// `eml` whose text holds the keyword, in the order of the listing. A file
    /// that could not be read, or that holds no text, is left out and the rest
    /// is still gone through. Fails where a qualifying file does not lie under
    /// the source root.
    pub fn find_matches(&self, files: &Vec<ScannedFile>) -> (found: Result<
        Vec<MatchRecord>,
        PathError,
    >)
        ensures
            match found {
                Ok(records) => {
                    &&& self@.matches_lie_under_root(files@)
                    &&& record_views(records@) == self@.matches(files@)
                },
                Err(why) => why == PathError::NotUnderRoot && !self@.matches_lie_under_root(files@),
            },
    {
        let mut records: Vec<MatchRecord> = Vec::new();
        let n = files.len();
        let mut i: usize = 0;
        assert(files@.take(0) =~= Seq::<ScannedFile>::empty());
        assert(record_views(records@) =~= Seq::<MatchView>::empty());
        while i < n
            invariant
                n == files@.len(),
                i <= n,
                self@.matches_lie_under_root(files@.take(i as int)),
                record_views(records@) == self@.matches(files@.take(i as int)),
            decreases n - i,
        {
            let ghost before = files@.take(i as int);
            let ghost now = files@.take(i + 1);
            assert(now.drop_last() =~= before);
            assert(now.last() == files@[i as int]);
            match self.decide(&files[i]) {
                Decision::Copy(record) => {
                    let ghost earlier = records@;
                    records.push(record);
                    assert(record_views(records@) =~= record_views(earlier).push(record@));
                },
                Decision::OutsideRoot => {
                    assert(self@.qualifies(files@[i as int]));
                    return Err(PathError::NotUnderRoot);
                },
                _ => {},
            }
            assert forall|j: int| 0 <= j < now.len() && self@.qualifies(#[trigger] now[j])
                implies self@.source_root.is_prefix_of(now[j].path@) by {
                if j < i {
                    assert(now[j] == before[j]);
                }
            }
            i += 1;
        }
        assert(files@.take(n as int) =~= files@);
        Ok(records)
    }
}

/// How many records of `records` have `source` as their source.
pub open spec fn occurrences(records: Seq<MatchView>, source: Seq<Seq<char>>) -> nat
    decreases records.len(),
{
    if records.len() == 0 {
        0
    } else {
        occurrences(records.drop_last(), source) + if records.last().source == source {
            1nat
        } else {
            0nat
        }
    }
}

/// A file without the extension `eml` is skipped whatever it holds: it is
/// neither tested nor copied.
pub proof fn lemma_other_extensions_are_skipped(criteria: Criteria, file: ScannedFile)
    requires
        !is_candidate_path(file.path@),
    ensures
        criteria.decision(file) == DecisionView::Skip,
        !criteria.qualifies(file),
        forall|other: FileContent|
            criteria.decision(ScannedFile { path: file.path, content: other })
                == DecisionView::Skip,
{
}

/// A file that could not be read, or whose bytes are no text, is never
/// copied, whatever the keyword.
pub proof fn lemma_unreadable_is_never_copied(criteria: Criteria, file: ScannedFile)
    requires
        match file.content {
            FileContent::Unreadable => true,
            FileContent::Bytes(bytes) => text_of(bytes@) is None,
        },
    ensures
        !criteria.qualifies(file),
        !(criteria.decision(file) is Copy),
{
}

/// The match set of two listings put together is the two match sets put
/// together.
pub proof fn lemma_matches_of_concatenation(
    criteria: Criteria,
    first: Seq<ScannedFile>,
    second: Seq<ScannedFile>,
)
    ensures
        criteria.matches(first + second) == criteria.matches(first) + criteria.matches(second),
    decreases second.len(),
{
    if second.len() == 0 {
        assert(first + second =~= first);
        assert(criteria.matches(first) + criteria.matches(second) =~= criteria.matches(first));
    } else {
        assert((first + second).drop_last() =~= first + second.drop_last());
        assert((first + second).last() == second.last());
        lemma_matches_of_concatenation(criteria, first, second.drop_last());
        let earlier = criteria.matches(first) + criteria.matches(second.drop_last());
        match criteria.decision(second.last()) {
            DecisionView::Copy(record) => {
                assert(earlier.push(record) =~= criteria.matches(first) + criteria.matches(
                    second.drop_last(),
                ).push(record));
            },
            _ => {},
        }
    }
}

/// A file that does not qualify leaves the match set as it is without that
/// file: the files listed before and after it are matched as if it were not
/// there, and it does not make the search fail.
pub proof fn lemma_unmatched_file_changes_nothing(
    criteria: Criteria,
    before: Seq<ScannedFile>,
    file: ScannedFile,
    after: Seq<ScannedFile>,
)
    requires
        !criteria.qualifies(file),
    ensures
        criteria.matches(before.push(file) + after) == criteria.matches(before + after),
        criteria.matches_lie_under_root(before.push(file) + after)
            <==> criteria.matches_lie_under_root(before + after),
{
    let with = before.push(file) + after;
    let without = before + after;
    lemma_matches_of_concatenation(criteria, before.push(file), after);
    lemma_matches_of_concatenation(criteria, before, after);
    assert(before.push(file).drop_last() =~= before);
    assert(criteria.matches(before.push(file)) == criteria.matches(before));
    let n = before.len() as int;
    if criteria.matches_lie_under_root(with) {
        assert forall|i: int| 0 <= i < without.len() && criteria.qualifies(
            #[trigger] without[i],
        ) implies criteria.source_root.is_prefix_of(without[i].path@) by {
            if i < n {
                assert(without[i] == with[i]);
            } else {
                assert(without[i] == with[i + 1]);
            }
        }
    }
    if criteria.matches_lie_under_root(without) {
        assert forall|i: int| 0 <= i < with.len() && criteria.qualifies(#[trigger] with[i])
            implies criteria.source_root.is_prefix_of(with[i].path@) by {
            if i < n {
                assert(with[i] == without[i]);
            } else if i > n {
                assert(with[i] == without[i - 1]);
            }
        }
    }
}

/// A file that could not be read, or whose bytes are no text, is left out of
/// the match set, and the search goes on: the files listed before and after
/// it are matched as if it were not there, and it does not make the search
/// fail.
pub proof fn lemma_unreadable_file_is_passed_over(
    criteria: Criteria,
    before: Seq<ScannedFile>,
    file: ScannedFile,
    after: Seq<ScannedFile>,
)
    requires
        match file.content {
            FileContent::Unreadable => true,
            FileContent::Bytes(bytes) => text_of(bytes@) is None,
        },
    ensures
        criteria.matches(before.push(file) + after) == criteria.matches(before)
            + criteria.matches(after),
        criteria.matches_lie_under_root(before.push(file) + after)
            <==> criteria.matches_lie_under_root(before + after),
{
    lemma_unreadable_is_never_copied(criteria, file);
    lemma_unmatched_file_changes_nothing(criteria, before, file, after);
    lemma_matches_of_concatenation(criteria, before, after);
}

/// With the empty keyword every candidate that holds text and lies under the
/// source root is copied.
pub proof fn lemma_empty_keyword_copies_every_text(criteria: Criteria, file: ScannedFile)
    requires
        criteria.keyword.len() == 0,
        is_candidate_path(file.path@),
        criteria.source_root.is_prefix_of(file.path@),
        file.content matches FileContent::Bytes(bytes) && text_of(bytes@) is Some,
    ensures
        criteria.qualifies(file),
        criteria.decision(file) is Copy,
{
}

/// Every record of the match set stands for a qualifying file of the listing:
/// its source has the extension `eml`, lies under the source root, and its
/// destination is the destination root followed by the names that lead from
/// the source root to the source.
pub proof fn lemma_matches_are_qualifying_files(
    criteria: Criteria,
    files: Seq<ScannedFile>,
    k: int,
)
    requires
        0 <= k < criteria.matches(files).len(),
    ensures
        is_candidate_path(criteria.matches(files)[k].source),
        criteria.source_root.is_prefix_of(criteria.matches(files)[k].source),
        criteria.matches(files)[k].destination == criteria.destination_root
            + criteria.matches(files)[k].source.skip(criteria.source_root.len() as int),
        exists|i: int|
            0 <= i < files.len() && criteria.qualifies(#[trigger] files[i]) && files[i].path@
                == criteria.matches(files)[k].source,
    decreases files.len(),
{
    let earlier = criteria.matches(files.drop_last());
    if k < earlier.len() {
        lemma_matches_are_qualifying_files(criteria, files.drop_last(), k);
        let i = choose|i: int|
            0 <= i < files.drop_last().len() && criteria.qualifies(
                #[trigger] files.drop_last()[i],
            ) && files.drop_last()[i].path@ == earlier[k].source;
        assert(files[i] == files.drop_last()[i]);
    } else {
        assert(criteria.qualifies(files[files.len() - 1]));
    }
}

/// A path that no listed file has is the source of no record.
proof fn lemma_unlisted_path_is_unmatched(
    criteria: Criteria,
    files: Seq<ScannedFile>,
    path: Seq<Seq<char>>,
)
    requires
        forall|i: int| 0 <= i < files.len() ==> (#[trigger] files[i]).path@ != path,
    ensures
        occurrences(criteria.matches(files), path) == 0,
    decreases files.len(),
{
    if files.len() > 0 {
        let shorter = files.drop_last();
        assert forall|i: int| 0 <= i < shorter.len() implies (#[trigger] shorter[i]).path@
            != path by {
            assert(shorter[i] == files[i]);
        }
        lemma_unlisted_path_is_unmatched(criteria, shorter, path);
        assert(files.last() == files[files.len() - 1]);
        match criteria.decision(files.last()) {
            DecisionView::Copy(record) => {
                assert(criteria.matches(files).drop_last() =~= criteria.matches(shorter));
            },
            _ => {},
        }
    }
}

/// Where the listing names a path once, the file at that path is in the match
/// set exactly once if it qualifies and lies under the source root, and not at
/// all if it does not.
pub proof fn lemma_listed_file_is_matched_once(
    criteria: Criteria,
    files: Seq<ScannedFile>,
    at: int,
)
    requires
        0 <= at < files.len(),
        forall|i: int| 0 <= i < files.len() && i != at ==> (#[trigger] files[i]).path@ != files[at].path@,
    ensures
        occurrences(criteria.matches(files), files[at].path@) == if criteria.qualifies(files[at])
            && criteria.source_root.is_prefix_of(files[at].path@) {
            1nat
        } else {
            0nat
        },
    decreases files.len(),
{
    let path = files[at].path@;
    let shorter = files.drop_last();
    let last = files.len() - 1;
    assert(files.last() == files[last]);
    if at == last {
        assert forall|i: int| 0 <= i < shorter.len() implies (#[trigger] shorter[i]).path@
            != path by {
            assert(shorter[i] == files[i]);
        }
        lemma_unlisted_path_is_unmatched(criteria, shorter, path);
    } else {
        assert(shorter[at] == files[at]);
        assert forall|i: int|
            #![trigger shorter[i]]
            0 <= i < shorter.len() && i != at implies shorter[i].path@ != shorter[at].path@ by {
            assert(shorter[i] == files[i]);
        }
        lemma_listed_file_is_matched_once(criteria, shorter, at);
    }
    match criteria.decision(files.last()) {
        DecisionView::Copy(record) => {
            assert(criteria.matches(files).drop_last() =~= criteria.matches(shorter));
        },
        _ => {},
    }
}

/// Two records of a match set with different sources have different
/// destinations: no file is written twice.
pub proof fn lemma_destinations_differ(
    criteria: Criteria,
    files: Seq<ScannedFile>,
    j: int,
    k: int,
)
    requires
        0 <= j < criteria.matches(files).len(),
        0 <= k < criteria.matches(files).len(),
        criteria.matches(files)[j].source != criteria.matches(files)[k].source,
    ensures
        criteria.matches(files)[j].destination != criteria.matches(files)[k].destination,
{
    let first = criteria.matches(files)[j];
    let second = criteria.matches(files)[k];
    lemma_matches_are_qualifying_files(criteria, files, j);
    lemma_matches_are_qualifying_files(criteria, files, k);
    lemma_destination_keeps_relative_path(
        criteria.source_root,
        first.source,
        criteria.destination_root,
    );
    lemma_destination_keeps_relative_path(
        criteria.source_root,
        second.source,
        criteria.destination_root,
    );
    if first.destination == second.destination {
        lemma_destination_injective(
            criteria.source_root,
            first.source,
            second.source,
            criteria.destination_root,
        );
    }
}

} // verus!

//! Paths as lists of names, from the outermost directory to the entry itself.

use vstd::prelude::*;
use vstd::std_specs::cmp::PartialEqSpecImpl;

use crate::text::chars_of;

verus! {

/// A path in a file tree: the names that lead to an entry, outermost first.
/// The empty list is the place that relative paths start from.
#[derive(Debug)]
pub struct FilePath {
    pub components: Vec<String>,
}

impl View for FilePath {
    type V = Seq<Seq<char>>;

    open spec fn view(&self) -> Seq<Seq<char>> {
        Seq::new(self.components@.len(), |i: int| self.components@[i]@)
    }
}

/// Why a path could not be mapped into another tree.
#[derive(Clone, Copy, Debug, PartialEq, Eq, Structural)]
pub enum PathError {
    /// The path does not lie under the root it was to be taken relative to.
    NotUnderRoot,
}

impl PathError {
    /// What the operator is told.
    pub fn message(&self) -> (text: String)
        ensures
            text@ == "the path does not lie under the source directory"@,
    {
        "the path does not lie under the source directory".to_owned()
    }
}

/// The position of the last `.` in `name`, or -1 where it holds none.
pub open spec fn last_dot(name: Seq<char>) -> int
    decreases name.len(),
{
    if name.len() == 0 {
        -1
    } else if name.last() == '.' {
        name.len() - 1
    } else {
        last_dot(name.drop_last())
    }
}

/// The extension of a file name: what follows its last `.`, where that `.`
/// is not the first character. The name `..` has none.
pub open spec fn extension_of(name: Seq<char>) -> Option<Seq<char>> {
    if name == seq!['.', '.'] || last_dot(name) <= 0 {
        None
    } else {
        Some(name.skip(last_dot(name) + 1))
    }
}

/// The extension of the entry that a path leads to.
pub open spec fn path_extension(path: Seq<Seq<char>>) -> Option<Seq<char>> {
    if path.len() == 0 {
        None
    } else {
        extension_of(path.last())
    }
}

/// The extension that marks an exported e-mail.
pub open spec fn target_extension() -> Seq<char> {
    seq!['e', 'm', 'l']
}

/// A path leads to a candidate when its extension is exactly `eml`.
pub open spec fn is_candidate_path(path: Seq<Seq<char>>) -> bool {
    path_extension(path) == Some(target_extension())
}

/// Where in `destination_root` the entry at `source` goes when the tree under
/// `source_root` is mirrored there: the destination root, then the names that
/// lead from the source root to the entry. Nothing where `source` does not
/// lie under `source_root`.
pub open spec fn destination_of(
    source_root: Seq<Seq<char>>,
    source: Seq<Seq<char>>,
    destination_root: Seq<Seq<char>>,
) -> Option<Seq<Seq<char>>> {
    if source_root.is_prefix_of(source) {
        Some(destination_root + source.skip(source_root.len() as int))
    } else {
        None
    }
}

impl FilePath {
    /// The path with no names.
    pub fn new() -> (path: FilePath)
        ensures
            path@ == Seq::<Seq<char>>::empty(),
    {
        let path = FilePath { components: Vec::new() };
        assert(path@ =~= Seq::<Seq<char>>::empty());
        path
    }

    /// The path made of `components`, in their order.
    pub fn from_components(components: Vec<String>) -> (path: FilePath)
        ensures
            path.components == components,
    {
        FilePath { components }
    }

    /// How many names the path holds.
    pub fn len(&self) -> (n: usize)
        ensures
            n == self@.len(),
    {
        self.components.len()
    }

    /// Puts `name` at the end of the path.
    pub fn push(&mut self, name: String)
        ensures
            final(self)@ == old(self)@.push(name@),
    {
        self.components.push(name);
        assert(self@ =~= old(self)@.push(name@));
    }

    /// The extension of the entry that the path leads to.
    pub fn extension(&self) -> (ext: Option<String>)
        ensures
            match ext {
                Some(e) => path_extension(self@) == Some(e@),
                None => path_extension(self@) is None,
            },
    {
        let count = self.components.len();
        if count == 0 {
            return None;
        }
        let name = self.components[count - 1].as_str();
        assert(name@ == self@.last());
        let chars = chars_of(name);
        let n: usize = chars.len();
        let mut end: usize = n;
        while end > 0 && chars[end - 1] != '.'
            invariant
                n == chars@.len(),
                end <= n,
                forall|i: int| end <= i < n ==> chars@[i] != '.',
            decreases end,
        {
            end -= 1;
        }
        proof {
            if end == 0 {
                lemma_no_dot(chars@);
            } else {
                lemma_last_dot_is(chars@, end - 1);
            }
        }
        if end <= 1 {
            return None;
        }
        if n == 2 && chars[0] == '.' {
            assert(chars@ =~= seq!['.', '.']);
            return None;
        }
        assert(chars@ != seq!['.', '.']) by {
            if chars@ == seq!['.', '.'] {
                assert(chars@.len() == 2);
                assert(chars@[0] == seq!['.', '.'][0]);
            }
        }
        assert(chars@.skip(end as int) =~= chars@.subrange(end as int, n as int));
        Some(name.substring_char(end, n).to_owned())
    }

    /// Whether the path's extension is exactly `wanted`; upper and lower case
    /// differ.
    pub fn has_extension(&self, wanted: &str) -> (has: bool)
        ensures
            has == (path_extension(self@) == Some(wanted@)),
    {
        match self.extension() {
            Some(ext) => ext == wanted.to_owned(),
            None => false,
        }
    }

    /// Whether the path leads to a candidate: an entry with the extension `eml`.
    pub fn is_candidate(&self) -> (candidate: bool)
        ensures
            candidate == is_candidate_path(self@),
    {
        proof {
            reveal_strlit("eml");
            assert("eml"@ =~= target_extension());
        }
        self.has_extension("eml")
    }

    /// Whether the path begins with all the names of `base`, in their order.
    pub fn starts_with(&self, base: &FilePath) -> (under: bool)
        ensures
            under == base@.is_prefix_of(self@),
    {
        let n = base.components.len();
        if n > self.components.len() {
            return false;
        }
        let mut i: usize = 0;
        while i < n
            invariant
                n == base.components@.len(),
                n <= self.components@.len(),
                i <= n,
                forall|j: int| 0 <= j < i ==> self@[j] == base@[j],
            decreases n - i,
        {
            if self.components[i] != base.components[i] {
                assert(self@.subrange(0, n as int)[i as int] == self@[i as int]);
                assert(base@[i as int] != self@[i as int]);
                return false;
            }
            i += 1;
        }
        assert(base@ =~= self@.subrange(0, n as int));
        true
    }

    /// The names from position `from` on.
    fn tail(&self, from: usize) -> (rest: FilePath)
        requires
            from <= self@.len(),
        ensures
            rest@ == self@.skip(from as int),
    {
        let mut rest = FilePath::new();
        let n = self.components.len();
        let mut i: usize = from;
        while i < n
            invariant
                n == self.components@.len(),
                from <= i <= n,
                rest@ == self@.subrange(from as int, i as int),
            decreases n - i,
        {
            rest.push(self.components[i].clone());
            i += 1;
            assert(rest@ =~= self@.subrange(from as int, i as int));
        }
        assert(rest@ =~= self@.skip(from as int));
        rest
    }

    /// The path relative to `base`: the names that lead from `base` to it.
    /// Fails where the path does not lie under `base`.
    pub fn strip_prefix(&self, base: &FilePath) -> (relative: Result<FilePath, PathError>)
        ensures
            match relative {
                Ok(rest) => base@.is_prefix_of(self@) && rest@ == self@.skip(base@.len() as int),
                Err(why) => why == PathError::NotUnderRoot && !base@.is_prefix_of(self@),
            },
    {
        if self.starts_with(base) {
            Ok(self.tail(base.components.len()))
        } else {
            Err(PathError::NotUnderRoot)
        }
    }

    /// The path followed by the names of `relative`.
    pub fn join(&self, relative: &FilePath) -> (joined: FilePath)
        ensures
            joined@ == self@ + relative@,
    {
        let mut joined = self.tail(0);
        assert(joined@ =~= self@);
        let n = relative.components.len();
        let mut i: usize = 0;
        while i < n
            invariant
                n == relative.components@.len(),
                i <= n,
                joined@ == self@ + relative@.subrange(0, i as int),
            decreases n - i,
        {
            joined.push(relative.components[i].clone());
            i += 1;
            assert(joined@ =~= self@ + relative@.subrange(0, i as int));
        }
        assert(relative@.subrange(0, n as int) =~= relative@);
        joined
    }

    /// The directory that holds the entry: the path without its last name.
    /// The empty path has none.
    pub fn parent(&self) -> (dir: Option<FilePath>)
        ensures
            match dir {
                Some(d) => self@.len() > 0 && d@ == self@.drop_last(),
                None => self@.len() == 0,
            },
    {
        let n = self.components.len();
        if n == 0 {
            return None;
        }
        let mut dir = FilePath::new();
        let mut i: usize = 0;
        while i < n - 1
            invariant
                n == self.components@.len(),
                n > 0,
                i <= n - 1,
                dir@ == self@.subrange(0, i as int),
            decreases n - i,
        {
            dir.push(self.components[i].clone());
            i += 1;
            assert(dir@ =~= self@.subrange(0, i as int));
        }
        assert(dir@ =~= self@.drop_last());
        Some(dir)
    }

    /// Where in `destination_root` the entry at this path goes when the tree
    /// under `source_root` is mirrored there. Fails, and names no path, where
    /// this path does not lie under `source_root`.
    pub fn destination_in(&self, source_root: &FilePath, destination_root: &FilePath) -> (mapped:
        Result<FilePath, PathError>)
        ensures
            match mapped {
                Ok(destination) => destination_of(source_root@, self@, destination_root@) == Some(
                    destination@,
                ),
                Err(why) => why == PathError::NotUnderRoot && destination_of(
                    source_root@,
                    self@,
                    destination_root@,
                ) is None,
            },
    {
        match self.strip_prefix(source_root) {
            Ok(relative) => Ok(destination_root.join(&relative)),
            Err(why) => Err(why),
        }
    }
}

impl Clone for FilePath {
    fn clone(&self) -> (copy: FilePath)
        ensures
            copy@ == self@,
    {
        let copy = self.tail(0);
        assert(copy@ =~= self@);
        copy
    }
}

impl PartialEqSpecImpl for FilePath {
    open spec fn obeys_eq_spec() -> bool {
        true
    }

    open spec fn eq_spec(&self, other: &FilePath) -> bool {
        self@ == other@
    }
}

impl PartialEq for FilePath {
    fn eq(&self, other: &FilePath) -> (same: bool) {
        let equal = self.components.len() == other.components.len() && self.starts_with(other);
        proof {
            if self@.len() == other@.len() {
                assert(self@.subrange(0, self@.len() as int) =~= self@);
            }
        }
        equal
    }
}

impl Eq for FilePath {

}

/// `last_dot` finds a `.` after which no other follows.
pub proof fn lemma_last_dot(name: Seq<char>)
    ensures
        -1 <= last_dot(name) < name.len(),
        last_dot(name) >= 0 ==> name[last_dot(name)] == '.',
        forall|i: int| last_dot(name) < i < name.len() ==> name[i] != '.',
    decreases name.len(),
{
    if name.len() > 0 && name.last() != '.' {
        let shorter = name.drop_last();
        lemma_last_dot(shorter);
        assert forall|i: int| last_dot(name) < i < name.len() implies name[i] != '.' by {
            if i < shorter.len() {
                assert(shorter[i] == name[i]);
            }
        }
    }
}

/// Where a `.` stands at `at` and none follows it, `last_dot` is `at`.
pub proof fn lemma_last_dot_is(name: Seq<char>, at: int)
    requires
        0 <= at < name.len(),
        name[at] == '.',
        forall|i: int| at < i < name.len() ==> name[i] != '.',
    ensures
        last_dot(name) == at,
    decreases name.len(),
{
    if name.last() != '.' {
        lemma_last_dot_is(name.drop_last(), at);
    }
}

/// Where `name` holds no `.`, `last_dot` is -1.
pub proof fn lemma_no_dot(name: Seq<char>)
    requires
        forall|i: int| 0 <= i < name.len() ==> name[i] != '.',
    ensures
        last_dot(name) == -1,
    decreases name.len(),
{
    if name.len() > 0 {
        lemma_no_dot(name.drop_last());
    }
}

/// A destination lies under the destination root, and the names that lead to
/// it from there are those that lead to the source from the source root.
pub proof fn lemma_destination_keeps_relative_path(
    source_root: Seq<Seq<char>>,
    source: Seq<Seq<char>>,
    destination_root: Seq<Seq<char>>,
)
    requires
        source_root.is_prefix_of(source),
    ensures
        destination_of(source_root, source, destination_root) is Some,
        destination_root.is_prefix_of(
            destination_of(source_root, source, destination_root).unwrap(),
        ),
        destination_of(source_root, source, destination_root).unwrap().skip(
            destination_root.len() as int,
        ) == source.skip(source_root.len() as int),
{
    let relative = source.skip(source_root.len() as int);
    let destination = destination_root + relative;
    assert(destination.subrange(0, destination_root.len() as int) =~= destination_root);
    assert(destination.skip(destination_root.len() as int) =~= relative);
}

/// Two entries under the source root that go to the same destination are the
/// same entry: no two files of a tree are mirrored onto one.
pub proof fn lemma_destination_injective(
    source_root: Seq<Seq<char>>,
    first: Seq<Seq<char>>,
    second: Seq<Seq<char>>,
    destination_root: Seq<Seq<char>>,
)
    requires
        source_root.is_prefix_of(first),
        source_root.is_prefix_of(second),
        destination_of(source_root, first, destination_root) == destination_of(
            source_root,
            second,
            destination_root,
        ),
    ensures
        first == second,
{
    lemma_destination_keeps_relative_path(source_root, first, destination_root);
    lemma_destination_keeps_relative_path(source_root, second, destination_root);
    let n = source_root.len() as int;
    assert(first.skip(n) == second.skip(n));
    assert(first.len() == second.len()) by {
        assert(first.skip(n).len() == first.len() - n);
        assert(second.skip(n).len() == second.len() - n);
    }
    assert forall|i: int| 0 <= i < first.len() implies first[i] == second[i] by {
        if i < n {
            assert(first.subrange(0, n)[i] == source_root[i]);
            assert(second.subrange(0, n)[i] == source_root[i]);
        } else {
            assert(first.skip(n)[i - n] == first[i]);
            assert(second.skip(n)[i - n] == second[i]);
        }
    }
    assert(first =~= second);
}

/// A name has the extension `eml` exactly when it ends in `.eml` and holds
/// something before that.
pub proof fn lemma_candidate_names(name: Seq<char>)
    ensures
        extension_of(name) == Some(target_extension()) <==> name.len() > 4 && name.skip(
            name.len() - 4,
        ) == seq!['.', 'e', 'm', 'l'],
{
    lemma_last_dot(name);
    let dot = last_dot(name);
    let suffix = seq!['.', 'e', 'm', 'l'];
    if extension_of(name) == Some(target_extension()) {
        let ext = name.skip(dot + 1);
        assert(ext.len() == 3);
        assert(ext[0] == 'e' && ext[1] == 'm' && ext[2] == 'l');
        assert(name.skip(name.len() - 4) =~= suffix);
    }
    if name.len() > 4 && name.skip(name.len() - 4) == suffix {
        let at = name.len() - 4;
        assert(name[at] == name.skip(at)[0]);
        assert(name[at + 1] == name.skip(at)[1]);
        assert(name[at + 2] == name.skip(at)[2]);
        assert(name[at + 3] == name.skip(at)[3]);
        lemma_last_dot_is(name, at);
        assert(name.skip(at + 1) =~= target_extension());
        assert(name != seq!['.', '.']) by {
            assert(seq!['.', '.'].len() == 2);
        }
    }
}

} // verus!

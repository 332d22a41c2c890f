//! The directory tree that rendering stages its filesystem artifacts in.
//!
//! A [`StagedDir`] stands for the target root during rendering.  It keeps a
//! journal of the directories to create and the files to write, all by path
//! relative to the root.  Its meaning is the tree obtained by replaying the
//! journal in order: a later write to a path replaces an earlier one.
//! Nothing touches the real filesystem until the journal is replayed there.
//!
//! Every staged path is a clean relative path: a list of proper names joined
//! by `'/'`.  Such a path cannot lead out of the root it is resolved against,
//! and no two of them name the same place.

use crate::text::{chars_of, find_in_range, first_index, str_eq};
use vstd::prelude::*;
use vstd::string::*;

verus! {

/// What a staged file holds: its contents and its permission bits.
pub struct FileView {
    pub contents: Seq<char>,
    pub mode: u32,
}

/// A file to be written atomically at `path` below the root.
#[derive(Debug, Clone, PartialEq, Eq)]
pub struct StagedFile {
    pub path: String,
    pub contents: String,
    pub mode: u32,
}

impl StagedFile {
    /// Contents and mode, without the path.
    pub open spec fn file(&self) -> FileView {
        FileView { contents: self.contents@, mode: self.mode }
    }
}

/// The staged tree below one root.
#[derive(Debug)]
pub struct StagedDir {
    dirs: Vec<String>,
    files: Vec<StagedFile>,
}

/// The refusal of a path that is no clean relative path.
#[derive(Debug, Clone, Copy, PartialEq, Eq)]
pub struct UncleanPath;

/// Whether position `i` lies outside `path` or holds a separator.
pub open spec fn at_boundary(path: Seq<char>, i: int) -> bool {
    i < 0 || i >= path.len() || path[i] == '/'
}

/// Whether an improper name starts at position `i` of `path`: an empty name,
/// the name `.` or the name `..`.
///
/// A name starts where the position before is a boundary.  An empty name at
/// the start is a leading separator, one at the end a trailing separator or
/// an empty path, one in between a doubled separator.
pub open spec fn improper_at(path: Seq<char>, i: int) -> bool {
    at_boundary(path, i - 1) && {
        ||| at_boundary(path, i)
        ||| path[i] == '.' && at_boundary(path, i + 1)
        ||| path[i] == '.' && i + 1 < path.len() && path[i + 1] == '.' && at_boundary(path, i + 2)
    }
}

/// Whether `path` is a clean relative path: not empty, and made of names
/// joined by single separators, none of the names being `.` or `..`.
pub open spec fn is_clean(path: Seq<char>) -> bool {
    forall|i: int| 0 <= i <= path.len() ==> !#[trigger] improper_at(path, i)
}

/// Whether entry `i` of the directory journal names `path`.
pub open spec fn dir_at(dirs: Seq<String>, path: Seq<char>, i: int) -> bool {
    0 <= i < dirs.len() && dirs[i]@ == path
}

/// Whether entry `i` of the file journal writes to `path`.
pub open spec fn file_at(files: Seq<StagedFile>, path: Seq<char>, i: int) -> bool {
    0 <= i < files.len() && files[i].path@ == path
}

/// Whether entry `i` of the file journal is the last write to `path`.
pub open spec fn last_write(files: Seq<StagedFile>, path: Seq<char>, i: int) -> bool {
    &&& file_at(files, path, i)
    &&& forall|j: int| i < j < files.len() ==> (#[trigger] files[j]).path@ != path
}

/// The directories that replaying the journal `dirs` creates.
pub open spec fn dirs_of(dirs: Seq<String>) -> Set<Seq<char>> {
    Set::new(|path: Seq<char>| exists|i: int| dir_at(dirs, path, i))
}

/// The files that replaying the journal `files` leaves behind.
pub open spec fn files_of(files: Seq<StagedFile>) -> Map<Seq<char>, FileView> {
    Map::new(
        |path: Seq<char>| exists|i: int| last_write(files, path, i),
        |path: Seq<char>| files[choose|i: int| last_write(files, path, i)].file(),
    )
}

/// The name of the entry directly below the root through which `path` leads:
/// the text before its first `'/'`, or all of it.
pub open spec fn top_level_name(path: Seq<char>) -> Seq<char> {
    match first_index(path, '/') {
        Some(i) => path.take(i),
        None => path,
    }
}

/// A path with a write has a last write.
pub proof fn lemma_last_write_exists(files: Seq<StagedFile>, path: Seq<char>, i: int)
    requires
        file_at(files, path, i),
    ensures
        exists|j: int| i <= j && last_write(files, path, j),
    decreases files.len() - i,
{
    if exists|k: int| i < k && file_at(files, path, k) {
        let k = choose|k: int| i < k && file_at(files, path, k);
        lemma_last_write_exists(files, path, k);
        let j = choose|j: int| k <= j && last_write(files, path, j);
        assert(i <= j && last_write(files, path, j));
    } else {
        assert forall|j: int| i < j < files.len() implies (#[trigger] files[j]).path@ != path by {
            assert(!file_at(files, path, j));
        }
        assert(last_write(files, path, i));
    }
}

/// The last write to a path is unique, and it decides what the file holds.
pub proof fn lemma_last_write_decides(files: Seq<StagedFile>, path: Seq<char>, i: int)
    requires
        last_write(files, path, i),
    ensures
        files_of(files).contains_key(path),
        files_of(files)[path] == files[i].file(),
{
    let j = choose|j: int| last_write(files, path, j);
    if i < j {
        assert(files[j].path@ != path);
    } else if j < i {
        assert(files[i].path@ != path);
    }
}

/// A write appended to the journal leaves the files at other paths alone.
proof fn lemma_push_keeps_others(files: Seq<StagedFile>, file: StagedFile, p: Seq<char>)
    requires
        p != file.path@,
    ensures
        files_of(files.push(file)).dom().contains(p) == files_of(files).dom().contains(p),
        files_of(files).dom().contains(p) ==> files_of(files.push(file))[p] == files_of(files)[p],
{
    let after = files.push(file);
    let n = files.len() as int;
    if exists|i: int| last_write(after, p, i) {
        let i = choose|i: int| last_write(after, p, i);
        assert(i < n);
        assert forall|j: int| i < j < files.len() implies (#[trigger] files[j]).path@ != p by {
            assert(after[j] == files[j]);
        }
        assert(last_write(files, p, i));
    }
    if exists|i: int| last_write(files, p, i) {
        let i = choose|i: int| last_write(files, p, i);
        assert forall|j: int| i < j < after.len() implies (#[trigger] after[j]).path@ != p by {
            if j < n {
                assert(after[j] == files[j]);
            }
        }
        assert(after[i] == files[i]);
        assert(last_write(after, p, i));
        lemma_last_write_decides(after, p, i);
        lemma_last_write_decides(files, p, i);
    }
}

/// Appending a write to the journal replaces the file at its path and leaves
/// every other file as it was.
pub proof fn lemma_files_of_push(files: Seq<StagedFile>, file: StagedFile)
    ensures
        files_of(files.push(file)) == files_of(files).insert(file.path@, file.file()),
{
    let after = files.push(file);
    let wanted = files_of(files).insert(file.path@, file.file());
    let n = files.len() as int;
    assert(last_write(after, file.path@, n));
    lemma_last_write_decides(after, file.path@, n);
    assert forall|p: Seq<char>| #[trigger]
        files_of(after).dom().contains(p) == wanted.dom().contains(p) by {
        if p != file.path@ {
            lemma_push_keeps_others(files, file, p);
        }
    }
    assert forall|p: Seq<char>| #[trigger] files_of(after).dom().contains(p) implies files_of(
        after,
    )[p] == wanted[p] by {
        if p != file.path@ {
            lemma_push_keeps_others(files, file, p);
        }
    }
    assert(files_of(after) =~= wanted);
}

/// Appending a directory to the journal adds it to the directories created.
pub proof fn lemma_dirs_of_push(dirs: Seq<String>, dir: String)
    ensures
        dirs_of(dirs.push(dir)) == dirs_of(dirs).insert(dir@),
{
    let after = dirs.push(dir);
    assert(dir_at(after, dir@, dirs.len() as int));
    assert forall|p: Seq<char>| dirs_of(after).contains(p) == dirs_of(dirs).insert(dir@).contains(
        p,
    ) by {
        if exists|i: int| dir_at(after, p, i) {
            let i = choose|i: int| dir_at(after, p, i);
            if i < dirs.len() {
                assert(dir_at(dirs, p, i));
            }
        }
        if exists|i: int| dir_at(dirs, p, i) {
            let i = choose|i: int| dir_at(dirs, p, i);
            assert(dir_at(after, p, i));
        }
    }
    assert(dirs_of(after) =~= dirs_of(dirs).insert(dir@));
}

/// Whether `name` is among `names`.
pub open spec fn listed(names: Seq<String>, name: Seq<char>) -> bool {
    exists|i: int| 0 <= i < names.len() && (#[trigger] names[i])@ == name
}

/// Whether no name occurs twice in `names`.
pub open spec fn all_distinct(names: Seq<String>) -> bool {
    forall|i: int, j: int|
        0 <= i < j < names.len() ==> (#[trigger] names[i])@ != (#[trigger] names[j])@
}

/// Decides whether position `i` lies outside `path` or holds a separator.
fn boundary(path: &Vec<char>, i: usize) -> (b: bool)
    ensures
        b == at_boundary(path@, i as int),
{
    i >= path.len() || path[i] == '/'
}

/// Decides whether `path` is a clean relative path.
pub fn path_is_clean(path: &str) -> (clean: bool)
    ensures
        clean == is_clean(path@),
{
    let chars = chars_of(path);
    let mut i: usize = 0;
    loop
        invariant
            chars@ == path@,
            i <= chars@.len(),
            forall|k: int| 0 <= k < i ==> !#[trigger] improper_at(path@, k),
        decreases chars@.len() - i,
    {
        let starts = i == 0 || chars[i - 1] == '/';
        if starts {
            let improper = if boundary(&chars, i) {
                true
            } else if chars[i] != '.' {
                false
            } else if i + 1 >= chars.len() {
                true
            } else if chars[i + 1] == '/' {
                true
            } else if chars[i + 1] != '.' {
                false
            } else {
                i + 2 >= chars.len() || chars[i + 2] == '/'
            };
            if improper {
                assert(improper_at(path@, i as int));
                return false;
            }
        }
        assert(!improper_at(path@, i as int));
        if i == chars.len() {
            return true;
        }
        i = i + 1;
    }
}

impl StagedDir {
    /// Every path in the journal is a clean relative path.
    #[verifier::type_invariant]
    spec fn clean(&self) -> bool {
        &&& forall|i: int| 0 <= i < self.dirs@.len() ==> is_clean((#[trigger] self.dirs@[i])@)
        &&& forall|i: int|
            0 <= i < self.files@.len() ==> is_clean((#[trigger] self.files@[i]).path@)
    }

    /// The directories that must exist, each with all of its ancestors.
    pub closed spec fn dirs(&self) -> Set<Seq<char>> {
        dirs_of(self.dirs@)
    }

    /// The files to write, by path.
    pub closed spec fn files(&self) -> Map<Seq<char>, FileView> {
        files_of(self.files@)
    }

    /// Whether `path` is staged, as a directory or as a file.
    pub open spec fn stages(&self, path: Seq<char>) -> bool {
        self.dirs().contains(path) || self.files().contains_key(path)
    }

    /// The names of the entries directly below the root.
    pub open spec fn top_level(&self) -> Set<Seq<char>> {
        Set::new(
            |name: Seq<char>|
                exists|path: Seq<char>| self.stages(path) && top_level_name(path) == name,
        )
    }

    /// Whether nothing is staged.
    pub open spec fn is_vacant(&self) -> bool {
        &&& self.dirs() == Set::<Seq<char>>::empty()
        &&& self.files() == Map::<Seq<char>, FileView>::empty()
    }

    /// A tree with nothing staged.
    pub fn new() -> (staged: StagedDir)
        ensures
            staged.is_vacant(),
    {
        let staged = StagedDir { dirs: Vec::new(), files: Vec::new() };
        assert(staged.dirs() =~= Set::<Seq<char>>::empty());
        assert(staged.files() =~= Map::<Seq<char>, FileView>::empty());
        staged
    }

    /// Records that the directory `path` and its ancestors must exist.
    /// Recording a directory again changes nothing.
    ///
    /// A path that is no clean relative path is refused, and nothing is
    /// recorded.
    pub fn create_dir_all(&mut self, path: &str) -> (r: Result<(), UncleanPath>)
        ensures
            is_clean(path@) ==> {
                &&& r is Ok
                &&& final(self).dirs() == old(self).dirs().insert(path@)
                &&& final(self).files() == old(self).files()
            },
            !is_clean(path@) ==> r is Err && *final(self) == *old(self),
    {
        if !path_is_clean(path) {
            return Err(UncleanPath);
        }
        let dir = path.to_owned();
        proof {
            use_type_invariant(&*self);
            lemma_dirs_of_push(self.dirs@, dir);
        }
        let mut journal: Vec<String> = Vec::new();
        core::mem::swap(&mut self.dirs, &mut journal);
        journal.push(dir);
        core::mem::swap(&mut self.dirs, &mut journal);
        Ok(())
    }

    /// Records that the file at `path` must hold `contents` with permission
    /// bits `mode`, replacing whatever was recorded for that path before.
    ///
    /// A path that is no clean relative path is refused, and nothing is
    /// recorded.
    pub fn atomic_write_with_perms(&mut self, path: &str, contents: &str, mode: u32) -> (r: Result<
        (),
        UncleanPath,
    >)
        ensures
            is_clean(path@) ==> {
                &&& r is Ok
                &&& final(self).files() == old(self).files().insert(
                    path@,
                    FileView { contents: contents@, mode },
                )
                &&& final(self).dirs() == old(self).dirs()
            },
            !is_clean(path@) ==> r is Err && *final(self) == *old(self),
    {
        if !path_is_clean(path) {
            return Err(UncleanPath);
        }
        let file = StagedFile { path: path.to_owned(), contents: contents.to_owned(), mode };
        proof {
            use_type_invariant(&*self);
            lemma_files_of_push(self.files@, file);
        }
        let mut journal: Vec<StagedFile> = Vec::new();
        core::mem::swap(&mut self.files, &mut journal);
        journal.push(file);
        core::mem::swap(&mut self.files, &mut journal);
        Ok(())
    }

    /// The position of the last write to `path` in the journal.
    fn last_write_position(&self, path: &str) -> (at: Option<usize>)
        ensures
            match at {
                Some(i) => last_write(self.files@, path@, i as int),
                None => !self.files().contains_key(path@),
            },
    {
        let mut k: usize = self.files.len();
        while k > 0
            invariant
                k <= self.files@.len(),
                forall|j: int| k <= j < self.files@.len() ==> (#[trigger] self.files@[j]).path@ != path@,
            decreases k,
        {
            if str_eq(self.files[k - 1].path.as_str(), path) {
                return Some(k - 1);
            }
            k = k - 1;
        }
        None
    }

    /// The contents recorded for the file at `path`, if one is staged there.
    pub fn read_to_string(&self, path: &str) -> (contents: Option<String>)
        ensures
            match contents {
                Some(text) => self.files().contains_key(path@) && text@ == self.files()[path@].contents,
                None => !self.files().contains_key(path@),
            },
    {
        match self.last_write_position(path) {
            Some(i) => {
                proof {
                    lemma_last_write_decides(self.files@, path@, i as int);
                }
                Some(self.files[i].contents.clone())
            },
            None => None,
        }
    }
    /// The journal of directories, in the order in which they were recorded.
    pub fn staged_dirs(&self) -> (journal: &Vec<String>)
        ensures
            self.dirs() == dirs_of(journal@),
            forall|i: int| 0 <= i < journal@.len() ==> is_clean((#[trigger] journal@[i])@),
    {
        proof {
            use_type_invariant(self);
        }
        &self.dirs
    }

    /// The journal of file writes, in the order in which they were recorded.
    /// Replaying it in order leaves exactly the files of `self.files()`.
    pub fn staged_files(&self) -> (journal: &Vec<StagedFile>)
        ensures
            self.files() == files_of(journal@),
            forall|i: int| 0 <= i < journal@.len() ==> is_clean((#[trigger] journal@[i]).path@),
    {
        proof {
            use_type_invariant(self);
        }
        &self.files
    }

    /// Decides whether nothing is staged.
    pub fn is_empty(&self) -> (vacant: bool)
        ensures
            vacant == self.is_vacant(),
    {
        if self.dirs.len() > 0 {
            assert(dir_at(self.dirs@, self.dirs@[0]@, 0));
            assert(self.dirs().contains(self.dirs@[0]@));
            return false;
        }
        if self.files.len() > 0 {
            proof {
                lemma_last_write_exists(self.files@, self.files@[0].path@, 0);
                assert(self.files().dom().contains(self.files@[0].path@));
            }
            return false;
        }
        assert(self.dirs() =~= Set::<Seq<char>>::empty());
        assert(self.files() =~= Map::<Seq<char>, FileView>::empty());
        true
    }

    /// The names of the entries directly below the root, each once, in no
    /// particular order.
    pub fn entries(&self) -> (names: Vec<String>)
        ensures
            forall|i: int| 0 <= i < names@.len() ==> self.top_level().contains(#[trigger] names@[i]@),
            forall|path: Seq<char>| #[trigger]
                self.stages(path) ==> listed(names@, top_level_name(path)),
            all_distinct(names@),
    {
        let mut names: Vec<String> = Vec::new();
        let mut d: usize = 0;
        while d < self.dirs.len()
            invariant
                d <= self.dirs@.len(),
                forall|i: int|
                    0 <= i < names@.len() ==> self.top_level().contains(#[trigger] names@[i]@),
                forall|k: int|
                    0 <= k < d ==> listed(names@, top_level_name((#[trigger] self.dirs@[k])@)),
                all_distinct(names@),
            decreases self.dirs.len() - d,
        {
            let ghost path = self.dirs@[d as int]@;
            proof {
                assert(dir_at(self.dirs@, path, d as int));
                assert(self.stages(path));
            }
            add_name(&mut names, top_level_of(self.dirs[d].as_str()));
            d = d + 1;
        }
        let mut f: usize = 0;
        while f < self.files.len()
            invariant
                f <= self.files@.len(),
                forall|i: int|
                    0 <= i < names@.len() ==> self.top_level().contains(#[trigger] names@[i]@),
                forall|k: int|
                    0 <= k < self.dirs@.len() ==> listed(
                        names@,
                        top_level_name((#[trigger] self.dirs@[k])@),
                    ),
                forall|k: int|
                    0 <= k < f ==> listed(names@, top_level_name((#[trigger] self.files@[k]).path@)),
                all_distinct(names@),
            decreases self.files.len() - f,
        {
            let ghost path = self.files@[f as int].path@;
            proof {
                lemma_last_write_exists(self.files@, path, f as int);
                assert(self.files().dom().contains(path));
                assert(self.stages(path));
            }
            add_name(&mut names, top_level_of(self.files[f].path.as_str()));
            f = f + 1;
        }
        assert forall|path: Seq<char>| #[trigger] self.stages(path) implies listed(
            names@,
            top_level_name(path),
        ) by {
            if self.dirs().contains(path) {
                let k = choose|k: int| dir_at(self.dirs@, path, k);
                assert(self.dirs@[k]@ == path);
            } else {
                let k = choose|k: int| last_write(self.files@, path, k);
                assert(self.files@[k].path@ == path);
            }
        }
        names
    }
}

/// The top-level name of `path`, as a string of its own.
pub fn top_level_of(path: &str) -> (name: String)
    ensures
        name@ == top_level_name(path@),
{
    let chars = chars_of(path);
    assert(chars@.subrange(0, chars@.len() as int) == chars@);
    match find_in_range(&chars, 0, chars.len(), '/') {
        Some(i) => {
            assert(path@.subrange(0, i as int) == path@.take(i as int));
            path.substring_char(0, i).to_owned()
        },
        None => path.to_owned(),
    }
}

/// Adds `name` to `names` unless it is there already.
fn add_name(names: &mut Vec<String>, name: String)
    requires
        all_distinct(old(names)@),
    ensures
        all_distinct(final(names)@),
        listed(final(names)@, name@),
        forall|other: Seq<char>| listed(old(names)@, other) ==> listed(final(names)@, other),
        forall|i: int|
            0 <= i < final(names)@.len() ==> listed(old(names)@, (#[trigger] final(names)@[i])@)
                || final(names)@[i]@ == name@,
{
    let mut k: usize = 0;
    while k < names.len()
        invariant
            k <= names@.len(),
            *names == *old(names),
            all_distinct(names@),
            forall|i: int| 0 <= i < k ==> (#[trigger] names@[i])@ != name@,
        decreases names.len() - k,
    {
        if str_eq(names[k].as_str(), name.as_str()) {
            return ;
        }
        k = k + 1;
    }
    let ghost before = names@;
    names.push(name);
    proof {
        assert(names@[before.len() as int]@ == name@);
        assert forall|other: Seq<char>| listed(before, other) implies listed(names@, other) by {
            let i = choose|i: int| 0 <= i < before.len() && (#[trigger] before[i])@ == other;
            assert(names@[i]@ == other);
        }
        assert forall|i: int| 0 <= i < names@.len() implies listed(before, (#[trigger] names@[i])@)
            || names@[i]@ == name@ by {
            if i < before.len() {
                assert(before[i]@ == names@[i]@);
            }
        }
    }
}

} // verus!

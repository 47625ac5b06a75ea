//! A filesystem that lives in memory.
//!
//! It holds what is known of a tree of files: what each path holds, or
//! that it holds nothing. A complete one knows its whole tree, so that a
//! path of which it knows nothing names no file; a test sets one up, or a
//! caller loads one from a directory that it owns. An observing one knows
//! only what it was told: asked about anything else it answers
//! `Unobserved`, and the caller looks at the host, records what it saw,
//! and asks again. What is written is kept, and listed as a change for
//! the caller to carry out.

use crate::error::Error;
use crate::error::Failure;
use crate::fs::host_path;
use crate::fs::host_pattern;
use crate::fs::Filesystem;
use crate::matching::glob_accepts;
use crate::matching::glob_compiles;
use crate::matching::glob_list;
use crate::matching::glob_lists;
use crate::matching::glob_match;
use crate::matching::is_glob;
use crate::path::is_absolute;
use crate::path::join;
use crate::path::joined;
use crate::path::path_is_absolute;
use crate::text::str_equal;
use vstd::prelude::*;
use vstd::slice::slice_to_vec;
use vstd::string::StringExecFns;

verus! {

/// What is known of one path: what the file there holds, or that there is
/// no file.
#[derive(Debug)]
pub struct Record {
    pub path: String,
    pub content: Option<Vec<u8>>,
}

impl DeepView for Record {
    type V = (Seq<char>, Option<Seq<u8>>);

    open spec fn deep_view(&self) -> (Seq<char>, Option<Seq<u8>>) {
        (
            self.path@,
            match self.content {
                Some(bytes) => Some(bytes@),
                None => None,
            },
        )
    }
}

/// What a glob pattern was seen to yield.
#[derive(Debug)]
pub struct Found {
    pub pattern: String,
    pub paths: Vec<String>,
}

impl DeepView for Found {
    type V = (Seq<char>, Seq<Seq<char>>);

    open spec fn deep_view(&self) -> (Seq<char>, Seq<Seq<char>>) {
        (self.pattern@, self.paths.deep_view())
    }
}

/// Something that was done to the files in memory, and is to be done to
/// the files of the host.
#[derive(Debug, PartialEq, Eq)]
pub enum Change {
    Write { path: String, content: Vec<u8> },
    Remove { path: String },
    Move { from_path: String, to_path: String },
    CreateDirectories { path: String },
    MarkExecutable { path: String },
}

/// A change, as contracts speak of it.
pub enum ChangeView {
    Write { path: Seq<char>, content: Seq<u8> },
    Remove { path: Seq<char> },
    Move { from_path: Seq<char>, to_path: Seq<char> },
    CreateDirectories { path: Seq<char> },
    MarkExecutable { path: Seq<char> },
}

impl DeepView for Change {
    type V = ChangeView;

    open spec fn deep_view(&self) -> ChangeView {
        match self {
            Change::Write { path, content } => ChangeView::Write {
                path: path@,
                content: content@,
            },
            Change::Remove { path } => ChangeView::Remove { path: path@ },
            Change::Move { from_path, to_path } => ChangeView::Move {
                from_path: from_path@,
                to_path: to_path@,
            },
            Change::CreateDirectories { path } => ChangeView::CreateDirectories { path: path@ },
            Change::MarkExecutable { path } => ChangeView::MarkExecutable { path: path@ },
        }
    }
}

/// Where the rest of `path` starts if it lies below `directory`: at its
/// beginning for the directory without a name, else behind the directory's
/// name and the `/` that follows it.
pub open spec fn below_at(directory: Seq<char>, path: Seq<char>) -> Option<int> {
    if directory.len() >= path.len() || path.take(directory.len() as int) != directory {
        None
    } else if directory.len() == 0 {
        Some(0)
    } else if directory.last() == '/' {
        Some(directory.len() as int)
    } else if path[directory.len() as int] == '/' {
        Some(directory.len() as int + 1)
    } else {
        None
    }
}

/// The records of the paths below the directory, each under what is left
/// of its path, in their order.
pub open spec fn records_below(
    records: Seq<(Seq<char>, Option<Seq<u8>>)>,
    directory: Seq<char>,
) -> Seq<(Seq<char>, Option<Seq<u8>>)>
    decreases records.len(),
{
    if records.len() == 0 {
        Seq::empty()
    } else {
        match below_at(directory, records.last().0) {
            Some(start) => records_below(records.drop_last(), directory).push(
                (records.last().0.skip(start), records.last().1),
            ),
            None => records_below(records.drop_last(), directory),
        }
    }
}

/// A path lies below a directory with a relative path left of it exactly
/// where it is the directory joined with that path.
pub proof fn lemma_below_is_joined(directory: Seq<char>, path: Seq<char>, rest: Seq<char>)
    requires
        rest.len() > 0,
        !is_absolute(rest),
    ensures
        (below_at(directory, path) matches Some(start) && path.skip(start) == rest) <==> path
            == joined(directory, rest),
{
    let n = directory.len() as int;
    if path == joined(directory, rest) {
        if n == 0 {
            assert(path.take(0) =~= directory);
            assert(path.skip(0) =~= rest);
        } else if directory.last() == '/' {
            assert(path.take(n) =~= directory);
            assert(path.skip(n) =~= rest);
        } else {
            assert(path.take(n) =~= directory);
            assert(path[n] == '/');
            assert(path.skip(n + 1) =~= rest);
        }
    }
    if below_at(directory, path) matches Some(start) && path.skip(start) == rest {
        let start = below_at(directory, path)->Some_0;
        if n == 0 {
            assert(path =~= path.skip(0));
        } else if directory.last() == '/' {
            assert(path =~= path.take(n) + path.skip(n));
        } else {
            assert(path =~= path.take(n) + seq!['/'] + path.skip(n + 1));
        }
    }
}

/// The records below a directory say of a relative path what the records
/// say of the directory joined with it.
pub proof fn lemma_known_below(
    records: Seq<(Seq<char>, Option<Seq<u8>>)>,
    directory: Seq<char>,
    rest: Seq<char>,
)
    requires
        rest.len() > 0,
        !is_absolute(rest),
    ensures
        known(records_below(records, directory), rest) == known(records, joined(directory, rest)),
    decreases records.len(),
{
    if records.len() > 0 {
        lemma_known_below(records.drop_last(), directory, rest);
        lemma_below_is_joined(directory, records.last().0, rest);
        match below_at(directory, records.last().0) {
            Some(start) => {
                let pushed = records_below(records.drop_last(), directory).push(
                    (records.last().0.skip(start), records.last().1),
                );
                assert(pushed.drop_last() =~= records_below(records.drop_last(), directory));
            },
            None => {},
        }
    }
}

/// What the records say of a path: the latest of them that speaks of it.
pub open spec fn known(records: Seq<(Seq<char>, Option<Seq<u8>>)>, path: Seq<char>) -> Option<
    Option<Seq<u8>>,
>
    decreases records.len(),
{
    if records.len() == 0 {
        None
    } else if records.last().0 == path {
        Some(records.last().1)
    } else {
        known(records.drop_last(), path)
    }
}

/// What the pattern was seen to yield: the latest finding for it.
pub open spec fn listed(findings: Seq<(Seq<char>, Seq<Seq<char>>)>, pattern: Seq<char>) -> Option<
    Seq<Seq<char>>,
>
    decreases findings.len(),
{
    if findings.len() == 0 {
        None
    } else if findings.last().0 == pattern {
        Some(findings.last().1)
    } else {
        listed(findings.drop_last(), pattern)
    }
}

/// Whether the records say that the path holds a file.
pub open spec fn holds_file(records: Seq<(Seq<char>, Option<Seq<u8>>)>, path: Seq<char>) -> bool {
    known(records, path) matches Some(Some(_))
}

/// The paths among the first `upto` records that hold a file and that the
/// pattern finds as it does when directories are listed: `*` stays within
/// one directory. They come in the order of the records; a path that was
/// written more than once occurs more than once.
pub open spec fn accepted_paths(
    records: Seq<(Seq<char>, Option<Seq<u8>>)>,
    upto: int,
    pattern: Seq<char>,
) -> Seq<Seq<char>>
    decreases upto,
{
    if upto <= 0 || upto > records.len() {
        Seq::empty()
    } else if records[upto - 1].1 is Some && holds_file(records, records[upto - 1].0)
        && glob_lists(pattern, records[upto - 1].0) {
        accepted_paths(records, upto - 1, pattern).push(records[upto - 1].0)
    } else {
        accepted_paths(records, upto - 1, pattern)
    }
}

/// The paths that the records speak of.
pub open spec fn recorded_paths(records: Seq<(Seq<char>, Option<Seq<u8>>)>) -> Seq<Seq<char>> {
    Seq::new(records.len(), |i: int| records[i].0)
}

/// The records say something only of paths that they speak of.
pub proof fn lemma_known_is_recorded(records: Seq<(Seq<char>, Option<Seq<u8>>)>, path: Seq<char>)
    ensures
        known(records, path) is Some ==> recorded_paths(records).contains(path),
    decreases records.len(),
{
    if records.len() > 0 {
        if records.last().0 == path {
            assert(recorded_paths(records)[records.len() - 1] == path);
        } else {
            lemma_known_is_recorded(records.drop_last(), path);
            if known(records.drop_last(), path) is Some {
                let i = choose|i: int|
                    0 <= i < records.drop_last().len() && recorded_paths(records.drop_last())[i]
                        == path;
                assert(recorded_paths(records)[i] == path);
            }
        }
    }
}

/// A filesystem in memory.
#[derive(Debug)]
pub struct MemoryFilesystem {
    working_directory: Option<String>,
    records: Vec<Record>,
    findings: Vec<Found>,
    complete: bool,
    changes: Vec<Change>,
}

impl MemoryFilesystem {
    /// What is known of the paths, latest last.
    pub closed spec fn records(&self) -> Seq<(Seq<char>, Option<Seq<u8>>)> {
        self.records.deep_view()
    }

    /// What patterns were seen to yield, latest last.
    pub closed spec fn findings(&self) -> Seq<(Seq<char>, Seq<Seq<char>>)> {
        self.findings.deep_view()
    }

    /// Whether the whole tree is known.
    pub closed spec fn is_complete(&self) -> bool {
        self.complete
    }

    /// What was done to the files and has not been handed out yet, in the
    /// order in which it was done.
    pub closed spec fn pending(&self) -> Seq<ChangeView> {
        self.changes.deep_view()
    }

    /// A complete filesystem without files.
    pub fn new(working_directory: Option<String>) -> (r: Self)
        ensures
            r.root() == working_directory.deep_view(),
            r.is_complete(),
            r.records() == Seq::<(Seq<char>, Option<Seq<u8>>)>::empty(),
            r.pending() == Seq::<ChangeView>::empty(),
            forall|path: Seq<char>| r.content(path) == Err::<Seq<u8>, Failure>(Failure::NotFound),
            forall|path: Seq<char>| r.has_file(path) == Ok::<bool, Failure>(false),
    {
        let r = Self {
            working_directory,
            records: Vec::new(),
            findings: Vec::new(),
            complete: true,
            changes: Vec::new(),
        };
        assert(r.records.deep_view() =~= Seq::empty());
        assert(r.changes.deep_view() =~= Seq::empty());
        r
    }

    /// An observing filesystem of which nothing is known yet.
    pub fn observing(working_directory: String) -> (r: Self)
        ensures
            r.root() == Some(working_directory@),
            !r.is_complete(),
            r.records() == Seq::<(Seq<char>, Option<Seq<u8>>)>::empty(),
            r.pending() == Seq::<ChangeView>::empty(),
            forall|path: Seq<char>| r.content(path) == Err::<Seq<u8>, Failure>(Failure::Unobserved),
            forall|path: Seq<char>| r.has_file(path) == Err::<bool, Failure>(Failure::Unobserved),
    {
        let r = Self {
            working_directory: Some(working_directory),
            records: Vec::new(),
            findings: Vec::new(),
            complete: false,
            changes: Vec::new(),
        };
        assert(r.records.deep_view() =~= Seq::empty());
        assert(r.changes.deep_view() =~= Seq::empty());
        r
    }

    /// Takes note that the file at the path holds the content. This is no
    /// change: it is what was there.
    pub fn record_file(&mut self, path: &str, content: &[u8])
        ensures
            final(self).content(path@) == Ok::<Seq<u8>, Failure>(content@),
            final(self).has_file(path@) == Ok::<bool, Failure>(true),
            forall|other: Seq<char>|
                other != path@ ==> final(self).content(other) == old(self).content(other)
                    && final(self).has_file(other) == old(self).has_file(other),
            forall|pattern: Seq<char>| !old(self).is_complete() ==> final(self).glob(pattern) == old(
                self,
            ).glob(pattern),
            final(self).root() == old(self).root(),
            final(self).is_complete() == old(self).is_complete(),
            final(self).pending() == old(self).pending(),
    {
        let ghost before = self.records.deep_view();
        let record = Record { path: path.to_owned(), content: Some(slice_to_vec(content)) };
        self.records.push(record);
        assert(self.records.deep_view() =~= before.push((path@, Some(content@))));
        assert(self.records.deep_view().drop_last() =~= before);
    }

    /// Takes note that there is no regular file at the path.
    pub fn record_missing(&mut self, path: &str)
        ensures
            final(self).content(path@) == Err::<Seq<u8>, Failure>(Failure::NotFound),
            final(self).has_file(path@) == Ok::<bool, Failure>(false),
            forall|other: Seq<char>|
                other != path@ ==> final(self).content(other) == old(self).content(other)
                    && final(self).has_file(other) == old(self).has_file(other),
            forall|pattern: Seq<char>| !old(self).is_complete() ==> final(self).glob(pattern) == old(
                self,
            ).glob(pattern),
            final(self).root() == old(self).root(),
            final(self).is_complete() == old(self).is_complete(),
            final(self).pending() == old(self).pending(),
    {
        let ghost before = self.records.deep_view();
        let record = Record { path: path.to_owned(), content: None };
        self.records.push(record);
        assert(self.records.deep_view() =~= before.push((path@, None)));
        assert(self.records.deep_view().drop_last() =~= before);
    }

    /// Takes note of the paths that a glob pattern yields.
    pub fn record_glob(&mut self, pattern: &str, paths: Vec<String>)
        ensures
            !old(self).is_complete() && glob_compiles(pattern@) ==> final(self).glob(pattern@) == Ok::<
                Seq<Seq<char>>,
                Failure,
            >(paths.deep_view()),
            forall|other: Seq<char>|
                other != pattern@ ==> final(self).glob(other) == old(self).glob(other),
            forall|path: Seq<char>|
                final(self).content(path) == old(self).content(path) && final(self).has_file(path)
                    == old(self).has_file(path),
            final(self).root() == old(self).root(),
            final(self).is_complete() == old(self).is_complete(),
            final(self).pending() == old(self).pending(),
    {
        let ghost before = self.findings.deep_view();
        let ghost shown = paths.deep_view();
        let finding = Found { pattern: pattern.to_owned(), paths };
        self.findings.push(finding);
        assert(self.findings.deep_view() =~= before.push((pattern@, shown)));
        assert(self.findings.deep_view().drop_last() =~= before);
    }

    /// Hands out what was done to the files since this was last asked, in
    /// the order in which it was done.
    pub fn take_changes(&mut self) -> (r: Vec<Change>)
        ensures
            r.deep_view() == old(self).pending(),
            final(self).pending() == Seq::<ChangeView>::empty(),
            forall|path: Seq<char>|
                final(self).content(path) == old(self).content(path) && final(self).has_file(path)
                    == old(self).has_file(path),
            forall|pattern: Seq<char>| final(self).glob(pattern) == old(self).glob(pattern),
            final(self).root() == old(self).root(),
            final(self).is_complete() == old(self).is_complete(),
    {
        let mut changes: Vec<Change> = Vec::new();
        assert(changes.deep_view() =~= Seq::empty());
        std::mem::swap(&mut changes, &mut self.changes);
        changes
    }

    /// What the records say of the path.
    fn look_up(&self, path: &str) -> (r: Option<Option<Vec<u8>>>)
        ensures
            match r {
                Some(Some(bytes)) => known(self.records(), path@) == Some(Some(bytes@)),
                Some(None) => known(self.records(), path@) == Some(None::<Seq<u8>>),
                None => known(self.records(), path@) is None,
            },
    {
        let ghost all = self.records.deep_view();
        let mut i: usize = self.records.len();
        assert(all.take(i as int) =~= all);
        while i > 0
            invariant
                0 <= i <= self.records.len(),
                all == self.records.deep_view(),
                known(all, path@) == known(all.take(i as int), path@),
            decreases i,
        {
            let ghost upto = all.take(i as int);
            assert(upto.last() == self.records[i - 1].deep_view());
            assert(upto.drop_last() =~= all.take(i - 1));
            i -= 1;
            if str_equal(self.records[i].path.as_str(), path) {
                return match &self.records[i].content {
                    Some(bytes) => Some(Some(slice_to_vec(bytes.as_slice()))),
                    None => Some(None),
                };
            }
        }
        None
    }

    /// Whether the records say that the path holds a file.
    fn holds(&self, path: &str) -> (r: Option<bool>)
        ensures
            match r {
                Some(found) => known(self.records(), path@) is Some && found == holds_file(
                    self.records(),
                    path@,
                ),
                None => known(self.records(), path@) is None,
            },
    {
        let ghost all = self.records.deep_view();
        let mut i: usize = self.records.len();
        assert(all.take(i as int) =~= all);
        while i > 0
            invariant
                0 <= i <= self.records.len(),
                all == self.records.deep_view(),
                known(all, path@) == known(all.take(i as int), path@),
            decreases i,
        {
            let ghost upto = all.take(i as int);
            assert(upto.last() == self.records[i - 1].deep_view());
            assert(upto.drop_last() =~= all.take(i - 1));
            i -= 1;
            if str_equal(self.records[i].path.as_str(), path) {
                return Some(self.records[i].content.is_some());
            }
        }
        None
    }

    /// Whether `path` lies below the directory `sub_directory`, and if so,
    /// where the rest of it starts.
    fn below(sub_directory: &str, path: &str) -> (r: Option<usize>)
        ensures
            r matches Some(start) ==> start <= path@.len(),
            match r {
                Some(start) => below_at(sub_directory@, path@) == Some(start as int),
                None => below_at(sub_directory@, path@) is None,
            },
    {
        let n = sub_directory.unicode_len();
        let m = path.unicode_len();
        if n >= m {
            return None;
        }
        let mut i: usize = 0;
        while i < n
            invariant
                0 <= i <= n < m,
                n == sub_directory@.len(),
                m == path@.len(),
                forall|k: int| 0 <= k < i ==> sub_directory@[k] == path@[k],
            decreases n - i,
        {
            if sub_directory.get_char(i) != path.get_char(i) {
                assert(path@.take(n as int)[i as int] != sub_directory@[i as int]);
                return None;
            }
            i += 1;
        }
        assert(path@.take(n as int) =~= sub_directory@);
        if n == 0 {
            return Some(0);
        }
        if sub_directory.get_char(n - 1) == '/' {
            return Some(n);
        }
        if path.get_char(n) == '/' {
            return Some(n + 1);
        }
        None
    }

    /// The pattern and the path as the host would match them.
    fn as_host_sees(&self, pattern: &str, path: &str) -> (r: (String, String))
        ensures
            match self.root() {
                Some(directory) => r.0@ == host_pattern(directory, pattern@) && r.1@ == host_path(
                    directory,
                    path@,
                ),
                None => r.0@ == pattern@ && r.1@ == path@,
            },
    {
        match &self.working_directory {
            None => (pattern.to_owned(), path.to_owned()),
            Some(directory) => {
                let full_pattern = if path_is_absolute(pattern) {
                    pattern.to_owned()
                } else {
                    let mut full = directory.clone();
                    proof {
                        reveal_strlit("/");
                    }
                    full.append("/");
                    assert("/"@ =~= seq!['/']);
                    full.append(pattern);
                    full
                };
                let full_path = if path_is_absolute(path) {
                    path.to_owned()
                } else {
                    join(directory.as_str(), path)
                };
                (full_pattern, full_path)
            },
        }
    }
}

impl Filesystem for MemoryFilesystem {
    closed spec fn root(&self) -> Option<Seq<char>> {
        self.working_directory.deep_view()
    }

    closed spec fn is_file(&self, path: Seq<char>) -> bool {
        holds_file(self.records.deep_view(), path)
    }

    closed spec fn has_file(&self, path: Seq<char>) -> Result<bool, Failure> {
        match known(self.records.deep_view(), path) {
            Some(state) => Ok(state is Some),
            None => if self.complete {
                Ok(false)
            } else {
                Err(Failure::Unobserved)
            },
        }
    }

    closed spec fn content(&self, path: Seq<char>) -> Result<Seq<u8>, Failure> {
        match known(self.records.deep_view(), path) {
            Some(Some(bytes)) => Ok(bytes),
            Some(None) => Err(Failure::NotFound),
            None => if self.complete {
                Err(Failure::NotFound)
            } else {
                Err(Failure::Unobserved)
            },
        }
    }

    closed spec fn glob(&self, pattern: Seq<char>) -> Result<Seq<Seq<char>>, Failure> {
        if !glob_compiles(pattern) {
            Err(Failure::MalformedPattern)
        } else if self.complete {
            Ok(accepted_paths(self.records.deep_view(), self.records.deep_view().len() as int, pattern))
        } else {
            match listed(self.findings.deep_view(), pattern) {
                Some(paths) => Ok(paths),
                None => Err(Failure::Unobserved),
            }
        }
    }

    closed spec fn glob_match(&self, pattern: Seq<char>, path: Seq<char>) -> Result<bool, Failure> {
        match self.working_directory.deep_view() {
            Some(directory) => if glob_compiles(host_pattern(directory, pattern)) {
                Ok(glob_accepts(host_pattern(directory, pattern), host_path(directory, path)))
            } else {
                Err(Failure::MalformedPattern)
            },
            None => if glob_compiles(pattern) {
                Ok(glob_accepts(pattern, path))
            } else {
                Err(Failure::MalformedPattern)
            },
        }
    }

    /// A directory of a tree in memory can always be gone below.
    open spec fn opens(&self, sub_directory: Seq<char>) -> Result<(), crate::error::ErrorView> {
        Ok(())
    }

    /// A tree in memory takes every write.
    open spec fn accepts(&self, path: Seq<char>, content: Seq<u8>) -> Result<(), Failure> {
        Ok(())
    }

    closed spec fn files(&self) -> Set<Seq<char>> {
        Set::new(|path: Seq<char>| holds_file(self.records.deep_view(), path))
    }

    proof fn files_are_finite(&self) {
        let recorded = recorded_paths(self.records.deep_view()).to_set();
        vstd::seq_lib::seq_to_set_is_finite(recorded_paths(self.records.deep_view()));
        assert(self.files().subset_of(recorded)) by {
            assert forall|path: Seq<char>| self.files().contains(path) implies recorded.contains(
                path,
            ) by {
                lemma_known_is_recorded(self.records.deep_view(), path);
            }
        }
        vstd::set_lib::lemma_len_subset(self.files(), recorded);
    }

    fn working_directory(&self) -> (r: Option<String>) {
        match &self.working_directory {
            Some(directory) => Some(directory.clone()),
            None => None,
        }
    }

    /// What is known of the files below the directory, each under what is
    /// left of its path.
    fn sub_system(&self, sub_directory: &str) -> (r: Result<Self, Error>)
        ensures
            r matches Ok(below) && below.records() == records_below(
                self.records(),
                sub_directory@,
            ) && below.root() == (match self.root() {
                Some(directory) => Some(joined(directory, sub_directory@)),
                None => None,
            }) && below.is_complete() == self.is_complete() && below.pending() == Seq::<
                ChangeView,
            >::empty(),
    {
        proof {
            assert forall|path: Seq<char>| path.len() > 0 && !is_absolute(path) implies known(
                records_below(self.records.deep_view(), sub_directory@),
                path,
            ) == known(self.records.deep_view(), joined(sub_directory@, path)) by {
                lemma_known_below(self.records.deep_view(), sub_directory@, path);
            }
        }
        let ghost all = self.records.deep_view();
        let mut records: Vec<Record> = Vec::new();
        let mut i: usize = 0;
        assert(all.take(0) =~= Seq::empty());
        assert(records.deep_view() =~= Seq::empty());
        while i < self.records.len()
            invariant
                0 <= i <= self.records.len(),
                all == self.records.deep_view(),
                records.deep_view() == records_below(all.take(i as int), sub_directory@),
            decreases self.records.len() - i,
        {
            let ghost upto = all.take(i + 1);
            let ghost shown = records.deep_view();
            assert(upto.drop_last() =~= all.take(i as int));
            assert(upto.last() == self.records[i as int].deep_view());
            let path = self.records[i].path.as_str();
            match Self::below(sub_directory, path) {
                Some(start) => {
                    let rest = path.substring_char(start, path.unicode_len());
                    assert(rest@ =~= path@.skip(start as int));
                    records.push(
                        Record {
                            path: rest.to_owned(),
                            content: match &self.records[i].content {
                                Some(bytes) => Some(slice_to_vec(bytes.as_slice())),
                                None => None,
                            },
                        },
                    );
                    assert(records.deep_view() =~= shown.push((rest@, upto.last().1)));
                },
                None => {},
            }
            i += 1;
        }
        assert(all.take(i as int) =~= all);
        let working_directory = match &self.working_directory {
            Some(directory) => Some(join(directory.as_str(), sub_directory)),
            None => None,
        };
        let below = Self {
            working_directory,
            records,
            findings: Vec::new(),
            complete: self.complete,
            changes: Vec::new(),
        };
        assert(below.changes.deep_view() =~= Seq::empty());
        Ok(below)
    }

    fn file_exists(&self, path: &str) -> (r: Result<bool, Failure>) {
        match self.holds(path) {
            Some(found) => Ok(found),
            None => {
                if self.complete {
                    Ok(false)
                } else {
                    Err(Failure::Unobserved)
                }
            },
        }
    }

    fn refresh(&mut self)
        ensures
            final(self).records() == if old(self).is_complete() {
                old(self).records()
            } else {
                Seq::<(Seq<char>, Option<Seq<u8>>)>::empty()
            },
            final(self).pending() == old(self).pending(),
            final(self).is_complete() == old(self).is_complete(),
            final(self).root() == old(self).root(),
    {
        if !self.complete {
            self.records.clear();
            self.findings.clear();
        }
    }

    fn read_file(&self, path: &str) -> (r: Result<Vec<u8>, Failure>) {
        match self.look_up(path) {
            Some(Some(bytes)) => Ok(bytes),
            Some(None) => Err(Failure::NotFound),
            None => {
                if self.complete {
                    Err(Failure::NotFound)
                } else {
                    Err(Failure::Unobserved)
                }
            },
        }
    }

    fn write_file(&mut self, path: &str, content: &[u8]) -> (r: Result<(), Failure>)
        ensures
            r is Ok,
            final(self).pending() == old(self).pending().push(
                ChangeView::Write { path: path@, content: content@ },
            ),
            final(self).is_complete() == old(self).is_complete(),
    {
        let ghost before = self.records.deep_view();
        let ghost done = self.changes.deep_view();
        self.records.push(Record { path: path.to_owned(), content: Some(slice_to_vec(content)) });
        assert(self.records.deep_view() =~= before.push((path@, Some(content@))));
        assert(self.records.deep_view().drop_last() =~= before);
        self.changes.push(Change::Write { path: path.to_owned(), content: slice_to_vec(content) });
        assert(self.changes.deep_view() =~= done.push(
            ChangeView::Write { path: path@, content: content@ },
        ));
        Ok(())
    }

    fn remove_file(&mut self, path: &str) -> (r: Result<(), Failure>)
        ensures
            r == (match old(self).has_file(path@) {
                Ok(found) => if found {
                    Ok(())
                } else {
                    Err(Failure::NotFound)
                },
                Err(failure) => Err(failure),
            }),
            final(self).pending() == if r is Ok {
                old(self).pending().push(ChangeView::Remove { path: path@ })
            } else {
                old(self).pending()
            },
            final(self).is_complete() == old(self).is_complete(),
    {
        match self.file_exists(path) {
            Err(failure) => Err(failure),
            Ok(found) => {
                if !found {
                    return Err(Failure::NotFound);
                }
                let ghost before = self.records.deep_view();
                let ghost done = self.changes.deep_view();
                self.records.push(Record { path: path.to_owned(), content: None });
                assert(self.records.deep_view() =~= before.push((path@, None)));
                assert(self.records.deep_view().drop_last() =~= before);
                self.changes.push(Change::Remove { path: path.to_owned() });
                assert(self.changes.deep_view() =~= done.push(ChangeView::Remove { path: path@ }));
                Ok(())
            },
        }
    }

    fn move_from_to(&mut self, from_path: &str, to_path: &str) -> (r: Result<(), Failure>)
        ensures
            r == (match old(self).content(from_path@) {
                Ok(_) => Ok(()),
                Err(failure) => Err(failure),
            }),
            final(self).pending() == if r is Ok {
                old(self).pending().push(
                    ChangeView::Move { from_path: from_path@, to_path: to_path@ },
                )
            } else {
                old(self).pending()
            },
            final(self).is_complete() == old(self).is_complete(),
    {
        let ghost done = self.changes.deep_view();
        let content = match self.read_file(from_path) {
            Ok(content) => content,
            Err(failure) => {
                return Err(failure);
            },
        };
        let ghost before = self.records.deep_view();
        self.records.push(Record { path: from_path.to_owned(), content: None });
        let ghost between = self.records.deep_view();
        assert(between =~= before.push((from_path@, None)));
        assert(between.drop_last() =~= before);
        let ghost bytes = content@;
        self.records.push(Record { path: to_path.to_owned(), content: Some(content) });
        assert(self.records.deep_view() =~= between.push((to_path@, Some(bytes))));
        assert(self.records.deep_view().drop_last() =~= between);
        proof {
            let after = self.records.deep_view();
            assert(known(between, from_path@) == Some(None::<Seq<u8>>));
            assert forall|other: Seq<char>| other != from_path@ && other != to_path@ implies known(
                after,
                other,
            ) == known(before, other) by {
                assert(known(between, other) == known(before, other));
            }
        }
        self.changes.push(
            Change::Move { from_path: from_path.to_owned(), to_path: to_path.to_owned() },
        );
        assert(self.changes.deep_view() =~= done.push(
            ChangeView::Move { from_path: from_path@, to_path: to_path@ },
        ));
        Ok(())
    }

    fn create_directories(&mut self, path: &str) -> (r: Result<(), Failure>)
        ensures
            r is Ok,
            final(self).pending() == old(self).pending().push(
                ChangeView::CreateDirectories { path: path@ },
            ),
            final(self).is_complete() == old(self).is_complete(),
    {
        let ghost done = self.changes.deep_view();
        self.changes.push(Change::CreateDirectories { path: path.to_owned() });
        assert(self.changes.deep_view() =~= done.push(
            ChangeView::CreateDirectories { path: path@ },
        ));
        Ok(())
    }

    fn mark_as_executable(&mut self, path: &str) -> (r: Result<(), Failure>)
        ensures
            r == (match old(self).has_file(path@) {
                Ok(found) => if found {
                    Ok(())
                } else {
                    Err(Failure::NotFound)
                },
                Err(failure) => Err(failure),
            }),
            final(self).pending() == if r is Ok {
                old(self).pending().push(ChangeView::MarkExecutable { path: path@ })
            } else {
                old(self).pending()
            },
            final(self).is_complete() == old(self).is_complete(),
    {
        match self.file_exists(path) {
            Err(failure) => Err(failure),
            Ok(found) => {
                if !found {
                    return Err(Failure::NotFound);
                }
                let ghost done = self.changes.deep_view();
                self.changes.push(Change::MarkExecutable { path: path.to_owned() });
                assert(self.changes.deep_view() =~= done.push(
                    ChangeView::MarkExecutable { path: path@ },
                ));
                Ok(())
            },
        }
    }

    fn execute_glob(&self, pattern: &str) -> (r: Result<Vec<String>, Failure>) {
        if !is_glob(pattern) {
            return Err(Failure::MalformedPattern);
        }
        if !self.complete {
            let ghost all = self.findings.deep_view();
            let mut i: usize = self.findings.len();
            assert(all.take(i as int) =~= all);
            while i > 0
                invariant
                    0 <= i <= self.findings.len(),
                    all == self.findings.deep_view(),
                    !self.complete,
                    glob_compiles(pattern@),
                    listed(all, pattern@) == listed(all.take(i as int), pattern@),
                decreases i,
            {
                let ghost upto = all.take(i as int);
                assert(upto.last() == self.findings[i - 1].deep_view());
                assert(upto.drop_last() =~= all.take(i - 1));
                i -= 1;
                if str_equal(self.findings[i].pattern.as_str(), pattern) {
                    return Ok(crate::canonical::copy_texts(&self.findings[i].paths));
                }
            }
            return Err(Failure::Unobserved);
        }
        let ghost records = self.records.deep_view();
        let mut paths: Vec<String> = Vec::new();
        let mut i: usize = 0;
        assert(paths.deep_view() =~= Seq::<Seq<char>>::empty());
        while i < self.records.len()
            invariant
                0 <= i <= self.records.len(),
                records == self.records.deep_view(),
                records == self.records(),
                glob_compiles(pattern@),
                paths.deep_view() == accepted_paths(records, i as int, pattern@),
            decreases self.records.len() - i,
        {
            assert(records[i as int] == self.records[i as int].deep_view());
            if self.records[i].content.is_some() {
                let path = self.records[i].path.as_str();
                let holds = match self.holds(path) {
                    Some(found) => found,
                    None => false,
                };
                if holds {
                    match glob_list(pattern, path) {
                        Some(accepted) => {
                            if accepted {
                                let ghost shown = paths.deep_view();
                                paths.push(self.records[i].path.clone());
                                assert(paths.deep_view() =~= shown.push(
                                    self.records[i as int].path@,
                                ));
                            }
                        },
                        None => {},
                    }
                }
            }
            i += 1;
        }
        Ok(paths)
    }

    fn glob_matches(&self, pattern: &str, path: &str) -> (r: Result<bool, Failure>) {
        let (full_pattern, full_path) = self.as_host_sees(pattern, path);
        match glob_match(full_pattern.as_str(), full_path.as_str()) {
            Some(accepted) => Ok(accepted),
            None => Err(Failure::MalformedPattern),
        }
    }
}

} // verus!

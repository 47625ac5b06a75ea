//! Input discovery: from a description of inputs to the files that belong
//! to a task.

use crate::error::Error;
use crate::error::ErrorView;
use crate::error::Failure;
use crate::error::Operation;
use crate::fs::Filesystem;
use crate::matching::regex_compiles;
use crate::matching::regex_matches;
use crate::matching::regex_replace;
use crate::path::joined;
use crate::matching::is_regular_expression;
use crate::matching::find_all;
use crate::matching::replace;
use crate::path::join;
use crate::sorted::lemma_put_all_text;
use crate::sorted::lemma_put_text;
use crate::sorted::lemma_strictly_ordered_unique;
use crate::sorted::put;
use crate::sorted::put_all;
use crate::sorted::put_by_key;
use crate::sorted::remove_by_key;
use crate::sorted::strictly_ordered;
use crate::sorted::without_all;
use crate::sorted::Keyed;
use crate::text::lines_of;
use crate::text::str_equal;
use crate::text::text_lines;
use crate::transport::Inputs;
use crate::transport::MatchTransform;
use vstd::prelude::*;

verus! {

/// Whether a description can never include a file: it lists none, has no
/// pattern that could find one, and the same holds of every description
/// that its rules scan instead of the files found.
pub open spec fn includes_none(config: Inputs) -> bool
    decreases config,
{
    &&& config.include_files@.len() == 0
    &&& config.include_globs@.len() == 0
    &&& forall|i: int|
        0 <= i < config.inter_file_references@.len() ==> match (
        #[trigger] config.inter_file_references@[i]).files_to_match {
            Some(sub) => includes_none(sub),
            None => true,
        }
}

/// Whether a description can never include a file.
pub fn surely_includes_none(config: &Inputs) -> (r: bool)
    ensures
        r == includes_none(*config),
    decreases config,
{
    if config.include_files.len() > 0 || config.include_globs.len() > 0 {
        return false;
    }
    let mut i: usize = 0;
    while i < config.inter_file_references.len()
        invariant
            0 <= i <= config.inter_file_references.len(),
            forall|k: int|
                0 <= k < i ==> match (#[trigger] config.inter_file_references@[k]).files_to_match {
                    Some(sub) => includes_none(sub),
                    None => true,
                },
        decreases config.inter_file_references.len() - i,
    {
        match &config.inter_file_references[i].files_to_match {
            Some(sub) => {
                if !surely_includes_none(sub) {
                    return false;
                }
            },
            None => {},
        }
        i += 1;
    }
    true
}

/// The error for a filesystem operation that failed.
pub open spec fn io_error(operation: Operation, path: Seq<char>, failure: Failure) -> ErrorView {
    ErrorView::Io { operation, path, failure }
}

/// Whether what a function returned is what the contract says: the same
/// paths, or the same error.
pub open spec fn same_paths(
    r: Result<Vec<String>, Error>,
    s: Result<Seq<Seq<char>>, ErrorView>,
) -> bool {
    match r {
        Ok(paths) => s == Ok::<Seq<Seq<char>>, ErrorView>(paths.deep_view()),
        Err(e) => s == Err::<Seq<Seq<char>>, ErrorView>(e@),
    }
}

/// Every path names a regular file.
pub open spec fn existing<F: Filesystem>(fs: F, paths: Seq<Seq<char>>) -> bool {
    forall|i: int| 0 <= i < paths.len() ==> fs.is_file(#[trigger] paths[i])
}

/// `after` holds what `before` holds, and beyond that only regular files.
pub open spec fn grown_by_files<F: Filesystem>(
    fs: F,
    before: Seq<Seq<char>>,
    after: Seq<Seq<char>>,
) -> bool {
    &&& forall|path: Seq<char>| before.contains(path) ==> after.contains(path)
    &&& forall|path: Seq<char>| after.contains(path) ==> before.contains(path) || fs.is_file(path)
}

/// The files, with what each of the patterns yields added, pattern by
/// pattern; the first pattern that fails is the error.
pub open spec fn with_globs<F: Filesystem>(
    fs: F,
    files: Seq<Seq<char>>,
    globs: Seq<Seq<char>>,
) -> Result<Seq<Seq<char>>, ErrorView>
    decreases globs.len(),
{
    if globs.len() == 0 {
        Ok(files)
    } else {
        match fs.glob(globs[0]) {
            Err(failure) => Err(io_error(Operation::Glob, globs[0], failure)),
            Ok(paths) => with_globs(fs, put_all::<String>(files, paths), globs.drop_first()),
        }
    }
}

/// The files, with what each of the patterns yields taken away, pattern by
/// pattern; the first pattern that fails is the error.
pub open spec fn without_globs<F: Filesystem>(
    fs: F,
    files: Seq<Seq<char>>,
    globs: Seq<Seq<char>>,
) -> Result<Seq<Seq<char>>, ErrorView>
    decreases globs.len(),
{
    if globs.len() == 0 {
        Ok(files)
    } else {
        match fs.glob(globs[0]) {
            Err(failure) => Err(io_error(Operation::Glob, globs[0], failure)),
            Ok(paths) => without_globs(fs, without_all::<String>(files, paths), globs.drop_first()),
        }
    }
}

/// The files that a description names outright: the listed files and what
/// the include patterns yield, without what the exclude patterns yield and
/// without the excluded files.
pub open spec fn seed<F: Filesystem>(fs: F, config: Inputs) -> Result<Seq<Seq<char>>, ErrorView> {
    let listed = put_all::<String>(Seq::empty(), config.include_files.deep_view());
    match with_globs(fs, listed, config.include_globs.deep_view()) {
        Err(e) => Err(e),
        Ok(included) => match without_globs(fs, included, config.exclude_globs.deep_view()) {
            Err(e) => Err(e),
            Ok(kept) => Ok(without_all::<String>(kept, config.exclude_files.deep_view())),
        },
    }
}

/// Whether one of the patterns from position `from` on accepts the path;
/// a pattern that cannot be asked before one accepts is the error.
pub open spec fn excluded_by_globs<F: Filesystem>(
    fs: F,
    globs: Seq<Seq<char>>,
    path: Seq<char>,
    from: int,
) -> Result<bool, ErrorView>
    decreases globs.len() - from,
{
    if from < 0 || from >= globs.len() {
        Ok(false)
    } else {
        match fs.glob_match(globs[from], path) {
            Err(failure) => Err(io_error(Operation::Glob, globs[from], failure)),
            Ok(accepted) => if accepted {
                Ok(true)
            } else {
                excluded_by_globs(fs, globs, path, from + 1)
            },
        }
    }
}

/// Whether a path is shallowly excluded: it is one of the excluded files,
/// or an exclude pattern accepts it. Nothing is scanned for this.
pub open spec fn shallowly_excluded<F: Filesystem>(fs: F, config: Inputs, path: Seq<char>) -> Result<
    bool,
    ErrorView,
> {
    if config.exclude_files.deep_view().contains(path) {
        Ok(true)
    } else {
        excluded_by_globs(fs, config.exclude_globs.deep_view(), path, 0)
    }
}

/// Whether a path that a file names is taken: it is a regular file and not
/// shallowly excluded.
pub open spec fn admitted<F: Filesystem>(fs: F, config: Inputs, path: Seq<char>) -> Result<
    bool,
    ErrorView,
> {
    match fs.has_file(path) {
        Err(failure) => Err(io_error(Operation::Exists, path, failure)),
        Ok(found) => if !found {
            Ok(false)
        } else {
            match shallowly_excluded(fs, config, path) {
                Err(e) => Err(e),
                Ok(excluded) => Ok(!excluded),
            }
        },
    }
}

/// The candidate as seen from the first directory, from position `from`
/// on, in which it is admitted.
pub open spec fn found_in<F: Filesystem>(
    fs: F,
    config: Inputs,
    directories: Seq<Seq<char>>,
    candidate: Seq<char>,
    from: int,
) -> Result<Option<Seq<char>>, ErrorView>
    decreases directories.len() - from,
{
    if from < 0 || from >= directories.len() {
        Ok(None)
    } else {
        match admitted(fs, config, joined(directories[from], candidate)) {
            Err(e) => Err(e),
            Ok(taken) => if taken {
                Ok(Some(joined(directories[from], candidate)))
            } else {
                found_in(fs, config, directories, candidate, from + 1)
            },
        }
    }
}

/// The path that a candidate stands for: with directories to search, the
/// candidate as seen from the first in which it is admitted; without, the
/// candidate itself where it is admitted.
pub open spec fn resolved<F: Filesystem>(
    fs: F,
    config: Inputs,
    directories: Option<Seq<Seq<char>>>,
    candidate: Seq<char>,
) -> Result<Option<Seq<char>>, ErrorView> {
    match directories {
        Some(given) => found_in(fs, config, given, candidate, 0),
        None => match admitted(fs, config, candidate) {
            Err(e) => Err(e),
            Ok(taken) => if taken {
                Ok(Some(candidate))
            } else {
                Ok(None)
            },
        },
    }
}

/// `found`, with the path that the candidate stands for, if any.
pub open spec fn with_candidate<F: Filesystem>(
    fs: F,
    config: Inputs,
    directories: Option<Seq<Seq<char>>>,
    found: Seq<Seq<char>>,
    candidate: Seq<char>,
) -> Result<Seq<Seq<char>>, ErrorView> {
    match resolved(fs, config, directories, candidate) {
        Err(e) => Err(e),
        Ok(Some(path)) => Ok(put::<String>(found, path)),
        Ok(None) => Ok(found),
    }
}

/// The error for a regular expression that does not compile.
pub open spec fn malformed(pattern: Seq<char>) -> ErrorView {
    ErrorView::MalformedRegularExpression { pattern }
}

/// `found`, with what one matched stretch names through each template.
pub open spec fn with_templates<F: Filesystem>(
    fs: F,
    config: Inputs,
    directories: Option<Seq<Seq<char>>>,
    found: Seq<Seq<char>>,
    pattern: Seq<char>,
    matched: Seq<char>,
    templates: Seq<Seq<char>>,
) -> Result<Seq<Seq<char>>, ErrorView>
    decreases templates.len(),
{
    if templates.len() == 0 {
        Ok(found)
    } else if !regex_compiles(pattern) {
        Err(malformed(pattern))
    } else {
        match with_candidate(
            fs,
            config,
            directories,
            found,
            regex_replace(pattern, matched, templates[0]),
        ) {
            Err(e) => Err(e),
            Ok(next) => with_templates(
                fs,
                config,
                directories,
                next,
                pattern,
                matched,
                templates.drop_first(),
            ),
        }
    }
}

/// `found`, with what each matched stretch names through each template.
pub open spec fn with_matches<F: Filesystem>(
    fs: F,
    config: Inputs,
    directories: Option<Seq<Seq<char>>>,
    found: Seq<Seq<char>>,
    pattern: Seq<char>,
    templates: Seq<Seq<char>>,
    stretches: Seq<Seq<char>>,
) -> Result<Seq<Seq<char>>, ErrorView>
    decreases stretches.len(),
{
    if stretches.len() == 0 {
        Ok(found)
    } else {
        match with_templates(fs, config, directories, found, pattern, stretches[0], templates) {
            Err(e) => Err(e),
            Ok(next) => with_matches(
                fs,
                config,
                directories,
                next,
                pattern,
                templates,
                stretches.drop_first(),
            ),
        }
    }
}

/// `found`, with what a line names through each of the transforms: every
/// match of a transform's expression in the line, through every template.
pub open spec fn with_line<F: Filesystem>(
    fs: F,
    config: Inputs,
    directories: Option<Seq<Seq<char>>>,
    found: Seq<Seq<char>>,
    transforms: Seq<MatchTransform>,
    line: Seq<char>,
) -> Result<Seq<Seq<char>>, ErrorView>
    decreases transforms.len(),
{
    if transforms.len() == 0 {
        Ok(found)
    } else if !regex_compiles(transforms[0].match_regular_expression@) {
        Err(malformed(transforms[0].match_regular_expression@))
    } else {
        match with_matches(
            fs,
            config,
            directories,
            found,
            transforms[0].match_regular_expression@,
            transforms[0].match_transform_expressions.deep_view(),
            regex_matches(transforms[0].match_regular_expression@, line),
        ) {
            Err(e) => Err(e),
            Ok(next) => with_line(fs, config, directories, next, transforms.drop_first(), line),
        }
    }
}

/// `found`, with what the lines name, line by line.
pub open spec fn with_lines<F: Filesystem>(
    fs: F,
    config: Inputs,
    directories: Option<Seq<Seq<char>>>,
    found: Seq<Seq<char>>,
    transforms: Seq<MatchTransform>,
    lines: Seq<Seq<char>>,
) -> Result<Seq<Seq<char>>, ErrorView>
    decreases lines.len(),
{
    if lines.len() == 0 {
        Ok(found)
    } else {
        match with_line(fs, config, directories, found, transforms, lines[0]) {
            Err(e) => Err(e),
            Ok(next) => with_lines(fs, config, directories, next, transforms, lines.drop_first()),
        }
    }
}

/// `found`, with what the lines of one file name. A file that cannot be
/// read, or that is no text, is an error.
pub open spec fn with_file<F: Filesystem>(
    fs: F,
    config: Inputs,
    directories: Option<Seq<Seq<char>>>,
    found: Seq<Seq<char>>,
    transforms: Seq<MatchTransform>,
    file: Seq<char>,
) -> Result<Seq<Seq<char>>, ErrorView> {
    match fs.content(file) {
        Err(failure) => Err(io_error(Operation::Read, file, failure)),
        Ok(bytes) => match text_lines(bytes) {
            None => Err(ErrorView::NotText { path: file }),
            Some(lines) => with_lines(fs, config, directories, found, transforms, lines),
        },
    }
}

/// `found`, with what the files name, file by file.
pub open spec fn with_files<F: Filesystem>(
    fs: F,
    config: Inputs,
    directories: Option<Seq<Seq<char>>>,
    found: Seq<Seq<char>>,
    transforms: Seq<MatchTransform>,
    files: Seq<Seq<char>>,
) -> Result<Seq<Seq<char>>, ErrorView>
    decreases files.len(),
{
    if files.len() == 0 {
        Ok(found)
    } else {
        match with_file(fs, config, directories, found, transforms, files[0]) {
            Err(e) => Err(e),
            Ok(next) => with_files(fs, config, directories, next, transforms, files.drop_first()),
        }
    }
}

/// The first expression, from position `from` on, that does not compile.
pub open spec fn first_malformed(transforms: Seq<MatchTransform>, from: int) -> Option<Seq<char>>
    decreases transforms.len() - from,
{
    if from < 0 || from >= transforms.len() {
        None
    } else if !regex_compiles(transforms[from].match_regular_expression@) {
        Some(transforms[from].match_regular_expression@)
    } else {
        first_malformed(transforms, from + 1)
    }
}

/// The files after one rule: the files, and what the scanned files name
/// through the rule's transforms. Scanned are the files that the rule's own
/// description discovers or, without one, the files themselves.
pub open spec fn clause_applied<F: Filesystem>(
    fs: F,
    config: Inputs,
    index: int,
    files: Seq<Seq<char>>,
) -> Result<Seq<Seq<char>>, ErrorView>
    decreases config, 0nat, 0nat,
{
    if 0 <= index < config.inter_file_references@.len() {
        let clause = config.inter_file_references@[index];
        let scanned = match clause.files_to_match {
            Some(sub) => discovered(fs, sub),
            None => Ok(files),
        };
        match scanned {
            Err(e) => Err(e),
            Ok(scanning) => match first_malformed(clause.match_transforms@, 0) {
                Some(pattern) => Err(malformed(pattern)),
                None => match with_files(
                    fs,
                    config,
                    clause.directories_to_search.deep_view(),
                    Seq::empty(),
                    clause.match_transforms@,
                    scanning,
                ) {
                    Err(e) => Err(e),
                    Ok(found) => Ok(put_all::<String>(files, found)),
                },
            },
        }
    } else {
        Ok(files)
    }
}

/// The files after the rules from position `from` on, one after the other.
pub open spec fn clauses_applied<F: Filesystem>(
    fs: F,
    config: Inputs,
    from: int,
    files: Seq<Seq<char>>,
) -> Result<Seq<Seq<char>>, ErrorView>
    decreases config, 1nat, config.inter_file_references@.len() - from,
{
    if 0 <= from < config.inter_file_references@.len() {
        match clause_applied(fs, config, from, files) {
            Err(e) => Err(e),
            Ok(next) => clauses_applied(fs, config, from + 1, next),
        }
    } else {
        Ok(files)
    }
}

/// The files after rounds of all rules, until a round adds no file. `fuel`
/// bounds the rounds; a filesystem has no more files than
/// `discovered` allows rounds, so the bound is never what ends them.
pub open spec fn closed<F: Filesystem>(
    fs: F,
    config: Inputs,
    files: Seq<Seq<char>>,
    fuel: nat,
) -> Result<Seq<Seq<char>>, ErrorView>
    decreases config, 2nat, fuel,
{
    match clauses_applied(fs, config, 0, files) {
        Err(e) => Err(e),
        Ok(next) => if next.len() <= files.len() || fuel == 0 {
            Ok(next)
        } else {
            closed(fs, config, next, (fuel - 1) as nat)
        },
    }
}

/// The files that belong to a task: those that the description names
/// outright, closed under its rules.
pub open spec fn discovered<F: Filesystem>(fs: F, config: Inputs) -> Result<
    Seq<Seq<char>>,
    ErrorView,
>
    decreases config, 3nat, 0nat,
{
    match seed(fs, config) {
        Err(e) => Err(e),
        Ok(files) => closed(fs, config, files, fs.files().len()),
    }
}

/// Whether the text is among the items.
pub(crate) fn contains_text(items: &Vec<String>, text: &str) -> (r: bool)
    ensures
        r == items.deep_view().contains(text@),
{
    let mut i: usize = 0;
    while i < items.len()
        invariant
            0 <= i <= items.len(),
            forall|k: int| 0 <= k < i ==> items.deep_view()[k] != text@,
        decreases items.len() - i,
    {
        assert(items.deep_view()[i as int] == items[i as int]@);
        if str_equal(items[i].as_str(), text) {
            return true;
        }
        i += 1;
    }
    false
}

/// Adds every text to files in strict order.
pub(crate) fn put_all_texts(files: Vec<String>, texts: &Vec<String>) -> (r: Vec<String>)
    ensures
        r.deep_view() == put_all::<String>(files.deep_view(), texts.deep_view()),
{
    let ghost start = files.deep_view();
    let mut current = files;
    let ghost all = texts.deep_view();
    let mut i: usize = 0;
    assert(all.take(0) =~= Seq::empty());
    while i < texts.len()
        invariant
            start == files.deep_view(),
            0 <= i <= texts.len(),
            all == texts.deep_view(),
            current.deep_view() == put_all::<String>(start, all.take(i as int)),
        decreases texts.len() - i,
    {
        assert(all.take(i + 1).drop_last() =~= all.take(i as int));
        assert(all.take(i + 1).last() == texts[i as int]@);
        let text = texts[i].clone();
        put_by_key(&mut current, text);
        i += 1;
    }
    assert(all.take(i as int) =~= all);
    current
}

/// Takes every text away from files.
fn remove_all_texts(files: Vec<String>, texts: &Vec<String>) -> (r: Vec<String>)
    ensures
        r.deep_view() == without_all::<String>(files.deep_view(), texts.deep_view()),
{
    let ghost start = files.deep_view();
    let mut current = files;
    let ghost all = texts.deep_view();
    let mut i: usize = 0;
    assert(all.take(0) =~= Seq::empty());
    while i < texts.len()
        invariant
            start == files.deep_view(),
            0 <= i <= texts.len(),
            all == texts.deep_view(),
            current.deep_view() == without_all::<String>(start, all.take(i as int)),
        decreases texts.len() - i,
    {
        assert(all.take(i + 1).drop_last() =~= all.take(i as int));
        assert(all.take(i + 1).last() == texts[i as int]@);
        remove_by_key(&mut current, &texts[i]);
        i += 1;
    }
    assert(all.take(i as int) =~= all);
    current
}

/// Adds what each pattern yields.
fn add_globs<F: Filesystem>(fs: &F, files: Vec<String>, globs: &Vec<String>) -> (r: Result<
    Vec<String>,
    Error,
>)
    ensures
        same_paths(r, with_globs(*fs, files.deep_view(), globs.deep_view())),
{
    let ghost start = files.deep_view();
    let mut current = files;
    let ghost all = globs.deep_view();
    let mut i: usize = 0;
    assert(all.skip(0) =~= all);
    while i < globs.len()
        invariant
            start == files.deep_view(),
            0 <= i <= globs.len(),
            all == globs.deep_view(),
            with_globs(*fs, start, all) == with_globs(*fs, current.deep_view(), all.skip(i as int)),
        decreases globs.len() - i,
    {
        assert(all.skip(i as int)[0] == globs[i as int]@);
        assert(all.skip(i as int).drop_first() =~= all.skip(i + 1));
        match fs.execute_glob(globs[i].as_str()) {
            Err(failure) => {
                return Err(
                    Error::Io { operation: Operation::Glob, path: globs[i].clone(), failure },
                );
            },
            Ok(paths) => {
                current = put_all_texts(current, &paths);
            },
        }
        i += 1;
    }
    Ok(current)
}

/// Takes away what each pattern yields.
fn remove_globs<F: Filesystem>(fs: &F, files: Vec<String>, globs: &Vec<String>) -> (r: Result<
    Vec<String>,
    Error,
>)
    ensures
        same_paths(r, without_globs(*fs, files.deep_view(), globs.deep_view())),
{
    let ghost start = files.deep_view();
    let mut current = files;
    let ghost all = globs.deep_view();
    let mut i: usize = 0;
    assert(all.skip(0) =~= all);
    while i < globs.len()
        invariant
            start == files.deep_view(),
            0 <= i <= globs.len(),
            all == globs.deep_view(),
            without_globs(*fs, start, all) == without_globs(
                *fs,
                current.deep_view(),
                all.skip(i as int),
            ),
        decreases globs.len() - i,
    {
        assert(all.skip(i as int)[0] == globs[i as int]@);
        assert(all.skip(i as int).drop_first() =~= all.skip(i + 1));
        match fs.execute_glob(globs[i].as_str()) {
            Err(failure) => {
                return Err(
                    Error::Io { operation: Operation::Glob, path: globs[i].clone(), failure },
                );
            },
            Ok(paths) => {
                current = remove_all_texts(current, &paths);
            },
        }
        i += 1;
    }
    Ok(current)
}

/// The files that a description names outright, in strict order.
fn seed_files<F: Filesystem>(fs: &F, config: &Inputs) -> (r: Result<Vec<String>, Error>)
    ensures
        same_paths(r, seed(*fs, *config)),
        r matches Ok(files) ==> strictly_ordered::<String>(files.deep_view()),
{
    let none: Vec<String> = Vec::new();
    assert(none.deep_view() =~= Seq::<Seq<char>>::empty());
    let listed = put_all_texts(none, &config.include_files);
    proof {
        lemma_put_all_text(Seq::empty(), config.include_files.deep_view());
    }
    let included = match add_globs(fs, listed, &config.include_globs) {
        Ok(included) => included,
        Err(e) => {
            return Err(e);
        },
    };
    proof {
        lemma_with_globs_ordered(*fs, listed.deep_view(), config.include_globs.deep_view());
    }
    let kept = match remove_globs(fs, included, &config.exclude_globs) {
        Ok(kept) => kept,
        Err(e) => {
            return Err(e);
        },
    };
    proof {
        lemma_without_globs_ordered(*fs, included.deep_view(), config.exclude_globs.deep_view());
        crate::sorted::lemma_without_all::<String>(
            kept.deep_view(),
            config.exclude_files.deep_view(),
        );
    }
    Ok(remove_all_texts(kept, &config.exclude_files))
}

proof fn lemma_with_globs_ordered<F: Filesystem>(
    fs: F,
    files: Seq<Seq<char>>,
    globs: Seq<Seq<char>>,
)
    requires
        strictly_ordered::<String>(files),
    ensures
        with_globs(fs, files, globs) matches Ok(next) ==> strictly_ordered::<String>(next),
    decreases globs.len(),
{
    if globs.len() > 0 {
        match fs.glob(globs[0]) {
            Err(_) => {},
            Ok(paths) => {
                lemma_put_all_text(files, paths);
                lemma_with_globs_ordered(fs, put_all::<String>(files, paths), globs.drop_first());
            },
        }
    }
}

proof fn lemma_without_globs_ordered<F: Filesystem>(
    fs: F,
    files: Seq<Seq<char>>,
    globs: Seq<Seq<char>>,
)
    requires
        strictly_ordered::<String>(files),
    ensures
        without_globs(fs, files, globs) matches Ok(next) ==> strictly_ordered::<String>(next),
    decreases globs.len(),
{
    if globs.len() > 0 {
        match fs.glob(globs[0]) {
            Err(_) => {},
            Ok(paths) => {
                crate::sorted::lemma_without_all::<String>(files, paths);
                lemma_without_globs_ordered(
                    fs,
                    without_all::<String>(files, paths),
                    globs.drop_first(),
                );
            },
        }
    }
}

/// Whether a path is shallowly excluded: it is one of the excluded files,
/// or an exclude pattern accepts it. This test looks at the description
/// alone, not at what its rules would find.
pub fn is_shallowly_excluded<F: Filesystem>(fs: &F, config: &Inputs, path: &str) -> (r: Result<
    bool,
    Error,
>)
    ensures
        match r {
            Ok(excluded) => shallowly_excluded(*fs, *config, path@) == Ok::<bool, ErrorView>(
                excluded,
            ),
            Err(e) => shallowly_excluded(*fs, *config, path@) == Err::<bool, ErrorView>(e@),
        },
{
    if contains_text(&config.exclude_files, path) {
        return Ok(true);
    }
    let ghost globs = config.exclude_globs.deep_view();
    let mut i: usize = 0;
    while i < config.exclude_globs.len()
        invariant
            0 <= i <= config.exclude_globs.len(),
            globs == config.exclude_globs.deep_view(),
            !config.exclude_files.deep_view().contains(path@),
            excluded_by_globs(*fs, globs, path@, 0) == excluded_by_globs(*fs, globs, path@, i as int),
        decreases config.exclude_globs.len() - i,
    {
        assert(globs[i as int] == config.exclude_globs[i as int]@);
        match fs.glob_matches(config.exclude_globs[i].as_str(), path) {
            Err(failure) => {
                return Err(
                    Error::Io {
                        operation: Operation::Glob,
                        path: config.exclude_globs[i].clone(),
                        failure,
                    },
                );
            },
            Ok(accepted) => {
                if accepted {
                    return Ok(true);
                }
            },
        }
        i += 1;
    }
    Ok(false)
}

/// Whether a path that a file names is taken.
fn admits<F: Filesystem>(fs: &F, config: &Inputs, path: &str) -> (r: Result<bool, Error>)
    ensures
        match r {
            Ok(taken) => admitted(*fs, *config, path@) == Ok::<bool, ErrorView>(taken),
            Err(e) => admitted(*fs, *config, path@) == Err::<bool, ErrorView>(e@),
        },
        r matches Ok(taken) ==> (taken ==> fs.is_file(path@)),
{
    proof {
        fs.files_are_finite();
    }
    match fs.file_exists(path) {
        Err(failure) => {
            return Err(Error::Io { operation: Operation::Exists, path: path.to_owned(), failure });
        },
        Ok(found) => {
            if !found {
                return Ok(false);
            }
        },
    }
    match is_shallowly_excluded(fs, config, path) {
        Err(e) => Err(e),
        Ok(excluded) => Ok(!excluded),
    }
}

/// The path that a candidate stands for, if any.
fn resolve<F: Filesystem>(
    fs: &F,
    config: &Inputs,
    directories: &Option<Vec<String>>,
    candidate: &str,
) -> (r: Result<Option<String>, Error>)
    ensures
        match r {
            Ok(path) => resolved(*fs, *config, directories.deep_view(), candidate@) == Ok::<
                Option<Seq<char>>,
                ErrorView,
            >(path.deep_view()),
            Err(e) => resolved(*fs, *config, directories.deep_view(), candidate@) == Err::<
                Option<Seq<char>>,
                ErrorView,
            >(e@),
        },
        r matches Ok(Some(path)) ==> fs.is_file(path@),
{
    match directories {
        None => {
            match admits(fs, config, candidate) {
                Err(e) => Err(e),
                Ok(taken) => {
                    if taken {
                        Ok(Some(candidate.to_owned()))
                    } else {
                        Ok(None)
                    }
                },
            }
        },
        Some(given) => {
            let ghost all = given.deep_view();
            let mut i: usize = 0;
            while i < given.len()
                invariant
                    0 <= i <= given.len(),
                    all == given.deep_view(),
                    directories.deep_view() == Some(all),
                    found_in(*fs, *config, all, candidate@, 0) == found_in(
                        *fs,
                        *config,
                        all,
                        candidate@,
                        i as int,
                    ),
                decreases given.len() - i,
            {
                assert(all[i as int] == given[i as int]@);
                let path = join(given[i].as_str(), candidate);
                match admits(fs, config, path.as_str()) {
                    Err(e) => {
                        return Err(e);
                    },
                    Ok(taken) => {
                        if taken {
                            return Ok(Some(path));
                        }
                    },
                }
                i += 1;
            }
            Ok(None)
        },
    }
}

/// Adds the path that a candidate stands for, if any.
fn add_candidate<F: Filesystem>(
    fs: &F,
    config: &Inputs,
    directories: &Option<Vec<String>>,
    found: Vec<String>,
    candidate: &str,
) -> (r: Result<Vec<String>, Error>)
    requires
        strictly_ordered::<String>(found.deep_view()),
        existing(*fs, found.deep_view()),
    ensures
        same_paths(
            r,
            with_candidate(*fs, *config, directories.deep_view(), found.deep_view(), candidate@),
        ),
        r matches Ok(next) ==> strictly_ordered::<String>(next.deep_view()) && existing(
            *fs,
            next.deep_view(),
        ),
{
    match resolve(fs, config, directories, candidate) {
        Err(e) => Err(e),
        Ok(None) => Ok(found),
        Ok(Some(path)) => {
            let mut found = found;
            let ghost before = found.deep_view();
            let ghost added = path@;
            put_by_key(&mut found, path);
            proof {
                lemma_put_text(before, added);
                let after = found.deep_view();
                assert forall|i: int| 0 <= i < after.len() implies fs.is_file(
                    #[trigger] after[i],
                ) by {
                    assert(after.contains(after[i]));
                    if after[i] != added {
                        let k = choose|k: int| 0 <= k < before.len() && before[k] == after[i];
                    }
                }
            }
            Ok(found)
        },
    }
}

/// Adds what one matched stretch names through each template.
fn add_templates<F: Filesystem>(
    fs: &F,
    config: &Inputs,
    directories: &Option<Vec<String>>,
    found: Vec<String>,
    pattern: &str,
    matched: &str,
    templates: &Vec<String>,
) -> (r: Result<Vec<String>, Error>)
    requires
        strictly_ordered::<String>(found.deep_view()),
        existing(*fs, found.deep_view()),
    ensures
        same_paths(
            r,
            with_templates(
                *fs,
                *config,
                directories.deep_view(),
                found.deep_view(),
                pattern@,
                matched@,
                templates.deep_view(),
            ),
        ),
        r matches Ok(next) ==> strictly_ordered::<String>(next.deep_view()) && existing(
            *fs,
            next.deep_view(),
        ),
{
    let ghost start = found.deep_view();
    let mut sofar = found;
    let ghost all = templates.deep_view();
    let ghost dirs = directories.deep_view();
    let mut i: usize = 0;
    assert(all.skip(0) =~= all);
    while i < templates.len()
        invariant
            start == found.deep_view(),
            0 <= i <= templates.len(),
            all == templates.deep_view(),
            dirs == directories.deep_view(),
            strictly_ordered::<String>(sofar.deep_view()),
            existing(*fs, sofar.deep_view()),
            with_templates(*fs, *config, dirs, start, pattern@, matched@, all) == with_templates(
                *fs,
                *config,
                dirs,
                sofar.deep_view(),
                pattern@,
                matched@,
                all.skip(i as int),
            ),
        decreases templates.len() - i,
    {
        assert(all.skip(i as int)[0] == templates[i as int]@);
        assert(all.skip(i as int).drop_first() =~= all.skip(i + 1));
        let candidate = match replace(pattern, matched, templates[i].as_str()) {
            Some(candidate) => candidate,
            None => {
                return Err(Error::MalformedRegularExpression { pattern: pattern.to_owned() });
            },
        };
        match add_candidate(fs, config, directories, sofar, candidate.as_str()) {
            Err(e) => {
                return Err(e);
            },
            Ok(next) => {
                sofar = next;
            },
        }
        i += 1;
    }
    Ok(sofar)
}

/// Adds what each matched stretch names through each template.
fn add_matches<F: Filesystem>(
    fs: &F,
    config: &Inputs,
    directories: &Option<Vec<String>>,
    found: Vec<String>,
    pattern: &str,
    templates: &Vec<String>,
    stretches: &Vec<String>,
) -> (r: Result<Vec<String>, Error>)
    requires
        strictly_ordered::<String>(found.deep_view()),
        existing(*fs, found.deep_view()),
    ensures
        same_paths(
            r,
            with_matches(
                *fs,
                *config,
                directories.deep_view(),
                found.deep_view(),
                pattern@,
                templates.deep_view(),
                stretches.deep_view(),
            ),
        ),
        r matches Ok(next) ==> strictly_ordered::<String>(next.deep_view()) && existing(
            *fs,
            next.deep_view(),
        ),
{
    let ghost start = found.deep_view();
    let mut sofar = found;
    let ghost all = stretches.deep_view();
    let ghost dirs = directories.deep_view();
    let mut i: usize = 0;
    assert(all.skip(0) =~= all);
    while i < stretches.len()
        invariant
            start == found.deep_view(),
            0 <= i <= stretches.len(),
            all == stretches.deep_view(),
            dirs == directories.deep_view(),
            strictly_ordered::<String>(sofar.deep_view()),
            existing(*fs, sofar.deep_view()),
            with_matches(*fs, *config, dirs, start, pattern@, templates.deep_view(), all)
                == with_matches(
                *fs,
                *config,
                dirs,
                sofar.deep_view(),
                pattern@,
                templates.deep_view(),
                all.skip(i as int),
            ),
        decreases stretches.len() - i,
    {
        assert(all.skip(i as int)[0] == stretches[i as int]@);
        assert(all.skip(i as int).drop_first() =~= all.skip(i + 1));
        match add_templates(
            fs,
            config,
            directories,
            sofar,
            pattern,
            stretches[i].as_str(),
            templates,
        ) {
            Err(e) => {
                return Err(e);
            },
            Ok(next) => {
                sofar = next;
            },
        }
        i += 1;
    }
    Ok(sofar)
}

/// Adds what a line names through each of the transforms.
fn add_line<F: Filesystem>(
    fs: &F,
    config: &Inputs,
    directories: &Option<Vec<String>>,
    found: Vec<String>,
    transforms: &Vec<MatchTransform>,
    line: &str,
) -> (r: Result<Vec<String>, Error>)
    requires
        strictly_ordered::<String>(found.deep_view()),
        existing(*fs, found.deep_view()),
    ensures
        same_paths(
            r,
            with_line(
                *fs,
                *config,
                directories.deep_view(),
                found.deep_view(),
                transforms@,
                line@,
            ),
        ),
        r matches Ok(next) ==> strictly_ordered::<String>(next.deep_view()) && existing(
            *fs,
            next.deep_view(),
        ),
{
    let ghost start = found.deep_view();
    let mut sofar = found;
    let ghost all = transforms@;
    let ghost dirs = directories.deep_view();
    let mut i: usize = 0;
    assert(all.skip(0) =~= all);
    while i < transforms.len()
        invariant
            start == found.deep_view(),
            0 <= i <= transforms.len(),
            all == transforms@,
            dirs == directories.deep_view(),
            strictly_ordered::<String>(sofar.deep_view()),
            existing(*fs, sofar.deep_view()),
            with_line(*fs, *config, dirs, start, all, line@) == with_line(
                *fs,
                *config,
                dirs,
                sofar.deep_view(),
                all.skip(i as int),
                line@,
            ),
        decreases transforms.len() - i,
    {
        assert(all.skip(i as int)[0] == transforms[i as int]);
        assert(all.skip(i as int).drop_first() =~= all.skip(i + 1));
        let transform = &transforms[i];
        let stretches = match find_all(transform.match_regular_expression.as_str(), line) {
            Some(stretches) => stretches,
            None => {
                return Err(
                    Error::MalformedRegularExpression {
                        pattern: transform.match_regular_expression.clone(),
                    },
                );
            },
        };
        match add_matches(
            fs,
            config,
            directories,
            sofar,
            transform.match_regular_expression.as_str(),
            &transform.match_transform_expressions,
            &stretches,
        ) {
            Err(e) => {
                return Err(e);
            },
            Ok(next) => {
                sofar = next;
            },
        }
        i += 1;
    }
    Ok(sofar)
}

/// Adds what the lines name, line by line.
fn add_lines<F: Filesystem>(
    fs: &F,
    config: &Inputs,
    directories: &Option<Vec<String>>,
    found: Vec<String>,
    transforms: &Vec<MatchTransform>,
    lines: &Vec<String>,
) -> (r: Result<Vec<String>, Error>)
    requires
        strictly_ordered::<String>(found.deep_view()),
        existing(*fs, found.deep_view()),
    ensures
        same_paths(
            r,
            with_lines(
                *fs,
                *config,
                directories.deep_view(),
                found.deep_view(),
                transforms@,
                lines.deep_view(),
            ),
        ),
        r matches Ok(next) ==> strictly_ordered::<String>(next.deep_view()) && existing(
            *fs,
            next.deep_view(),
        ),
{
    let ghost start = found.deep_view();
    let mut sofar = found;
    let ghost all = lines.deep_view();
    let ghost dirs = directories.deep_view();
    let mut i: usize = 0;
    assert(all.skip(0) =~= all);
    while i < lines.len()
        invariant
            start == found.deep_view(),
            0 <= i <= lines.len(),
            all == lines.deep_view(),
            dirs == directories.deep_view(),
            strictly_ordered::<String>(sofar.deep_view()),
            existing(*fs, sofar.deep_view()),
            with_lines(*fs, *config, dirs, start, transforms@, all) == with_lines(
                *fs,
                *config,
                dirs,
                sofar.deep_view(),
                transforms@,
                all.skip(i as int),
            ),
        decreases lines.len() - i,
    {
        assert(all.skip(i as int)[0] == lines[i as int]@);
        assert(all.skip(i as int).drop_first() =~= all.skip(i + 1));
        match add_line(fs, config, directories, sofar, transforms, lines[i].as_str()) {
            Err(e) => {
                return Err(e);
            },
            Ok(next) => {
                sofar = next;
            },
        }
        i += 1;
    }
    Ok(sofar)
}

/// Adds what the lines of one file name.
fn add_file<F: Filesystem>(
    fs: &F,
    config: &Inputs,
    directories: &Option<Vec<String>>,
    found: Vec<String>,
    transforms: &Vec<MatchTransform>,
    file: &str,
) -> (r: Result<Vec<String>, Error>)
    requires
        strictly_ordered::<String>(found.deep_view()),
        existing(*fs, found.deep_view()),
    ensures
        same_paths(
            r,
            with_file(
                *fs,
                *config,
                directories.deep_view(),
                found.deep_view(),
                transforms@,
                file@,
            ),
        ),
        r matches Ok(next) ==> strictly_ordered::<String>(next.deep_view()) && existing(
            *fs,
            next.deep_view(),
        ),
{
    let bytes = match fs.read_file(file) {
        Ok(bytes) => bytes,
        Err(failure) => {
            return Err(Error::Io { operation: Operation::Read, path: file.to_owned(), failure });
        },
    };
    match lines_of(&bytes) {
        None => Err(Error::NotText { path: file.to_owned() }),
        Some(lines) => add_lines(fs, config, directories, found, transforms, &lines),
    }
}

/// Adds what the files name, file by file.
fn add_files<F: Filesystem>(
    fs: &F,
    config: &Inputs,
    directories: &Option<Vec<String>>,
    found: Vec<String>,
    transforms: &Vec<MatchTransform>,
    files: &Vec<String>,
) -> (r: Result<Vec<String>, Error>)
    requires
        strictly_ordered::<String>(found.deep_view()),
        existing(*fs, found.deep_view()),
    ensures
        same_paths(
            r,
            with_files(
                *fs,
                *config,
                directories.deep_view(),
                found.deep_view(),
                transforms@,
                files.deep_view(),
            ),
        ),
        r matches Ok(next) ==> strictly_ordered::<String>(next.deep_view()) && existing(
            *fs,
            next.deep_view(),
        ),
{
    let ghost start = found.deep_view();
    let mut sofar = found;
    let ghost all = files.deep_view();
    let ghost dirs = directories.deep_view();
    let mut i: usize = 0;
    assert(all.skip(0) =~= all);
    while i < files.len()
        invariant
            start == found.deep_view(),
            0 <= i <= files.len(),
            all == files.deep_view(),
            dirs == directories.deep_view(),
            strictly_ordered::<String>(sofar.deep_view()),
            existing(*fs, sofar.deep_view()),
            with_files(*fs, *config, dirs, start, transforms@, all) == with_files(
                *fs,
                *config,
                dirs,
                sofar.deep_view(),
                transforms@,
                all.skip(i as int),
            ),
        decreases files.len() - i,
    {
        assert(all.skip(i as int)[0] == files[i as int]@);
        assert(all.skip(i as int).drop_first() =~= all.skip(i + 1));
        match add_file(fs, config, directories, sofar, transforms, files[i].as_str()) {
            Err(e) => {
                return Err(e);
            },
            Ok(next) => {
                sofar = next;
            },
        }
        i += 1;
    }
    Ok(sofar)
}

/// The first expression that does not compile, as an error.
pub(crate) fn check_transforms(transforms: &Vec<MatchTransform>) -> (r: Result<(), Error>)
    ensures
        match r {
            Ok(_) => first_malformed(transforms@, 0) is None,
            Err(e) => first_malformed(transforms@, 0) matches Some(pattern) && e@ == malformed(
                pattern,
            ),
        },
{
    let mut i: usize = 0;
    while i < transforms.len()
        invariant
            0 <= i <= transforms.len(),
            first_malformed(transforms@, 0) == first_malformed(transforms@, i as int),
        decreases transforms.len() - i,
    {
        if !is_regular_expression(transforms[i].match_regular_expression.as_str()) {
            return Err(
                Error::MalformedRegularExpression {
                    pattern: transforms[i].match_regular_expression.clone(),
                },
            );
        }
        i += 1;
    }
    Ok(())
}

/// The files after one rule.
fn apply_clause<F: Filesystem>(fs: &F, config: &Inputs, index: usize, files: Vec<String>) -> (r:
    Result<Vec<String>, Error>)
    requires
        index < config.inter_file_references@.len(),
        strictly_ordered::<String>(files.deep_view()),
    ensures
        same_paths(r, clause_applied(*fs, *config, index as int, files.deep_view())),
        r matches Ok(next) ==> strictly_ordered::<String>(next.deep_view()) && grown_by_files(
            *fs,
            files.deep_view(),
            next.deep_view(),
        ),
    decreases config, 0nat, 0nat,
{
    let clause = &config.inter_file_references[index];
    let own: Option<Vec<String>> = match &clause.files_to_match {
        Some(sub) => match get_matching_input_files(fs, sub) {
            Ok(scanning) => Some(scanning),
            Err(e) => {
                return Err(e);
            },
        },
        None => None,
    };
    match check_transforms(&clause.match_transforms) {
        Ok(_) => {},
        Err(e) => {
            return Err(e);
        },
    }
    let scanning: &Vec<String> = match &own {
        Some(scanning) => scanning,
        None => &files,
    };
    let none: Vec<String> = Vec::new();
    assert(none.deep_view() =~= Seq::<Seq<char>>::empty());
    let found = add_files(
        fs,
        config,
        &clause.directories_to_search,
        none,
        &clause.match_transforms,
        scanning,
    );
    match found {
        Err(e) => Err(e),
        Ok(found) => {
            let ghost before = files.deep_view();
            let next = put_all_texts(files, &found);
            proof {
                lemma_put_all_text(before, found.deep_view());
                assert forall|path: Seq<char>| next.deep_view().contains(path) implies before.contains(
                    path,
                ) || fs.is_file(path) by {
                    if !before.contains(path) {
                        let k = choose|k: int|
                            0 <= k < found.deep_view().len() && found.deep_view()[k] == path;
                    }
                }
            }
            Ok(next)
        },
    }
}

/// The files after every rule, one after the other.
fn apply_clauses<F: Filesystem>(fs: &F, config: &Inputs, files: Vec<String>) -> (r: Result<
    Vec<String>,
    Error,
>)
    requires
        strictly_ordered::<String>(files.deep_view()),
    ensures
        same_paths(r, clauses_applied(*fs, *config, 0, files.deep_view())),
        r matches Ok(next) ==> strictly_ordered::<String>(next.deep_view()) && grown_by_files(
            *fs,
            files.deep_view(),
            next.deep_view(),
        ),
    decreases config, 1nat, 0nat,
{
    let ghost start = files.deep_view();
    let mut current = files;
    let mut i: usize = 0;
    while i < config.inter_file_references.len()
        invariant
            start == files.deep_view(),
            0 <= i <= config.inter_file_references.len(),
            strictly_ordered::<String>(current.deep_view()),
            grown_by_files(*fs, start, current.deep_view()),
            clauses_applied(*fs, *config, 0, start) == clauses_applied(
                *fs,
                *config,
                i as int,
                current.deep_view(),
            ),
        decreases config.inter_file_references.len() - i,
    {
        match apply_clause(fs, config, i, current) {
            Err(e) => {
                return Err(e);
            },
            Ok(next) => {
                current = next;
            },
        }
        i += 1;
    }
    Ok(current)
}

/// How many files of the filesystem are not among the paths.
pub open spec fn files_left<F: Filesystem>(fs: F, paths: Seq<Seq<char>>) -> nat {
    fs.files().difference(paths.to_set()).len()
}

/// A round that adds a path leaves fewer files to add.
proof fn lemma_round_uses_files<F: Filesystem>(fs: F, before: Seq<Seq<char>>, after: Seq<Seq<char>>)
    requires
        strictly_ordered::<String>(before),
        strictly_ordered::<String>(after),
        grown_by_files(fs, before, after),
        after.len() > before.len(),
    ensures
        files_left(fs, after) < files_left(fs, before),
{
    fs.files_are_finite();
    if forall|path: Seq<char>| after.contains(path) ==> before.contains(path) {
        assert forall|path: Seq<char>| before.contains(path) <==> after.contains(path) by {}
        lemma_strictly_ordered_unique::<String>(before, after);
        assert(false);
    }
    let added = choose|path: Seq<char>| after.contains(path) && !before.contains(path);
    let left_before = fs.files().difference(before.to_set());
    let left_after = fs.files().difference(after.to_set());
    assert(fs.is_file(added));
    assert(left_before.contains(added));
    assert(!left_after.contains(added));
    assert(left_after.subset_of(left_before.remove(added))) by {
        assert forall|path: Seq<char>| left_after.contains(path) implies left_before.remove(
            added,
        ).contains(path) by {
            assert(!after.contains(path));
            assert(!before.contains(path));
        }
    }
    vstd::set_lib::lemma_len_subset(left_after, left_before.remove(added));
}

/// The files that belong to a task, in strict order: those that the
/// description names outright, closed under its rules. The rules are
/// applied in rounds until a round adds no file.
pub fn get_matching_input_files<F: Filesystem>(fs: &F, config: &Inputs) -> (r: Result<
    Vec<String>,
    Error,
>)
    ensures
        same_paths(r, discovered(*fs, *config)),
        r matches Ok(files) ==> strictly_ordered::<String>(files.deep_view())
            && clauses_applied(*fs, *config, 0, files.deep_view()) == Ok::<
            Seq<Seq<char>>,
            ErrorView,
        >(files.deep_view()),
    decreases config, 3nat, 0nat,
{
    let mut files = match seed_files(fs, config) {
        Ok(files) => files,
        Err(e) => {
            return Err(e);
        },
    };
    let ghost start = files.deep_view();
    let ghost mut fuel: nat = fs.files().len();
    proof {
        fs.files_are_finite();
        vstd::set_lib::lemma_len_subset(fs.files().difference(start.to_set()), fs.files());
    }
    loop
        invariant
            strictly_ordered::<String>(files.deep_view()),
            files_left(*fs, files.deep_view()) <= fuel,
            closed(*fs, *config, start, fs.files().len()) == closed(
                *fs,
                *config,
                files.deep_view(),
                fuel,
            ),
            discovered(*fs, *config) == closed(*fs, *config, start, fs.files().len()),
        decreases files_left(*fs, files.deep_view()),
    {
        let ghost before = files.deep_view();
        let size = files.len();
        let next = match apply_clauses(fs, config, files) {
            Ok(next) => next,
            Err(e) => {
                return Err(e);
            },
        };
        if next.len() <= size {
            proof {
                lemma_same_files(*fs, before, next.deep_view());
            }
            return Ok(next);
        }
        proof {
            lemma_round_uses_files(*fs, before, next.deep_view());
            fuel = (fuel - 1) as nat;
        }
        files = next;
    }
}

/// Strictly ordered paths that grow by nothing stay the same.
proof fn lemma_same_files<F: Filesystem>(fs: F, before: Seq<Seq<char>>, after: Seq<Seq<char>>)
    requires
        strictly_ordered::<String>(before),
        strictly_ordered::<String>(after),
        grown_by_files(fs, before, after),
        after.len() <= before.len(),
    ensures
        after == before,
{
    lemma_distinct_texts(before);
    lemma_distinct_texts(after);
    before.unique_seq_to_set();
    after.unique_seq_to_set();
    assert(before.to_set().subset_of(after.to_set()));
    vstd::set_lib::lemma_len_subset(before.to_set(), after.to_set());
    vstd::set_lib::lemma_subset_equality(before.to_set(), after.to_set());
    assert forall|path: Seq<char>| before.contains(path) <==> after.contains(path) by {
        assert(before.to_set().contains(path) <==> after.to_set().contains(path));
    }
    lemma_strictly_ordered_unique::<String>(before, after);
}

/// Texts in strict order do not repeat.
proof fn lemma_distinct_texts(paths: Seq<Seq<char>>)
    requires
        strictly_ordered::<String>(paths),
    ensures
        paths.no_duplicates(),
{
    assert forall|i: int, j: int| 0 <= i < paths.len() && 0 <= j < paths.len() && i != j implies paths[i]
        != paths[j] by {
        crate::text::lemma_bytes_lt_irreflexive(<String as Keyed>::key(paths[i]));
        if i < j {
            assert(crate::sorted::key_lt::<String>(paths[i], paths[j]));
        } else {
            assert(crate::sorted::key_lt::<String>(paths[j], paths[i]));
        }
    }
}

} // verus!

//! Output projection: from the inputs of a task and a description of its
//! outputs to the paths that the task is expected to write.

use crate::discovery::check_transforms;
use crate::discovery::first_malformed;
use crate::discovery::malformed;
use crate::discovery::put_all_texts;
use crate::discovery::same_paths;
use crate::error::Error;
use crate::error::ErrorView;
use crate::matching::is_match;
use crate::matching::is_regular_expression;
use crate::matching::regex_compiles;
use crate::matching::regex_is_match;
use crate::matching::regex_replace_all;
use crate::matching::replace_all;
use crate::sorted::lemma_put_all_text;
use crate::sorted::lemma_put_text;
use crate::sorted::put;
use crate::sorted::put_all;
use crate::sorted::put_by_key;
use crate::sorted::strictly_ordered;
use crate::transport::Match;
use crate::transport::MatchTransform;
use crate::transport::Outputs;
use vstd::prelude::*;

verus! {

/// The first exclude expression, from position `from` on, that does not
/// compile.
pub open spec fn first_malformed_match(excludes: Seq<Match>, from: int) -> Option<Seq<char>>
    decreases excludes.len() - from,
{
    if from < 0 || from >= excludes.len() {
        None
    } else if !regex_compiles(excludes[from].match_regular_expression@) {
        Some(excludes[from].match_regular_expression@)
    } else {
        first_malformed_match(excludes, from + 1)
    }
}

/// The first expression that does not compile in the sequences of
/// transforms from position `from` on.
pub open spec fn first_malformed_stage(series: Seq<Vec<MatchTransform>>, from: int) -> Option<
    Seq<char>,
>
    decreases series.len() - from,
{
    if from < 0 || from >= series.len() {
        None
    } else {
        match first_malformed(series[from]@, 0) {
            Some(pattern) => Some(pattern),
            None => first_malformed_stage(series, from + 1),
        }
    }
}

/// Whether an exclude expression from position `from` on matches the path.
pub open spec fn excluded_input(excludes: Seq<Match>, path: Seq<char>, from: int) -> Result<
    bool,
    ErrorView,
>
    decreases excludes.len() - from,
{
    if from < 0 || from >= excludes.len() {
        Ok(false)
    } else if !regex_compiles(excludes[from].match_regular_expression@) {
        Err(malformed(excludes[from].match_regular_expression@))
    } else if regex_is_match(excludes[from].match_regular_expression@, path) {
        Ok(true)
    } else {
        excluded_input(excludes, path, from + 1)
    }
}

/// `next`, with the path rewritten through each template: every match of
/// the expression in the path is replaced.
pub open spec fn with_replacements(
    next: Seq<Seq<char>>,
    pattern: Seq<char>,
    path: Seq<char>,
    templates: Seq<Seq<char>>,
) -> Result<Seq<Seq<char>>, ErrorView>
    decreases templates.len(),
{
    if templates.len() == 0 {
        Ok(next)
    } else if !regex_compiles(pattern) {
        Err(malformed(pattern))
    } else {
        with_replacements(
            put::<String>(next, regex_replace_all(pattern, path, templates[0])),
            pattern,
            path,
            templates.drop_first(),
        )
    }
}

/// `next`, with what one stage makes of the current paths: a path that the
/// stage's expression matches is rewritten through each template, a path
/// that it does not match is dropped.
pub open spec fn with_stage(
    next: Seq<Seq<char>>,
    stage: MatchTransform,
    current: Seq<Seq<char>>,
) -> Result<Seq<Seq<char>>, ErrorView>
    decreases current.len(),
{
    if current.len() == 0 {
        Ok(next)
    } else if !regex_compiles(stage.match_regular_expression@) {
        Err(malformed(stage.match_regular_expression@))
    } else if !regex_is_match(stage.match_regular_expression@, current[0]) {
        with_stage(next, stage, current.drop_first())
    } else {
        match with_replacements(
            next,
            stage.match_regular_expression@,
            current[0],
            stage.match_transform_expressions.deep_view(),
        ) {
            Err(e) => Err(e),
            Ok(more) => with_stage(more, stage, current.drop_first()),
        }
    }
}

/// What a sequence of stages makes of the current paths, stage by stage.
pub open spec fn through_stages(stages: Seq<MatchTransform>, current: Seq<Seq<char>>) -> Result<
    Seq<Seq<char>>,
    ErrorView,
>
    decreases stages.len(),
{
    if stages.len() == 0 {
        Ok(current)
    } else {
        match with_stage(Seq::empty(), stages[0], current) {
            Err(e) => Err(e),
            Ok(next) => through_stages(stages.drop_first(), next),
        }
    }
}

/// `files`, with what each sequence of stages makes of one input path.
pub open spec fn with_series(
    files: Seq<Seq<char>>,
    series: Seq<Vec<MatchTransform>>,
    input: Seq<char>,
) -> Result<Seq<Seq<char>>, ErrorView>
    decreases series.len(),
{
    if series.len() == 0 {
        Ok(files)
    } else {
        match through_stages(series[0]@, seq![input]) {
            Err(e) => Err(e),
            Ok(made) => with_series(put_all::<String>(files, made), series.drop_first(), input),
        }
    }
}

/// `files`, with what the description makes of each input path that no
/// exclude expression matches.
pub open spec fn with_inputs(files: Seq<Seq<char>>, outputs: Outputs, inputs: Seq<Seq<char>>) -> Result<
    Seq<Seq<char>>,
    ErrorView,
>
    decreases inputs.len(),
{
    if inputs.len() == 0 {
        Ok(files)
    } else {
        match excluded_input(outputs.exclude_matches@, inputs[0], 0) {
            Err(e) => Err(e),
            Ok(excluded) => if excluded {
                with_inputs(files, outputs, inputs.drop_first())
            } else {
                match with_series(files, outputs.include_match_transforms@, inputs[0]) {
                    Err(e) => Err(e),
                    Ok(more) => with_inputs(more, outputs, inputs.drop_first()),
                }
            },
        }
    }
}

/// The paths that a task is expected to write: the listed files, and what
/// the sequences of transforms make of every input that no exclude
/// expression matches. An expression that does not compile is an error,
/// those of the excludes first.
pub open spec fn projected(inputs: Seq<Seq<char>>, outputs: Outputs) -> Result<
    Seq<Seq<char>>,
    ErrorView,
> {
    match first_malformed_match(outputs.exclude_matches@, 0) {
        Some(pattern) => Err(malformed(pattern)),
        None => match first_malformed_stage(outputs.include_match_transforms@, 0) {
            Some(pattern) => Err(malformed(pattern)),
            None => with_inputs(
                put_all::<String>(Seq::empty(), outputs.include_files.deep_view()),
                outputs,
                inputs,
            ),
        },
    }
}

/// Whether an exclude expression matches the path.
fn is_excluded_input(excludes: &Vec<Match>, path: &str) -> (r: Result<bool, Error>)
    ensures
        match r {
            Ok(excluded) => excluded_input(excludes@, path@, 0) == Ok::<bool, ErrorView>(excluded),
            Err(e) => excluded_input(excludes@, path@, 0) == Err::<bool, ErrorView>(e@),
        },
{
    let mut i: usize = 0;
    while i < excludes.len()
        invariant
            0 <= i <= excludes.len(),
            excluded_input(excludes@, path@, 0) == excluded_input(excludes@, path@, i as int),
        decreases excludes.len() - i,
    {
        match is_match(excludes[i].match_regular_expression.as_str(), path) {
            None => {
                return Err(
                    Error::MalformedRegularExpression {
                        pattern: excludes[i].match_regular_expression.clone(),
                    },
                );
            },
            Some(matched) => {
                if matched {
                    return Ok(true);
                }
            },
        }
        i += 1;
    }
    Ok(false)
}

/// Adds the path as each template rewrites it.
fn add_replacements(next: Vec<String>, pattern: &str, path: &str, templates: &Vec<String>) -> (r:
    Result<Vec<String>, Error>)
    requires
        strictly_ordered::<String>(next.deep_view()),
    ensures
        same_paths(
            r,
            with_replacements(next.deep_view(), pattern@, path@, templates.deep_view()),
        ),
        r matches Ok(more) ==> strictly_ordered::<String>(more.deep_view()),
{
    let ghost start = next.deep_view();
    let ghost all = templates.deep_view();
    let mut sofar = next;
    let mut i: usize = 0;
    assert(all.skip(0) =~= all);
    while i < templates.len()
        invariant
            0 <= i <= templates.len(),
            start == next.deep_view(),
            all == templates.deep_view(),
            strictly_ordered::<String>(sofar.deep_view()),
            with_replacements(start, pattern@, path@, all) == with_replacements(
                sofar.deep_view(),
                pattern@,
                path@,
                all.skip(i as int),
            ),
        decreases templates.len() - i,
    {
        assert(all.skip(i as int)[0] == templates[i as int]@);
        assert(all.skip(i as int).drop_first() =~= all.skip(i + 1));
        match replace_all(pattern, path, templates[i].as_str()) {
            None => {
                return Err(Error::MalformedRegularExpression { pattern: pattern.to_owned() });
            },
            Some(rewritten) => {
                proof {
                    lemma_put_text(sofar.deep_view(), rewritten@);
                }
                put_by_key(&mut sofar, rewritten);
            },
        }
        i += 1;
    }
    Ok(sofar)
}

/// Adds what one stage makes of the current paths.
fn add_stage(next: Vec<String>, stage: &MatchTransform, current: &Vec<String>) -> (r: Result<
    Vec<String>,
    Error,
>)
    requires
        strictly_ordered::<String>(next.deep_view()),
    ensures
        same_paths(r, with_stage(next.deep_view(), *stage, current.deep_view())),
        r matches Ok(more) ==> strictly_ordered::<String>(more.deep_view()),
{
    let ghost start = next.deep_view();
    let ghost all = current.deep_view();
    let mut sofar = next;
    let mut i: usize = 0;
    assert(all.skip(0) =~= all);
    while i < current.len()
        invariant
            0 <= i <= current.len(),
            start == next.deep_view(),
            all == current.deep_view(),
            strictly_ordered::<String>(sofar.deep_view()),
            with_stage(start, *stage, all) == with_stage(
                sofar.deep_view(),
                *stage,
                all.skip(i as int),
            ),
        decreases current.len() - i,
    {
        assert(all.skip(i as int)[0] == current[i as int]@);
        assert(all.skip(i as int).drop_first() =~= all.skip(i + 1));
        match is_match(stage.match_regular_expression.as_str(), current[i].as_str()) {
            None => {
                return Err(
                    Error::MalformedRegularExpression {
                        pattern: stage.match_regular_expression.clone(),
                    },
                );
            },
            Some(matched) => {
                if matched {
                    match add_replacements(
                        sofar,
                        stage.match_regular_expression.as_str(),
                        current[i].as_str(),
                        &stage.match_transform_expressions,
                    ) {
                        Err(e) => {
                            return Err(e);
                        },
                        Ok(more) => {
                            sofar = more;
                        },
                    }
                }
            },
        }
        i += 1;
    }
    Ok(sofar)
}

/// What a sequence of stages makes of one input path.
fn apply_stages(stages: &Vec<MatchTransform>, input: &str) -> (r: Result<Vec<String>, Error>)
    ensures
        same_paths(r, through_stages(stages@, seq![input@])),
        r matches Ok(made) ==> strictly_ordered::<String>(made.deep_view()),
{
    let mut current: Vec<String> = Vec::new();
    current.push(input.to_owned());
    assert(current.deep_view() =~= seq![input@]);
    let mut i: usize = 0;
    assert(stages@.skip(0) =~= stages@);
    while i < stages.len()
        invariant
            0 <= i <= stages.len(),
            strictly_ordered::<String>(current.deep_view()),
            through_stages(stages@, seq![input@]) == through_stages(
                stages@.skip(i as int),
                current.deep_view(),
            ),
        decreases stages.len() - i,
    {
        assert(stages@.skip(i as int)[0] == stages[i as int]);
        assert(stages@.skip(i as int).drop_first() =~= stages@.skip(i + 1));
        let none: Vec<String> = Vec::new();
        assert(none.deep_view() =~= Seq::<Seq<char>>::empty());
        match add_stage(none, &stages[i], &current) {
            Err(e) => {
                return Err(e);
            },
            Ok(next) => {
                current = next;
            },
        }
        i += 1;
    }
    Ok(current)
}

/// Adds what each sequence of stages makes of one input path.
fn add_series(files: Vec<String>, series: &Vec<Vec<MatchTransform>>, input: &str) -> (r: Result<
    Vec<String>,
    Error,
>)
    requires
        strictly_ordered::<String>(files.deep_view()),
    ensures
        same_paths(r, with_series(files.deep_view(), series@, input@)),
        r matches Ok(more) ==> strictly_ordered::<String>(more.deep_view()),
{
    let ghost start = files.deep_view();
    let mut sofar = files;
    let mut i: usize = 0;
    assert(series@.skip(0) =~= series@);
    while i < series.len()
        invariant
            0 <= i <= series.len(),
            start == files.deep_view(),
            strictly_ordered::<String>(sofar.deep_view()),
            with_series(start, series@, input@) == with_series(
                sofar.deep_view(),
                series@.skip(i as int),
                input@,
            ),
        decreases series.len() - i,
    {
        assert(series@.skip(i as int)[0] == series[i as int]);
        assert(series@.skip(i as int).drop_first() =~= series@.skip(i + 1));
        match apply_stages(&series[i], input) {
            Err(e) => {
                return Err(e);
            },
            Ok(made) => {
                proof {
                    lemma_put_all_text(sofar.deep_view(), made.deep_view());
                }
                sofar = put_all_texts(sofar, &made);
            },
        }
        i += 1;
    }
    Ok(sofar)
}

/// The first exclude expression that does not compile, as an error.
fn check_matches(excludes: &Vec<Match>) -> (r: Result<(), Error>)
    ensures
        match r {
            Ok(_) => first_malformed_match(excludes@, 0) is None,
            Err(e) => first_malformed_match(excludes@, 0) matches Some(pattern) && e@ == malformed(
                pattern,
            ),
        },
{
    let mut i: usize = 0;
    while i < excludes.len()
        invariant
            0 <= i <= excludes.len(),
            first_malformed_match(excludes@, 0) == first_malformed_match(excludes@, i as int),
        decreases excludes.len() - i,
    {
        if !is_regular_expression(excludes[i].match_regular_expression.as_str()) {
            return Err(
                Error::MalformedRegularExpression {
                    pattern: excludes[i].match_regular_expression.clone(),
                },
            );
        }
        i += 1;
    }
    Ok(())
}

/// The first expression in the sequences of transforms that does not
/// compile, as an error.
fn check_series(series: &Vec<Vec<MatchTransform>>) -> (r: Result<(), Error>)
    ensures
        match r {
            Ok(_) => first_malformed_stage(series@, 0) is None,
            Err(e) => first_malformed_stage(series@, 0) matches Some(pattern) && e@ == malformed(
                pattern,
            ),
        },
{
    let mut i: usize = 0;
    while i < series.len()
        invariant
            0 <= i <= series.len(),
            first_malformed_stage(series@, 0) == first_malformed_stage(series@, i as int),
        decreases series.len() - i,
    {
        match check_transforms(&series[i]) {
            Err(e) => {
                return Err(e);
            },
            Ok(_) => {},
        }
        i += 1;
    }
    Ok(())
}

/// The paths that a task is expected to write, in strict order: the listed
/// files, and what the sequences of transforms make of every input that no
/// exclude expression matches.
pub fn project_outputs(inputs: &Vec<String>, outputs: &Outputs) -> (r: Result<Vec<String>, Error>)
    ensures
        same_paths(r, projected(inputs.deep_view(), *outputs)),
        r matches Ok(paths) ==> strictly_ordered::<String>(paths.deep_view()),
{
    match check_matches(&outputs.exclude_matches) {
        Err(e) => {
            return Err(e);
        },
        Ok(_) => {},
    }
    match check_series(&outputs.include_match_transforms) {
        Err(e) => {
            return Err(e);
        },
        Ok(_) => {},
    }
    let none: Vec<String> = Vec::new();
    assert(none.deep_view() =~= Seq::<Seq<char>>::empty());
    proof {
        lemma_put_all_text(Seq::empty(), outputs.include_files.deep_view());
    }
    let mut files = put_all_texts(none, &outputs.include_files);
    let ghost start = files.deep_view();
    let ghost all = inputs.deep_view();
    let mut i: usize = 0;
    assert(all.skip(0) =~= all);
    while i < inputs.len()
        invariant
            0 <= i <= inputs.len(),
            all == inputs.deep_view(),
            strictly_ordered::<String>(files.deep_view()),
            projected(all, *outputs) == with_inputs(start, *outputs, all),
            with_inputs(start, *outputs, all) == with_inputs(
                files.deep_view(),
                *outputs,
                all.skip(i as int),
            ),
        decreases inputs.len() - i,
    {
        assert(all.skip(i as int)[0] == inputs[i as int]@);
        assert(all.skip(i as int).drop_first() =~= all.skip(i + 1));
        match is_excluded_input(&outputs.exclude_matches, inputs[i].as_str()) {
            Err(e) => {
                return Err(e);
            },
            Ok(excluded) => {
                if !excluded {
                    match add_series(files, &outputs.include_match_transforms, inputs[i].as_str()) {
                        Err(e) => {
                            return Err(e);
                        },
                        Ok(more) => {
                            files = more;
                        },
                    }
                }
            },
        }
        i += 1;
    }
    Ok(files)
}

} // verus!

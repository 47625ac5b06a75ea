//! What holds of the library as a whole: statements that relate several of
//! its functions, each proved from what the functions promise.

use crate::blob::are_identities;
use crate::blob::blob_name;
use crate::blob::written_listing;
use crate::cache::lemma_kept_as_written;
use crate::cache::listing_kept;
use crate::blob::lemma_identity_round_trip;
use crate::blob::pointer_at;
use crate::blob::written_identity;
use crate::canonical::canonical_environment;
use crate::canonical::canonical_outputs;
use crate::canonical::environment_from_manifest;
use crate::canonical::first_uncompiled;
use crate::canonical::identities_from_manifest;
use crate::canonical::lemma_match_has_key;
use crate::canonical::listed_once;
use crate::canonical::matches_once;
use crate::canonical::outputs_made_canonical;
use crate::canonical::patterns_compile;
use crate::canonical::series_compile;
use crate::canonical::series_once;
use crate::canonical::task_inputs_from_manifest;
use crate::canonical::task_outputs_from_manifest;
use crate::canonical::transforms_compile;
use crate::canonical::OutputsView;
use crate::canonical::TaskInputsView;
use crate::canonical::TaskOutputsView;
use crate::discovery::discovered;
use crate::discovery::same_paths;
use crate::error::Error;
use crate::error::ErrorView;
use crate::error::Failure;
use crate::fs::Filesystem;
use crate::identity::sha256;
use crate::projection::projected;
use crate::sorted::lemma_put_at_end;
use crate::sorted::lemma_strictly_ordered_unique;
use crate::sorted::lemma_text_has_key;
use crate::sorted::sort;
use crate::sorted::lemma_sort_of_ordered;
use crate::sorted::strictly_ordered;
use crate::transport::Inputs;
use crate::transport::Match;
use crate::transport::MatchTransform;
use crate::transport::Outputs;
use crate::transport::Sha256;
use vstd::prelude::*;

verus! {

/// A set of paths has one canonical form: two manifests that hold the same
/// paths, each in strict order, are the same manifest.
pub proof fn lemma_manifest_is_canonical(first: Seq<Seq<char>>, second: Seq<Seq<char>>)
    requires
        strictly_ordered::<String>(first),
        strictly_ordered::<String>(second),
        forall|path: Seq<char>| first.contains(path) <==> second.contains(path),
    ensures
        first == second,
{
    lemma_strictly_ordered_unique::<String>(first, second);
}

/// Discovery is determined by the description and by what the filesystem
/// holds: two discoveries from one description on one filesystem end the
/// same way, with the same paths in the same order or with the same error.
pub proof fn lemma_discovery_is_determined<F: Filesystem>(
    fs: F,
    config: Inputs,
    first: Result<Vec<String>, Error>,
    second: Result<Vec<String>, Error>,
)
    requires
        same_paths(first, discovered(fs, config)),
        same_paths(second, discovered(fs, config)),
    ensures
        first is Ok <==> second is Ok,
        first is Ok ==> first->Ok_0.deep_view() == second->Ok_0.deep_view(),
        first is Err ==> first->Err_0@ == second->Err_0@,
{
}

/// Projection is determined by the inputs and the description of the
/// outputs.
pub proof fn lemma_projection_is_determined(
    inputs: Seq<Seq<char>>,
    outputs: Outputs,
    first: Result<Vec<String>, Error>,
    second: Result<Vec<String>, Error>,
)
    requires
        same_paths(first, projected(inputs, outputs)),
        same_paths(second, projected(inputs, outputs)),
    ensures
        first is Ok <==> second is Ok,
        first is Ok ==> first->Ok_0.deep_view() == second->Ok_0.deep_view(),
        first is Err ==> first->Err_0@ == second->Err_0@,
{
}

/// The fingerprint is a function of what is written of the task inputs:
/// the same bytes have the same fingerprint.
pub proof fn lemma_fingerprint_is_of_bytes(first: Sha256, second: Sha256, written: Seq<u8>)
    requires
        first@ == sha256(written),
        second@ == sha256(written),
    ensures
        first@ == second@,
        blob_name(first@) == blob_name(second@),
{
}

/// A canonical environment is read back from a manifest as it is, and a
/// configuration of it is left as it is.
pub proof fn lemma_environment_round_trip(environment: Seq<(Seq<char>, Seq<char>)>)
    requires
        canonical_environment(environment),
    ensures
        environment_from_manifest(environment) == Ok::<Seq<(Seq<char>, Seq<char>)>, ErrorView>(
            environment,
        ),
        sort::<(String, String)>(environment) == environment,
{
    lemma_sort_of_ordered::<(String, String)>(environment);
}

/// Identified files in the strict order of their paths are read back from
/// a manifest as they are.
pub proof fn lemma_identities_round_trip(identities: Seq<(Seq<char>, Option<Seq<u8>>)>)
    requires
        strictly_ordered::<(String, Option<Sha256>)>(identities),
    ensures
        identities_from_manifest(identities) == Ok::<
            Seq<(Seq<char>, Option<Seq<u8>>)>,
            ErrorView,
        >(identities),
{
}

proof fn lemma_listed_once(sofar: Seq<Seq<char>>, files: Seq<Seq<char>>)
    requires
        strictly_ordered::<String>(sofar + files),
    ensures
        listed_once(sofar, files) == Ok::<Seq<Seq<char>>, ErrorView>(sofar + files),
    decreases files.len(),
{
    if files.len() == 0 {
        assert(sofar + files =~= sofar);
    } else {
        let next = sofar.push(files[0]);
        let whole = sofar + files;
        assert(strictly_ordered::<String>(next)) by {
            assert forall|i: int, j: int| 0 <= i < j < next.len() implies crate::sorted::key_lt::<
                String,
            >(next[i], next[j]) by {
                assert(whole[i] == next[i] && whole[j] == next[j]);
            }
        }
        lemma_put_at_end::<String>(sofar, files[0]);
        lemma_text_has_key(sofar, files[0]);
        assert(next + files.drop_first() =~= whole);
        lemma_listed_once(next, files.drop_first());
    }
}

proof fn lemma_none_uncompiled(transforms: Seq<(Seq<char>, Seq<Seq<char>>)>, from: int)
    requires
        transforms_compile(transforms),
        0 <= from,
    ensures
        first_uncompiled(transforms, from) is None,
    decreases transforms.len() - from,
{
    if from < transforms.len() {
        assert(crate::matching::regex_compiles(transforms[from].0));
        lemma_none_uncompiled(transforms, from + 1);
    }
}

proof fn lemma_series_once(
    sofar: Seq<Seq<(Seq<char>, Seq<Seq<char>>)>>,
    series: Seq<Seq<(Seq<char>, Seq<Seq<char>>)>>,
)
    requires
        strictly_ordered::<Vec<MatchTransform>>(sofar + series),
        series_compile(series),
    ensures
        series_once(sofar, series) == Ok::<Seq<Seq<(Seq<char>, Seq<Seq<char>>)>>, ErrorView>(
            sofar + series,
        ),
    decreases series.len(),
{
    if series.len() == 0 {
        assert(sofar + series =~= sofar);
    } else {
        let next = sofar.push(series[0]);
        let whole = sofar + series;
        assert(strictly_ordered::<Vec<MatchTransform>>(next)) by {
            assert forall|i: int, j: int| 0 <= i < j < next.len() implies crate::sorted::key_lt::<
                Vec<MatchTransform>,
            >(next[i], next[j]) by {
                assert(whole[i] == next[i] && whole[j] == next[j]);
            }
        }
        lemma_put_at_end::<Vec<MatchTransform>>(sofar, series[0]);
        assert(transforms_compile(series[0]));
        lemma_none_uncompiled(series[0], 0);
        assert(next + series.drop_first() =~= whole);
        assert(series_compile(series.drop_first())) by {
            assert forall|i: int| 0 <= i < series.drop_first().len() implies transforms_compile(
                #[trigger] series.drop_first()[i],
            ) by {
                assert(series.drop_first()[i] == series[i + 1]);
            }
        }
        lemma_series_once(next, series.drop_first());
    }
}

proof fn lemma_matches_once(sofar: Seq<Seq<char>>, excludes: Seq<Seq<char>>)
    requires
        strictly_ordered::<Match>(sofar + excludes),
        patterns_compile(excludes),
    ensures
        matches_once(sofar, excludes) == Ok::<Seq<Seq<char>>, ErrorView>(sofar + excludes),
    decreases excludes.len(),
{
    if excludes.len() == 0 {
        assert(sofar + excludes =~= sofar);
    } else {
        let next = sofar.push(excludes[0]);
        let whole = sofar + excludes;
        assert(strictly_ordered::<Match>(next)) by {
            assert forall|i: int, j: int| 0 <= i < j < next.len() implies crate::sorted::key_lt::<
                Match,
            >(next[i], next[j]) by {
                assert(whole[i] == next[i] && whole[j] == next[j]);
            }
        }
        lemma_put_at_end::<Match>(sofar, excludes[0]);
        lemma_match_has_key(sofar, excludes[0]);
        assert(crate::matching::regex_compiles(excludes[0]));
        assert(next + excludes.drop_first() =~= whole);
        assert(patterns_compile(excludes.drop_first())) by {
            assert forall|i: int|
                0 <= i < excludes.drop_first().len() implies crate::matching::regex_compiles(
                #[trigger] excludes.drop_first()[i],
            ) by {
                assert(excludes.drop_first()[i] == excludes[i + 1]);
            }
        }
        lemma_matches_once(next, excludes.drop_first());
    }
}

/// A canonical description of outputs is left as it is when it is made
/// canonical: what was written of it is read back as it was.
pub proof fn lemma_outputs_round_trip(description: Outputs)
    requires
        canonical_outputs(description),
    ensures
        outputs_made_canonical(description.deep_view()) == Ok::<OutputsView, ErrorView>(
            description.deep_view(),
        ),
{
    let view = description.deep_view();
    assert(Seq::<Seq<char>>::empty() + view.include_files =~= view.include_files);
    lemma_listed_once(Seq::empty(), view.include_files);
    assert(Seq::<Seq<(Seq<char>, Seq<Seq<char>>)>>::empty() + view.include_match_transforms
        =~= view.include_match_transforms);
    lemma_series_once(Seq::empty(), view.include_match_transforms);
    assert(Seq::<Seq<char>>::empty() + view.exclude_matches =~= view.exclude_matches);
    lemma_matches_once(Seq::empty(), view.exclude_matches);
}

/// Canonical task inputs are read back from a manifest as they are.
pub proof fn lemma_task_inputs_round_trip(inputs: TaskInputsView, description: Outputs)
    requires
        canonical_environment(inputs.environment_variables),
        strictly_ordered::<(String, Option<Sha256>)>(inputs.input_files),
        canonical_outputs(description),
        inputs.outputs_description == description.deep_view(),
    ensures
        task_inputs_from_manifest(inputs) == Ok::<TaskInputsView, ErrorView>(inputs),
{
    lemma_environment_round_trip(inputs.environment_variables);
    lemma_outputs_round_trip(description);
}

/// Canonical task outputs are read back from a manifest as they are.
pub proof fn lemma_task_outputs_round_trip(outputs: TaskOutputsView)
    requires
        strictly_ordered::<(String, Option<Sha256>)>(outputs.input_files_with_program),
        strictly_ordered::<(String, Option<Sha256>)>(outputs.output_files),
    ensures
        task_outputs_from_manifest(outputs) == Ok::<TaskOutputsView, ErrorView>(outputs),
{
}

/// A pointer that was written is read back: where the file that is named
/// by the source identity holds the destination identity as it is written,
/// the pointer at the source leads to the destination.
pub proof fn lemma_pointer_is_read_back<F: Filesystem>(fs: F, source: Seq<u8>, destination: Seq<u8>)
    requires
        destination.len() == 32,
        fs.content(blob_name(source)) == Ok::<Seq<u8>, Failure>(written_identity(destination)),
    ensures
        pointer_at(fs, source) == Some(destination),
{
    lemma_identity_round_trip(destination);
}

/// An index that was written is read back: where the file of the index
/// holds a listing in strict order as it is written, the index that is
/// kept there holds that listing.
pub proof fn lemma_index_is_read_back<F: Filesystem>(fs: F, path: Seq<char>, entries: Seq<Seq<u8>>)
    requires
        strictly_ordered::<Sha256>(entries),
        are_identities(entries),
        fs.content(path) == Ok::<Seq<u8>, Failure>(written_listing(entries)),
    ensures
        listing_kept(fs, path) == Ok::<Seq<Seq<u8>>, ErrorView>(entries),
{
    lemma_kept_as_written(entries);
}

} // verus!

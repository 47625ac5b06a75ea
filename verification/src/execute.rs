//! The executor: for a task, the outputs of an earlier run where there was
//! one, else a run.

use crate::blob::blob_name;
use crate::blob::holds_blob_of;
use crate::blob::read_error;
use crate::error::Failure;
use crate::blob::intact;
use crate::blob::Serialization;
use crate::cache::found;
use crate::cache::laid_out;
use crate::cache::listing_kept;
use crate::cache::DEFAULT_INPUTS_LISTING_FILE;
use crate::fs::shows_below;
use crate::cache::Cache;
use crate::cache::Index;
use crate::cache::WriteOnDropIndex;
use crate::canonical::task_outputs_found;
use crate::canonical::Metadata;
use crate::canonical::System;
use crate::canonical::SystemView;
use crate::path::joined;
use crate::canonical::TaskInputs;
use crate::canonical::TaskInputsView;
use crate::canonical::TaskOutputs;
use crate::canonical::TaskOutputsView;
use crate::error::Error;
use crate::error::ErrorView;
use crate::fs::Filesystem;
use crate::identity::sha256;
use crate::identity::sha256_digest;
use crate::path::join;
use crate::runner::Runner;
use crate::sorted::put;
use crate::transport::Sha256;
use vstd::prelude::*;

verus! {

/// Something that gives the outputs of tasks.
pub trait TaskExecutor<F: Filesystem> {
    /// The outputs of the task: those of an earlier run of the same inputs
    /// where there was one, else those of a run now.
    fn load_or_execute<S: Serialization>(
        &mut self,
        working_directory: &mut F,
        inputs: &TaskInputs,
    ) -> Result<TaskOutputs, Error>;

    /// The same for the task whose inputs have this fingerprint; they must
    /// be stored.
    fn load_or_execute_identity<S: Serialization>(
        &mut self,
        working_directory: &mut F,
        inputs_identity: &Sha256,
    ) -> Result<TaskOutputs, Error>;

    /// The outputs of a run of the task now.
    fn force_execute<S: Serialization>(
        &mut self,
        working_directory: &mut F,
        inputs: &TaskInputs,
    ) -> Result<TaskOutputs, Error>;

    /// The same for the task whose inputs have this fingerprint; they must
    /// be stored.
    fn force_execute_identity<S: Serialization>(
        &mut self,
        working_directory: &mut F,
        inputs_identity: &Sha256,
    ) -> Result<TaskOutputs, Error>;
}

/// The directory of what the programs wrote to their standard output.
pub const DEFAULT_STDOUTS_POINTERS_DIRECTORY: &'static str = "inputs_to_stdouts";

/// The directory of what the programs wrote to their standard error.
pub const DEFAULT_STDERRS_POINTERS_DIRECTORY: &'static str = "inputs_to_stderrs";

/// When a run began and how long it took, in nanoseconds.
#[derive(Clone, Copy, Debug, PartialEq, Eq)]
pub struct Ran {
    pub timestamp_nanos: i64,
    pub execution_duration_nanos: u128,
}

/// Calls `std::time::SystemTime::now` and gives the nanoseconds since the
/// beginning of 1970, of which nothing can be said; none where the clock
/// stands before that.
#[verifier::external_body]
fn now_nanos() -> Option<u128> {
    match std::time::SystemTime::now().duration_since(std::time::UNIX_EPOCH) {
        Ok(since) => Some(since.as_nanos()),
        Err(_) => None,
    }
}

/// When a run that began and ended at these nanoseconds took place, and for
/// how long: the beginning, held to what sixty-three bits can say, and the
/// time between the two, which is nothing where the clock went back.
pub open spec fn ran_between(begun: u128, ended: u128) -> Ran {
    Ran {
        timestamp_nanos: if begun > i64::MAX {
            i64::MAX
        } else {
            begun as i64
        },
        execution_duration_nanos: if ended >= begun {
            (ended - begun) as u128
        } else {
            0
        },
    }
}

/// When a run that began and ended at these nanoseconds took place, and for
/// how long.
pub fn between(begun: u128, ended: u128) -> (r: Ran)
    ensures
        r == ran_between(begun, ended),
{
    let timestamp_nanos: i64 = if begun > 0x7FFF_FFFF_FFFF_FFFFu128 {
        0x7FFF_FFFF_FFFF_FFFFi64
    } else {
        begun as i64
    };
    let execution_duration_nanos: u128 = if ended >= begun {
        ended - begun
    } else {
        0
    };
    Ran { timestamp_nanos, execution_duration_nanos }
}

/// The fingerprint of task inputs: the identity of what is written of
/// them.
pub fn fingerprint_of(serialized: &[u8]) -> (r: Sha256)
    ensures
        r@ == sha256(serialized@),
{
    Sha256::new(sha256_digest(serialized))
}

/// An executor that keeps what it knows in a directory.
#[verifier::reject_recursive_types(F)]
pub struct CacheDirectoryTaskExecutor<F: Filesystem, R: Runner> {
    cache: Cache<F, WriteOnDropIndex<F>>,
    stdouts_pointers: F,
    stderrs_pointers: F,
    runner: R,
}

/// Whether a run of the task whose inputs are written as these bytes has
/// been recorded between two states of an executor: the bytes are held as a
/// blob, their fingerprint is in the index, and a lookup by it finds
/// outputs.
pub open spec fn recorded<F: Filesystem, R: Runner>(
    before: CacheDirectoryTaskExecutor<F, R>,
    after: CacheDirectoryTaskExecutor<F, R>,
    serialized_inputs: Seq<u8>,
) -> bool {
    &&& holds_blob_of(after.blobs(), serialized_inputs)
    &&& after.known() == put::<Sha256>(before.known(), sha256(serialized_inputs))
    &&& found(after.outputs_pointers(), after.blobs(), sha256(serialized_inputs)) matches Ok(
        Some(_),
    )
}

/// Whether an error and the states around it are what a run that was not
/// recorded comes to, where the inputs of the task are written as these
/// bytes: either nothing that the executor knows has changed, or the
/// recording stopped at the step whose error this is, with the steps before
/// it done and none of those behind it.
pub open spec fn unrecorded<F: Filesystem, R: Runner>(
    before: CacheDirectoryTaskExecutor<F, R>,
    after: CacheDirectoryTaskExecutor<F, R>,
    written: Seq<u8>,
    e: ErrorView,
) -> bool {
    after.held() == before.held() || exists|outputs: Seq<u8>, metadata: Seq<u8>| #[trigger]
        Cache::<F, WriteOnDropIndex<F>>::stopped(
            before.held(),
            after.held(),
            written,
            outputs,
            metadata,
            e,
        )
}

/// Whether an executor knows in one state what it knew in another.
pub open spec fn knows_the_same<F: Filesystem, R: Runner>(
    before: CacheDirectoryTaskExecutor<F, R>,
    after: CacheDirectoryTaskExecutor<F, R>,
) -> bool {
    &&& after.blobs() == before.blobs()
    &&& after.outputs_pointers() == before.outputs_pointers()
    &&& after.known() == before.known()
}

/// Whether a result and the states behind it are what serving a task comes
/// to, where the inputs of the task are written as these bytes. Where the
/// lookup by their fingerprint fails, that is the error, and nothing has
/// changed; where it finds outputs, nothing has changed either, and the
/// runner is left as it was: no program is run; where it
/// finds none, the task was run: outputs that are returned are what the
/// run left behind, and the run is recorded; an error leaves behind what
/// was done before the step that failed.
pub open spec fn served<F: Filesystem, R: Runner>(
    before: CacheDirectoryTaskExecutor<F, R>,
    after: CacheDirectoryTaskExecutor<F, R>,
    working_before: F,
    working_after: F,
    inputs: TaskInputsView,
    outputs: crate::transport::Outputs,
    written: Seq<u8>,
    r: Result<TaskOutputs, Error>,
) -> bool {
    match found(before.outputs_pointers(), before.blobs(), sha256(written)) {
        Err(e) => r matches Err(returned) && returned@ == e && knows_the_same(before, after)
            && working_after == working_before && after.runs_with() == before.runs_with(),
        Ok(Some(_)) => knows_the_same(before, after) && working_after == working_before
            && after.runs_with() == before.runs_with(),
        Ok(None) => (r matches Ok(returned) ==> task_outputs_found(working_after, inputs, outputs)
            == Ok::<TaskOutputsView, ErrorView>(returned@)) && (r is Ok ==> recorded(
            before,
            after,
            written,
        )) && (r matches Err(e) ==> unrecorded(before, after, written, e@)),
    }
}

impl<F: Filesystem, R: Runner> CacheDirectoryTaskExecutor<F, R> {
    /// The filesystem of the blobs.
    pub closed spec fn blobs(&self) -> F {
        self.cache.blobs()
    }

    /// The filesystem of the pointers to task outputs.
    pub closed spec fn outputs_pointers(&self) -> F {
        self.cache.outputs_pointers()
    }

    /// The filesystem of the pointers to records of runs.
    pub closed spec fn metadata_pointers(&self) -> F {
        self.cache.metadata_pointers()
    }

    /// The filesystem of what the programs wrote to their standard output.
    pub closed spec fn stdout_sinks(&self) -> F {
        self.stdouts_pointers
    }

    /// The filesystem of what the programs wrote to their standard error.
    pub closed spec fn stderr_sinks(&self) -> F {
        self.stderrs_pointers
    }

    /// The fingerprints in the index.
    pub closed spec fn known(&self) -> Seq<Seq<u8>> {
        self.cache.known()
    }

    /// What the executor knows.
    pub closed spec fn held(&self) -> Cache<F, WriteOnDropIndex<F>> {
        self.cache
    }

    /// The runner that runs the programs.
    pub closed spec fn runs_with(&self) -> R {
        self.runner
    }

    /// Whether `r` is what setting up an executor in the filesystem comes
    /// to: the error where the filesystem cannot be gone below at
    /// `inputs_to_stdouts` or at `inputs_to_stderrs`, in that order; else
    /// what opening the cache, or making a new one, comes to.
    pub open spec fn set_up(filesystem: F, system: SystemView, r: Result<Self, Error>) -> bool {
        match filesystem.opens(DEFAULT_STDOUTS_POINTERS_DIRECTORY@) {
            Err(e) => r matches Err(returned) && returned@ == e,
            Ok(_) => match filesystem.opens(DEFAULT_STDERRS_POINTERS_DIRECTORY@) {
                Err(e) => r matches Err(returned) && returned@ == e,
                Ok(_) => Cache::<F, WriteOnDropIndex<F>>::opened_or_created(
                    filesystem,
                    system,
                    match r {
                        Ok(executor) => Ok::<Cache<F, WriteOnDropIndex<F>>, Error>(
                            executor.held(),
                        ),
                        Err(e) => Err::<Cache<F, WriteOnDropIndex<F>>, Error>(e),
                    },
                ),
            },
        }
    }

    /// The path of the file that is named after the fingerprint in a
    /// directory: the name below the root of the directory, where it has
    /// one.
    pub open spec fn sink_path(directory: F, fingerprint: Seq<u8>) -> Seq<char> {
        match directory.root() {
            Some(root) => joined(root, blob_name(fingerprint)),
            None => blob_name(fingerprint),
        }
    }

    /// An executor that keeps what it knows in the filesystem and has the
    /// runner run the programs. The index of the directory is opened, or
    /// begun where there is none.
    pub fn new_with_runner(filesystem: F, system: System, runner: R) -> (r: Result<Self, Error>)
        ensures
            Self::set_up(filesystem, system@, r),
            r matches Ok(executor) ==> executor.runs_with() == runner,
            r matches Ok(executor) ==> {
                &&& laid_out(
                    filesystem,
                    executor.blobs(),
                    executor.outputs_pointers(),
                    executor.metadata_pointers(),
                )
                &&& shows_below(
                    filesystem,
                    executor.stdout_sinks(),
                    DEFAULT_STDOUTS_POINTERS_DIRECTORY@,
                )
                &&& shows_below(
                    filesystem,
                    executor.stderr_sinks(),
                    DEFAULT_STDERRS_POINTERS_DIRECTORY@,
                )
                &&& executor.known() == (match listing_kept(
                    filesystem,
                    DEFAULT_INPUTS_LISTING_FILE@,
                ) {
                    Ok(entries) => entries,
                    Err(_) => Seq::<Seq<u8>>::empty(),
                })
            },
    {
        let stdouts_pointers = match filesystem.sub_system(DEFAULT_STDOUTS_POINTERS_DIRECTORY) {
            Ok(stdouts) => stdouts,
            Err(e) => {
                return Err(e);
            },
        };
        let stderrs_pointers = match filesystem.sub_system(DEFAULT_STDERRS_POINTERS_DIRECTORY) {
            Ok(stderrs) => stderrs,
            Err(e) => {
                return Err(e);
            },
        };
        let ghost machine = system@;
        let opened = Cache::open_or_create(filesystem, system);
        let ghost seen = opened;
        let r = match opened {
            Ok(cache) => Ok(Self { cache, stdouts_pointers, stderrs_pointers, runner }),
            Err(e) => Err(e),
        };
        assert((match r {
            Ok(executor) => Ok::<Cache<F, WriteOnDropIndex<F>>, Error>(executor.held()),
            Err(e) => Err::<Cache<F, WriteOnDropIndex<F>>, Error>(e),
        }) == seen);
        r
    }

    /// What the executor knows.
    pub fn cache(&mut self) -> (r: &mut Cache<F, WriteOnDropIndex<F>>)
        ensures
            r.blobs() == old(self).blobs(),
            r.outputs_pointers() == old(self).outputs_pointers(),
            r.known() == old(self).known(),
            final(self).blobs() == final(r).blobs(),
            final(self).outputs_pointers() == final(r).outputs_pointers(),
            final(self).known() == final(r).known(),
    {
        &mut self.cache
    }

    /// The runner.
    pub fn runner(&mut self) -> (r: &mut R)
        ensures
            *r == old(self).runs_with(),
            final(self).runs_with() == *final(r),
            knows_the_same(*old(self), *final(self)),
            final(self).stdout_sinks() == old(self).stdout_sinks(),
            final(self).stderr_sinks() == old(self).stderr_sinks(),
    {
        &mut self.runner
    }

    /// The filesystem of what the programs wrote to their standard output.
    pub fn stdouts(&mut self) -> (r: &mut F)
        ensures
            *r == old(self).stdout_sinks(),
            final(self).stdout_sinks() == *final(r),
            final(self).stderr_sinks() == old(self).stderr_sinks(),
            knows_the_same(*old(self), *final(self)),
    {
        &mut self.stdouts_pointers
    }

    /// The filesystem of what the programs wrote to their standard error.
    pub fn stderrs(&mut self) -> (r: &mut F)
        ensures
            *r == old(self).stderr_sinks(),
            final(self).stderr_sinks() == *final(r),
            final(self).stdout_sinks() == old(self).stdout_sinks(),
            knows_the_same(*old(self), *final(self)),
    {
        &mut self.stderrs_pointers
    }

    /// The path of the file that is named after the fingerprint in a
    /// directory.
    fn sink(directory: &F, fingerprint: &Sha256) -> (r: String)
        ensures
            r@ == Self::sink_path(*directory, fingerprint@),
    {
        let name = fingerprint.to_string();
        match directory.working_directory() {
            Some(root) => join(root.as_str(), name.as_str()),
            None => name,
        }
    }

    /// What is stored as the outputs of the task with this fingerprint:
    /// nothing where the task has not been recorded, which is no error.
    pub fn stored_outputs(&self, fingerprint: &Sha256) -> (r: Result<Option<Vec<u8>>, Error>)
        ensures
            match r {
                Ok(Some(bytes)) => found(self.outputs_pointers(), self.blobs(), fingerprint@)
                    == Ok::<Option<Seq<u8>>, ErrorView>(Some(bytes@)),
                Ok(None) => found(self.outputs_pointers(), self.blobs(), fingerprint@) == Ok::<
                    Option<Seq<u8>>,
                    ErrorView,
                >(None),
                Err(e) => found(self.outputs_pointers(), self.blobs(), fingerprint@) == Err::<
                    Option<Seq<u8>>,
                    ErrorView,
                >(e@),
            },
    {
        self.cache.outputs_of(fingerprint)
    }

    /// The outputs of an earlier run of the task with this fingerprint, if
    /// there was one.
    pub fn load<S: Serialization>(&self, fingerprint: &Sha256) -> (r: Result<
        Option<TaskOutputs>,
        Error,
    >)
        ensures
            match found(self.outputs_pointers(), self.blobs(), fingerprint@) {
                Err(e) => r matches Err(returned) && returned@ == e,
                Ok(None) => r matches Ok(None),
                Ok(Some(_)) => !(r matches Ok(None)),
            },
    {
        self.cache.get_outputs::<S>(fingerprint)
    }

    /// Has the runner run the program of the task, with what it prints
    /// kept under the fingerprint, and says when that was and how long it
    /// took: what `between` makes of the clock as it was read before the
    /// run and behind it. Nothing that the executor knows changes, nor
    /// where it keeps what programs print.
    pub fn run(&mut self, working_directory: &mut F, inputs: &TaskInputs, fingerprint: &Sha256) -> (r:
        Result<Ran, Error>)
        ensures
            r matches Ok(ran) ==> exists|begun: u128, ended: u128|
                ran == #[trigger] ran_between(begun, ended),
            final(self).held() == old(self).held(),
            final(self).stdout_sinks() == old(self).stdout_sinks(),
            final(self).stderr_sinks() == old(self).stderr_sinks(),
            final(self).blobs() == old(self).blobs(),
            final(self).outputs_pointers() == old(self).outputs_pointers(),
            final(self).known() == old(self).known(),
    {
        let stdout = Self::sink(&self.stdouts_pointers, fingerprint);
        let stderr = Self::sink(&self.stderrs_pointers, fingerprint);
        let begun: u128 = match now_nanos() {
            Some(nanos) => nanos,
            None => 0,
        };
        match self.runner.run_task(working_directory, inputs, stdout.as_str(), stderr.as_str()) {
            Ok(_) => {},
            Err(e) => {
                return Err(e);
            },
        }
        let ended: u128 = match now_nanos() {
            Some(nanos) => nanos,
            None => 0,
        };
        Ok(between(begun, ended))
    }

    /// Takes stock after a run: identifies the files that the task was to
    /// write, and records the run. Where the files cannot all be
    /// identified nothing is recorded, and this can be asked again.
    pub fn finish<S: Serialization>(
        &mut self,
        working_directory: &F,
        inputs: &TaskInputs,
        serialized_inputs: &[u8],
        ran: &Ran,
    ) -> (r: Result<TaskOutputs, Error>)
        ensures
            match task_outputs_found(*working_directory, inputs@, inputs.outputs()) {
                Err(e) => r matches Err(returned) && returned@ == e
                    && final(self).blobs() == old(self).blobs()
                    && final(self).outputs_pointers() == old(self).outputs_pointers()
                    && final(self).known() == old(self).known(),
                Ok(outputs) => r matches Ok(returned) ==> returned@ == outputs,
            },
            r is Ok ==> recorded(*old(self), *final(self), serialized_inputs@),
            r matches Err(e) ==> unrecorded(*old(self), *final(self), serialized_inputs@, e@),
            r is Ok && intact(old(self).blobs()) ==> intact(final(self).blobs()),
    {
        let ghost before = *self;
        let outputs = match TaskOutputs::try_from_run(working_directory, inputs) {
            Ok(outputs) => outputs,
            Err(e) => {
                return Err(e);
            },
        };
        let metadata = Metadata::new(
            ran.timestamp_nanos,
            ran.execution_duration_nanos,
            self.cache.system().clone(),
        );
        let outputs_bytes = match S::outputs_to_bytes(&outputs.as_transport()) {
            Ok(bytes) => bytes,
            Err(e) => {
                return Err(e);
            },
        };
        let metadata_bytes = match S::metadata_to_bytes(&metadata.as_transport()) {
            Ok(bytes) => bytes,
            Err(e) => {
                return Err(e);
            },
        };
        match self.cache.record(
            serialized_inputs,
            outputs_bytes.as_slice(),
            metadata_bytes.as_slice(),
        ) {
            Ok(_) => Ok(outputs),
            Err(e) => {
                assert(Cache::<F, WriteOnDropIndex<F>>::stopped(
                    before.held(),
                    self.held(),
                    serialized_inputs@,
                    outputs_bytes@,
                    metadata_bytes@,
                    e@,
                ));
                Err(e)
            },
        }
    }

    /// Runs the task and takes stock. Where that succeeds, the outputs
    /// are what the run left behind, and the run is recorded under the
    /// fingerprint of the task inputs as they are written. Where it fails,
    /// what was done before the step that failed stays done: the runner's
    /// error leaves what the executor knows as it was.
    pub fn do_force_execute<S: Serialization>(
        &mut self,
        working_directory: &mut F,
        inputs: &TaskInputs,
        serialized_inputs: &[u8],
    ) -> (r: Result<TaskOutputs, Error>)
        ensures
            r matches Ok(returned) ==> task_outputs_found(
                *final(working_directory),
                inputs@,
                inputs.outputs(),
            ) == Ok::<TaskOutputsView, ErrorView>(returned@),
            r is Ok ==> recorded(*old(self), *final(self), serialized_inputs@),
            r matches Err(e) ==> unrecorded(*old(self), *final(self), serialized_inputs@, e@),
            r is Ok && intact(old(self).blobs()) ==> intact(final(self).blobs()),
    {
        let fingerprint = fingerprint_of(serialized_inputs);
        let ran = match self.run(working_directory, inputs, &fingerprint) {
            Ok(ran) => ran,
            Err(e) => {
                return Err(e);
            },
        };
        self.finish::<S>(working_directory, inputs, serialized_inputs, &ran)
    }

    /// The outputs of the task whose inputs are written as these bytes:
    /// those of an earlier run where a lookup by their fingerprint finds
    /// one, and then nothing is run and nothing changes; else those of a
    /// run now, which is recorded. A lookup that fails is the error, and
    /// nothing is run.
    pub fn load_or_execute_serialized<S: Serialization>(
        &mut self,
        working_directory: &mut F,
        inputs: &TaskInputs,
        serialized_inputs: &[u8],
    ) -> (r: Result<TaskOutputs, Error>)
        ensures
            served(
                *old(self),
                *final(self),
                *old(working_directory),
                *final(working_directory),
                inputs@,
                inputs.outputs(),
                serialized_inputs@,
                r,
            ),
            r is Ok && intact(old(self).blobs()) ==> intact(final(self).blobs()),
    {
        let fingerprint = fingerprint_of(serialized_inputs);
        match self.load::<S>(&fingerprint) {
            Err(e) => Err(e),
            Ok(Some(outputs)) => Ok(outputs),
            Ok(None) => self.do_force_execute::<S>(working_directory, inputs, serialized_inputs),
        }
    }

    /// The task inputs that are stored under the fingerprint, and the bytes
    /// that they are stored as. Where nothing is stored there, the blob is
    /// missing.
    pub fn stored_inputs<S: Serialization>(&self, fingerprint: &Sha256) -> (r: Result<
        (TaskInputs, Vec<u8>),
        Error,
    >)
        ensures
            r matches Ok(stored) ==> self.blobs().content(blob_name(fingerprint@)) == Ok::<
                Seq<u8>,
                Failure,
            >(stored.1@),
            self.blobs().content(blob_name(fingerprint@)) matches Err(failure) ==> r matches Err(e)
                && e@ == read_error(blob_name(fingerprint@), failure),
    {
        let bytes = match self.cache.blobs_ref().read_blob(fingerprint) {
            Ok(bytes) => bytes,
            Err(e) => {
                return Err(e);
            },
        };
        let transport = match S::inputs_from_bytes(bytes.as_slice()) {
            Ok(transport) => transport,
            Err(e) => {
                return Err(e);
            },
        };
        match TaskInputs::try_from(transport) {
            Ok(inputs) => Ok((inputs, bytes)),
            Err(e) => Err(e),
        }
    }
}

impl<F: Filesystem, R: Runner> TaskExecutor<F> for CacheDirectoryTaskExecutor<F, R> {
    fn load_or_execute<S: Serialization>(
        &mut self,
        working_directory: &mut F,
        inputs: &TaskInputs,
    ) -> (r: Result<TaskOutputs, Error>)
        ensures
            (r is Err && knows_the_same(*old(self), *final(self)) && *final(working_directory)
                == *old(working_directory) && final(self).runs_with() == old(self).runs_with())
                || exists|written: Seq<u8>|
                #[trigger] served(
                    *old(self),
                    *final(self),
                    *old(working_directory),
                    *final(working_directory),
                    inputs@,
                    inputs.outputs(),
                    written,
                    r,
                ),
            r is Ok && intact(old(self).blobs()) ==> intact(final(self).blobs()),
    {
        let serialized = match S::inputs_to_bytes(&inputs.as_transport()) {
            Ok(bytes) => bytes,
            Err(e) => {
                return Err(e);
            },
        };
        let ghost before = *self;
        let ghost working_before = *working_directory;
        let r = self.load_or_execute_serialized::<S>(
            working_directory,
            inputs,
            serialized.as_slice(),
        );
        assert(served(
            before,
            *self,
            working_before,
            *working_directory,
            inputs@,
            inputs.outputs(),
            serialized@,
            r,
        ));
        r
    }

    fn load_or_execute_identity<S: Serialization>(
        &mut self,
        working_directory: &mut F,
        inputs_identity: &Sha256,
    ) -> (r: Result<TaskOutputs, Error>)
        ensures
            match found(old(self).outputs_pointers(), old(self).blobs(), inputs_identity@) {
                Err(e) => r matches Err(returned) && returned@ == e && knows_the_same(
                    *old(self),
                    *final(self),
                ) && *final(working_directory) == *old(working_directory)
                    && final(self).runs_with() == old(self).runs_with(),
                Ok(Some(_)) => knows_the_same(*old(self), *final(self))
                    && *final(working_directory) == *old(working_directory)
                    && final(self).runs_with() == old(self).runs_with(),
                Ok(None) => r is Ok ==> (old(self).blobs().content(blob_name(inputs_identity@))
                    matches Ok(bytes) && recorded(*old(self), *final(self), bytes)),
            },
            r is Ok && intact(old(self).blobs()) ==> intact(final(self).blobs()),
    {
        match self.load::<S>(inputs_identity) {
            Err(e) => Err(e),
            Ok(Some(outputs)) => Ok(outputs),
            Ok(None) => self.force_execute_identity::<S>(working_directory, inputs_identity),
        }
    }

    fn force_execute<S: Serialization>(
        &mut self,
        working_directory: &mut F,
        inputs: &TaskInputs,
    ) -> (r: Result<TaskOutputs, Error>)
        ensures
            r matches Ok(returned) ==> task_outputs_found(
                *final(working_directory),
                inputs@,
                inputs.outputs(),
            ) == Ok::<TaskOutputsView, ErrorView>(returned@),
            r is Ok ==> exists|written: Seq<u8>| #[trigger]
                recorded(*old(self), *final(self), written),
            r matches Err(e) ==> final(self).held() == old(self).held() || exists|written: Seq<u8>|
                #[trigger] unrecorded(*old(self), *final(self), written, e@),
            r is Ok && intact(old(self).blobs()) ==> intact(final(self).blobs()),
    {
        let serialized = match S::inputs_to_bytes(&inputs.as_transport()) {
            Ok(bytes) => bytes,
            Err(e) => {
                return Err(e);
            },
        };
        let ghost before = *self;
        let r = self.do_force_execute::<S>(working_directory, inputs, serialized.as_slice());
        assert(r is Ok ==> recorded(before, *self, serialized@));
        assert(r matches Err(e) ==> unrecorded(before, *self, serialized@, e@));
        r
    }

    fn force_execute_identity<S: Serialization>(
        &mut self,
        working_directory: &mut F,
        inputs_identity: &Sha256,
    ) -> (r: Result<TaskOutputs, Error>)
        ensures
            r is Ok ==> (old(self).blobs().content(blob_name(inputs_identity@)) matches Ok(bytes)
                && recorded(*old(self), *final(self), bytes)),
            old(self).blobs().content(blob_name(inputs_identity@)) matches Err(failure) ==> (
            r matches Err(e) && e@ == read_error(blob_name(inputs_identity@), failure))
                && knows_the_same(*old(self), *final(self))
                && *final(working_directory) == *old(working_directory),
            r is Ok && intact(old(self).blobs()) ==> intact(final(self).blobs()),
    {
        let (inputs, serialized) = match self.stored_inputs::<S>(inputs_identity) {
            Ok(stored) => stored,
            Err(e) => {
                return Err(e);
            },
        };
        self.do_force_execute::<S>(working_directory, &inputs, serialized.as_slice())
    }
}

} // verus!

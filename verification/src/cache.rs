//! The index of the cache: the listing of the task inputs that it knows,
//! kept in a file.

use crate::blob::are_identities;
use crate::blob::blob_name;
use crate::blob::holds_blob_of;
use crate::blob::intact;
use crate::blob::lemma_blob_name_injective;
use crate::blob::as_written;
use crate::blob::pointer_at;
use crate::blob::temporary_named;
use crate::blob::write_outcome;
use crate::blob::written_identity;
use crate::blob::read_error;
use crate::blob::BlobCache;
use crate::blob::BlobPointerCache;
use crate::blob::Serialization;
use crate::canonical::FileIdentitiesManifest;
use crate::canonical::Metadata;
use crate::canonical::System;
use crate::canonical::SystemView;
use crate::canonical::TaskInputs;
use crate::canonical::TaskOutputs;
use crate::identity::sha256;
use crate::blob::lemma_listing_round_trip;
use crate::blob::read_listing;
use crate::blob::written_listing;
use crate::blob::JSON;
use crate::canonical::Listing;
use crate::discovery::io_error;
use crate::context::explained;
use crate::error::Error;
use crate::error::ErrorView;
use crate::error::Failure;
use crate::error::Item;
use crate::error::Operation;
use crate::fs::shows_below;
use crate::fs::Filesystem;
use crate::path::joined;
use crate::sorted::lemma_strict_is_ordered;
use crate::sorted::ordered;
use crate::sorted::put;
use crate::sorted::strictly_ordered;
use crate::sorted::without;
use crate::transport::Sha256;
use vstd::prelude::*;

verus! {

/// A set of identities that is kept somewhere.
pub trait Index: Sized {
    /// Where the index is kept.
    type Filesystem: Filesystem;

    /// The identities in the index, in strict order.
    spec fn entries(&self) -> Seq<Seq<u8>>;

    /// What beginning an index in the file at the path comes to: done, or
    /// the error.
    spec fn begins(filesystem: Self::Filesystem, path: Seq<char>) -> Result<(), ErrorView>;

    /// What writing the index to its file comes to: done, or the error.
    spec fn flushes(&self) -> Result<(), ErrorView>;

    /// An empty index, to be kept in the file at the path. It is begun, or
    /// not, as `begins` says.
    fn create(filesystem: Self::Filesystem, path: &str) -> (r: Result<Self, Error>)
        ensures
            match r {
                Ok(index) => Self::begins(filesystem, path@) is Ok && index.entries() == Seq::<
                    Seq<u8>,
                >::empty(),
                Err(e) => Self::begins(filesystem, path@) == Err::<(), ErrorView>(e@),
            },
    ;

    /// The index that is kept in the file at the path.
    fn open(filesystem: Self::Filesystem, path: &str) -> (r: Result<Self, Error>)
        ensures
            match r {
                Ok(index) => listing_kept(filesystem, path@) == Ok::<Seq<Seq<u8>>, ErrorView>(
                    index.entries(),
                ),
                Err(e) => listing_kept(filesystem, path@) == Err::<Seq<Seq<u8>>, ErrorView>(e@),
            },
    ;

    /// Adds the identity. Returns whether it is new to the index.
    fn put(&mut self, identity: Sha256) -> (r: bool)
        ensures
            final(self).entries() == put::<Sha256>(old(self).entries(), identity@),
            r == !old(self).entries().contains(identity@),
    ;

    /// Takes the identity away. Returns whether it was in the index.
    fn remove(&mut self, identity: &Sha256) -> (r: bool)
        ensures
            final(self).entries() == without::<Sha256>(old(self).entries(), identity@),
            r == old(self).entries().contains(identity@),
    ;

    /// Writes the index to its file. It is written, or not, as `flushes`
    /// says.
    fn flush(&mut self) -> (r: Result<(), Error>)
        ensures
            as_written(r, old(self).flushes()),
            final(self).entries() == old(self).entries(),
    ;
}

/// The identities that a listing holds, which must be in strict order.
pub open spec fn listing_from(entries: Seq<Seq<u8>>) -> Result<Seq<Seq<u8>>, ErrorView> {
    if !ordered::<Sha256>(entries) {
        Err(ErrorView::NotSorted(Item::Listing, explained::<Sha256>(entries)))
    } else if !strictly_ordered::<Sha256>(entries) {
        Err(ErrorView::Duplicate(Item::Listing, explained::<Sha256>(entries)))
    } else {
        Ok(entries)
    }
}

/// The identities that are kept in the file at the path: what the file
/// holds, read as a listing, which must be in strict order.
pub open spec fn listing_kept<F: Filesystem>(fs: F, path: Seq<char>) -> Result<
    Seq<Seq<u8>>,
    ErrorView,
> {
    match fs.content(path) {
        Err(failure) => Err(io_error(Operation::Read, path, failure)),
        Ok(bytes) => match read_listing(bytes) {
            None => Err(ErrorView::Serialization),
            Some(entries) => listing_from(entries),
        },
    }
}

/// An index that is written to its file when it is flushed.
pub struct WriteOnDropIndex<F: Filesystem> {
    filesystem: F,
    path: String,
    listing: Listing,
}

impl<F: Filesystem> WriteOnDropIndex<F> {
    /// The filesystem that the file is in.
    pub closed spec fn filesystem(&self) -> F {
        self.filesystem
    }

    /// The path of the file.
    pub closed spec fn path(&self) -> Seq<char> {
        self.path@
    }

    /// The identities in the index.
    pub closed spec fn listed(&self) -> Seq<Seq<u8>> {
        self.listing@
    }

    /// An empty index, to be kept in the file at the path.
    pub fn new_for_file(filesystem: F, path: String) -> (r: Self)
        ensures
            r.filesystem() == filesystem,
            r.path() == path@,
            r.listed() == Seq::<Seq<u8>>::empty(),
    {
        Self { filesystem, path, listing: Listing::default() }
    }

    /// The filesystem that the file is in.
    pub fn files(&self) -> (r: &F)
        ensures
            *r == self.filesystem(),
    {
        &self.filesystem
    }

    /// The listing.
    pub fn listing(&self) -> (r: &Listing)
        ensures
            r@ == self.listed(),
    {
        &self.listing
    }

    /// Hands the filesystem back.
    pub fn into_filesystem(self) -> (r: F)
        ensures
            r == self.filesystem(),
    {
        self.filesystem
    }

    /// The filesystem that the file is in, to work on.
    pub fn files_mut(&mut self) -> (r: &mut F)
        ensures
            *r == old(self).filesystem(),
            final(self).filesystem() == *final(r),
            final(self).listed() == old(self).listed(),
            final(self).path() == old(self).path(),
    {
        &mut self.filesystem
    }

    /// Writes the index to its file: the listing in strict order. No other
    /// file changes.
    pub fn write(&mut self) -> (r: Result<(), Error>)
        ensures
            as_written(
                r,
                write_outcome(
                    old(self).filesystem(),
                    old(self).path(),
                    written_listing(old(self).listed()),
                ),
            ),
            final(self).listed() == old(self).listed(),
            final(self).path() == old(self).path(),
            r is Ok ==> final(self).filesystem().content(old(self).path()) == Ok::<Seq<u8>, Failure>(
                written_listing(old(self).listed()),
            ),
            r is Ok ==> listing_kept(final(self).filesystem(), old(self).path()) == Ok::<
                Seq<Seq<u8>>,
                ErrorView,
            >(old(self).listed()),
            r matches Err(e) ==> e@ matches ErrorView::Io { operation, path, failure } && operation
                == Operation::Write && path == old(self).path(),
            forall|other: Seq<char>|
                other != old(self).path() ==> final(self).filesystem().content(other)
                    == old(self).filesystem().content(other),
    {
        let transport = self.listing.as_transport();
        let bytes = JSON::listing_to_bytes(&transport);
        proof {
            let entries = self.listing@;
            assert(are_identities(entries)) by {
                assert forall|i: int| 0 <= i < entries.len() implies (#[trigger] entries[i]).len()
                    == 32 by {
                    assert(entries[i] == transport.entries[i]@);
                }
            }
            lemma_kept_as_written(entries);
        }
        match self.filesystem.write_file(self.path.as_str(), bytes.as_slice()) {
            Ok(_) => Ok(()),
            Err(failure) => Err(
                Error::Io { operation: Operation::Write, path: self.path.clone(), failure },
            ),
        }
    }

    /// Writes the index to its file if that can be done, and says whether
    /// it was: it is, exactly where the filesystem takes the write. This is
    /// for the end of the index's life, when nobody is left to hear of an
    /// error. No other file changes.
    pub fn write_quietly(&mut self) -> (r: bool)
        ensures
            r == (write_outcome(
                old(self).filesystem(),
                old(self).path(),
                written_listing(old(self).listed()),
            ) is Ok),
            final(self).listed() == old(self).listed(),
            final(self).path() == old(self).path(),
            r ==> final(self).filesystem().content(old(self).path()) == Ok::<Seq<u8>, Failure>(
                written_listing(old(self).listed()),
            ),
            forall|other: Seq<char>|
                other != old(self).path() ==> final(self).filesystem().content(other)
                    == old(self).filesystem().content(other),
            r ==> listing_kept(final(self).filesystem(), old(self).path()) == Ok::<
                Seq<Seq<u8>>,
                ErrorView,
            >(old(self).listed()),
    {
        self.write().is_ok()
    }
}

/// A listing in strict order is read back from what is written of it.
pub proof fn lemma_kept_as_written(entries: Seq<Seq<u8>>)
    requires
        strictly_ordered::<Sha256>(entries),
        are_identities(entries),
    ensures
        read_listing(written_listing(entries)) == Some(entries),
        listing_from(entries) == Ok::<Seq<Seq<u8>>, ErrorView>(entries),
{
    lemma_listing_round_trip(entries);
    lemma_strict_is_ordered::<Sha256>(entries);
}

impl<F: Filesystem> Index for WriteOnDropIndex<F> {
    type Filesystem = F;

    closed spec fn entries(&self) -> Seq<Seq<u8>> {
        self.listing@
    }

    /// Nothing is written when the index is begun, so that cannot fail.
    open spec fn begins(filesystem: F, path: Seq<char>) -> Result<(), ErrorView> {
        Ok(())
    }

    /// Writing the index out is one write of the listing to its file.
    open spec fn flushes(&self) -> Result<(), ErrorView> {
        write_outcome(self.filesystem(), self.path(), written_listing(self.listed()))
    }

    /// An empty index for the file at the path. Nothing is read or written.
    fn create(filesystem: F, path: &str) -> (r: Result<Self, Error>)
        ensures
            r matches Ok(index) && index.filesystem() == filesystem && index.path() == path@
                && index.listed() == Seq::<Seq<u8>>::empty(),
    {
        Ok(Self { filesystem, path: path.to_owned(), listing: Listing::default() })
    }

    fn open(filesystem: F, path: &str) -> (r: Result<Self, Error>) {
        let bytes = match filesystem.read_file(path) {
            Ok(bytes) => bytes,
            Err(failure) => {
                return Err(
                    Error::Io { operation: Operation::Read, path: path.to_owned(), failure },
                );
            },
        };
        let transport = match JSON::listing_from_bytes(bytes.as_slice()) {
            Ok(transport) => transport,
            Err(e) => {
                return Err(e);
            },
        };
        proof {
            if strictly_ordered::<Sha256>(transport.entries.deep_view()) {
                lemma_strict_is_ordered::<Sha256>(transport.entries.deep_view());
            }
        }
        match Listing::try_from(transport) {
            Ok(listing) => Ok(Self { filesystem, path: path.to_owned(), listing }),
            Err(e) => Err(e),
        }
    }

    fn put(&mut self, identity: Sha256) -> (r: bool) {
        self.listing.put(identity)
    }

    fn remove(&mut self, identity: &Sha256) -> (r: bool) {
        self.listing.remove(identity)
    }

    /// Writes the listing in strict order to the file of the index. No
    /// other file changes.
    fn flush(&mut self) -> (r: Result<(), Error>)
        ensures
            final(self).listed() == old(self).listed(),
            final(self).path() == old(self).path(),
            r is Ok ==> listing_kept(final(self).filesystem(), old(self).path()) == Ok::<
                Seq<Seq<u8>>,
                ErrorView,
            >(old(self).listed()),
            forall|other: Seq<char>|
                other != old(self).path() ==> final(self).filesystem().content(other)
                    == old(self).filesystem().content(other),
    {
        self.write()
    }
}

/// The directory of the blobs, below the root of a cache.
pub const DEFAULT_BLOBS_SUBDIR: &'static str = "blobs";

/// The directory of the pointers from task inputs to the record of their
/// run.
pub const DEFAULT_METADATA_POINTERS_SUBDIR: &'static str = "metadata";

/// The directory of the pointers from task inputs to task outputs.
pub const DEFAULT_OUTPUTS_POINTERS_SUBDIR: &'static str = "inputs_to_outputs";

/// The file of the index.
pub const DEFAULT_INPUTS_LISTING_FILE: &'static str = "inputs.listing";

/// What is known of earlier runs: the blobs, the pointers from the
/// fingerprint of task inputs to task outputs and to the record of the
/// run, and the index of the fingerprints.
#[verifier::reject_recursive_types(F)]
#[verifier::reject_recursive_types(Idx)]
pub struct Cache<F: Filesystem, Idx: Index<Filesystem = F>> {
    system: System,
    index: Idx,
    blob_cache: BlobCache<F>,
    metadata_pointer_cache: BlobPointerCache<F>,
    outputs_pointer_cache: BlobPointerCache<F>,
}

/// What a lookup by fingerprint finds: nothing where no pointer leads on
/// from the fingerprint, else what is stored under the identity that the
/// pointer holds; a pointer to nothing is an error.
pub open spec fn found<F: Filesystem>(pointers: F, blobs: F, fingerprint: Seq<u8>) -> Result<
    Option<Seq<u8>>,
    ErrorView,
> {
    match pointer_at(pointers, fingerprint) {
        None => Ok(None),
        Some(destination) => match blobs.content(blob_name(destination)) {
            Ok(bytes) => Ok(Some(bytes)),
            Err(failure) => Err(read_error(blob_name(destination), failure)),
        },
    }
}

/// Whether an error is that of storing what the file at the path holds as
/// a blob: where the file cannot be read, the error says so and why; else
/// it is the error of the write or of the rename at a temporary name.
pub open spec fn copy_failed<G: Filesystem>(files: G, path: Seq<char>, e: ErrorView) -> bool {
    match files.content(path) {
        Err(failure) => e == (ErrorView::Io { operation: Operation::Read, path, failure }),
        Ok(_) => exists|number: u64|
            e matches ErrorView::Io { operation, path: at, failure } && at
                == #[trigger] temporary_named(number) && (operation == Operation::Write
                || operation == Operation::Move),
    }
}

/// Whether the parts of a cache are laid out in a filesystem: the blobs
/// below `blobs`, the pointers to task outputs below `inputs_to_outputs`,
/// and the pointers to records of runs below `metadata`.
pub open spec fn laid_out<F: Filesystem>(
    filesystem: F,
    blobs: F,
    outputs_pointers: F,
    metadata_pointers: F,
) -> bool {
    &&& shows_below(filesystem, blobs, DEFAULT_BLOBS_SUBDIR@)
    &&& shows_below(filesystem, outputs_pointers, DEFAULT_OUTPUTS_POINTERS_SUBDIR@)
    &&& shows_below(filesystem, metadata_pointers, DEFAULT_METADATA_POINTERS_SUBDIR@)
}

/// Whether an error is that of a write to the file at the path.
pub open spec fn is_write_error(e: ErrorView, path: Seq<char>) -> bool {
    e matches ErrorView::Io { operation, path: at, failure } && operation == Operation::Write && at
        == path
}

/// What laying out the parts of a cache in a filesystem comes to: done, or
/// the first error of going below `blobs`, `metadata` and
/// `inputs_to_outputs`, in that order.
pub open spec fn layout_outcome<F: Filesystem>(filesystem: F) -> Result<(), ErrorView> {
    match filesystem.opens(DEFAULT_BLOBS_SUBDIR@) {
        Err(e) => Err(e),
        Ok(_) => match filesystem.opens(DEFAULT_METADATA_POINTERS_SUBDIR@) {
            Err(e) => Err(e),
            Ok(_) => filesystem.opens(DEFAULT_OUTPUTS_POINTERS_SUBDIR@),
        },
    }
}

/// Whether the blobs hold what the file at the path of another filesystem
/// holds: the file can be read, its identity has thirty-two bytes, and
/// there is a blob for its content.
pub open spec fn stored<F: Filesystem, G: Filesystem>(blobs: F, files: G, path: Seq<char>) -> bool {
    files.content(path) matches Ok(bytes) && sha256(bytes).len() == 32 && holds_blob_of(
        blobs,
        bytes,
    )
}

impl<F: Filesystem, Idx: Index<Filesystem = F>> Cache<F, Idx> {
    /// The filesystem of the blobs.
    pub closed spec fn blobs(&self) -> F {
        self.blob_cache.filesystem()
    }

    /// The filesystem of the pointers to task outputs.
    pub closed spec fn outputs_pointers(&self) -> F {
        self.outputs_pointer_cache.filesystem()
    }

    /// The filesystem of the pointers to records of runs.
    pub closed spec fn metadata_pointers(&self) -> F {
        self.metadata_pointer_cache.filesystem()
    }

    /// The fingerprints in the index.
    pub closed spec fn known(&self) -> Seq<Seq<u8>> {
        self.index.entries()
    }

    /// The machine that the cache runs on.
    pub closed spec fn machine(&self) -> SystemView {
        self.system@
    }

    /// A cache of these parts.
    pub fn new(
        system: System,
        index: Idx,
        blob_cache: BlobCache<F>,
        metadata_pointer_cache: BlobPointerCache<F>,
        outputs_pointer_cache: BlobPointerCache<F>,
    ) -> (r: Self)
        ensures
            r.blobs() == blob_cache.filesystem(),
            r.outputs_pointers() == outputs_pointer_cache.filesystem(),
            r.metadata_pointers() == metadata_pointer_cache.filesystem(),
            r.known() == index.entries(),
            r.machine() == system@,
    {
        Self { system, index, blob_cache, metadata_pointer_cache, outputs_pointer_cache }
    }

    /// Whether `r` is the cache of these fingerprints with its parts laid
    /// out in the filesystem, or the error of laying them out.
    pub open spec fn assembled(
        filesystem: F,
        system: SystemView,
        entries: Seq<Seq<u8>>,
        r: Result<Self, Error>,
    ) -> bool {
        match layout_outcome(filesystem) {
            Err(e) => r matches Err(returned) && returned@ == e,
            Ok(_) => r matches Ok(cache) && cache.known() == entries && laid_out(
                filesystem,
                cache.blobs(),
                cache.outputs_pointers(),
                cache.metadata_pointers(),
            ) && cache.machine() == system,
        }
    }

    /// Whether `r` is what beginning a cache in the filesystem comes to:
    /// the index is begun in the root of the filesystem, and where that
    /// fails, that is the error; else the cache has no fingerprint yet and
    /// its parts are laid out.
    pub open spec fn begun(filesystem: F, system: SystemView, r: Result<Self, Error>) -> bool {
        exists|root: F|
            (#[trigger] shows_below(filesystem, root, ""@)) && (match Idx::begins(
                root,
                DEFAULT_INPUTS_LISTING_FILE@,
            ) {
                Err(e) => r matches Err(returned) && returned@ == e,
                Ok(_) => Self::assembled(filesystem, system, Seq::empty(), r),
            })
    }

    /// Whether `r` is what making a new cache in the filesystem comes to.
    pub open spec fn created(filesystem: F, system: SystemView, r: Result<Self, Error>) -> bool {
        match filesystem.opens(""@) {
            Err(e) => r matches Err(returned) && returned@ == e,
            Ok(_) => Self::begun(filesystem, system, r),
        }
    }

    /// Whether `r` is what opening the cache in the filesystem comes to:
    /// the error where the file of the index cannot be read as a listing in
    /// strict order, else the cache of the fingerprints that it holds.
    pub open spec fn opened(filesystem: F, system: SystemView, r: Result<Self, Error>) -> bool {
        match filesystem.opens(""@) {
            Err(e) => r matches Err(returned) && returned@ == e,
            Ok(_) => match listing_kept(filesystem, DEFAULT_INPUTS_LISTING_FILE@) {
                Err(e) => r matches Err(returned) && returned@ == e,
                Ok(entries) => Self::assembled(filesystem, system, entries, r),
            },
        }
    }

    /// Whether `r` is what opening the cache in the filesystem, or making a
    /// new one where its index cannot be opened, comes to.
    pub open spec fn opened_or_created(
        filesystem: F,
        system: SystemView,
        r: Result<Self, Error>,
    ) -> bool {
        match filesystem.opens(""@) {
            Err(e) => r matches Err(returned) && returned@ == e,
            Ok(_) => match listing_kept(filesystem, DEFAULT_INPUTS_LISTING_FILE@) {
                Err(_) => Self::begun(filesystem, system, r),
                Ok(entries) => Self::assembled(filesystem, system, entries, r),
            },
        }
    }

    /// A new cache in the filesystem, with an empty index.
    pub fn create(filesystem: F, system: System) -> (r: Result<Self, Error>)
        ensures
            Self::created(filesystem, system@, r),
            r matches Ok(cache) ==> cache.known() == Seq::<Seq<u8>>::empty() && laid_out(
                filesystem,
                cache.blobs(),
                cache.outputs_pointers(),
                cache.metadata_pointers(),
            ) && cache.machine() == system@,
    {
        proof {
            reveal_strlit("");
        }
        let ghost machine = system@;
        let root = match filesystem.sub_system("") {
            Ok(root) => root,
            Err(e) => {
                return Err(e);
            },
        };
        let ghost seen = root;
        assert(shows_below(filesystem, seen, ""@));
        let index = match Idx::create(root, DEFAULT_INPUTS_LISTING_FILE) {
            Ok(index) => index,
            Err(e) => {
                return Err(e);
            },
        };
        let r = Self::create_or_open_internal(filesystem, system, index);
        assert(Self::assembled(filesystem, machine, Seq::empty(), r));
        r
    }

    /// The cache that is in the filesystem: its index is what the file of
    /// the index holds.
    pub fn open(filesystem: F, system: System) -> (r: Result<Self, Error>)
        ensures
            Self::opened(filesystem, system@, r),
            r matches Ok(cache) ==> listing_kept(filesystem, DEFAULT_INPUTS_LISTING_FILE@) == Ok::<
                Seq<Seq<u8>>,
                ErrorView,
            >(cache.known()) && laid_out(
                filesystem,
                cache.blobs(),
                cache.outputs_pointers(),
                cache.metadata_pointers(),
            ) && cache.machine() == system@,
    {
        proof {
            reveal_strlit("");
            reveal_strlit("inputs.listing");
        }
        let root = match filesystem.sub_system("") {
            Ok(root) => root,
            Err(e) => {
                return Err(e);
            },
        };
        assert(joined(""@, DEFAULT_INPUTS_LISTING_FILE@) == DEFAULT_INPUTS_LISTING_FILE@);
        assert(root.content(DEFAULT_INPUTS_LISTING_FILE@) == filesystem.content(
            DEFAULT_INPUTS_LISTING_FILE@,
        ));
        let index = match Idx::open(root, DEFAULT_INPUTS_LISTING_FILE) {
            Ok(index) => index,
            Err(e) => {
                return Err(e);
            },
        };
        Self::create_or_open_internal(filesystem, system, index)
    }

    /// The cache that is in the filesystem, or a new one where its index
    /// cannot be opened.
    pub fn open_or_create(filesystem: F, system: System) -> (r: Result<Self, Error>)
        ensures
            Self::opened_or_created(filesystem, system@, r),
            r matches Ok(cache) ==> cache.known() == (match listing_kept(
                filesystem,
                DEFAULT_INPUTS_LISTING_FILE@,
            ) {
                Ok(entries) => entries,
                Err(_) => Seq::<Seq<u8>>::empty(),
            }) && laid_out(
                filesystem,
                cache.blobs(),
                cache.outputs_pointers(),
                cache.metadata_pointers(),
            ) && cache.machine() == system@,
    {
        proof {
            reveal_strlit("");
            reveal_strlit("inputs.listing");
        }
        let root = match filesystem.sub_system("") {
            Ok(root) => root,
            Err(e) => {
                return Err(e);
            },
        };
        assert(joined(""@, DEFAULT_INPUTS_LISTING_FILE@) == DEFAULT_INPUTS_LISTING_FILE@);
        assert(root.content(DEFAULT_INPUTS_LISTING_FILE@) == filesystem.content(
            DEFAULT_INPUTS_LISTING_FILE@,
        ));
        let ghost machine = system@;
        let index = match Idx::open(root, DEFAULT_INPUTS_LISTING_FILE) {
            Ok(index) => index,
            Err(_) => {
                let root = match filesystem.sub_system("") {
                    Ok(root) => root,
                    Err(e) => {
                        return Err(e);
                    },
                };
                let ghost seen = root;
                assert(shows_below(filesystem, seen, ""@));
                let index = match Idx::create(root, DEFAULT_INPUTS_LISTING_FILE) {
                    Ok(index) => index,
                    Err(e) => {
                        return Err(e);
                    },
                };
                let r = Self::create_or_open_internal(filesystem, system, index);
                assert(Self::assembled(filesystem, machine, Seq::empty(), r));
                return r;
            },
        };
        Self::create_or_open_internal(filesystem, system, index)
    }

    /// The cache with this index and its parts laid out in the filesystem;
    /// the error where a part cannot be laid out.
    fn create_or_open_internal(filesystem: F, system: System, index: Idx) -> (r: Result<Self, Error>)
        ensures
            Self::assembled(filesystem, system@, index.entries(), r),
            r matches Ok(cache) ==> cache.known() == index.entries() && laid_out(
                filesystem,
                cache.blobs(),
                cache.outputs_pointers(),
                cache.metadata_pointers(),
            ) && cache.machine() == system@,
    {
        let blobs = match filesystem.sub_system(DEFAULT_BLOBS_SUBDIR) {
            Ok(blobs) => blobs,
            Err(e) => {
                return Err(e);
            },
        };
        let metadata = match filesystem.sub_system(DEFAULT_METADATA_POINTERS_SUBDIR) {
            Ok(metadata) => metadata,
            Err(e) => {
                return Err(e);
            },
        };
        let outputs = match filesystem.sub_system(DEFAULT_OUTPUTS_POINTERS_SUBDIR) {
            Ok(outputs) => outputs,
            Err(e) => {
                return Err(e);
            },
        };
        Ok(
            Self {
                system,
                index,
                blob_cache: BlobCache::new(blobs),
                metadata_pointer_cache: BlobPointerCache::new(metadata),
                outputs_pointer_cache: BlobPointerCache::new(outputs),
            },
        )
    }

    /// The blobs.
    pub fn blob_cache(&mut self) -> (r: &mut BlobCache<F>)
        ensures
            r.filesystem() == old(self).blobs(),
            final(self).blobs() == final(r).filesystem(),
            final(self).outputs_pointers() == old(self).outputs_pointers(),
            final(self).metadata_pointers() == old(self).metadata_pointers(),
            final(self).known() == old(self).known(),
    {
        &mut self.blob_cache
    }

    /// The pointers to task outputs.
    pub fn outputs_pointer_cache(&mut self) -> (r: &mut BlobPointerCache<F>)
        ensures
            r.filesystem() == old(self).outputs_pointers(),
            final(self).outputs_pointers() == final(r).filesystem(),
            final(self).blobs() == old(self).blobs(),
            final(self).metadata_pointers() == old(self).metadata_pointers(),
            final(self).known() == old(self).known(),
    {
        &mut self.outputs_pointer_cache
    }

    /// The pointers to records of runs.
    pub fn metadata_pointer_cache(&mut self) -> (r: &mut BlobPointerCache<F>)
        ensures
            r.filesystem() == old(self).metadata_pointers(),
            final(self).metadata_pointers() == final(r).filesystem(),
            final(self).blobs() == old(self).blobs(),
            final(self).outputs_pointers() == old(self).outputs_pointers(),
            final(self).known() == old(self).known(),
    {
        &mut self.metadata_pointer_cache
    }

    /// The index.
    pub fn index(&mut self) -> (r: &mut Idx)
        ensures
            r.entries() == old(self).known(),
            final(self).known() == final(r).entries(),
            final(self).blobs() == old(self).blobs(),
            final(self).outputs_pointers() == old(self).outputs_pointers(),
            final(self).metadata_pointers() == old(self).metadata_pointers(),
    {
        &mut self.index
    }

    /// The blobs, to read.
    pub fn blobs_ref(&self) -> (r: &BlobCache<F>)
        ensures
            r.filesystem() == self.blobs(),
    {
        &self.blob_cache
    }

    /// The machine that the cache runs on.
    pub fn system(&self) -> (r: &System)
        ensures
            r@ == self.machine(),
    {
        &self.system
    }

    /// Whether an error and the states around it are what a recording
    /// that stopped comes to. The steps are taken in order: the inputs are
    /// stored, the outputs are stored, the fingerprint is made to point to
    /// the outputs, the record of the run is stored, the fingerprint is made
    /// to point to the record, and the fingerprint is added to the index,
    /// which is written out. The error is that of the step that failed;
    /// what the steps before it did is done, and nothing is done of the
    /// steps behind it.
    pub open spec fn stopped(
        before: Self,
        after: Self,
        inputs: Seq<u8>,
        outputs: Seq<u8>,
        metadata: Seq<u8>,
        e: ErrorView,
    ) -> bool {
        let fingerprint = sha256(inputs);
        let name = blob_name(fingerprint);
        let first = write_outcome(before.blobs(), name, inputs);
        let to_outputs = write_outcome(
            before.outputs_pointers(),
            name,
            written_identity(sha256(outputs)),
        );
        let to_metadata = write_outcome(
            before.metadata_pointers(),
            name,
            written_identity(sha256(metadata)),
        );
        let outputs_untouched = after.outputs_pointers() == before.outputs_pointers();
        let metadata_untouched = after.metadata_pointers() == before.metadata_pointers();
        let index_untouched = after.known() == before.known();
        let points_to_outputs = pointer_at(after.outputs_pointers(), fingerprint) == Some(
            sha256(outputs),
        );
        let points_to_metadata = pointer_at(after.metadata_pointers(), fingerprint) == Some(
            sha256(metadata),
        );
        ||| (first == Err::<(), ErrorView>(e) && outputs_untouched && metadata_untouched
            && index_untouched)
        ||| (first is Ok && is_write_error(e, blob_name(sha256(outputs))) && outputs_untouched
            && metadata_untouched && index_untouched)
        ||| (first is Ok && to_outputs == Err::<(), ErrorView>(e) && metadata_untouched
            && index_untouched)
        ||| (first is Ok && to_outputs is Ok && points_to_outputs && is_write_error(
            e,
            blob_name(sha256(metadata)),
        ) && metadata_untouched && index_untouched)
        ||| (first is Ok && to_outputs is Ok && points_to_outputs && to_metadata == Err::<
            (),
            ErrorView,
        >(e) && index_untouched)
        ||| (first is Ok && to_outputs is Ok && to_metadata is Ok && points_to_outputs
            && points_to_metadata && after.known() == put::<Sha256>(before.known(), fingerprint))
    }

    /// Records a run, everything given as it is written down: stores the
    /// task inputs, the task outputs and the record of the run as blobs,
    /// makes the fingerprint of the task inputs point to the outputs and to
    /// the record, and adds the fingerprint to the index, which is written
    /// out. This is done in that order, and what was done stays done where
    /// a later step fails. Returns the fingerprint. Where the filesystem
    /// does not take the first write, that is the error. No blob changes
    /// but those of the three contents, and no pointer but those at the
    /// fingerprint.
    pub fn record(&mut self, inputs: &[u8], outputs: &[u8], metadata: &[u8]) -> (r: Result<
        Sha256,
        Error,
    >)
        ensures
            write_outcome(old(self).blobs(), blob_name(sha256(inputs@)), inputs@) matches Err(e)
                ==> (r matches Err(returned) && returned@ == e),
            r matches Err(e) ==> Self::stopped(
                *old(self),
                *final(self),
                inputs@,
                outputs@,
                metadata@,
                e@,
            ),
            r is Ok ==> write_outcome(old(self).blobs(), blob_name(sha256(inputs@)), inputs@) is Ok
                && write_outcome(
                old(self).outputs_pointers(),
                blob_name(sha256(inputs@)),
                written_identity(sha256(outputs@)),
            ) is Ok && write_outcome(
                old(self).metadata_pointers(),
                blob_name(sha256(inputs@)),
                written_identity(sha256(metadata@)),
            ) is Ok,
            forall|other: Seq<char>|
                other != blob_name(sha256(inputs@)) && other != blob_name(sha256(outputs@))
                    && other != blob_name(sha256(metadata@)) ==> final(self).blobs().content(other)
                    == old(self).blobs().content(other),
            forall|other: Seq<char>|
                other != blob_name(sha256(inputs@)) ==> final(self).outputs_pointers().content(
                    other,
                ) == old(self).outputs_pointers().content(other),
            forall|other: Seq<char>|
                other != blob_name(sha256(inputs@)) ==> final(self).metadata_pointers().content(
                    other,
                ) == old(self).metadata_pointers().content(other),
            r matches Ok(fingerprint) ==> {
                &&& fingerprint@ == sha256(inputs@)
                &&& holds_blob_of(final(self).blobs(), inputs@)
                &&& holds_blob_of(final(self).blobs(), outputs@)
                &&& holds_blob_of(final(self).blobs(), metadata@)
                &&& pointer_at(final(self).outputs_pointers(), fingerprint@) == Some(
                    sha256(outputs@),
                )
                &&& pointer_at(final(self).metadata_pointers(), fingerprint@) == Some(
                    sha256(metadata@),
                )
                &&& final(self).known() == put::<Sha256>(old(self).known(), fingerprint@)
            },
            r is Ok && intact(old(self).blobs()) ==> intact(final(self).blobs()),
            r is Err ==> final(self).known() == old(self).known() || final(self).known() == put::<
                Sha256,
            >(old(self).known(), sha256(inputs@)),
    {
        let fingerprint = match self.blob_cache.write_small_blob(inputs) {
            Ok(fingerprint) => fingerprint,
            Err(e) => {
                return Err(e);
            },
        };
        let ghost first = self.blob_cache.filesystem();
        let outputs_identity = match self.blob_cache.write_small_blob(outputs) {
            Ok(identity) => identity,
            Err(e) => {
                return Err(e);
            },
        };
        let ghost second = self.blob_cache.filesystem();
        proof {
            if blob_name(sha256(outputs@)) == blob_name(sha256(inputs@)) {
                lemma_blob_name_injective(sha256(outputs@), sha256(inputs@));
            }
            assert(holds_blob_of(second, inputs@));
        }
        match self.outputs_pointer_cache.write_raw_blob_pointer(&fingerprint, &outputs_identity) {
            Ok(_) => {},
            Err(e) => {
                return Err(e);
            },
        }
        let metadata_identity = match self.blob_cache.write_small_blob(metadata) {
            Ok(identity) => identity,
            Err(e) => {
                return Err(e);
            },
        };
        proof {
            let third = self.blob_cache.filesystem();
            if blob_name(sha256(metadata@)) == blob_name(sha256(inputs@)) {
                lemma_blob_name_injective(sha256(metadata@), sha256(inputs@));
            }
            if blob_name(sha256(metadata@)) == blob_name(sha256(outputs@)) {
                lemma_blob_name_injective(sha256(metadata@), sha256(outputs@));
            }
            assert(holds_blob_of(third, inputs@));
            assert(holds_blob_of(third, outputs@));
        }
        match self.metadata_pointer_cache.write_raw_blob_pointer(&fingerprint, &metadata_identity) {
            Ok(_) => {},
            Err(e) => {
                return Err(e);
            },
        }
        self.index.put(fingerprint);
        match self.index.flush() {
            Ok(_) => Ok(fingerprint),
            Err(e) => Err(e),
        }
    }

    /// What is stored for the fingerprint of task inputs as their outputs:
    /// nothing where the task has not been recorded.
    pub fn outputs_of(&self, fingerprint: &Sha256) -> (r: Result<Option<Vec<u8>>, Error>)
        ensures
            match r {
                Ok(Some(bytes)) => found(self.outputs_pointers(), self.blobs(), fingerprint@)
                    == Ok::<Option<Seq<u8>>, ErrorView>(Some(bytes@)),
                Ok(None) => found(self.outputs_pointers(), self.blobs(), fingerprint@) == Ok::<
                    Option<Seq<u8>>,
                    ErrorView,
                >(None),
                Err(e) => found(self.outputs_pointers(), self.blobs(), fingerprint@) == Err::<
                    Option<Seq<u8>>,
                    ErrorView,
                >(e@),
            },
    {
        match self.outputs_pointer_cache.read_blob_pointer(fingerprint) {
            Err(_) => Ok(None),
            Ok(destination) => match self.blob_cache.read_blob(&destination) {
                Ok(bytes) => Ok(Some(bytes)),
                Err(e) => Err(e),
            },
        }
    }

    /// What is stored for the fingerprint of task inputs as the record of
    /// their run: nothing where the task has not been recorded.
    pub fn metadata_of(&self, fingerprint: &Sha256) -> (r: Result<Option<Vec<u8>>, Error>)
        ensures
            match r {
                Ok(Some(bytes)) => found(self.metadata_pointers(), self.blobs(), fingerprint@)
                    == Ok::<Option<Seq<u8>>, ErrorView>(Some(bytes@)),
                Ok(None) => found(self.metadata_pointers(), self.blobs(), fingerprint@) == Ok::<
                    Option<Seq<u8>>,
                    ErrorView,
                >(None),
                Err(e) => found(self.metadata_pointers(), self.blobs(), fingerprint@) == Err::<
                    Option<Seq<u8>>,
                    ErrorView,
                >(e@),
            },
    {
        match self.metadata_pointer_cache.read_blob_pointer(fingerprint) {
            Err(_) => Ok(None),
            Ok(destination) => match self.blob_cache.read_blob(&destination) {
                Ok(bytes) => Ok(Some(bytes)),
                Err(e) => Err(e),
            },
        }
    }

    /// Records a run of a task: its inputs, its outputs, and when it ran
    /// for how long on this machine. Where that succeeds, what was written
    /// of the inputs is held as a blob, its fingerprint points to outputs
    /// and to a record, and the fingerprint is in the index. Where it
    /// fails, either nothing has changed, or the recording stopped at the
    /// step whose error is returned.
    pub fn put_task<S: Serialization>(
        &mut self,
        timestamp_nanos: i64,
        execution_duration_nanos: u128,
        inputs: &TaskInputs,
        outputs: &TaskOutputs,
    ) -> (r: Result<(), Error>)
        ensures
            r is Ok ==> exists|written: Seq<u8>|
                {
                    &&& holds_blob_of(final(self).blobs(), written)
                    &&& pointer_at(final(self).outputs_pointers(), #[trigger] sha256(written))
                        is Some
                    &&& pointer_at(final(self).metadata_pointers(), sha256(written)) is Some
                    &&& final(self).known() == put::<Sha256>(old(self).known(), sha256(written))
                },
            r matches Err(e) ==> *final(self) == *old(self) || exists|
                inputs: Seq<u8>,
                outputs: Seq<u8>,
                metadata: Seq<u8>,
            | #[trigger]
                Self::stopped(*old(self), *final(self), inputs, outputs, metadata, e@),
            r is Ok && intact(old(self).blobs()) ==> intact(final(self).blobs()),
    {
        let ghost before = *self;
        let metadata = Metadata::new(timestamp_nanos, execution_duration_nanos, self.system.clone());
        let inputs_bytes = match S::inputs_to_bytes(&inputs.as_transport()) {
            Ok(bytes) => bytes,
            Err(e) => {
                return Err(e);
            },
        };
        let outputs_bytes = match S::outputs_to_bytes(&outputs.as_transport()) {
            Ok(bytes) => bytes,
            Err(e) => {
                return Err(e);
            },
        };
        let metadata_bytes = match S::metadata_to_bytes(&metadata.as_transport()) {
            Ok(bytes) => bytes,
            Err(e) => {
                return Err(e);
            },
        };
        match self.record(
            inputs_bytes.as_slice(),
            outputs_bytes.as_slice(),
            metadata_bytes.as_slice(),
        ) {
            Ok(_) => {
                assert(pointer_at(self.outputs_pointers(), sha256(inputs_bytes@)) is Some);
                Ok(())
            },
            Err(e) => {
                assert(Self::stopped(
                    before,
                    *self,
                    inputs_bytes@,
                    outputs_bytes@,
                    metadata_bytes@,
                    e@,
                ));
                Err(e)
            },
        }
    }

    /// Stores as blobs what the files of a manifest hold: every file that
    /// was identified, as it is now, in the order of the manifest. Where
    /// that succeeds, the store holds a blob for each of them; where no file
    /// was identified it succeeds and changes nothing. It stops at the
    /// first file that cannot be stored, with the error of that file and
    /// with the files before it stored. Pointers and index stay as they
    /// are.
    pub fn put_blobs<G: Filesystem>(&mut self, filesystem: &G, manifest: &FileIdentitiesManifest) -> (r:
        Result<(), Error>)
        ensures
            (forall|i: int| 0 <= i < manifest@.len() ==> (#[trigger] manifest@[i]).1 is None) ==> r
                is Ok && final(self).blobs() == old(self).blobs(),
            r matches Err(e) ==> exists|i: int|
                0 <= i < manifest@.len() && (#[trigger] manifest@[i]).1 is Some && copy_failed(
                    *filesystem,
                    manifest@[i].0,
                    e@,
                ) && forall|k: int|
                    0 <= k < i && (#[trigger] manifest@[k]).1 is Some ==> stored(
                        final(self).blobs(),
                        *filesystem,
                        manifest@[k].0,
                    ),
            r is Ok ==> forall|i: int|
                0 <= i < manifest@.len() && (#[trigger] manifest@[i]).1 is Some ==> stored(
                    final(self).blobs(),
                    *filesystem,
                    manifest@[i].0,
                ),
            r matches Err(e) ==> e@ is Io,
            intact(old(self).blobs()) ==> intact(final(self).blobs()),
            final(self).known() == old(self).known(),
            final(self).outputs_pointers() == old(self).outputs_pointers(),
            final(self).metadata_pointers() == old(self).metadata_pointers(),
    {
        let identities = manifest.identities();
        let mut i: usize = 0;
        while i < identities.len()
            invariant
                0 <= i <= identities.len(),
                identities.deep_view() == manifest@,
                intact(old(self).blobs()) ==> intact(self.blobs()),
                self.known() == old(self).known(),
                self.outputs_pointers() == old(self).outputs_pointers(),
                self.metadata_pointers() == old(self).metadata_pointers(),
                (forall|k: int| 0 <= k < i ==> (#[trigger] manifest@[k]).1 is None) ==> self.blobs()
                    == old(self).blobs(),
                forall|k: int|
                    0 <= k < i && (#[trigger] manifest@[k]).1 is Some ==> stored(
                        self.blobs(),
                        *filesystem,
                        manifest@[k].0,
                    ),
            decreases identities.len() - i,
        {
            assert(manifest@[i as int] == identities[i as int].deep_view());
            if identities[i].1.is_some() {
                let ghost before = self.blobs();
                match self.blob_cache.copy_in(filesystem, identities[i].0.as_str()) {
                    Ok(identity) => {
                        assert(identity@.len() == 32);
                    },
                    Err(e) => {
                        proof {
                            let after = self.blobs();
                            assert(copy_failed(*filesystem, manifest@[i as int].0, e@));
                            assert forall|k: int|
                                0 <= k < i && (#[trigger] manifest@[k]).1 is Some implies stored(
                                after,
                                *filesystem,
                                manifest@[k].0,
                            ) by {
                                let earlier = filesystem.content(manifest@[k].0)->Ok_0;
                                assert(stored(before, *filesystem, manifest@[k].0));
                                assert(blob_name(sha256(earlier)).len() == 64);
                            }
                        }
                        return Err(e);
                    },
                }
                proof {
                    let after = self.blobs();
                    let written = filesystem.content(manifest@[i as int].0)->Ok_0;
                    assert(stored(after, *filesystem, manifest@[i as int].0));
                    assert forall|k: int|
                        0 <= k < i && (#[trigger] manifest@[k]).1 is Some implies stored(
                        after,
                        *filesystem,
                        manifest@[k].0,
                    ) by {
                        let earlier = filesystem.content(manifest@[k].0)->Ok_0;
                        assert(stored(before, *filesystem, manifest@[k].0));
                        assert(blob_name(sha256(earlier)).len() == 64);
                        if blob_name(sha256(earlier)) == blob_name(sha256(written)) {
                            lemma_blob_name_injective(sha256(earlier), sha256(written));
                        } else {
                            assert(after.content(blob_name(sha256(earlier))) == before.content(
                                blob_name(sha256(earlier)),
                            ));
                        }
                    }
                }
            }
            i += 1;
        }
        Ok(())
    }

    /// The record of the run of the task with this fingerprint: nothing
    /// where the task has not been recorded, the error where what the
    /// fingerprint points to is not there, else what is made of the bytes
    /// that are stored.
    pub fn get_metadata<S: Serialization>(&self, task_inputs_identity: &Sha256) -> (r: Result<
        Option<Metadata>,
        Error,
    >)
        ensures
            match found(self.metadata_pointers(), self.blobs(), task_inputs_identity@) {
                Err(e) => r matches Err(returned) && returned@ == e,
                Ok(None) => r matches Ok(None),
                Ok(Some(_)) => !(r matches Ok(None)),
            },
    {
        match self.metadata_of(task_inputs_identity) {
            Err(e) => Err(e),
            Ok(None) => Ok(None),
            Ok(Some(bytes)) => match S::metadata_from_bytes(bytes.as_slice()) {
                Err(e) => Err(e),
                Ok(transport) => Ok(Some(Metadata::from(transport))),
            },
        }
    }

    /// The outputs of the task with this fingerprint: nothing where the
    /// task has not been recorded, the error where what the fingerprint
    /// points to is not there, else what is made of the bytes that are
    /// stored.
    pub fn get_outputs<S: Serialization>(&self, task_inputs_identity: &Sha256) -> (r: Result<
        Option<TaskOutputs>,
        Error,
    >)
        ensures
            match found(self.outputs_pointers(), self.blobs(), task_inputs_identity@) {
                Err(e) => r matches Err(returned) && returned@ == e,
                Ok(None) => r matches Ok(None),
                Ok(Some(_)) => !(r matches Ok(None)),
            },
    {
        match self.outputs_of(task_inputs_identity) {
            Err(e) => Err(e),
            Ok(None) => Ok(None),
            Ok(Some(bytes)) => match S::outputs_from_bytes(bytes.as_slice()) {
                Err(e) => Err(e),
                Ok(transport) => match TaskOutputs::try_from(transport) {
                    Ok(outputs) => Ok(Some(outputs)),
                    Err(e) => Err(e),
                },
            },
        }
    }
}

} // verus!

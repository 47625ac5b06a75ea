//! The blob store: immutable contents under the identity of what they
//! hold, and pointers from one identity to another.

use crate::error::Error;
use crate::error::ErrorView;
use crate::error::Failure;
use crate::error::Operation;
use crate::fs::Filesystem;
use crate::identity::sha256;
use crate::identity::sha256_digest;
use crate::transport::hex_decoded;
use crate::transport::hex_encoded;
use crate::transport::is_hex;
use crate::transport::lemma_hex_round_trip;
use crate::transport::Sha256;
use crate::transport::TaskInput;
use crate::transport::TaskOutput;
use vstd::prelude::*;
use vstd::slice::slice_subrange;
use vstd::string::StringExecFns;
use vstd::string::StringSliceAdditionalSpecFns;
use vstd::utf8::encode_utf8;
use vstd::utf8::is_ascii_chars_encode_utf8;

verus! {

/// How values that are more than an identity are written down and read
/// back. What is written of a value must be read back as that value, and
/// the same value must always be written the same way, key for key: the
/// identity of what is written stands for the value.
pub trait Serialization {
    /// Task inputs as bytes.
    fn inputs_to_bytes(value: &TaskInput) -> Result<Vec<u8>, Error>;

    /// The task inputs that bytes stand for.
    fn inputs_from_bytes(bytes: &[u8]) -> Result<TaskInput, Error>;

    /// Task outputs as bytes.
    fn outputs_to_bytes(value: &TaskOutput) -> Result<Vec<u8>, Error>;

    /// The task outputs that bytes stand for.
    fn outputs_from_bytes(bytes: &[u8]) -> Result<TaskOutput, Error>;

    /// The record of a run as bytes.
    fn metadata_to_bytes(value: &crate::transport::Metadata) -> Result<Vec<u8>, Error>;

    /// The record of a run that bytes stand for.
    fn metadata_from_bytes(bytes: &[u8]) -> Result<crate::transport::Metadata, Error>;
}

/// The text format of what the store itself writes: identities and
/// listings of identities, as JSON without white space.
pub struct JSON;

/// An identity as it is written: its sixty-four hexadecimal digits between
/// double quotes.
pub open spec fn written_identity(identity: Seq<u8>) -> Seq<u8> {
    seq![0x22u8] + encode_utf8(hex_encoded(identity)) + seq![0x22u8]
}

/// The identity that bytes stand for, if they are one as it is written.
pub open spec fn read_identity(bytes: Seq<u8>) -> Option<Seq<u8>> {
    if bytes.len() == 66 && bytes[0] == 0x22 && bytes[65] == 0x22 && is_hex(bytes.subrange(1, 65)) {
        Some(hex_decoded(bytes.subrange(1, 65)))
    } else {
        None
    }
}

/// An identity is read back as it was written.
pub proof fn lemma_identity_round_trip(identity: Seq<u8>)
    requires
        identity.len() == 32,
    ensures
        written_identity(identity).len() == 66,
        read_identity(written_identity(identity)) == Some(identity),
{
    lemma_hex_round_trip(identity);
    is_ascii_chars_encode_utf8(hex_encoded(identity));
    let digits = encode_utf8(hex_encoded(identity));
    let bytes = written_identity(identity);
    assert(digits.len() == 64);
    assert(bytes.subrange(1, 65) =~= digits);
}

impl JSON {
    /// An identity as it is written.
    pub fn identity_to_bytes(identity: &Sha256) -> (r: Vec<u8>)
        ensures
            r@ == written_identity(identity@),
    {
        let text = identity.to_string();
        let digits = text.as_str().as_bytes();
        let mut r: Vec<u8> = Vec::new();
        r.push(0x22u8);
        let mut i: usize = 0;
        while i < digits.len()
            invariant
                0 <= i <= digits.len(),
                r@ == seq![0x22u8] + digits@.take(i as int),
            decreases digits.len() - i,
        {
            r.push(digits[i]);
            assert(digits@.take(i + 1) =~= digits@.take(i as int).push(digits@[i as int]));
            assert(r@ =~= seq![0x22u8] + digits@.take(i + 1));
            i += 1;
        }
        assert(digits@.take(i as int) =~= digits@);
        r.push(0x22u8);
        assert(r@ =~= written_identity(identity@));
        r
    }

    /// The identity that bytes stand for; bytes that are no identity as it
    /// is written are refused.
    pub fn identity_from_bytes(bytes: &[u8]) -> (r: Result<Sha256, Error>)
        ensures
            match r {
                Ok(identity) => read_identity(bytes@) == Some(identity@),
                Err(e) => read_identity(bytes@) is None && e@ == ErrorView::Serialization,
            },
    {
        if bytes.len() != 66 || bytes[0] != 0x22u8 || bytes[65] != 0x22u8 {
            return Err(Error::Serialization);
        }
        match Sha256::from_hex(slice_subrange(bytes, 1, 65)) {
            Some(identity) => Ok(identity),
            None => Err(Error::Serialization),
        }
    }
}

/// How a listing begins: `{"entries":[`.
pub open spec fn listing_prefix() -> Seq<u8> {
    seq![
        0x7Bu8,
        0x22u8,
        0x65u8,
        0x6Eu8,
        0x74u8,
        0x72u8,
        0x69u8,
        0x65u8,
        0x73u8,
        0x22u8,
        0x3Au8,
        0x5Bu8,
    ]
}

/// How a listing ends: `]}`.
pub open spec fn listing_suffix() -> Seq<u8> {
    seq![0x5Du8, 0x7Du8]
}

/// Identities as they are written in a listing: one after the other, with
/// a comma between them.
pub open spec fn written_entries(entries: Seq<Seq<u8>>) -> Seq<u8>
    decreases entries.len(),
{
    if entries.len() == 0 {
        Seq::empty()
    } else if entries.len() == 1 {
        written_identity(entries[0])
    } else {
        written_entries(entries.drop_last()) + seq![0x2Cu8] + written_identity(entries.last())
    }
}

/// A listing as it is written.
pub open spec fn written_listing(entries: Seq<Seq<u8>>) -> Seq<u8> {
    listing_prefix() + written_entries(entries) + listing_suffix()
}

/// The identities, one at least, that bytes stand for, if they are
/// identities as they are written in a listing.
pub open spec fn read_some_entries(body: Seq<u8>) -> Option<Seq<Seq<u8>>>
    decreases body.len(),
{
    if body.len() == 66 {
        match read_identity(body) {
            Some(identity) => Some(seq![identity]),
            None => None,
        }
    } else if body.len() > 67 && body[body.len() - 67] == 0x2C {
        match read_some_entries(body.take(body.len() - 67)) {
            None => None,
            Some(first) => match read_identity(body.skip(body.len() - 66)) {
                Some(identity) => Some(first.push(identity)),
                None => None,
            },
        }
    } else {
        None
    }
}

/// The identities that bytes stand for, if they are a listing as it is
/// written.
pub open spec fn read_listing(bytes: Seq<u8>) -> Option<Seq<Seq<u8>>> {
    if bytes.len() >= 14 && bytes.take(12) == listing_prefix() && bytes.skip(bytes.len() - 2)
        == listing_suffix() {
        if bytes.len() == 14 {
            Some(Seq::empty())
        } else {
            read_some_entries(bytes.subrange(12, bytes.len() - 2))
        }
    } else {
        None
    }
}

/// Every identity has thirty-two bytes.
pub open spec fn are_identities(entries: Seq<Seq<u8>>) -> bool {
    forall|i: int| 0 <= i < entries.len() ==> (#[trigger] entries[i]).len() == 32
}

/// Identities are read back as they were written.
pub proof fn lemma_entries_round_trip(entries: Seq<Seq<u8>>)
    requires
        entries.len() > 0,
        are_identities(entries),
    ensures
        written_entries(entries).len() == 67 * entries.len() - 1,
        read_some_entries(written_entries(entries)) == Some(entries),
    decreases entries.len(),
{
    lemma_identity_round_trip(entries.last());
    if entries.len() == 1 {
        assert(entries =~= seq![entries[0]]);
    } else {
        let first = entries.drop_last();
        assert(are_identities(first)) by {
            assert forall|i: int| 0 <= i < first.len() implies (#[trigger] first[i]).len() == 32 by {
                assert(first[i] == entries[i]);
            }
        }
        lemma_entries_round_trip(first);
        let body = written_entries(entries);
        let head = written_entries(first);
        assert(body.len() == head.len() + 67);
        assert(body[body.len() - 67] == 0x2C);
        assert(body.take(body.len() - 67) =~= head);
        assert(body.skip(body.len() - 66) =~= written_identity(entries.last()));
        assert(first.push(entries.last()) =~= entries);
    }
}

/// A listing is read back as it was written.
pub proof fn lemma_listing_round_trip(entries: Seq<Seq<u8>>)
    requires
        are_identities(entries),
    ensures
        read_listing(written_listing(entries)) == Some(entries),
{
    let bytes = written_listing(entries);
    assert(bytes.take(12) =~= listing_prefix());
    if entries.len() == 0 {
        assert(bytes.len() == 14);
        assert(bytes.skip(12) =~= listing_suffix());
        assert(entries =~= Seq::empty());
    } else {
        lemma_entries_round_trip(entries);
        assert(bytes.skip(bytes.len() - 2) =~= listing_suffix());
        assert(bytes.subrange(12, bytes.len() - 2) =~= written_entries(entries));
    }
}

/// What was read so far, with what follows it.
pub open spec fn followed_by(first: Option<Seq<Seq<u8>>>, more: Seq<Seq<u8>>) -> Option<
    Seq<Seq<u8>>,
> {
    match first {
        Some(entries) => Some(entries + more),
        None => None,
    }
}

impl JSON {
    /// A listing as it is written.
    pub fn listing_to_bytes(listing: &crate::transport::Listing) -> (r: Vec<u8>)
        ensures
            r@ == written_listing(listing.entries.deep_view()),
    {
        let ghost entries = listing.entries.deep_view();
        let mut r: Vec<u8> = Vec::new();
        r.push(0x7Bu8);
        r.push(0x22u8);
        r.push(0x65u8);
        r.push(0x6Eu8);
        r.push(0x74u8);
        r.push(0x72u8);
        r.push(0x69u8);
        r.push(0x65u8);
        r.push(0x73u8);
        r.push(0x22u8);
        r.push(0x3Au8);
        r.push(0x5Bu8);
        assert(r@ =~= listing_prefix() + written_entries(entries.take(0)));
        let mut i: usize = 0;
        while i < listing.entries.len()
            invariant
                0 <= i <= listing.entries.len(),
                entries == listing.entries.deep_view(),
                r@ == listing_prefix() + written_entries(entries.take(i as int)),
            decreases listing.entries.len() - i,
        {
            let ghost before = r@;
            if i > 0 {
                r.push(0x2Cu8);
            }
            let mut written = Self::identity_to_bytes(&listing.entries[i]);
            let ghost identity = written@;
            r.append(&mut written);
            proof {
                let upto = entries.take(i + 1);
                assert(upto.drop_last() =~= entries.take(i as int));
                assert(upto.last() == listing.entries[i as int]@);
                if i == 0 {
                    assert(entries.take(0).len() == 0);
                    assert(written_entries(entries.take(0)) =~= Seq::<u8>::empty());
                    assert(r@ =~= listing_prefix() + identity);
                } else {
                    assert(r@ =~= listing_prefix() + (written_entries(entries.take(i as int))
                        + seq![0x2Cu8] + identity));
                }
            }
            i += 1;
        }
        assert(entries.take(i as int) =~= entries);
        r.push(0x5Du8);
        r.push(0x7Du8);
        assert(r@ =~= written_listing(entries));
        r
    }

    /// The listing that bytes stand for; bytes that are no listing as it
    /// is written are refused.
    pub fn listing_from_bytes(bytes: &[u8]) -> (r: Result<crate::transport::Listing, Error>)
        ensures
            match r {
                Ok(listing) => read_listing(bytes@) == Some(listing.entries.deep_view()),
                Err(e) => read_listing(bytes@) is None && e@ == ErrorView::Serialization,
            },
    {
        let n = bytes.len();
        if n < 14 {
            return Err(Error::Serialization);
        }
        if bytes[0] != 0x7Bu8 || bytes[1] != 0x22u8 || bytes[2] != 0x65u8 || bytes[3] != 0x6Eu8
            || bytes[4] != 0x74u8 || bytes[5] != 0x72u8 || bytes[6] != 0x69u8 || bytes[7] != 0x65u8
            || bytes[8] != 0x73u8 || bytes[9] != 0x22u8 || bytes[10] != 0x3Au8 || bytes[11]
            != 0x5Bu8 {
            assert(bytes@.take(12) != listing_prefix()) by {
                if bytes@.take(12) == listing_prefix() {
                    let p = listing_prefix();
                    assert(forall|k: int| 0 <= k < 12 ==> bytes@.take(12)[k] == p[k]);
                    assert(bytes@.take(12)[0] == bytes@[0]);
                    assert(bytes@.take(12)[1] == bytes@[1]);
                    assert(bytes@.take(12)[2] == bytes@[2]);
                    assert(bytes@.take(12)[3] == bytes@[3]);
                    assert(bytes@.take(12)[4] == bytes@[4]);
                    assert(bytes@.take(12)[5] == bytes@[5]);
                    assert(bytes@.take(12)[6] == bytes@[6]);
                    assert(bytes@.take(12)[7] == bytes@[7]);
                    assert(bytes@.take(12)[8] == bytes@[8]);
                    assert(bytes@.take(12)[9] == bytes@[9]);
                    assert(bytes@.take(12)[10] == bytes@[10]);
                    assert(bytes@.take(12)[11] == bytes@[11]);
                }
            }
            return Err(Error::Serialization);
        }
        assert(bytes@.take(12) =~= listing_prefix());
        if bytes[n - 2] != 0x5Du8 || bytes[n - 1] != 0x7Du8 {
            assert(bytes@.skip(n - 2) != listing_suffix()) by {
                if bytes@.skip(n - 2) == listing_suffix() {
                    assert(bytes@.skip(n - 2)[0] == bytes@[n - 2]);
                    assert(bytes@.skip(n - 2)[1] == bytes@[n - 1]);
                }
            }
            return Err(Error::Serialization);
        }
        assert(bytes@.skip(n - 2) =~= listing_suffix());
        if n == 14 {
            let r = crate::transport::Listing { entries: Vec::new() };
            assert(r.entries.deep_view() =~= Seq::<Seq<u8>>::empty());
            return Ok(r);
        }
        let body = slice_subrange(bytes, 12, n - 2);
        let mut backwards: Vec<Sha256> = Vec::new();
        let ghost mut tail: Seq<Seq<u8>> = Seq::empty();
        let mut end: usize = body.len();
        assert(body@.take(end as int) =~= body@);
        loop
            invariant_except_break
                read_some_entries(body@) == followed_by(
                    read_some_entries(body@.take(end as int)),
                    tail,
                ),
            invariant
                0 < end <= body.len(),
                body@ == bytes@.subrange(12, n - 2),
                n == bytes.len(),
                n > 14,
                bytes@.take(12) == listing_prefix(),
                bytes@.skip(n - 2) == listing_suffix(),
                backwards.len() == tail.len(),
                forall|k: int|
                    0 <= k < tail.len() ==> (#[trigger] backwards[k])@ == tail[tail.len() - 1 - k],
            ensures
                backwards.len() == tail.len(),
                forall|k: int|
                    0 <= k < tail.len() ==> (#[trigger] backwards[k])@ == tail[tail.len() - 1 - k],
                read_some_entries(body@) == Some(tail),
            decreases end,
        {
            let ghost upto = body@.take(end as int);
            if end == 66 {
                let chunk = slice_subrange(body, 0, 66);
                assert(chunk@ =~= upto);
                match Self::identity_from_bytes(chunk) {
                    Err(e) => {
                        return Err(e);
                    },
                    Ok(identity) => {
                        backwards.push(identity);
                        proof {
                            let before = tail;
                            tail = seq![identity@] + tail;
                            assert(seq![identity@] + before =~= tail);
                        }
                        break ;
                    },
                }
            }
            if end <= 67 || body[end - 67] != 0x2Cu8 {
                return Err(Error::Serialization);
            }
            let chunk = slice_subrange(body, end - 66, end);
            assert(chunk@ =~= upto.skip(upto.len() - 66));
            assert(upto[upto.len() - 67] == body@[end - 67]);
            assert(upto.take(upto.len() - 67) =~= body@.take(end - 67));
            match Self::identity_from_bytes(chunk) {
                Err(e) => {
                    return Err(e);
                },
                Ok(identity) => {
                    backwards.push(identity);
                    proof {
                        let before = tail;
                        tail = seq![identity@] + tail;
                        match read_some_entries(body@.take(end - 67)) {
                            Some(first) => {
                                assert(first.push(identity@) + before =~= first + tail);
                            },
                            None => {},
                        }
                    }
                },
            }
            end = end - 67;
        }
        let mut entries: Vec<Sha256> = Vec::new();
        let mut k: usize = backwards.len();
        while k > 0
            invariant
                0 <= k <= backwards.len(),
                backwards.len() == tail.len(),
                entries.len() == backwards.len() - k,
                forall|j: int|
                    0 <= j < tail.len() ==> (#[trigger] backwards[j])@ == tail[tail.len() - 1 - j],
                forall|j: int| 0 <= j < entries.len() ==> (#[trigger] entries[j])@ == tail[j],
            decreases k,
        {
            k -= 1;
            entries.push(backwards[k]);
        }
        assert(entries.deep_view() =~= tail);
        Ok(crate::transport::Listing { entries })
    }
}

/// The name under which a content with this identity is stored: the
/// identity in hexadecimal.
pub open spec fn blob_name(identity: Seq<u8>) -> Seq<char> {
    hex_encoded(identity)
}

/// Whether every blob of the filesystem is stored under the identity of
/// what it holds. A blob is a file whose name has the length of an
/// identity in hexadecimal.
pub open spec fn intact<F: Filesystem>(fs: F) -> bool {
    forall|name: Seq<char>|
        name.len() == 64 ==> match #[trigger] fs.content(name) {
            Ok(bytes) => name == blob_name(sha256(bytes)),
            Err(_) => true,
        }
}

/// The error for a blob or a pointer that could not be read.
pub open spec fn read_error(name: Seq<char>, failure: Failure) -> ErrorView {
    if failure == Failure::NotFound {
        ErrorView::MissingBlob { identity: name }
    } else {
        ErrorView::Io { operation: Operation::Read, path: name, failure }
    }
}

/// What writing the content to a file of a store comes to: done, or the
/// error that says which write failed, and why.
pub open spec fn write_outcome<F: Filesystem>(fs: F, name: Seq<char>, content: Seq<u8>) -> Result<
    (),
    ErrorView,
> {
    match fs.accepts(name, content) {
        Ok(_) => Ok(()),
        Err(failure) => Err(ErrorView::Io { operation: Operation::Write, path: name, failure }),
    }
}

/// Whether a result is what a write came to: success where the write was
/// done, else its error.
pub open spec fn as_written<T>(r: Result<T, Error>, outcome: Result<(), ErrorView>) -> bool {
    match outcome {
        Ok(_) => r is Ok,
        Err(e) => r matches Err(returned) && returned@ == e,
    }
}

/// Whether the filesystem holds a blob for the content: under the identity
/// of the content, something of that identity.
pub open spec fn holds_blob_of<F: Filesystem>(fs: F, content: Seq<u8>) -> bool {
    match fs.content(blob_name(sha256(content))) {
        Ok(bytes) => sha256(bytes) == sha256(content),
        Err(_) => false,
    }
}

/// Identities with the same name are the same identity.
pub proof fn lemma_blob_name_injective(first: Seq<u8>, second: Seq<u8>)
    requires
        blob_name(first) == blob_name(second),
    ensures
        first == second,
{
    lemma_hex_round_trip(first);
    lemma_hex_round_trip(second);
}

/// The identity that the pointer at `source` holds, if there is one.
pub open spec fn pointer_at<F: Filesystem>(fs: F, source: Seq<u8>) -> Option<Seq<u8>> {
    match fs.content(blob_name(source)) {
        Ok(bytes) => read_identity(bytes),
        Err(_) => None,
    }
}

/// Calls `rand::random`, which gives a number that nothing can be said of.
#[verifier::external_body]
fn random_number() -> u64 {
    ::rand::random::<u64>()
}

/// The eight bytes of a number, highest first.
pub open spec fn number_bytes(number: u64) -> Seq<u8> {
    seq![
        (number >> 56) as u8,
        ((number >> 48) & 0xFF) as u8,
        ((number >> 40) & 0xFF) as u8,
        ((number >> 32) & 0xFF) as u8,
        ((number >> 24) & 0xFF) as u8,
        ((number >> 16) & 0xFF) as u8,
        ((number >> 8) & 0xFF) as u8,
        (number & 0xFF) as u8,
    ]
}

/// The name of a blob while it is being written, for the number that was
/// drawn: `temporary_blob_` and the sixteen hexadecimal digits of the
/// number.
pub open spec fn temporary_named(number: u64) -> Seq<char> {
    "temporary_blob_"@ + hex_encoded(number_bytes(number))
}

/// A temporary name has thirty-one characters, so it is the name of no
/// blob: whatever number is drawn, the large write of a content never
/// writes over a blob before it renames.
pub proof fn lemma_temporary_named(number: u64, identity: Seq<u8>)
    requires
        identity.len() == 32,
    ensures
        temporary_named(number).len() == 31,
        temporary_named(number) != blob_name(identity),
{
    reveal_strlit("temporary_blob_");
    assert(blob_name(identity).len() == 64);
}

/// What a large write under a temporary name comes to, between two states
/// of the store. Where the filesystem refuses the write under the
/// temporary name, that is the error. Where the result is an identity, it
/// is that of the content, the blob holds the content, and the temporary
/// name holds nothing, unless it is the blob's own name. An error is that
/// of the write, which comes only where the filesystem refuses it, or of
/// the rename, at the temporary name; after a rename that failed the
/// temporary file holds the content, and after any error
/// the blob's name holds what it held. Every other path holds what it
/// held.
pub open spec fn large_written<F: Filesystem>(
    before: F,
    after: F,
    temporary: Seq<char>,
    content: Seq<u8>,
    r: Result<Sha256, Error>,
) -> bool {
    let name = blob_name(sha256(content));
    &&& before.accepts(temporary, content) matches Err(failure) ==> (r matches Err(e) && e@ == (
    ErrorView::Io { operation: Operation::Write, path: temporary, failure }))
    &&& r matches Ok(identity) ==> identity@ == sha256(content) && after.content(name) == Ok::<
        Seq<u8>,
        Failure,
    >(content) && (temporary != name ==> after.content(temporary) is Err)
    &&& r matches Err(e) ==> (e@ matches ErrorView::Io { operation, path, failure } && path
        == temporary && ((operation == Operation::Write && before.accepts(temporary, content)
        == Err::<(), Failure>(failure)) || (operation == Operation::Move && before.accepts(
        temporary,
        content,
    ) is Ok && after.content(temporary) == Ok::<Seq<u8>, Failure>(content))))
    &&& r is Err && temporary != name ==> after.content(name) == before.content(name)
    &&& forall|other: Seq<char>|
        other != temporary && other != name ==> #[trigger] after.content(other) == before.content(
            other,
        )
}

/// A name for a blob while it is being written: `temporary_blob_` and the
/// sixteen hexadecimal digits of the number. It is no name of a finished
/// blob.
fn temporary_name(number: u64) -> (r: String)
    ensures
        r@ == temporary_named(number),
        r@.len() == 31,
{
    let mut bytes: Vec<u8> = Vec::new();
    bytes.push((number >> 56) as u8);
    bytes.push(((number >> 48) & 0xFF) as u8);
    bytes.push(((number >> 40) & 0xFF) as u8);
    bytes.push(((number >> 32) & 0xFF) as u8);
    bytes.push(((number >> 24) & 0xFF) as u8);
    bytes.push(((number >> 16) & 0xFF) as u8);
    bytes.push(((number >> 8) & 0xFF) as u8);
    bytes.push((number & 0xFF) as u8);
    assert(bytes@ =~= number_bytes(number));
    let digits = crate::transport::hex_encode(bytes.as_slice());
    let mut name = "temporary_blob_".to_owned();
    proof {
        reveal_strlit("temporary_blob_");
    }
    name.append(digits.as_str());
    name
}

/// The error for a read that failed.
fn reading_failed(name: String, failure: Failure) -> (r: Error)
    ensures
        r@ == read_error(name@, failure),
{
    match failure {
        Failure::NotFound => Error::MissingBlob { identity: name },
        _ => Error::Io { operation: Operation::Read, path: name, failure },
    }
}

/// Contents, each stored under the identity of what it holds.
pub struct BlobCache<F: Filesystem> {
    blobs: F,
}

impl<F: Filesystem> BlobCache<F> {
    /// The filesystem that the blobs are in.
    pub closed spec fn filesystem(&self) -> F {
        self.blobs
    }

    /// The store in this filesystem.
    pub fn new(blobs: F) -> (r: Self)
        ensures
            r.filesystem() == blobs,
    {
        Self { blobs }
    }

    /// The filesystem that the blobs are in.
    pub fn blobs(&self) -> (r: &F)
        ensures
            *r == self.filesystem(),
    {
        &self.blobs
    }

    /// Hands the filesystem back.
    pub fn into_filesystem(self) -> (r: F)
        ensures
            r == self.filesystem(),
    {
        self.blobs
    }

    /// The filesystem that the blobs are in, to work on.
    pub fn blobs_mut(&mut self) -> (r: &mut F)
        ensures
            *r == old(self).filesystem(),
            final(self).filesystem() == *final(r),
    {
        &mut self.blobs
    }

    /// What is stored under the identity. Where nothing is, the blob is
    /// missing.
    pub fn read_blob(&self, identity: &Sha256) -> (r: Result<Vec<u8>, Error>)
        ensures
            match r {
                Ok(bytes) => self.filesystem().content(blob_name(identity@)) == Ok::<
                    Seq<u8>,
                    Failure,
                >(bytes@),
                Err(e) => self.filesystem().content(blob_name(identity@)) matches Err(failure)
                    && e@ == read_error(blob_name(identity@), failure),
            },
            r matches Ok(bytes) ==> (intact(self.filesystem()) ==> sha256(bytes@) == identity@),
    {
        let name = identity.to_string();
        match self.blobs.read_file(name.as_str()) {
            Ok(bytes) => {
                proof {
                    if intact(self.blobs) {
                        lemma_hex_round_trip(identity@);
                        lemma_hex_round_trip(sha256(bytes@));
                    }
                }
                Ok(bytes)
            },
            Err(failure) => Err(reading_failed(name, failure)),
        }
    }

    /// Stores the content under its identity, and returns the identity.
    /// No other file changes; where the content was stored already,
    /// nothing changes.
    pub fn write_small_blob(&mut self, content: &[u8]) -> (r: Result<Sha256, Error>)
        ensures
            as_written(
                r,
                write_outcome(old(self).filesystem(), blob_name(sha256(content@)), content@),
            ),
            match r {
                Ok(identity) => identity@ == sha256(content@) && final(self).filesystem().content(
                    blob_name(identity@),
                ) == Ok::<Seq<u8>, Failure>(content@),
                Err(e) => e@ matches ErrorView::Io { operation, path, failure } && operation
                    == Operation::Write && path == blob_name(sha256(content@)),
            },
            forall|other: Seq<char>|
                other != blob_name(sha256(content@)) ==> final(self).filesystem().content(other)
                    == old(self).filesystem().content(other),
            r is Ok && intact(old(self).filesystem()) ==> intact(final(self).filesystem()),
            r is Ok && old(self).filesystem().content(blob_name(sha256(content@))) == Ok::<
                Seq<u8>,
                Failure,
            >(content@) ==> forall|path: Seq<char>|
                final(self).filesystem().content(path) == old(self).filesystem().content(path),
    {
        let identity = Sha256::new(sha256_digest(content));
        let name = identity.to_string();
        match self.blobs.write_file(name.as_str(), content) {
            Ok(_) => Ok(identity),
            Err(failure) => Err(Error::Io { operation: Operation::Write, path: name, failure }),
        }
    }

    /// Stores the content under its identity, and returns the identity.
    /// The content is written under the temporary name first and renamed
    /// when it is complete: no blob is ever there in part. A temporary
    /// name that is no name of a blob leaves every blob as it is where the
    /// write fails.
    pub fn write_large_blob_as(&mut self, temporary: &str, content: &[u8]) -> (r: Result<
        Sha256,
        Error,
    >)
        ensures
            large_written(
                old(self).filesystem(),
                final(self).filesystem(),
                temporary@,
                content@,
                r,
            ),
            temporary@.len() != 64 && intact(old(self).filesystem()) ==> intact(
                final(self).filesystem(),
            ),
    {
        let ghost before = self.blobs;
        match self.blobs.write_file(temporary, content) {
            Ok(_) => {},
            Err(failure) => {
                proof {
                    let after = self.blobs;
                    if temporary@.len() != 64 && intact(before) {
                        assert forall|other: Seq<char>| other.len() == 64 implies match #[trigger] after.content(
                            other,
                        ) {
                            Ok(bytes) => other == blob_name(sha256(bytes)),
                            Err(_) => true,
                        } by {
                            assert(after.content(other) == before.content(other));
                        }
                    }
                }
                return Err(
                    Error::Io { operation: Operation::Write, path: temporary.to_owned(), failure },
                );
            },
        }
        let identity = Sha256::new(sha256_digest(content));
        let name = identity.to_string();
        let ghost between = self.blobs;
        match self.blobs.move_from_to(temporary, name.as_str()) {
            Ok(_) => {
                proof {
                    let after = self.blobs;
                    assert forall|other: Seq<char>|
                        other != temporary@ && other != name@ implies #[trigger] after.content(other)
                        == before.content(other) by {
                        assert(between.content(other) == before.content(other));
                    }
                    if temporary@.len() != 64 && intact(before) {
                        assert forall|other: Seq<char>| other.len() == 64 implies match #[trigger] after.content(
                            other,
                        ) {
                            Ok(bytes) => other == blob_name(sha256(bytes)),
                            Err(_) => true,
                        } by {
                            if other != name@ {
                                assert(after.content(other) == before.content(other));
                            }
                        }
                    }
                }
                Ok(identity)
            },
            Err(failure) => {
                proof {
                    let after = self.blobs;
                    assert forall|other: Seq<char>|
                        other != temporary@ && other != name@ implies #[trigger] after.content(other)
                        == before.content(other) by {
                        assert(between.content(other) == before.content(other));
                    }
                    if temporary@.len() != 64 && intact(before) {
                        assert forall|other: Seq<char>| other.len() == 64 implies match #[trigger] after.content(
                            other,
                        ) {
                            Ok(bytes) => other == blob_name(sha256(bytes)),
                            Err(_) => true,
                        } by {
                            if other != name@ {
                                assert(between.content(other) == before.content(other));
                            }
                        }
                    }
                }
                Err(Error::Io { operation: Operation::Move, path: temporary.to_owned(), failure })
            },
        }
    }

    /// Stores the content under its identity, and returns the identity.
    /// The content is written under a temporary name first, which is made
    /// of a number drawn at random, and renamed when it is complete: no
    /// blob is ever there in part, and after success nothing is left under
    /// the temporary name.
    pub fn write_large_blob(&mut self, content: &[u8]) -> (r: Result<Sha256, Error>)
        ensures
            exists|number: u64| #[trigger]
                large_written(
                    old(self).filesystem(),
                    final(self).filesystem(),
                    temporary_named(number),
                    content@,
                    r,
                ),
            r matches Ok(identity) ==> identity@ == sha256(content@)
                && final(self).filesystem().content(blob_name(identity@))
                == Ok::<Seq<u8>, Failure>(content@),
            forall|other: Seq<char>|
                other.len() == 64 && other != blob_name(sha256(content@))
                    ==> final(self).filesystem().content(other)
                    == old(self).filesystem().content(other),
            r matches Err(e) ==> e@ matches ErrorView::Io { operation, path, failure } && (operation
                == Operation::Write || operation == Operation::Move) && path.len() == 31
                && forall|other: Seq<char>|
                other.len() == 64 ==> final(self).filesystem().content(other)
                    == old(self).filesystem().content(other),
            intact(old(self).filesystem()) ==> intact(final(self).filesystem()),
    {
        let number = random_number();
        let temporary = temporary_name(number);
        let ghost before = self.blobs;
        let r = self.write_large_blob_as(temporary.as_str(), content);
        proof {
            let after = self.blobs;
            assert(large_written(before, after, temporary_named(number), content@, r));
            if r is Err {
                assert forall|other: Seq<char>| other.len() == 64 implies after.content(other)
                    == before.content(other) by {
                    if other == blob_name(sha256(content@)) {
                        assert(temporary_named(number) != other);
                    }
                }
            }
        }
        r
    }

    /// Stores what a file of another filesystem holds under its identity.
    /// Where the file cannot be read, that is the error, and nothing
    /// changes; else this is a large write of what the file holds. No
    /// other blob changes, and none at all where this fails.
    pub fn copy_in<G: Filesystem>(&mut self, source: &G, path: &str) -> (r: Result<Sha256, Error>)
        ensures
            match source.content(path@) {
                Err(failure) => r matches Err(e) && e@ == (ErrorView::Io {
                    operation: Operation::Read,
                    path: path@,
                    failure,
                }) && final(self).filesystem() == old(self).filesystem(),
                Ok(bytes) => exists|number: u64| #[trigger]
                    large_written(
                        old(self).filesystem(),
                        final(self).filesystem(),
                        temporary_named(number),
                        bytes,
                        r,
                    ),
            },
            r is Err ==> forall|other: Seq<char>|
                other.len() == 64 ==> final(self).filesystem().content(other) == old(
                    self,
                ).filesystem().content(other),
            r matches Ok(identity) ==> source.content(path@) is Ok && identity@ == sha256(
                source.content(path@)->Ok_0,
            ) && final(self).filesystem().content(blob_name(identity@)) == source.content(path@),
            source.content(path@) matches Err(failure) ==> r matches Err(e) && e@ == (
            ErrorView::Io { operation: Operation::Read, path: path@, failure })
                && final(self).filesystem() == old(self).filesystem(),
            r matches Err(e) ==> e@ is Io,
            forall|other: Seq<char>|
                other.len() == 64 && !(source.content(path@) matches Ok(bytes) && other
                    == blob_name(sha256(bytes))) ==> final(self).filesystem().content(other)
                    == old(self).filesystem().content(other),
            intact(old(self).filesystem()) ==> intact(final(self).filesystem()),
    {
        let ghost before = self.blobs;
        match source.read_file(path) {
            Ok(bytes) => {
                let r = self.write_large_blob(bytes.as_slice());
                proof {
                    let number = choose|number: u64| #[trigger]
                        large_written(before, self.blobs, temporary_named(number), bytes@, r);
                    assert(large_written(
                        before,
                        self.blobs,
                        temporary_named(number),
                        source.content(path@)->Ok_0,
                        r,
                    ));
                }
                r
            },
            Err(failure) => Err(
                Error::Io { operation: Operation::Read, path: path.to_owned(), failure },
            ),
        }
    }
}

/// Pointers: files that are named by one identity and hold another.
pub struct BlobPointerCache<F: Filesystem> {
    blob_pointers: F,
}

impl<F: Filesystem> BlobPointerCache<F> {
    /// The filesystem that the pointers are in.
    pub closed spec fn filesystem(&self) -> F {
        self.blob_pointers
    }

    /// The pointers in this filesystem.
    pub fn new(blob_pointers: F) -> (r: Self)
        ensures
            r.filesystem() == blob_pointers,
    {
        Self { blob_pointers }
    }

    /// The filesystem that the pointers are in.
    pub fn blob_pointers(&self) -> (r: &F)
        ensures
            *r == self.filesystem(),
    {
        &self.blob_pointers
    }

    /// Hands the filesystem back.
    pub fn into_filesystem(self) -> (r: F)
        ensures
            r == self.filesystem(),
    {
        self.blob_pointers
    }

    /// The filesystem that the pointers are in, to work on.
    pub fn blob_pointers_mut(&mut self) -> (r: &mut F)
        ensures
            *r == old(self).filesystem(),
            final(self).filesystem() == *final(r),
    {
        &mut self.blob_pointers
    }

    /// The identity that the pointer at `source_identity` holds.
    pub fn read_blob_pointer(&self, source_identity: &Sha256) -> (r: Result<Sha256, Error>)
        ensures
            match r {
                Ok(destination) => pointer_at(self.filesystem(), source_identity@) == Some(
                    destination@,
                ),
                Err(e) => pointer_at(self.filesystem(), source_identity@) is None
                    && match self.filesystem().content(blob_name(source_identity@)) {
                    Ok(_) => e@ == ErrorView::Serialization,
                    Err(failure) => e@ == read_error(blob_name(source_identity@), failure),
                },
            },
    {
        let name = source_identity.to_string();
        match self.blob_pointers.read_file(name.as_str()) {
            Ok(bytes) => JSON::identity_from_bytes(bytes.as_slice()),
            Err(failure) => Err(reading_failed(name, failure)),
        }
    }

    /// Makes the pointer at `source_identity` hold `destination_identity`.
    /// No other pointer changes.
    pub fn write_raw_blob_pointer(
        &mut self,
        source_identity: &Sha256,
        destination_identity: &Sha256,
    ) -> (r: Result<(), Error>)
        ensures
            as_written(
                r,
                write_outcome(
                    old(self).filesystem(),
                    blob_name(source_identity@),
                    written_identity(destination_identity@),
                ),
            ),
            r is Ok ==> pointer_at(final(self).filesystem(), source_identity@) == Some(
                destination_identity@,
            ),
            r matches Err(e) ==> e@ matches ErrorView::Io { operation, path, failure } && operation
                == Operation::Write && path == blob_name(source_identity@),
            forall|other: Seq<char>|
                other != blob_name(source_identity@) ==> final(self).filesystem().content(other)
                    == old(self).filesystem().content(other),
    {
        let name = source_identity.to_string();
        let written = JSON::identity_to_bytes(destination_identity);
        proof {
            lemma_identity_round_trip(destination_identity@);
        }
        match self.blob_pointers.write_file(name.as_str(), written.as_slice()) {
            Ok(_) => Ok(()),
            Err(failure) => Err(Error::Io { operation: Operation::Write, path: name, failure }),
        }
    }

    /// Makes the pointer at the identity of `source` hold
    /// `destination_identity`, and returns the identity of `source`. It
    /// succeeds exactly where the filesystem takes the write; else the
    /// error says which write failed.
    pub fn write_small_blob_pointer(&mut self, source: &[u8], destination_identity: &Sha256) -> (r:
        Result<Sha256, Error>)
        ensures
            as_written(
                r,
                write_outcome(
                    old(self).filesystem(),
                    blob_name(sha256(source@)),
                    written_identity(destination_identity@),
                ),
            ),
            r matches Ok(identity) ==> identity@ == sha256(source@) && pointer_at(
                final(self).filesystem(),
                identity@,
            ) == Some(destination_identity@),
            forall|other: Seq<char>|
                other != blob_name(sha256(source@)) ==> final(self).filesystem().content(other)
                    == old(self).filesystem().content(other),
    {
        let identity = Sha256::new(sha256_digest(source));
        match self.write_raw_blob_pointer(&identity, destination_identity) {
            Ok(_) => Ok(identity),
            Err(e) => Err(e),
        }
    }

    /// Makes the pointer at the identity of `source` hold
    /// `destination_identity`, and returns the identity of `source`. This
    /// is for a source of any size; what it does is the same, and it
    /// succeeds on the same terms.
    pub fn write_large_blob_pointer(&mut self, source: &[u8], destination_identity: &Sha256) -> (r:
        Result<Sha256, Error>)
        ensures
            as_written(
                r,
                write_outcome(
                    old(self).filesystem(),
                    blob_name(sha256(source@)),
                    written_identity(destination_identity@),
                ),
            ),
            r matches Ok(identity) ==> identity@ == sha256(source@) && pointer_at(
                final(self).filesystem(),
                identity@,
            ) == Some(destination_identity@),
            forall|other: Seq<char>|
                other != blob_name(sha256(source@)) ==> final(self).filesystem().content(other)
                    == old(self).filesystem().content(other),
    {
        self.write_small_blob_pointer(source, destination_identity)
    }
}

} // verus!

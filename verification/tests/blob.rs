use artifact_executor::blob::BlobCache;
use artifact_executor::blob::BlobPointerCache;
use artifact_executor::blob::JSON;
use artifact_executor::cache::Index;
use artifact_executor::cache::WriteOnDropIndex;
use artifact_executor::canonical::Listing;
use artifact_executor::error::Error;
use artifact_executor::fs::Filesystem;
use artifact_executor::memory::Change;
use artifact_executor::memory::MemoryFilesystem;
use artifact_executor::transport::ContentSha256;
use artifact_executor::transport::Listing as ListingTransport;
use artifact_executor::transport::Sha256;

/// The result with an order error stripped of its diff, for the tests that
/// are about the kind of the error.
fn kind<T>(r: Result<T, Error>) -> Result<T, Error> {
    r.map_err(|e| match e {
        Error::Duplicate(item, _) => Error::Duplicate(item, String::new()),
        Error::NotSorted(item, _) => Error::NotSorted(item, String::new()),
        other => other,
    })
}

fn a(value: &str) -> Vec<u8> {
    format!("{{\"a\":\"{}\"}}", value).into_bytes()
}

fn b(value: &str) -> Vec<u8> {
    format!("{{\"b\":\"{}\"}}", value).into_bytes()
}

fn identity_of(content: &[u8]) -> Sha256 {
    ContentSha256::identify_content(content).expect("identity")
}

#[test]
fn test_blob() {
    let mut output_filesystem = MemoryFilesystem::new(Some(String::from("/cache")));
    output_filesystem.create_directories("blobs").expect("blobs directory");
    let blob_filesystem = output_filesystem.sub_system("blobs").expect("blob filesystem");
    output_filesystem.create_directories("blob_pointers").expect("blob_pointers directory");
    let blob_pointer_filesystem =
        output_filesystem.sub_system("blob_pointers").expect("blob_pointers filesystem");
    let mut blobs = BlobCache::new(blob_filesystem);
    let mut pointers = BlobPointerCache::new(blob_pointer_filesystem);

    let a1 = a("1");
    let a2 = a("2");
    let b1 = b("1");
    let b2 = b("2");

    let a1_identity = blobs.write_large_blob(&a1).expect("write a1");
    let a2_identity = blobs.write_small_blob(&a2).expect("write a2");
    let b1_identity = blobs.write_small_blob(&b1).expect("write b1");
    let b2_identity = blobs.write_small_blob(&b2).expect("write b2");

    let a1_read = blobs.read_blob(&a1_identity).expect("read a1");
    let a2_read = blobs.read_blob(&a2_identity).expect("read a2");
    let b1_read = blobs.read_blob(&b1_identity).expect("read b1");
    let b2_read = blobs.read_blob(&b2_identity).expect("read b2");

    assert_eq!(a1, a1_read);
    assert_eq!(a2, a2_read);
    assert_eq!(b1, b1_read);
    assert_eq!(b2, b2_read);

    let a1_identity_2 =
        pointers.write_small_blob_pointer(&a1, &b2_identity).expect("write pointer a1 -> b2");
    let b1_identity_2 =
        pointers.write_large_blob_pointer(&b1, &a2_identity).expect("write pointer b1 -> a2");

    assert_eq!(a1_identity, a1_identity_2);
    assert_eq!(b1_identity, b1_identity_2);

    pointers
        .write_raw_blob_pointer(&b2_identity, &a2_identity)
        .expect("write pointer b2 -> a2");

    let b2_identity_2 = pointers.read_blob_pointer(&a1_identity).expect("read poitner a1 -> b2");
    let a2_identity_2 = pointers.read_blob_pointer(&b1_identity).expect("read poitner b1 -> a2");
    let a2_identity_3 = pointers.read_blob_pointer(&b2_identity).expect("read poitner b2 -> a2");

    assert_eq!(b2_identity, b2_identity_2);
    assert_eq!(a2_identity, a2_identity_2);
    assert_eq!(a2_identity, a2_identity_3);

    // a2 points to nothing.
    assert!(pointers.read_blob_pointer(&a2_identity).is_err());

    let does_not_exist_identity = ContentSha256::identify_content("does_not_exist".as_bytes())
        .expect("does-not-exist identity");
    assert!(pointers.read_blob_pointer(&does_not_exist_identity).is_err());
    assert!(blobs.read_blob(&does_not_exist_identity).is_err());
}

#[test]
fn a_blob_is_stored_under_the_digest_of_what_it_holds() {
    let mut blobs = BlobCache::new(MemoryFilesystem::new(None));
    let content = a("1");
    let identity = blobs.write_small_blob(&content).expect("write");
    assert_eq!(identity_of(&content), identity);
    assert_eq!(Ok(content.clone()), blobs.blobs().read_file(&identity.to_string()));
    let large = blobs.write_large_blob(&b("1")).expect("write");
    assert_eq!(identity_of(&b("1")), large);
    assert_eq!(Ok(b("1")), blobs.blobs().read_file(&large.to_string()));
    let filesystem = blobs.into_filesystem();
    for name in [identity.to_string(), large.to_string()] {
        let held = filesystem.read_file(&name).expect("read");
        assert_eq!(name, identity_of(&held).to_string());
    }
    assert_eq!(Ok(false), filesystem.file_exists("temporary_blob_0000000000000000"));
}

#[test]
fn writing_a_blob_again_changes_nothing() {
    let mut blobs = BlobCache::new(MemoryFilesystem::new(None));
    let content = a("1");
    let first = blobs.write_large_blob(&content).expect("write");
    let held = blobs.read_blob(&first).expect("read");
    let second = blobs.write_large_blob(&content).expect("write again");
    let third = blobs.write_small_blob(&content).expect("write again");
    assert_eq!(first, second);
    assert_eq!(first, third);
    assert_eq!(Ok(held), blobs.read_blob(&first));
}

#[test]
fn a_large_blob_is_written_under_a_temporary_name_and_renamed() {
    let mut blobs = BlobCache::new(MemoryFilesystem::new(None));
    let content = a("1");
    let identity = blobs.write_large_blob(&content).expect("write");
    let changes = blobs.blobs_mut().take_changes();
    assert_eq!(2, changes.len());
    let temporary = match &changes[0] {
        Change::Write { path, content: written } => {
            assert_eq!(&content, written);
            assert!(path.starts_with("temporary_blob_"));
            assert_eq!(31, path.len());
            path.clone()
        }
        other => panic!("expected a write, got {:?}", other),
    };
    assert_eq!(Change::Move { from_path: temporary, to_path: identity.to_string() }, changes[1]);
}

#[test]
fn a_missing_blob_is_told_apart() {
    let blobs = BlobCache::new(MemoryFilesystem::new(None));
    let identity = identity_of(b"nothing");
    assert_eq!(
        Err(Error::MissingBlob { identity: identity.to_string() }),
        blobs.read_blob(&identity)
    );
    let pointers = BlobPointerCache::new(MemoryFilesystem::new(None));
    assert_eq!(
        Err(Error::MissingBlob { identity: identity.to_string() }),
        pointers.read_blob_pointer(&identity)
    );
}

#[test]
fn a_pointer_holds_the_destination_between_quotes() {
    let mut pointers = BlobPointerCache::new(MemoryFilesystem::new(None));
    let source = identity_of(b"source");
    let destination = identity_of(b"destination");
    pointers.write_raw_blob_pointer(&source, &destination).expect("write");
    assert_eq!(Ok(destination), pointers.read_blob_pointer(&source));
    let held = pointers.blob_pointers().read_file(&source.to_string()).expect("read");
    assert_eq!(format!("\"{}\"", destination.to_string()).into_bytes(), held);
    assert_eq!(held, JSON::identity_to_bytes(&destination));
    assert_eq!(Ok(destination), JSON::identity_from_bytes(&held));
    assert_eq!(Err(Error::Serialization), JSON::identity_from_bytes(&held[1..]));
    assert_eq!(Err(Error::Serialization), JSON::identity_from_bytes(b"\"abc\""));
    let mut filesystem = pointers.into_filesystem();
    filesystem.write_file(&source.to_string(), b"no identity").expect("write");
    let pointers = BlobPointerCache::new(filesystem);
    assert_eq!(Err(Error::Serialization), pointers.read_blob_pointer(&source));
}

#[test]
fn copying_in_stores_what_a_file_holds() {
    let mut working = MemoryFilesystem::new(None);
    working.write_file("out/a", b"made").expect("write");
    let mut blobs = BlobCache::new(MemoryFilesystem::new(None));
    let identity = blobs.copy_in(&working, "out/a").expect("copy in");
    assert_eq!(identity_of(b"made"), identity);
    assert_eq!(Ok(b"made".to_vec()), blobs.read_blob(&identity));
    assert!(blobs.copy_in(&working, "out/b").is_err());
}

#[test]
fn a_listing_is_written_as_json_and_read_back() {
    let first = identity_of(b"1");
    let second = identity_of(b"2");
    let (low, high) = if first < second { (first, second) } else { (second, first) };
    assert_eq!(b"{\"entries\":[]}".to_vec(), JSON::listing_to_bytes(&ListingTransport { entries: vec![] }));
    let written = JSON::listing_to_bytes(&ListingTransport { entries: vec![low, high] });
    assert_eq!(
        format!("{{\"entries\":[\"{}\",\"{}\"]}}", low.to_string(), high.to_string()).into_bytes(),
        written
    );
    assert_eq!(vec![low, high], JSON::listing_from_bytes(&written).expect("read").entries);
    assert_eq!(
        Vec::<Sha256>::new(),
        JSON::listing_from_bytes(b"{\"entries\":[]}").expect("read").entries
    );
    let one = JSON::listing_to_bytes(&ListingTransport { entries: vec![high] });
    assert_eq!(vec![high], JSON::listing_from_bytes(&one).expect("read").entries);
    for malformed in [
        &b""[..],
        &b"{\"entries\":[}"[..],
        &b"{\"entrys\":[]} "[..],
        &written[..written.len() - 1],
        &written[1..],
    ] {
        assert_eq!(
            Err(Error::Serialization),
            JSON::listing_from_bytes(malformed).map(|listing| listing.entries)
        );
    }
    let mut with_space = written.clone();
    with_space.insert(13, b' ');
    assert!(JSON::listing_from_bytes(&with_space).is_err());
}

#[test]
fn a_listing_is_a_set_in_order() {
    let first = identity_of(b"1");
    let second = identity_of(b"2");
    let (low, high) = if first < second { (first, second) } else { (second, first) };
    let mut listing = Listing::empty();
    assert!(listing.put(high));
    assert!(listing.put(low));
    assert!(!listing.put(high));
    assert_eq!(&vec![low, high], listing.entries());
    assert_eq!(Listing::new(vec![high, low, high]), listing);
    assert_eq!(vec![low, high], listing.clone().into_transport().entries);
    assert!(listing.remove(&low));
    assert!(!listing.remove(&low));
    assert_eq!(&vec![high], listing.entries());
    assert_eq!(Listing::default(), Listing::empty());
    assert_eq!(
        Ok(vec![low, high]),
        Listing::try_from(ListingTransport { entries: vec![low, high] })
            .map(|listing| listing.into_transport().entries)
    );
    assert_eq!(
        Err(Error::NotSorted(artifact_executor::error::Item::Listing, String::new())),
        kind(Listing::try_from(ListingTransport { entries: vec![high, low] }))
    );
    assert_eq!(
        Err(Error::Duplicate(artifact_executor::error::Item::Listing, String::new())),
        kind(Listing::try_from(ListingTransport { entries: vec![low, low] }))
    );
}

#[test]
fn an_index_that_was_flushed_is_opened_as_it_was() {
    let first = identity_of(b"1");
    let second = identity_of(b"2");
    let mut index = WriteOnDropIndex::create(MemoryFilesystem::new(None), "inputs.listing")
        .expect("create");
    assert!(index.put(first));
    assert!(index.put(second));
    assert!(!index.put(first));
    index.flush().expect("flush");
    let entries = index.listing().entries().clone();
    let filesystem = index.into_filesystem();
    let opened = WriteOnDropIndex::open(filesystem, "inputs.listing").expect("open");
    assert_eq!(&entries, opened.listing().entries());
    assert_eq!(2, entries.len());

    let mut index = opened;
    assert!(index.remove(&first));
    assert!(index.write_quietly());
    let opened =
        WriteOnDropIndex::open(index.into_filesystem(), "inputs.listing").expect("open");
    assert_eq!(&vec![second], opened.listing().entries());
    assert!(WriteOnDropIndex::open(MemoryFilesystem::new(None), "inputs.listing").is_err());
    let empty = WriteOnDropIndex::new_for_file(
        MemoryFilesystem::new(None),
        String::from("inputs.listing"),
    );
    assert_eq!(&Vec::<Sha256>::new(), empty.listing().entries());
}

#[test]
fn an_index_file_out_of_order_is_refused() {
    let first = identity_of(b"1");
    let second = identity_of(b"2");
    let (low, high) = if first < second { (first, second) } else { (second, first) };
    let mut filesystem = MemoryFilesystem::new(None);
    filesystem
        .write_file("l", &JSON::listing_to_bytes(&ListingTransport { entries: vec![high, low] }))
        .expect("write");
    assert_eq!(
        Some(Error::NotSorted(artifact_executor::error::Item::Listing, String::new())),
        kind(WriteOnDropIndex::open(filesystem, "l")).err()
    );
    let mut filesystem = MemoryFilesystem::new(None);
    filesystem.write_file("l", b"[]").expect("write");
    assert_eq!(Some(Error::Serialization), WriteOnDropIndex::open(filesystem, "l").err());
}

#[test]
fn a_large_write_leaves_nothing_under_its_temporary_name() {
    let mut blobs = artifact_executor::blob::BlobCache::new(MemoryFilesystem::new(Some(
        String::from("/cache/blobs"),
    )));
    let large = blobs.write_large_blob(b"content").expect("a large write");
    let small = blobs.write_small_blob(b"content").expect("a small write");
    assert_eq!(large, small);
    assert_eq!(Ok(b"content".to_vec()), blobs.read_blob(&large));
    assert_eq!(Ok(Vec::<String>::new()), blobs.blobs().execute_glob("temporary_blob_*"));
    let named = blobs.write_large_blob_as("temporary_blob_0123456789abcdef", b"other");
    let named = named.expect("a large write under a given name");
    assert_eq!(Ok(b"other".to_vec()), blobs.read_blob(&named));
    assert_eq!(
        Err(artifact_executor::error::Failure::NotFound),
        blobs.blobs().read_file("temporary_blob_0123456789abcdef")
    );
}

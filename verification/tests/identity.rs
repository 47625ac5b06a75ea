use artifact_executor::canonical::FileIdentitiesManifest;
use artifact_executor::canonical::FilesManifest;
use artifact_executor::error::Error;
use artifact_executor::fs::Filesystem;
use artifact_executor::identity::identify_files;
use artifact_executor::memory::MemoryFilesystem;
use artifact_executor::transport::ContentSha256;
use artifact_executor::transport::IdentityScheme;
use artifact_executor::transport::Sha256;
use sha2::Digest as _;
use sha2::Sha256 as Sha256Hasher;

fn get_sha256_from_str(content_str: &str) -> Sha256 {
    let mut hasher = Sha256Hasher::new();
    hasher.update(content_str.as_bytes());
    let hash: [u8; 32] = hasher
        .finalize()
        .as_slice()
        .try_into()
        .expect("sha256 hash contains 32 bytes");
    Sha256::new(hash)
}

#[test]
fn test_identify_files() {
    let mut files = vec![
        (String::from("a/b/c"), Some("abc")),
        (String::from("a/x/y"), Some("axy")),
        (String::from("p/q"), Some("pq")),
        (String::from("no/file"), None),
        (String::from("some/directory"), None),
    ];
    files.sort_by(|(path1, _), (path2, _)| path1.cmp(path2));
    let files = files;

    let mut filesystem = MemoryFilesystem::new(None);
    for (path, optional_contents) in files.iter() {
        if let Some(contents) = optional_contents.as_ref() {
            filesystem.write_file(path, contents.as_bytes()).expect("write file");
        }
    }

    let files_manifest = FilesManifest::new(files.iter().map(|(path, _)| path.clone()).collect());

    let expected_identities: Vec<_> = files
        .into_iter()
        .map(|(path, optional_contents)| (path, optional_contents.map(get_sha256_from_str)))
        .collect();
    let expected_manifest = FileIdentitiesManifest::new(expected_identities);

    let actual_manifest = identify_files(&filesystem, &files_manifest).expect("identify files");

    assert_eq!(expected_manifest, actual_manifest);
}

#[test]
fn the_identity_of_nothing_is_the_known_digest() {
    let identity = ContentSha256::identify_content(b"").expect("identity");
    assert_eq!(
        "e3b0c44298fc1c149afbf4c8996fb92427ae41e4649b934ca495991b7852b855",
        identity.to_string()
    );
    let identity = ContentSha256::identify_content(b"abc").expect("identity");
    assert_eq!(
        "ba7816bf8f01cfea414140de5dae2223b00361a396177a9cb410ff61f20015ad",
        identity.to_string()
    );
    assert_eq!(IdentityScheme::ContentSha256, ContentSha256::identity_scheme());
}

#[test]
fn the_same_content_has_the_same_identity_wherever_it_is() {
    let mut filesystem = MemoryFilesystem::new(None);
    filesystem.write_file("one", b"content").expect("write");
    filesystem.write_file("two", b"content").expect("write");
    filesystem.write_file("three", b"other").expect("write");
    let one = ContentSha256::identify_file(&filesystem, "one").expect("identity");
    let two = ContentSha256::identify_file(&filesystem, "two").expect("identity");
    let three = ContentSha256::identify_file(&filesystem, "three").expect("identity");
    assert_eq!(one, two);
    assert_ne!(one, three);
    assert_eq!(Ok(one), ContentSha256::identify_content(b"content"));
    assert_eq!(Ok(one), ContentSha256::identify_file_content(&filesystem, "three", b"content"));
    match ContentSha256::identify_file(&filesystem, "four") {
        Err(Error::Io { path, .. }) => assert_eq!("four", path),
        other => panic!("expected a read error, got {:?}", other),
    }
}

#[test]
fn an_identity_is_read_back_from_its_text() {
    let identity = get_sha256_from_str("abc");
    let text = identity.to_string();
    assert_eq!(64, text.len());
    assert_eq!(Ok(identity), Sha256::try_from(&text));
    assert_eq!(Ok(identity), Sha256::try_from(&text.to_uppercase()));
    assert_eq!(Err(Error::Serialization), Sha256::try_from("abc"));
    assert_eq!(Err(Error::Serialization), Sha256::try_from("ab"));
    assert_eq!(Err(Error::Serialization), Sha256::try_from(&text.replace('a', "g")));
    let mut bytes = [0u8; 32];
    bytes[0] = 0x01;
    bytes[31] = 0xfe;
    let identity = Sha256::new(bytes);
    assert_eq!(
        "01000000000000000000000000000000000000000000000000000000000000fe",
        identity.to_string()
    );
    assert_eq!(&bytes, identity.bytes());
}

#[test]
fn try_into_identified_needs_every_file() {
    let mut filesystem = MemoryFilesystem::new(None);
    filesystem.write_file("a", b"1").expect("write");
    let manifest = FilesManifest::new(vec![String::from("a"), String::from("b")]);
    match manifest.clone().try_into_identified(&filesystem) {
        Err(Error::Io { path, .. }) => assert_eq!("b", path),
        other => panic!("expected a read error, got {:?}", other),
    }
    let identified = manifest.into_identified(&filesystem);
    assert_eq!(
        &vec![(String::from("a"), Some(get_sha256_from_str("1"))), (String::from("b"), None)],
        identified.identities()
    );
    assert_eq!(vec![String::from("a"), String::from("b")], identified.paths());
    assert_eq!(IdentityScheme::ContentSha256, identified.identity_scheme());
}

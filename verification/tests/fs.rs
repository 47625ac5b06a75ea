use artifact_executor::canonical::FilesManifest;
use artifact_executor::error::Error;
use artifact_executor::error::Operation;
use artifact_executor::transport::Inputs;
use artifact_executor::error::Failure;
use artifact_executor::fs::Filesystem;
use artifact_executor::fs::HostFilesystem;
use artifact_executor::memory::Change;
use artifact_executor::memory::MemoryFilesystem;
use artifact_executor::path::join;
use artifact_executor::path::path_components;
use artifact_executor::path::path_is_absolute;
use artifact_executor::path::path_is_relative;
use artifact_executor::path::relativize_path;

#[test]
fn test_relativize_path() {
    assert_eq!("", relativize_path("/a/b", "/a/b").as_str());
    assert_eq!("..", relativize_path("/a/b", "/a").as_str());
    assert_eq!("b", relativize_path("/a", "/a/b").as_str());
    assert_eq!("../../x/d", relativize_path("/a/b/c/d", "/a/b/x/d").as_str());
}

#[test]
fn test_host_filesystem() {
    assert!(HostFilesystem::try_new(String::from("relative/directory")).is_err());
    let host_filesystem =
        HostFilesystem::try_new(String::from("/tmp/directory")).expect("host filesystem");
    assert_eq!("/tmp/directory", host_filesystem.working_directory());
    assert_eq!(
        "/tmp/directory/newly_created_file.txt",
        host_filesystem.get_absolute_path("newly_created_file.txt")
    );
    assert_eq!("/tmp/directory/sub/**/*.txt", host_filesystem.glob_pattern("sub/**/*.txt"));
    assert_eq!(
        Some(String::from("sub/directory/file_in_directory.txt")),
        host_filesystem.relative_path("/tmp/directory/sub/directory/file_in_directory.txt")
    );
    assert_eq!(Ok(true), host_filesystem.glob_matches("sub/**/*.txt", "sub/file_in_sub.txt"));
    assert_eq!(
        Ok(true),
        host_filesystem.glob_matches("sub/**/*.txt", "sub/directory/file_in_directory.txt")
    );
    assert_eq!(
        Ok(false),
        host_filesystem.glob_matches("sub/**/*.txt", "sub/directory/file_in_sub.abc")
    );
    assert_eq!(Ok(true), host_filesystem.glob_matches("**/*.txt", "newly_created_file.txt"));
}

#[test]
fn a_relative_working_directory_is_refused() {
    assert_eq!(
        Err(Error::RelativeWorkingDirectory { path: String::from("relative/directory") }),
        HostFilesystem::try_new(String::from("relative/directory")).map(|_| ())
    );
    assert_eq!(
        Err(Error::RelativeWorkingDirectory { path: String::new() }),
        HostFilesystem::try_new(String::new()).map(|_| ())
    );
    assert!(HostFilesystem::try_new(String::from("/")).is_ok());
}

#[test]
fn the_working_directory_can_be_replaced() {
    let mut filesystem = HostFilesystem::try_new(String::from("/a")).expect("host filesystem");
    assert_eq!("/a", filesystem.set_working_directory(String::from("/b")));
    assert_eq!("/b", filesystem.working_directory());
    assert_eq!("/b/c", filesystem.get_absolute_path("c"));
    assert_eq!("/c", filesystem.get_absolute_path("/c"));
}

#[test]
fn a_sub_system_is_rooted_below() {
    let filesystem = HostFilesystem::try_new(String::from("/cache")).expect("host filesystem");
    let blobs = filesystem.sub_system("blobs").expect("sub system");
    assert_eq!("/cache/blobs", blobs.working_directory());
    let elsewhere = filesystem.sub_system("/elsewhere").expect("sub system");
    assert_eq!("/elsewhere", elsewhere.working_directory());
}

#[test]
fn a_malformed_pattern_is_an_error_of_the_host() {
    let filesystem = HostFilesystem::try_new(String::from("/w")).expect("host filesystem");
    assert_eq!(Err(Failure::MalformedPattern), filesystem.glob_matches("a/**b", "a/b"));
    assert_eq!("/other/*", filesystem.glob_pattern("/other/*"));
    assert_eq!(Ok(true), filesystem.glob_matches("/other/*", "/other/x"));
    assert_eq!(Ok(false), filesystem.glob_matches("/other/*", "x"));
}

#[test]
fn a_path_that_is_not_absolute_has_no_relative_form() {
    let filesystem = HostFilesystem::try_new(String::from("/w")).expect("host filesystem");
    assert_eq!(None, filesystem.relative_path("x/y"));
    assert_eq!(Some(String::from("../x")), filesystem.relative_path("/x"));
}

#[test]
fn paths_join_as_on_the_host() {
    assert_eq!("a/b", join("a", "b"));
    assert_eq!("a/b", join("a/", "b"));
    assert_eq!("/b", join("a", "/b"));
    assert_eq!("b", join("", "b"));
    assert_eq!("a/", join("a", ""));
    assert!(path_is_absolute("/a"));
    assert!(!path_is_absolute("a/"));
    assert!(!path_is_absolute(""));
    assert!(path_is_relative("a"));
}

#[test]
fn components_skip_empty_stretches_and_dots() {
    assert_eq!(vec!["a", "b", "c"], path_components("/a//b/./c/"));
    assert_eq!(vec!["..", "a"], path_components("../a"));
    assert_eq!(Vec::<String>::new(), path_components("/"));
    assert_eq!(Vec::<String>::new(), path_components(""));
    assert_eq!("../c", relativize_path("/a/./b/", "/a//c"));
    assert_eq!("x/y", relativize_path("/", "/x/y"));
}

#[test]
fn a_complete_filesystem_knows_what_it_was_given() {
    let mut filesystem = MemoryFilesystem::new(Some(String::from("/w")));
    assert_eq!(Ok(false), filesystem.file_exists("a"));
    assert_eq!(Err(Failure::NotFound), filesystem.read_file("a"));
    filesystem.write_file("a", b"one").expect("write");
    filesystem.write_file("b/c", b"two").expect("write");
    filesystem.write_file("a", b"three").expect("write");
    assert_eq!(Ok(true), filesystem.file_exists("a"));
    assert_eq!(Ok(b"three".to_vec()), filesystem.read_file("a"));
    assert_eq!(Ok(b"two".to_vec()), filesystem.read_file("b/c"));
    filesystem.move_from_to("a", "b/a").expect("move");
    assert_eq!(Err(Failure::NotFound), filesystem.read_file("a"));
    assert_eq!(Ok(b"three".to_vec()), filesystem.read_file("b/a"));
    filesystem.remove_file("b/c").expect("remove");
    assert_eq!(Ok(false), filesystem.file_exists("b/c"));
    assert_eq!(Err(Failure::NotFound), filesystem.remove_file("b/c"));
    assert_eq!(Some(String::from("/w")), filesystem.working_directory());
    let mut found = filesystem.execute_glob("b/*").expect("glob");
    found.sort();
    found.dedup();
    assert_eq!(vec!["b/a"], found);
    assert_eq!(Err(Failure::MalformedPattern), filesystem.execute_glob("a/**b"));
    assert_eq!(Ok(true), filesystem.glob_matches("b/*", "b/x"));
    let below = filesystem.sub_system("b").expect("sub system");
    assert_eq!(Ok(b"three".to_vec()), below.read_file("a"));
    assert_eq!(Some(String::from("/w/b")), below.working_directory());
}

#[test]
fn changes_are_listed_in_the_order_in_which_they_were_made() {
    let mut filesystem = MemoryFilesystem::new(None);
    filesystem.create_directories("d").expect("directories");
    filesystem.write_file("d/a", b"1").expect("write");
    filesystem.mark_as_executable("d/a").expect("mark");
    filesystem.move_from_to("d/a", "d/b").expect("move");
    filesystem.remove_file("d/b").expect("remove");
    assert_eq!(
        vec![
            Change::CreateDirectories { path: String::from("d") },
            Change::Write { path: String::from("d/a"), content: b"1".to_vec() },
            Change::MarkExecutable { path: String::from("d/a") },
            Change::Move { from_path: String::from("d/a"), to_path: String::from("d/b") },
            Change::Remove { path: String::from("d/b") },
        ],
        filesystem.take_changes()
    );
    assert_eq!(Vec::<Change>::new(), filesystem.take_changes());
}

#[test]
fn an_observing_filesystem_says_what_it_has_not_seen() {
    let mut filesystem = MemoryFilesystem::observing(String::from("/w"));
    assert_eq!(Err(Failure::Unobserved), filesystem.file_exists("a"));
    assert_eq!(Err(Failure::Unobserved), filesystem.read_file("a"));
    assert_eq!(Err(Failure::Unobserved), filesystem.execute_glob("*"));
    filesystem.record_file("a", b"seen");
    filesystem.record_missing("b");
    filesystem.record_glob("*", vec![String::from("a")]);
    assert_eq!(Ok(true), filesystem.file_exists("a"));
    assert_eq!(Ok(b"seen".to_vec()), filesystem.read_file("a"));
    assert_eq!(Ok(false), filesystem.file_exists("b"));
    assert_eq!(Err(Failure::NotFound), filesystem.read_file("b"));
    assert_eq!(Ok(vec![String::from("a")]), filesystem.execute_glob("*"));
    assert_eq!(Err(Failure::Unobserved), filesystem.file_exists("c"));
    assert_eq!(Vec::<Change>::new(), filesystem.take_changes());
    filesystem.refresh();
    assert_eq!(Err(Failure::Unobserved), filesystem.file_exists("a"));
    assert_eq!(Err(Failure::Unobserved), filesystem.execute_glob("*"));
}

#[test]
fn discovery_on_an_observing_filesystem_asks_for_what_it_needs() {
    let config = Inputs {
        include_files: vec![String::from("a")],
        exclude_files: vec![],
        include_globs: vec![String::from("*.c")],
        exclude_globs: vec![],
        inter_file_references: vec![],
    };
    let mut filesystem = MemoryFilesystem::observing(String::from("/w"));
    assert_eq!(
        Err(Error::Io {
            operation: Operation::Glob,
            path: String::from("*.c"),
            failure: Failure::Unobserved
        }),
        FilesManifest::try_from_inputs(&filesystem, &config)
    );
    filesystem.record_glob("*.c", vec![String::from("x.c")]);
    let manifest = FilesManifest::try_from_inputs(&filesystem, &config).expect("manifest");
    assert_eq!(&vec![String::from("a"), String::from("x.c")], manifest.paths());
}

#[test]
fn a_copied_file_holds_what_the_source_held() {
    let mut source = MemoryFilesystem::new(Some(String::from("/s")));
    source.write_file("a", b"content").expect("write");
    let mut destination = MemoryFilesystem::new(Some(String::from("/d")));
    destination.write_file("kept", b"as it was").expect("write");
    assert_eq!(
        Ok(()),
        artifact_executor::fs::copy_file_to(&source, &mut destination, "a", "b")
    );
    assert_eq!(Ok(b"content".to_vec()), destination.read_file("b"));
    assert_eq!(Ok(()), artifact_executor::fs::copy_file(&source, &mut destination, "a"));
    assert_eq!(Ok(b"content".to_vec()), destination.read_file("a"));
    assert_eq!(Ok(b"as it was".to_vec()), destination.read_file("kept"));
}

#[test]
fn a_file_that_is_not_there_cannot_be_copied() {
    let source = MemoryFilesystem::new(Some(String::from("/s")));
    let mut destination = MemoryFilesystem::new(Some(String::from("/d")));
    assert_eq!(
        Err(artifact_executor::fs::IoError::SourceError(Failure::NotFound)),
        artifact_executor::fs::copy_file(&source, &mut destination, "a")
    );
    assert_eq!(Err(Failure::NotFound), destination.read_file("a"));
}

#[test]
fn a_path_that_climbs_above_its_root_leaves_it() {
    assert!(artifact_executor::path::path_leaves(".."));
    assert!(artifact_executor::path::path_leaves("a/../../b"));
    assert!(artifact_executor::path::path_leaves("./../a"));
    assert!(!artifact_executor::path::path_leaves("a/../b"));
    assert!(!artifact_executor::path::path_leaves("a/b/../.."));
    assert!(!artifact_executor::path::path_leaves("/../a"));
    assert!(!artifact_executor::path::path_leaves(""));
}

#[test]
fn the_host_refuses_a_path_that_leaves_the_working_directory() {
    let host = HostFilesystem::try_new(String::from("/w")).expect("an absolute root");
    assert_eq!(Ok(String::from("/w/a/b")), host.path_within("a/b"));
    assert_eq!(Ok(String::from("/elsewhere")), host.path_within("/elsewhere"));
    assert_eq!(
        Err(Error::OutsideRoot { path: String::from("../a") }),
        host.path_within("../a")
    );
    assert_eq!(
        Err(Error::OutsideRoot { path: String::from("a/../..") }),
        host.sub_system("a/../..").map(|below| below.working_directory().clone())
    );
}

#[test]
fn a_listing_in_memory_keeps_a_star_within_one_directory() {
    let mut filesystem = MemoryFilesystem::new(Some(String::from("/w")));
    filesystem.write_file("a/x.txt", b"1").expect("write");
    filesystem.write_file("a/b/y.txt", b"2").expect("write");
    assert_eq!(Ok(vec![String::from("a/x.txt")]), filesystem.execute_glob("a/*.txt"));
    assert_eq!(
        Ok(vec![String::from("a/x.txt"), String::from("a/b/y.txt")]),
        filesystem.execute_glob("a/**/*.txt")
    );
}

use pkg2mpkg::execute::{first_raw_pkg_entry, TextureTally};
use pkg2mpkg::mpkg::layout::{check_writable, EntrySource, MpkgBuilder};
use pkg2mpkg::scene::source_tree::{SceneInventory, SceneSourceEntry, SceneSourceLimits};
use pkg2mpkg::{ContainerVersion, Error, ErrorCode};

#[test]
fn builder_keeps_what_each_entry_carries() {
    let mut builder = MpkgBuilder::new(ContainerVersion::Pkgm0018);
    builder.add_bytes("a.json", vec![1, 2, 3]).unwrap();
    builder.add_file_entry("b.tex", "/work/b.tex".to_owned(), 42).unwrap();
    let entries = builder.entries();
    assert_eq!(entries[0].archive_path, "a.json");
    assert!(matches!(&entries[0].source, EntrySource::Bytes(b) if b == &vec![1, 2, 3]));
    assert_eq!(entries[1].archive_path, "b.tex");
    assert!(matches!(&entries[1].source, EntrySource::File { path, size: 42 } if path == "/work/b.tex"));
}

#[test]
fn only_pkgm0018_and_pkgm0020_are_written() {
    assert!(check_writable(ContainerVersion::Pkgm0018).is_ok());
    assert!(check_writable(ContainerVersion::Pkgm0020).is_ok());
    match check_writable(ContainerVersion::Pkgm0014) {
        Err(Error::InvalidArguments { reason }) => assert_eq!(reason, "writer only supports PKGM0018/PKGM0020, got PKGM0014"),
        other => panic!("unexpected {other:?}"),
    }
    let mut builder = MpkgBuilder::new(ContainerVersion::OtherPkgm { digits: *b"0099" });
    builder.add_bytes("a", vec![1]).unwrap();
    assert_eq!(builder.checked_layout().unwrap_err().code(), ErrorCode::InvalidArguments);
}

#[test]
fn inventory_refuses_unsafe_and_repeated_paths() {
    let limits = SceneSourceLimits { max_files: 10, max_file_bytes: 100, max_total_bytes: 1000 };
    let mut inventory = SceneInventory::new(limits);
    assert_eq!(inventory.add_file("a/b.tex".to_owned(), "/p/a/b.tex".to_owned(), 5), Ok(true));
    assert!(matches!(inventory.add_file("a/b.tex".to_owned(), "/p/x".to_owned(), 5), Err(Error::InvalidProject { .. })));
    assert!(matches!(inventory.add_file("../x".to_owned(), "/x".to_owned(), 5), Err(Error::InvalidProject { .. })));
    assert!(matches!(inventory.add_file("a//c".to_owned(), "/p/a/c".to_owned(), 5), Err(Error::InvalidProject { .. })));
    assert_eq!(inventory.add_file("project.json".to_owned(), "/p/project.json".to_owned(), 2), Ok(true));
    let tree = inventory.finish("/p".to_owned(), "a/b.tex".to_owned(), None).unwrap();
    assert_eq!(tree.entries.len(), 2);
    assert_eq!(tree.total_bytes, 7);
}

#[test]
fn texture_tally_counts_and_saturates() {
    let t = TextureTally::new().record(10, 4).record(u64::MAX, 1);
    assert_eq!(t, TextureTally { count: 2, input_bytes: u64::MAX, output_bytes: 5 });
}

#[test]
fn raw_package_entries_are_found() {
    let entry = |p: &str| SceneSourceEntry { archive_path: p.to_owned(), source_path: format!("/s/{p}"), size: 1 };
    assert_eq!(first_raw_pkg_entry(&vec![entry("a.tex"), entry("b.PKG"), entry("c.pkg")]), Some(1));
    assert_eq!(first_raw_pkg_entry(&vec![entry("a.tex"), entry("pkg")]), None);
}

use pkg2mpkg::mpkg::archive::{validate_desktop_magic, MpkgArchive};
use pkg2mpkg::mpkg::format::{read_package_directory, validate_ranges, DirectoryRead, MpkgEntry, PackageErrorDomain};
use pkg2mpkg::mpkg::layout::{EntrySource, MpkgBuilder};
use pkg2mpkg::{ContainerVersion, ErrorCode};

fn package(version: ContainerVersion, files: &[(&str, &[u8])]) -> Vec<u8> {
    let mut builder = MpkgBuilder::new(version);
    for (path, bytes) in files {
        builder.add_bytes(path, bytes.to_vec()).unwrap();
    }
    let layout = builder.checked_layout().unwrap();
    let mut data = builder.write_header_and_table(&layout);
    for entry in builder.entries() {
        match &entry.source {
            EntrySource::Bytes(bytes) => data.extend_from_slice(bytes),
            EntrySource::File { .. } => panic!("only in-memory entries here"),
        }
    }
    assert_eq!(data.len() as u64, layout.total_size);
    data
}

fn read(data: &[u8]) -> pkg2mpkg::Result<DirectoryRead> {
    read_package_directory(data, data.len() as u64, &PackageErrorDomain::mpkg())
}

#[test]
fn written_directory_reads_back_with_offsets_and_sizes() {
    let data = package(
        ContainerVersion::Pkgm0020,
        &[("project.json", b"{}\n"), ("materials/a.tex", b"TEXV0005\0abc"), ("empty.bin", b"")],
    );
    let directory = match read(&data).unwrap() {
        DirectoryRead::Complete(directory) => directory,
        DirectoryRead::NeedMoreData => panic!("whole file was given"),
    };
    assert_eq!(&directory.magic, b"PKGM0020");
    let entries: Vec<(String, u64, u64)> =
        directory.entries.iter().map(|e| (e.path.clone(), e.offset, e.size)).collect();
    assert_eq!(
        entries,
        vec![
            ("project.json".to_owned(), 0, 3),
            ("materials/a.tex".to_owned(), 3, 12),
            ("empty.bin".to_owned(), 15, 0),
        ]
    );
    let table = 3 * 12 + "project.json".len() + "materials/a.tex".len() + "empty.bin".len();
    assert_eq!(directory.payload_start, 16 + table as u64);
    let archive = MpkgArchive::from_directory("pkg.mpkg".to_owned(), directory).unwrap();
    assert_eq!(archive.version(), ContainerVersion::Pkgm0020);
    let entry = archive.entry_by_path("materials/a.tex").unwrap();
    assert_eq!((entry.offset, entry.size), (3, 12));
    let start = (archive.payload_start() + entry.offset) as usize;
    assert_eq!(&data[start..start + 12], b"TEXV0005\0abc");
    assert_eq!(archive.entry_by_path("missing").unwrap_err().code(), ErrorCode::InvalidMpkg);
}

#[test]
fn truncated_prefix_asks_for_more_bytes_and_short_file_is_invalid() {
    let data = package(ContainerVersion::Pkgm0018, &[("a", b"xyz")]);
    for cut in [0usize, 4, 15, 20] {
        let prefix = &data[..cut];
        match read_package_directory(prefix, data.len() as u64, &PackageErrorDomain::mpkg()).unwrap() {
            DirectoryRead::NeedMoreData => {}
            DirectoryRead::Complete(_) => panic!("prefix of {cut} bytes cannot complete"),
        }
    }
    let short = &data[..20];
    let error = read_package_directory(short, short.len() as u64, &PackageErrorDomain::mpkg()).err().unwrap();
    assert_eq!(error.code(), ErrorCode::InvalidMpkg);
}

#[test]
fn desktop_domain_reports_invalid_project() {
    let mut data = package(ContainerVersion::Pkgm0018, &[("a", b"xyz")]);
    data[12] = 0xff;
    data[13] = 0xff;
    data[14] = 0xff;
    data[15] = 0xff;
    let error = read_package_directory(&data, data.len() as u64, &PackageErrorDomain::desktop_pkg()).err().unwrap();
    assert_eq!(error.code(), ErrorCode::InvalidProject);
}

#[test]
fn duplicate_paths_are_refused_by_the_builder() {
    let mut builder = MpkgBuilder::new(ContainerVersion::Pkgm0020);
    builder.add_bytes("a", vec![1]).unwrap();
    assert_eq!(builder.add_bytes("a", vec![2]).unwrap_err().code(), ErrorCode::InvalidMpkg);
    assert_eq!(builder.add_bytes("../a", vec![2]).unwrap_err().code(), ErrorCode::InvalidMpkg);
}

#[test]
fn magic_round_trips_and_unknown_digits_are_kept() {
    for version in [ContainerVersion::Pkgm0014, ContainerVersion::Pkgm0018, ContainerVersion::Pkgm0020] {
        assert_eq!(ContainerVersion::from_magic(&version.magic()).unwrap(), version);
    }
    assert_eq!(ContainerVersion::Pkgm0020.as_magic(), "PKGM0020");
    let other = ContainerVersion::from_magic(b"PKGM0019").unwrap();
    assert_eq!(other, ContainerVersion::OtherPkgm { digits: *b"0019" });
    assert_eq!(other.as_magic(), "PKGM0019");
    assert!(!other.is_writable());
    assert!(ContainerVersion::Pkgm0018.is_writable());
    for bad in [&b"PKGV0001"[..], b"PKGM001x", b"PKGM001"] {
        assert_eq!(ContainerVersion::from_magic(bad).unwrap_err().code(), ErrorCode::InvalidMpkg);
    }
}

#[test]
fn overlapping_and_out_of_range_entries_are_refused() {
    let entry = |path: &str, offset: u64, size: u64| MpkgEntry { path: path.to_owned(), offset, size };
    let domain = PackageErrorDomain::mpkg();
    assert!(validate_ranges(&vec![entry("a", 0, 4), entry("b", 4, 4)], 8, &domain).is_ok());
    assert!(validate_ranges(&vec![entry("a", 0, 4), entry("b", 3, 4)], 8, &domain).is_err());
    assert!(validate_ranges(&vec![entry("a", 0, 9)], 8, &domain).is_err());
    assert!(validate_ranges(&vec![entry("a", 2, 0), entry("b", 0, 4)], 4, &domain).is_ok());
    assert!(validate_ranges(&vec![entry("a", u64::MAX, 2)], 8, &domain).is_err());
}

#[test]
fn desktop_magic_must_start_with_pkgv() {
    let domain = PackageErrorDomain::desktop_pkg();
    assert_eq!(validate_desktop_magic(b"PKGV0021", &domain).unwrap(), "PKGV0021");
    assert_eq!(validate_desktop_magic(b"PKGM0020", &domain).unwrap_err().code(), ErrorCode::InvalidProject);
    assert_eq!(validate_desktop_magic(b"PKGV\xff\xfe00", &domain).unwrap_err().code(), ErrorCode::InvalidProject);
}

#[test]
fn error_codes_map_to_exit_statuses() {
    assert_eq!(ErrorCode::InvalidArguments.exit_code(), 2);
    assert_eq!(ErrorCode::UnsupportedWallpaperType.exit_code(), 3);
    assert_eq!(ErrorCode::InvalidMpkg.exit_code(), 4);
    assert_eq!(ErrorCode::BackendUnavailable.exit_code(), 5);
    assert_eq!(ErrorCode::ConversionFailed.exit_code(), 6);
    assert_eq!(ErrorCode::PackageTooLarge.exit_code(), 7);
    assert_eq!(ErrorCode::VerificationFailed.exit_code(), 8);
    assert_eq!(ErrorCode::Cancelled.exit_code(), 130);
}

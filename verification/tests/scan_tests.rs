use file_newer::{
    check_dir_exists, classify_open_error, extension_of, format_system_time_opt,
    get_files_in_dir, is_hidden, scan_outcome, DirProbe, FileInfo, FileType, RawEntry,
    ScanError, Timestamp,
};

fn raw(name: &str, is_dir: bool, writable: bool, is_symlink: bool, size: u64) -> RawEntry {
    RawEntry {
        name: String::from(name),
        is_dir,
        writable,
        is_symlink,
        size,
        accessed: None,
        modified: Some(Timestamp { secs: 1_700_000_000, nanos: 0 }),
        created: None,
    }
}

#[test]
fn classification_table() {
    let t = |d: bool, w: bool, l: bool| FileInfo::gen_type_enum(&d, &w, &l);
    assert_eq!(t(true, false, false), FileType::UnwritableDir);
    assert_eq!(t(true, true, false), FileType::WriteableDir);
    assert_eq!(t(false, false, true), FileType::UnwritableLink);
    assert_eq!(t(false, true, true), FileType::WritableLink);
    assert_eq!(t(false, false, false), FileType::UnwritableFile);
    assert_eq!(t(false, true, false), FileType::WritableFile);
    // a symbolic link to a directory is deliberately left unclassified
    assert_eq!(t(true, false, true), FileType::Unknown);
    assert_eq!(t(true, true, true), FileType::Unknown);
}

#[test]
fn type_markers_and_names() {
    let entry = |ft: FileType| FileInfo {
        file_type: ft,
        can_be_written: false,
        file_name: String::from("x"),
        file_ext: None,
        file_size: 0,
        last_access: None,
        last_modification: None,
        creation_time: None,
        is_hidden: false,
    };
    assert_eq!(entry(FileType::UnwritableDir).single_char_desc(), "D");
    assert_eq!(entry(FileType::WriteableDir).single_char_desc(), "d");
    assert_eq!(entry(FileType::UnwritableLink).single_char_desc(), "L");
    assert_eq!(entry(FileType::WritableLink).single_char_desc(), "l");
    assert_eq!(entry(FileType::UnwritableFile).single_char_desc(), "F");
    assert_eq!(entry(FileType::WritableFile).single_char_desc(), "f");
    assert_eq!(entry(FileType::Unknown).single_char_desc(), "?");
    assert_eq!(entry(FileType::WriteableDir).type_to_basic_str(), "Directory");
    assert_eq!(entry(FileType::UnwritableLink).type_to_basic_str(), "Link");
    assert_eq!(entry(FileType::WritableFile).type_to_basic_str(), "File");
    assert_eq!(entry(FileType::Unknown).type_to_basic_str(), "UNKNOWN");
    assert!(entry(FileType::WriteableDir).is_dir());
    assert!(entry(FileType::UnwritableDir).is_dir());
    assert!(!entry(FileType::WritableFile).is_dir());
    assert!(!entry(FileType::UnwritableLink).is_dir());
}

#[test]
fn extension_rules() {
    let ext = |n: &str| extension_of(&String::from(n));
    assert_eq!(ext("a.txt"), Some(String::from("txt")));
    assert_eq!(ext("archive.tar.gz"), Some(String::from("gz")));
    assert_eq!(ext("noext"), None);
    assert_eq!(ext(""), None);
    assert_eq!(ext(".secret"), Some(String::from("secret")));
    assert_eq!(ext("trailing."), Some(String::from("")));
}

#[test]
fn hidden_names() {
    assert!(is_hidden(&String::from(".secret")));
    assert!(is_hidden(&String::from(".")));
    assert!(!is_hidden(&String::from("visible")));
    assert!(!is_hidden(&String::from("")));
    assert!(!is_hidden(&String::from("not.hidden")));
}

#[test]
fn hidden_filter_is_exact() {
    let entries = vec![
        raw("a.txt", false, true, false, 10),
        raw(".secret", false, true, false, 5),
        raw("sub", true, true, false, 0),
        raw(".config", true, false, false, 0),
    ];
    let without = get_files_in_dir(&entries, &false);
    let with = get_files_in_dir(&entries, &true);

    assert!(without.iter().all(|e| !e.is_hidden));
    assert_eq!(without.len(), 2);
    assert_eq!(with.len(), 4);

    // the non-hidden part of the full scan is exactly the filtered scan
    let visible: Vec<&FileInfo> = with.iter().filter(|e| !e.is_hidden).collect();
    assert_eq!(visible.len(), without.len());
    for (a, b) in visible.iter().zip(without.iter()) {
        assert_eq!(a.file_name, b.file_name);
        assert_eq!(a.file_type, b.file_type);
    }
    // and the rest are exactly the hidden ones
    let hidden: Vec<&FileInfo> = with.iter().filter(|e| e.is_hidden).collect();
    assert_eq!(hidden.len(), 2);
    assert_eq!(hidden[0].file_name, ".secret");
    assert_eq!(hidden[1].file_name, ".config");
}

#[test]
fn scan_builds_entries_from_metadata() {
    let entries = vec![raw("report.txt", false, true, false, 42)];
    let out = get_files_in_dir(&entries, &false);
    assert_eq!(out.len(), 1);
    let e = &out[0];
    assert_eq!(e.file_name, "report.txt");
    assert_eq!(e.file_type, FileType::WritableFile);
    assert!(e.can_be_written);
    assert_eq!(e.file_ext, Some(String::from("txt")));
    assert_eq!(e.file_size, 42);
    assert_eq!(e.last_access, None);
    assert_eq!(e.last_modification, Some(Timestamp { secs: 1_700_000_000, nanos: 0 }));
    assert_eq!(e.creation_time, None);
    assert!(!e.is_hidden);
}

#[test]
fn open_errors_in_order_of_severity() {
    assert_eq!(classify_open_error(false, false, false), ScanError::NotFound);
    assert_eq!(classify_open_error(false, true, true), ScanError::NotFound);
    assert_eq!(classify_open_error(true, false, false), ScanError::NotADirectory);
    assert_eq!(classify_open_error(true, false, true), ScanError::NotADirectory);
    assert_eq!(classify_open_error(true, true, true), ScanError::PermissionDenied);
}

#[test]
fn scan_of_missing_path_is_not_found() {
    let probe = DirProbe::Failed {
        found: false,
        is_directory: false,
        permission_denied: false,
        cause: String::from("No such file or directory"),
    };
    assert_eq!(scan_outcome(probe, &true).unwrap_err(), ScanError::NotFound);
}

#[test]
fn scan_of_regular_file_is_not_a_directory() {
    let probe = DirProbe::Failed {
        found: true,
        is_directory: false,
        permission_denied: false,
        cause: String::from("Not a directory"),
    };
    assert_eq!(
        scan_outcome(probe, &false).unwrap_err(),
        ScanError::NotADirectory
    );
}

#[test]
fn scan_of_unreadable_directory_is_permission_denied() {
    let probe = DirProbe::Failed {
        found: true,
        is_directory: true,
        permission_denied: true,
        cause: String::from("Permission denied"),
    };
    assert_eq!(
        scan_outcome(probe, &false).unwrap_err(),
        ScanError::PermissionDenied
    );
}

#[test]
fn scan_of_other_failure_carries_its_description() {
    let probe = DirProbe::Failed {
        found: true,
        is_directory: true,
        permission_denied: false,
        cause: String::from("device not ready"),
    };
    assert_eq!(
        scan_outcome(probe, &false).unwrap_err(),
        ScanError::Other(String::from("device not ready"))
    );
}

#[test]
fn scan_of_opened_directory_returns_its_entries() {
    let probe = DirProbe::Opened(vec![
        raw(".hidden", false, true, false, 1),
        raw("shown.txt", false, true, false, 2),
    ]);
    let files = scan_outcome(probe, &false).unwrap();
    assert_eq!(files.len(), 1);
    assert_eq!(files[0].file_name, "shown.txt");
    assert_eq!(files[0].file_ext, Some(String::from("txt")));
}

#[test]
fn dir_existence_probe() {
    assert!(check_dir_exists(&String::from("/")));
    assert!(!check_dir_exists(&String::from(
        "no_such_directory_anywhere_here_expected"
    )));
}

#[test]
fn absent_timestamp_renders_as_placeholder() {
    assert_eq!(format_system_time_opt(None), "XXXX-XX-XX XX:XX:XX");
    let e = FileInfo {
        file_type: FileType::WritableFile,
        can_be_written: true,
        file_name: String::from("x"),
        file_ext: None,
        file_size: 0,
        last_access: None,
        last_modification: None,
        creation_time: None,
        is_hidden: false,
    };
    assert_eq!(e.last_access_formated(), "XXXX-XX-XX XX:XX:XX");
    assert_eq!(e.last_mod_formated(), "XXXX-XX-XX XX:XX:XX");
    assert_eq!(e.creation_time_formated(), "XXXX-XX-XX XX:XX:XX");
}

#[test]
fn present_timestamp_renders_as_date_and_time() {
    // the rendering is in the machine's local time zone, so only its shape
    // is checked: "YYYY-MM-DD HH:MM:SS"
    let s = format_system_time_opt(Some(Timestamp { secs: 1_700_000_000, nanos: 0 }));
    assert_eq!(s.len(), 19);
    assert_ne!(s, "XXXX-XX-XX XX:XX:XX");
    let bytes = s.as_bytes();
    assert_eq!(bytes[4], b'-');
    assert_eq!(bytes[7], b'-');
    assert_eq!(bytes[10], b' ');
    assert_eq!(bytes[13], b':');
    assert_eq!(bytes[16], b':');
    assert!(s.starts_with("20"));
}

#[test]
fn last_renderable_second_still_renders() {
    // 9999-12-31 23:59:59 UTC, the last second chrono can place in a date
    let s = format_system_time_opt(Some(Timestamp { secs: 253_402_300_799, nanos: 0 }));
    assert!(s.len() >= 19);
    assert_ne!(s, "XXXX-XX-XX XX:XX:XX");
}

#[test]
fn unrenderable_timestamp_falls_back_to_placeholder() {
    let s = format_system_time_opt(Some(Timestamp { secs: u64::MAX, nanos: 0 }));
    assert_eq!(s, "XXXX-XX-XX XX:XX:XX");
}

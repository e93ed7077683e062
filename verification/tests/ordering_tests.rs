use file_newer::{get_files_in_dir, DisplayOptions, FileInfo, FileType, RawEntry, SortBy, Timestamp};

fn entry(name: &str, size: u64) -> FileInfo {
    FileInfo {
        file_type: FileType::WritableFile,
        can_be_written: true,
        file_name: String::from(name),
        file_ext: None,
        file_size: size,
        last_access: None,
        last_modification: None,
        creation_time: None,
        is_hidden: false,
    }
}

fn options(sort_by: SortBy, descending: bool) -> DisplayOptions {
    let mut o = DisplayOptions::default();
    o.sort_by = sort_by;
    o.filter_dec = descending;
    o
}

fn names(v: &[FileInfo]) -> Vec<&str> {
    v.iter().map(|e| e.file_name.as_str()).collect()
}

fn sizes(v: &[FileInfo]) -> Vec<u64> {
    v.iter().map(|e| e.file_size).collect()
}

#[test]
fn default_options() {
    let o = DisplayOptions::default();
    assert!(o.show_file_type);
    assert!(!o.show_hidden);
    assert!(o.show_file_ext);
    assert!(o.show_file_size);
    assert!(!o.show_last_acc);
    assert!(o.show_last_mod);
    assert!(o.show_creation);
    assert_eq!(o.sort_by, SortBy::Nan);
    assert!(!o.filter_dec);
}

#[test]
fn size_sort_both_directions() {
    let mut v = vec![entry("a", 30), entry("b", 10), entry("c", 20)];
    options(SortBy::Size, false).sort(&mut v);
    assert_eq!(sizes(&v), vec![10, 20, 30]);

    let mut v = vec![entry("a", 30), entry("b", 10), entry("c", 20)];
    options(SortBy::Size, true).sort(&mut v);
    assert_eq!(sizes(&v), vec![30, 20, 10]);
}

#[test]
fn equal_keys_keep_scan_order() {
    // three entries share one size; their scan order must survive the sort,
    // in either direction
    let mut v = vec![
        entry("first", 7),
        entry("zeta", 1),
        entry("second", 7),
        entry("alpha", 99),
        entry("third", 7),
    ];
    options(SortBy::Size, false).sort(&mut v);
    assert_eq!(sizes(&v), vec![1, 7, 7, 7, 99]);
    assert_eq!(names(&v), vec!["zeta", "first", "second", "third", "alpha"]);

    let mut v = vec![
        entry("first", 7),
        entry("zeta", 1),
        entry("second", 7),
        entry("alpha", 99),
        entry("third", 7),
    ];
    options(SortBy::Size, true).sort(&mut v);
    assert_eq!(sizes(&v), vec![99, 7, 7, 7, 1]);
    assert_eq!(names(&v), vec!["alpha", "first", "second", "third", "zeta"]);
}

#[test]
fn nan_leaves_scan_order() {
    let mut v = vec![entry("c", 3), entry("a", 1), entry("b", 2)];
    options(SortBy::Nan, false).sort(&mut v);
    assert_eq!(names(&v), vec!["c", "a", "b"]);
    options(SortBy::Nan, true).sort(&mut v);
    assert_eq!(names(&v), vec!["c", "a", "b"]);
}

#[test]
fn name_sort_is_lexicographic() {
    let mut v = vec![entry("banana", 1), entry("apple", 2), entry("app", 3)];
    options(SortBy::Name, false).sort(&mut v);
    assert_eq!(names(&v), vec!["app", "apple", "banana"]);
    options(SortBy::Name, true).sort(&mut v);
    assert_eq!(names(&v), vec!["banana", "apple", "app"]);
}

#[test]
fn extension_sort_puts_missing_first() {
    let mut plain = entry("plain", 1);
    plain.file_ext = None;
    let mut zip = entry("a.zip", 2);
    zip.file_ext = Some(String::from("zip"));
    let mut txt = entry("b.txt", 3);
    txt.file_ext = Some(String::from("txt"));
    let mut v = vec![zip, plain, txt];
    options(SortBy::Ext, false).sort(&mut v);
    assert_eq!(names(&v), vec!["plain", "b.txt", "a.zip"]);
}

#[test]
fn type_sort_uses_marker_characters() {
    let mut d = entry("dir", 1);
    d.file_type = FileType::WriteableDir; // marker 'd'
    let mut ud = entry("udir", 2);
    ud.file_type = FileType::UnwritableDir; // marker 'D'
    let mut f = entry("file", 3);
    f.file_type = FileType::WritableFile; // marker 'f'
    let mut unk = entry("unknown", 4);
    unk.file_type = FileType::Unknown; // marker '?'
    // markers order by code point: '?' < 'D' < 'd' < 'f'
    let mut v = vec![f, d, unk, ud];
    options(SortBy::Type, false).sort(&mut v);
    assert_eq!(names(&v), vec!["unknown", "udir", "dir", "file"]);
}

#[test]
fn date_sort_puts_missing_first() {
    let mut old = entry("old", 1);
    old.last_modification = Some(Timestamp { secs: 100, nanos: 5 });
    let mut new = entry("new", 2);
    new.last_modification = Some(Timestamp { secs: 100, nanos: 9 });
    let mut unknown = entry("unknown", 3);
    unknown.last_modification = None;
    let mut v = vec![new, unknown, old];
    options(SortBy::ModDate, false).sort(&mut v);
    assert_eq!(names(&v), vec!["unknown", "old", "new"]);
    options(SortBy::ModDate, true).sort(&mut v);
    assert_eq!(names(&v), vec!["new", "old", "unknown"]);
}

#[test]
fn created_and_accessed_sorts() {
    let mut a = entry("a", 1);
    a.creation_time = Some(Timestamp { secs: 5, nanos: 0 });
    a.last_access = Some(Timestamp { secs: 9, nanos: 0 });
    let mut b = entry("b", 2);
    b.creation_time = Some(Timestamp { secs: 3, nanos: 0 });
    b.last_access = Some(Timestamp { secs: 11, nanos: 0 });
    let mut v = vec![a, b];
    options(SortBy::CreateDate, false).sort(&mut v);
    assert_eq!(names(&v), vec!["b", "a"]);
    options(SortBy::ViewDate, false).sort(&mut v);
    assert_eq!(names(&v), vec!["a", "b"]);
}

#[test]
fn cmp_follows_direction() {
    let asc = options(SortBy::Size, false);
    let desc = options(SortBy::Size, true);
    // ascending swaps when the left key is strictly greater
    assert!(asc.cmp(&2u64, &1u64));
    assert!(!asc.cmp(&1u64, &2u64));
    assert!(!asc.cmp(&1u64, &1u64));
    // descending swaps when the left key is strictly smaller
    assert!(desc.cmp(&1u64, &2u64));
    assert!(!desc.cmp(&2u64, &1u64));
    assert!(!desc.cmp(&1u64, &1u64));
}

#[test]
fn end_to_end_scan_then_sort() {
    let children = vec![
        RawEntry {
            name: String::from("sub"),
            is_dir: true,
            writable: true,
            is_symlink: false,
            size: 0,
            accessed: None,
            modified: None,
            created: None,
        },
        RawEntry {
            name: String::from(".secret"),
            is_dir: false,
            writable: true,
            is_symlink: false,
            size: 5,
            accessed: None,
            modified: None,
            created: None,
        },
        RawEntry {
            name: String::from("a.txt"),
            is_dir: false,
            writable: true,
            is_symlink: false,
            size: 10,
            accessed: None,
            modified: None,
            created: None,
        },
    ];
    let mut files = get_files_in_dir(&children, &false);
    options(SortBy::Name, false).sort(&mut files);
    assert_eq!(names(&files), vec!["a.txt", "sub"]);
    assert_eq!(files[0].file_type, FileType::WritableFile);
    assert_eq!(files[0].file_size, 10);
    assert_eq!(files[1].file_type, FileType::WriteableDir);
}

//! The directory entry model: classification of a child's type from its
//! metadata, the per-entry attributes kept for display, and the construction
//! of the entry list of one directory from the raw metadata the caller read
//! off the platform.

use vstd::prelude::*;
use vstd::string::StrSliceExecFns;
use vstd::string::StringExecFns;

verus! {

/// A directory child's classification, derived from three metadata flags:
/// is it a directory, is it writable, is it a symbolic link.
///
/// A symbolic link to a directory reports both flags set; that combination is
/// deliberately left as [`FileType::Unknown`] rather than silently counted
/// among directories or links.
#[derive(Debug, Clone, Copy, PartialEq, Eq, Structural)]
pub enum FileType {
    WriteableDir,
    UnwritableDir,
    WritableFile,
    UnwritableFile,
    WritableLink,
    UnwritableLink,
    Unknown,
}

/// A point in time: seconds and subsecond nanoseconds since the Unix epoch.
#[derive(Debug, Clone, Copy, PartialEq, Eq, Structural)]
pub struct Timestamp {
    pub secs: u64,
    pub nanos: u32,
}

/// One directory child, as kept for display: classification, writability,
/// name, extension, size, the three optional timestamps (absent where the
/// platform cannot report them), and the hidden flag.
#[derive(Debug)]
pub struct FileInfo {
    pub file_type: FileType,
    pub can_be_written: bool,
    pub file_name: String,
    pub file_ext: Option<String>,
    pub file_size: u64,
    pub last_access: Option<Timestamp>,
    pub last_modification: Option<Timestamp>,
    pub creation_time: Option<Timestamp>,
    pub is_hidden: bool,
}

/// The mathematical model of a [`FileInfo`]: the same attributes with text as
/// character sequences.
pub struct FileInfoView {
    pub file_type: FileType,
    pub can_be_written: bool,
    pub file_name: Seq<char>,
    pub file_ext: Option<Seq<char>>,
    pub file_size: u64,
    pub last_access: Option<Timestamp>,
    pub last_modification: Option<Timestamp>,
    pub creation_time: Option<Timestamp>,
    pub is_hidden: bool,
}

impl View for FileInfo {
    type V = FileInfoView;

    open spec fn view(&self) -> FileInfoView {
        FileInfoView {
            file_type: self.file_type,
            can_be_written: self.can_be_written,
            file_name: self.file_name@,
            file_ext: self.file_ext.deep_view(),
            file_size: self.file_size,
            last_access: self.last_access,
            last_modification: self.last_modification,
            creation_time: self.creation_time,
            is_hidden: self.is_hidden,
        }
    }
}

impl DeepView for FileInfo {
    type V = FileInfoView;

    open spec fn deep_view(&self) -> FileInfoView {
        self.view()
    }
}

/// The raw metadata of one directory child, as the caller read it off the
/// platform: the decoded name and the flags, size and timestamps of the
/// child. Everything else an entry carries is derived from these.
#[derive(Debug)]
pub struct RawEntry {
    pub name: String,
    pub is_dir: bool,
    pub writable: bool,
    pub is_symlink: bool,
    pub size: u64,
    pub accessed: Option<Timestamp>,
    pub modified: Option<Timestamp>,
    pub created: Option<Timestamp>,
}

/// The mathematical model of a [`RawEntry`].
pub struct RawEntryView {
    pub name: Seq<char>,
    pub is_dir: bool,
    pub writable: bool,
    pub is_symlink: bool,
    pub size: u64,
    pub accessed: Option<Timestamp>,
    pub modified: Option<Timestamp>,
    pub created: Option<Timestamp>,
}

impl View for RawEntry {
    type V = RawEntryView;

    open spec fn view(&self) -> RawEntryView {
        RawEntryView {
            name: self.name@,
            is_dir: self.is_dir,
            writable: self.writable,
            is_symlink: self.is_symlink,
            size: self.size,
            accessed: self.accessed,
            modified: self.modified,
            created: self.created,
        }
    }
}

impl DeepView for RawEntry {
    type V = RawEntryView;

    open spec fn deep_view(&self) -> RawEntryView {
        self.view()
    }
}

/// A failure to scan a directory.
#[derive(Debug, PartialEq, Eq)]
pub enum ScanError {
    /// The path does not exist.
    NotFound,
    /// The path exists but is not a directory.
    NotADirectory,
    /// The path may not be read.
    PermissionDenied,
    /// Another failure, with its description.
    Other(String),
}

/// The classification table: a directory child's type from the three
/// metadata flags. The combination of a directory that is also a symbolic
/// link is not modeled and maps to [`FileType::Unknown`].
pub open spec fn spec_file_type_of(is_dir: bool, is_writable: bool, is_link: bool) -> FileType {
    match (is_dir, is_writable, is_link) {
        (true, false, false) => FileType::UnwritableDir,
        (true, true, false) => FileType::WriteableDir,
        (false, false, true) => FileType::UnwritableLink,
        (false, true, true) => FileType::WritableLink,
        (false, false, false) => FileType::UnwritableFile,
        (false, true, false) => FileType::WritableFile,
        _ => FileType::Unknown,
    }
}

/// The single-character type code: upper case for unwritable, lower case for
/// writable, `?` for the unknown classification.
pub open spec fn marker_char(t: FileType) -> char {
    match t {
        FileType::UnwritableDir => 'D',
        FileType::WriteableDir => 'd',
        FileType::UnwritableLink => 'L',
        FileType::WritableLink => 'l',
        FileType::UnwritableFile => 'F',
        FileType::WritableFile => 'f',
        FileType::Unknown => '?',
    }
}

/// The plain name of a classification's group.
pub open spec fn basic_type_name(t: FileType) -> Seq<char> {
    match t {
        FileType::UnwritableDir => seq!['D', 'i', 'r', 'e', 'c', 't', 'o', 'r', 'y'],
        FileType::WriteableDir => seq!['D', 'i', 'r', 'e', 'c', 't', 'o', 'r', 'y'],
        FileType::UnwritableLink => seq!['L', 'i', 'n', 'k'],
        FileType::WritableLink => seq!['L', 'i', 'n', 'k'],
        FileType::UnwritableFile => seq!['F', 'i', 'l', 'e'],
        FileType::WritableFile => seq!['F', 'i', 'l', 'e'],
        FileType::Unknown => seq!['U', 'N', 'K', 'N', 'O', 'W', 'N'],
    }
}

impl FileInfo {
    /// Whether the entry is a directory, writable or not.
    pub fn is_dir(&self) -> (r: bool)
        ensures
            r == (self.file_type == FileType::UnwritableDir || self.file_type
                == FileType::WriteableDir),
    {
        self.file_type == FileType::UnwritableDir || self.file_type == FileType::WriteableDir
    }

    /// The single-character type code of the entry, as [`marker_char`] gives
    /// it.
    pub fn single_char_desc(&self) -> (r: &str)
        ensures
            r@.len() == 1,
            r@[0] == marker_char(self.file_type),
    {
        proof {
            reveal_strlit("D");
            reveal_strlit("d");
            reveal_strlit("L");
            reveal_strlit("l");
            reveal_strlit("F");
            reveal_strlit("f");
            reveal_strlit("?");
        }
        match self.file_type {
            FileType::UnwritableDir => "D",
            FileType::WriteableDir => "d",
            FileType::UnwritableLink => "L",
            FileType::WritableLink => "l",
            FileType::UnwritableFile => "F",
            FileType::WritableFile => "f",
            _ => "?",
        }
    }

    /// The plain name of the entry's group, as [`basic_type_name`] gives it.
    pub fn type_to_basic_str(&self) -> (r: &str)
        ensures
            r@ == basic_type_name(self.file_type),
    {
        proof {
            reveal_strlit("Directory");
            reveal_strlit("Link");
            reveal_strlit("File");
            reveal_strlit("UNKNOWN");
            assert("Directory"@ =~= seq!['D', 'i', 'r', 'e', 'c', 't', 'o', 'r', 'y']);
            assert("Link"@ =~= seq!['L', 'i', 'n', 'k']);
            assert("File"@ =~= seq!['F', 'i', 'l', 'e']);
            assert("UNKNOWN"@ =~= seq!['U', 'N', 'K', 'N', 'O', 'W', 'N']);
        }
        match self.file_type {
            FileType::UnwritableDir => "Directory",
            FileType::WriteableDir => "Directory",
            FileType::UnwritableLink => "Link",
            FileType::WritableLink => "Link",
            FileType::UnwritableFile => "File",
            FileType::WritableFile => "File",
            _ => "UNKNOWN",
        }
    }

    /// Classifies a child from its three metadata flags, exactly as
    /// [`spec_file_type_of`] says.
    pub fn gen_type_enum(is_dir: &bool, is_writable: &bool, is_link: &bool) -> (r: FileType)
        ensures
            r == spec_file_type_of(*is_dir, *is_writable, *is_link),
    {
        match (*is_dir, *is_writable, *is_link) {
            (true, false, false) => FileType::UnwritableDir,
            (true, true, false) => FileType::WriteableDir,
            (false, false, true) => FileType::UnwritableLink,
            (false, true, true) => FileType::WritableLink,
            (false, false, false) => FileType::UnwritableFile,
            (false, true, false) => FileType::WritableFile,
            _ => FileType::Unknown,
        }
    }
}

/// Whether a name counts as hidden under the dotfile convention.
pub open spec fn spec_is_hidden(name: Seq<char>) -> bool {
    name.len() > 0 && name[0] == '.'
}

/// Whether a directory child counts as hidden. This engine uses the dotfile
/// naming convention — a name starting with a dot is hidden — in place of a
/// platform attribute bit, so the answer is a function of the name alone.
pub fn is_hidden(file_name: &String) -> (r: bool)
    ensures
        r == spec_is_hidden(file_name@),
{
    let s = file_name.as_str();
    if s.unicode_len() == 0 {
        false
    } else {
        s.get_char(0) == '.'
    }
}

/// The extension of a name: the segment after the last dot, or `None` where
/// the name has no dot.
pub open spec fn spec_extension(name: Seq<char>) -> Option<Seq<char>>
    decreases name.len(),
{
    if name.len() == 0 {
        None
    } else if name.last() == '.' {
        Some(Seq::<char>::empty())
    } else {
        match spec_extension(name.drop_last()) {
            Some(e) => Some(e.push(name.last())),
            None => None,
        }
    }
}

/// Where the last dot stands at `d`, the extension is everything after it.
proof fn lemma_extension_after_last_dot(name: Seq<char>, d: int)
    requires
        0 <= d < name.len(),
        name[d] == '.',
        forall|k: int| d < k < name.len() ==> name[k] != '.',
    ensures
        spec_extension(name) == Some(name.subrange(d + 1, name.len() as int)),
    decreases name.len(),
{
    if d == name.len() - 1 {
        assert(name.subrange(d + 1, name.len() as int) =~= Seq::<char>::empty());
    } else {
        lemma_extension_after_last_dot(name.drop_last(), d);
        assert(name.drop_last().subrange(d + 1, name.len() - 1).push(name.last()) =~= name.subrange(
            d + 1,
            name.len() as int,
        ));
    }
}

/// A name without a dot has no extension.
proof fn lemma_extension_no_dot(name: Seq<char>)
    requires
        forall|k: int| 0 <= k < name.len() ==> name[k] != '.',
    ensures
        spec_extension(name) is None,
    decreases name.len(),
{
    if name.len() > 0 {
        lemma_extension_no_dot(name.drop_last());
    }
}

/// The entry name's extension — the segment after the last dot — or `None`
/// where the name has no dot, exactly as [`spec_extension`] says.
pub fn extension_of(name: &String) -> (r: Option<String>)
    ensures
        match r {
            Some(e) => spec_extension(name@) == Some(e@),
            None => spec_extension(name@) is None,
        },
{
    let s = name.as_str();
    let n = s.unicode_len();
    let mut i: usize = n;
    while i > 0
        invariant
            i <= n,
            n == s@.len(),
            s@ == name@,
            forall|k: int| i <= k < n ==> s@[k] != '.',
        decreases i,
    {
        if s.get_char(i - 1) == '.' {
            let ext = s.substring_char(i, n).to_owned();
            proof {
                lemma_extension_after_last_dot(s@, i - 1);
                assert(ext@ == s@.subrange(i as int, n as int));
                assert(spec_extension(s@) == Some(s@.subrange(i as int, s@.len() as int)));
                assert(s@ == name@);
            }
            return Some(ext);
        }
        i = i - 1;
    }
    proof {
        lemma_extension_no_dot(s@);
    }
    None
}

/// The entry built from one child's raw metadata: classified by the three
/// flags, named, given its extension and hidden flag, carrying size and
/// timestamps through.
pub open spec fn spec_build_entry(r: RawEntryView) -> FileInfoView {
    FileInfoView {
        file_type: spec_file_type_of(r.is_dir, r.writable, r.is_symlink),
        can_be_written: r.writable,
        file_name: r.name,
        file_ext: spec_extension(r.name),
        file_size: r.size,
        last_access: r.accessed,
        last_modification: r.modified,
        creation_time: r.created,
        is_hidden: spec_is_hidden(r.name),
    }
}

/// The entry list of one directory: every child's entry in scan order,
/// hidden ones included only on request.
pub open spec fn spec_scan(rs: Seq<RawEntryView>, inc_hidden: bool) -> Seq<FileInfoView>
    decreases rs.len(),
{
    if rs.len() == 0 {
        Seq::<FileInfoView>::empty()
    } else {
        let prefix = spec_scan(rs.drop_last(), inc_hidden);
        if inc_hidden || !spec_is_hidden(rs.last().name) {
            prefix.push(spec_build_entry(rs.last()))
        } else {
            prefix
        }
    }
}

/// Builds the classified entry list of one directory from the raw metadata
/// of its children, in scan order, excluding hidden entries unless asked
/// for: exactly [`spec_scan`].
pub fn get_files_in_dir(entries: &Vec<RawEntry>, inc_hidden: &bool) -> (r: Vec<FileInfo>)
    ensures
        r.deep_view() == spec_scan(entries.deep_view(), *inc_hidden),
        !*inc_hidden ==> forall|j: int|
            0 <= j < r@.len() ==> !(#[trigger] r@[j]).is_hidden,
{
    let n = entries.len();
    let mut out: Vec<FileInfo> = Vec::new();
    let mut i: usize = 0;
    proof {
        assert(out.deep_view() =~= spec_scan(entries.deep_view().take(0), *inc_hidden));
    }
    while i < n
        invariant
            i <= n,
            n == entries@.len(),
            out.deep_view() == spec_scan(entries.deep_view().take(i as int), *inc_hidden),
        decreases n - i,
    {
        let ghost dv = entries.deep_view();
        let ghost pre = dv.take(i as int);
        let ghost cur = dv.take(i + 1 as int);
        proof {
            assert(cur.drop_last() =~= pre);
            assert(cur.last() == dv[i as int]);
        }
        let e = &entries[i];
        let hidden = is_hidden(&e.name);
        if *inc_hidden || !hidden {
            let fi = FileInfo {
                file_type: FileInfo::gen_type_enum(&e.is_dir, &e.writable, &e.is_symlink),
                can_be_written: e.writable,
                file_name: e.name.clone(),
                file_ext: extension_of(&e.name),
                file_size: e.size,
                last_access: e.accessed,
                last_modification: e.modified,
                creation_time: e.created,
                is_hidden: hidden,
            };
            proof {
                assert(fi@ == spec_build_entry(dv[i as int]));
            }
            out.push(fi);
            proof {
                assert(out.deep_view() =~= spec_scan(pre, *inc_hidden).push(
                    spec_build_entry(dv[i as int]),
                ));
            }
        } else {
            proof {
                assert(spec_scan(cur, *inc_hidden) == spec_scan(pre, *inc_hidden));
            }
        }
        i = i + 1;
    }
    proof {
        assert(entries.deep_view().take(n as int) =~= entries.deep_view());
        lemma_scan_hidden(entries.deep_view());
        if !*inc_hidden {
            assert forall|j: int| 0 <= j < out@.len() implies !(#[trigger] out@[j]).is_hidden by {
                assert(out.deep_view()[j] == out@[j].deep_view());
                assert(!out.deep_view()[j].is_hidden);
            }
        }
    }
    out
}

/// The hidden-entry filter is exact: a scan that excludes hidden entries
/// returns no hidden entry, and is precisely the scan that includes them with
/// the hidden ones taken out — which in turn holds one entry per child, each
/// built by [`spec_build_entry`].
pub proof fn lemma_scan_hidden(rs: Seq<RawEntryView>)
    ensures
        forall|j: int|
            0 <= j < spec_scan(rs, false).len() ==> !(#[trigger] spec_scan(rs, false)[j]).is_hidden,
        spec_scan(rs, false) == spec_scan(rs, true).filter(|e: FileInfoView| !e.is_hidden),
        spec_scan(rs, true).len() == rs.len(),
        forall|j: int|
            0 <= j < rs.len() ==> spec_scan(rs, true)[j] == spec_build_entry(#[trigger] rs[j]),
    decreases rs.len(),
{
    if rs.len() == 0 {
        assert(spec_scan(rs, true).filter(|e: FileInfoView| !e.is_hidden) =~= Seq::<
            FileInfoView,
        >::empty());
    } else {
        lemma_scan_hidden(rs.drop_last());
        let x = spec_build_entry(rs.last());
        let t = spec_scan(rs.drop_last(), true);
        assert(spec_scan(rs, true) == t.push(x));
        assert(t.push(x).drop_last() =~= t);
        assert(t.push(x).last() == x);
        // one unfolding of `filter` on the pushed sequence
        reveal_with_fuel(Seq::filter, 2);
        assert(t.push(x).filter(|e: FileInfoView| !e.is_hidden) == if !x.is_hidden {
            t.filter(|e: FileInfoView| !e.is_hidden).push(x)
        } else {
            t.filter(|e: FileInfoView| !e.is_hidden)
        });
        assert forall|j: int| 0 <= j < rs.len() implies spec_scan(rs, true)[j] == spec_build_entry(
            #[trigger] rs[j],
        ) by {
            if j < rs.len() - 1 {
                assert(rs.drop_last()[j] == rs[j]);
                assert(t[j] == spec_build_entry(rs[j]));
            }
        }
    }
}

/// The scan error for a path that could not be opened as a directory, from
/// what the caller observed of it: a missing path, an existing non-directory,
/// or denied permission, judged in that order.
pub fn classify_open_error(found: bool, is_directory: bool, permission_denied: bool) -> (r:
    ScanError)
    requires
        !found || !is_directory || permission_denied,
    ensures
        r == (if !found {
            ScanError::NotFound
        } else if !is_directory {
            ScanError::NotADirectory
        } else {
            ScanError::PermissionDenied
        }),
{
    if !found {
        ScanError::NotFound
    } else if !is_directory {
        ScanError::NotADirectory
    } else {
        ScanError::PermissionDenied
    }
}

/// What the caller observed when it tried to open a path as a directory:
/// either the raw metadata of the children, or the facts of the failed open.
#[derive(Debug)]
pub enum DirProbe {
    /// The path opened as a directory and these children were read, in scan
    /// order.
    Opened(Vec<RawEntry>),
    /// The path did not open as a directory: whether anything exists there,
    /// whether it is a directory, whether permission was denied, and the
    /// platform's description of the failure.
    Failed { found: bool, is_directory: bool, permission_denied: bool, cause: String },
}

/// The outcome of one directory scan, decided from what the caller observed:
/// the classified, filtered entry list where the path opened as a directory,
/// and the matching typed error where it did not — a missing path before a
/// non-directory before denied permission, anything else carried with its
/// description.
pub fn scan_outcome(probe: DirProbe, inc_hidden: &bool) -> (r: Result<Vec<FileInfo>, ScanError>)
    ensures
        match probe {
            DirProbe::Opened(entries) => r matches Ok(files) && files.deep_view() == spec_scan(
                entries.deep_view(),
                *inc_hidden,
            ),
            DirProbe::Failed { found, is_directory, permission_denied, cause } => r
                == Err::<Vec<FileInfo>, ScanError>(
                if !found {
                    ScanError::NotFound
                } else if !is_directory {
                    ScanError::NotADirectory
                } else if permission_denied {
                    ScanError::PermissionDenied
                } else {
                    ScanError::Other(cause)
                },
            ),
        },
{
    match probe {
        DirProbe::Opened(entries) => Ok(get_files_in_dir(&entries, inc_hidden)),
        DirProbe::Failed { found, is_directory, permission_denied, cause } => {
            if !found || !is_directory || permission_denied {
                Err(classify_open_error(found, is_directory, permission_denied))
            } else {
                Err(ScanError::Other(cause))
            }
        },
    }
}

/// Relies on `std::path::Path::is_dir`: true exactly when the path exists on
/// disk and points at a directory. The answer depends on the state of the
/// filesystem, so nothing is claimed of it.
#[verifier::external_body]
fn path_is_dir(path: &String) -> bool {
    std::path::Path::new(path.as_str()).is_dir()
}

/// Whether the path currently names an existing directory.
pub fn check_dir_exists(path: &String) -> bool {
    path_is_dir(path)
}

/// The text shown for a timestamp the platform could not report.
pub open spec fn placeholder_time() -> Seq<char> {
    "XXXX-XX-XX XX:XX:XX"@
}

/// The last second whose date chrono can build: 9999-12-31 23:59:59 UTC.
pub open spec fn max_renderable_secs() -> u64 {
    253_402_300_799
}

/// A timestamp chrono can turn into a civil date and time.
pub open spec fn renderable(t: Timestamp) -> bool {
    t.secs <= max_renderable_secs() && t.nanos < 1_000_000_000
}

/// Relies on chrono's `DateTime::from_timestamp`, `with_timezone` and
/// `format("%F %T")`: renders a moment as local civil date and time, such as
/// `2015-05-15 00:00:00`. `from_timestamp` returns `None` exactly for
/// out-of-range arguments, so every moment up to the end of year 9999 with
/// subsecond nanoseconds renders; the rendering pads the year to four digits
/// (writing a sign beyond that range), gives two digits to each of the other
/// five fields, and separates them with `-`, a space and `:`, so it holds at
/// least nineteen characters and starts with a digit or a sign — never the
/// placeholder's `X`. Which civil time a moment maps to depends on the
/// machine's time zone, so no more is claimed of the text.
#[verifier::external_body]
fn format_local_time(secs: u64, nanos: u32) -> (r: Option<String>)
    ensures
        secs <= max_renderable_secs() && nanos < 1_000_000_000 ==> r is Some,
        r matches Some(s) ==> s@.len() >= 19 && s@ != placeholder_time(),
{
    let moment = chrono::DateTime::from_timestamp(i64::try_from(secs).ok()?, nanos)?;
    Some(moment.with_timezone(&chrono::Local).format("%F %T").to_string())
}

/// Renders an optional timestamp for display: local civil time where one is
/// present and representable, the placeholder text otherwise.
pub fn format_system_time_opt(sys_time: Option<Timestamp>) -> (r: String)
    ensures
        match sys_time {
            None => r@ == placeholder_time(),
            Some(t) => renderable(t) ==> r@.len() >= 19 && r@ != placeholder_time(),
        },
{
    match sys_time {
        None => String::from_str("XXXX-XX-XX XX:XX:XX"),
        Some(t) => match format_local_time(t.secs, t.nanos) {
            Some(s) => s,
            None => String::from_str("XXXX-XX-XX XX:XX:XX"),
        },
    }
}

impl FileInfo {
    /// The entry's last-access time, rendered for display.
    pub fn last_access_formated(&self) -> (r: String)
        ensures
            match self.last_access {
                None => r@ == placeholder_time(),
                Some(t) => renderable(t) ==> r@.len() >= 19 && r@ != placeholder_time(),
            },
    {
        format_system_time_opt(self.last_access)
    }

    /// The entry's last-modification time, rendered for display.
    pub fn last_mod_formated(&self) -> (r: String)
        ensures
            match self.last_modification {
                None => r@ == placeholder_time(),
                Some(t) => renderable(t) ==> r@.len() >= 19 && r@ != placeholder_time(),
            },
    {
        format_system_time_opt(self.last_modification)
    }

    /// The entry's creation time, rendered for display.
    pub fn creation_time_formated(&self) -> (r: String)
        ensures
            match self.creation_time {
                None => r@ == placeholder_time(),
                Some(t) => renderable(t) ==> r@.len() >= 19 && r@ != placeholder_time(),
            },
    {
        format_system_time_opt(self.creation_time)
    }
}

} // verus!

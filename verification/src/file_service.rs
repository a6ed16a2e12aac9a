//! The shared directory: confinement of requested paths to it, file and
//! save paths, and directory listings.
use vstd::prelude::*;
use crate::foreign::{date_time_pattern, format_utc, parent_text, path_parent, percent_decode, percent_decoded, utc_text};
use crate::models::{DirectoryListing, DirectoryListingView, FileInfo, FileInfoView};
use crate::paths::{file_name, final_name, is_absolute, join, joined, path_eq, path_within, same_path, within};
use crate::text::{has_prefix, seq_lt, str_less, trim_end_char, trim_end_matches, lemma_seq_lt_trichotomy, lemma_seq_lt_transitive, lemma_trim_end_char};

verus! {

/// Why a request on the shared directory failed.
#[derive(Debug, Clone, PartialEq, Eq)]
pub enum FileServiceError {
    /// A filesystem operation failed; the text is the system's message.
    Io(String),
    /// The path resolves outside the shared directory.
    PathNotAllowed(String),
    /// The path is not a directory (or, for downloads, not a file).
    NotADirectory(String),
}

/// The view of a [`FileServiceError`].
pub enum FsError {
    Io(Seq<char>),
    PathNotAllowed(Seq<char>),
    NotADirectory(Seq<char>),
}

impl View for FileServiceError {
    type V = FsError;

    open spec fn view(&self) -> FsError {
        match self {
            FileServiceError::Io(s) => FsError::Io(s@),
            FileServiceError::PathNotAllowed(s) => FsError::PathNotAllowed(s@),
            FileServiceError::NotADirectory(s) => FsError::NotADirectory(s@),
        }
    }
}

/// The text of an error: its kind followed by its detail.
pub open spec fn error_text(e: FsError) -> Seq<char> {
    match e {
        FsError::Io(s) => "IO error: "@ + s,
        FsError::PathNotAllowed(s) => "Path not allowed: "@ + s,
        FsError::NotADirectory(s) => "Not a directory: "@ + s,
    }
}

impl FileServiceError {
    /// The text of this error, as it is shown to clients.
    pub fn message(&self) -> (r: String)
        ensures
            r@ == error_text(self@),
    {
        match self {
            FileServiceError::Io(s) => {
                let mut r = String::from_str("IO error: ");
                r.append(s.as_str());
                r
            },
            FileServiceError::PathNotAllowed(s) => {
                let mut r = String::from_str("Path not allowed: ");
                r.append(s.as_str());
                r
            },
            FileServiceError::NotADirectory(s) => {
                let mut r = String::from_str("Not a directory: ");
                r.append(s.as_str());
                r
            },
        }
    }
}

/// The view of the outcome of a filesystem step: its text or the system's
/// error message.
pub open spec fn text_result(r: Result<String, String>) -> Result<Seq<char>, Seq<char>> {
    match r {
        Ok(s) => Ok(s@),
        Err(e) => Err(e@),
    }
}

/// The view of a path or of the error that replaced it.
pub open spec fn path_result(r: Result<String, FileServiceError>) -> Result<Seq<char>, FsError> {
    match r {
        Ok(s) => Ok(s@),
        Err(e) => Err(e@),
    }
}

/// What the filesystem answered about a requested path: the canonical form
/// of the shared directory, of the requested full path and, when the latter
/// has a parent, of that parent.
#[derive(Debug)]
pub struct PathProbe {
    pub canonical_base: Result<String, String>,
    pub canonical_full: Result<String, String>,
    pub canonical_parent: Option<Result<String, String>>,
}

/// The full path of a request: the percent-decoded request joined onto the
/// shared directory (an absolute request stands for itself).
pub open spec fn requested_full_path(base: Seq<char>, requested: Seq<char>) -> Seq<char> {
    joined(base, percent_decoded(requested))
}

/// The canonical form of the full path: the filesystem's, or, when the
/// path does not exist, its final name joined onto its canonical parent.
pub open spec fn resolve_canonical(
    full: Seq<char>,
    direct: Result<Seq<char>, Seq<char>>,
    parent: Option<Result<String, String>>,
) -> Result<Seq<char>, FsError> {
    match direct {
        Ok(c) => Ok(c),
        Err(_) => match parent {
            None => Err(FsError::Io("Invalid path"@)),
            Some(Err(e)) => Err(FsError::Io(e@)),
            Some(Ok(cp)) => Ok(
                joined(
                    cp@,
                    match final_name(full) {
                        Some(n) => n,
                        None => seq![],
                    },
                ),
            ),
        },
    }
}

/// The canonical path a request resolves to, when it stays within the
/// canonical shared directory.
pub open spec fn sanitized(base: Seq<char>, requested: Seq<char>, probe: PathProbe) -> Result<
    Seq<char>,
    FsError,
> {
    match text_result(probe.canonical_base) {
        Err(e) => Err(FsError::Io(e)),
        Ok(cb) => match resolve_canonical(
            requested_full_path(base, requested),
            text_result(probe.canonical_full),
            probe.canonical_parent,
        ) {
            Err(e) => Err(e),
            Ok(cr) => if within(cr, cb) {
                Ok(cr)
            } else {
                Err(FsError::PathNotAllowed(cr))
            },
        },
    }
}

/// What the filesystem reports of a directory entry.
#[derive(Debug, Clone, Copy, PartialEq, Eq)]
pub struct EntryMeta {
    pub is_dir: bool,
    pub is_file: bool,
    pub len: u64,
    /// Seconds from the Unix epoch to the last modification, when known.
    pub modified_secs: Option<u64>,
}

/// A directory entry: its name, whether its path is a directory (which
/// decides where it is listed) and its metadata or the error reading it.
#[derive(Debug)]
pub struct DirEntryFacts {
    pub name: String,
    pub sorts_as_dir: bool,
    pub metadata: Result<EntryMeta, String>,
}

/// Entry `i` is listed before entry `j`: directories first, then by name,
/// then in the order the entries were read.
pub open spec fn entry_before(es: Seq<DirEntryFacts>, i: int, j: int) -> bool {
    if es[i].sorts_as_dir != es[j].sorts_as_dir {
        es[i].sorts_as_dir
    } else if es[i].name@ != es[j].name@ {
        seq_lt(es[i].name@, es[j].name@)
    } else {
        i < j
    }
}

/// `order` lists every entry once, in listing order.
pub open spec fn is_listing_order(es: Seq<DirEntryFacts>, order: Seq<int>) -> bool {
    &&& order.len() == es.len()
    &&& forall|k: int| 0 <= k < order.len() ==> 0 <= #[trigger] order[k] < es.len()
    &&& forall|i: int| 0 <= i < es.len() ==> #[trigger] order.contains(i)
    &&& forall|a: int, b: int|
        0 <= a < b < order.len() ==> entry_before(es, #[trigger] order[a], #[trigger] order[b])
}

/// The path of an entry relative to the shared directory.
pub open spec fn relative_path(dir: Seq<char>, name: Seq<char>) -> Seq<char> {
    if dir.len() == 0 || dir == seq!['/'] {
        name
    } else {
        trim_end_char(dir, '/') + seq!['/'] + name
    }
}

/// The pattern in which modification times are shown.
pub open spec fn time_pattern() -> Seq<char> {
    date_time_pattern()
}

/// The shown modification time: the UTC date and time, or an empty text
/// when the time is out of range.
pub open spec fn modified_text(secs: Option<u64>) -> Option<Seq<char>> {
    match secs {
        None => None,
        Some(ts) => Some(
            match utc_text(ts as i64, time_pattern()) {
                Some(t) => t,
                None => seq![],
            },
        ),
    }
}

/// The listed record of an entry of directory `dir`.
pub open spec fn entry_info(dir: Seq<char>, e: DirEntryFacts, m: EntryMeta) -> FileInfoView {
    FileInfoView {
        name: e.name@,
        path: relative_path(dir, e.name@),
        is_dir: m.is_dir,
        size: if m.is_file {
            Some(m.len)
        } else {
            None
        },
        modified: modified_text(m.modified_secs),
    }
}

/// The records of the entries at positions `k..` of `order`, or the first
/// metadata error among them.
pub open spec fn infos_from(dir: Seq<char>, es: Seq<DirEntryFacts>, order: Seq<int>, k: int) -> Result<
    Seq<FileInfoView>,
    FsError,
>
    decreases order.len() - k,
{
    if k < 0 || k >= order.len() {
        Ok(seq![])
    } else {
        match es[order[k]].metadata {
            Err(e) => Err(FsError::Io(e@)),
            Ok(m) => match infos_from(dir, es, order, k + 1) {
                Err(e) => Err(e),
                Ok(rest) => Ok(seq![entry_info(dir, es[order[k]], m)] + rest),
            },
        }
    }
}

/// The parent shown for a listed directory below the shared root: the
/// parent of the requested path, or the empty path.
pub open spec fn listing_parent(dir: Seq<char>) -> Seq<char> {
    match parent_text(dir) {
        Some(p) => if p.len() > 0 {
            p
        } else {
            seq![]
        },
        None => seq![],
    }
}

/// The entries that were read, or none when reading failed.
pub open spec fn read_entries(entries: Result<Vec<DirEntryFacts>, String>) -> Seq<DirEntryFacts> {
    match entries {
        Ok(v) => v@,
        Err(_) => seq![],
    }
}

/// The listing of directory `dir` with the entries taken in `order`.
pub open spec fn listing_result(
    base: Seq<char>,
    dir: Seq<char>,
    probe: PathProbe,
    target_is_dir: bool,
    entries: Result<Vec<DirEntryFacts>, String>,
    order: Seq<int>,
) -> Result<DirectoryListingView, FsError> {
    match sanitized(base, dir, probe) {
        Err(e) => Err(e),
        Ok(full) => if !target_is_dir {
            Err(FsError::NotADirectory(full))
        } else {
            match entries {
                Err(e) => Err(FsError::Io(e@)),
                Ok(v) => match infos_from(dir, v@, order, 0) {
                    Err(e) => Err(e),
                    Ok(files) => Ok(
                        DirectoryListingView {
                            current_path: dir,
                            parent_path: if same_path(full, text_result(probe.canonical_base)->Ok_0) {
                                None
                            } else {
                                Some(listing_parent(dir))
                            },
                            files,
                        },
                    ),
                },
            }
        },
    }
}

/// The view of a listing or of the error that replaced it.
pub open spec fn listing_view(r: Result<DirectoryListing, FileServiceError>) -> Result<
    DirectoryListingView,
    FsError,
> {
    match r {
        Ok(l) => Ok(l@),
        Err(e) => Err(e@),
    }
}

/// Whether entry `i` is listed before entry `j`.
fn listed_before(es: &Vec<DirEntryFacts>, i: usize, j: usize) -> (r: bool)
    requires
        i < es@.len(),
        j < es@.len(),
    ensures
        r == entry_before(es@, i as int, j as int),
{
    let a = &es[i];
    let b = &es[j];
    if a.sorts_as_dir != b.sorts_as_dir {
        a.sorts_as_dir
    } else if a.name != b.name {
        str_less(a.name.as_str(), b.name.as_str())
    } else {
        i < j
    }
}

/// Listing order is a strict total order on the positions of the entries.
proof fn lemma_entry_before_order(es: Seq<DirEntryFacts>, i: int, j: int, k: int)
    ensures
        !entry_before(es, i, i),
        i != j ==> (entry_before(es, i, j) || entry_before(es, j, i)),
        !(entry_before(es, i, j) && entry_before(es, j, i)),
        entry_before(es, i, j) && entry_before(es, j, k) ==> entry_before(es, i, k),
{
    lemma_seq_lt_trichotomy(es[i].name@, es[j].name@);
    lemma_seq_lt_trichotomy(es[i].name@, es[k].name@);
    lemma_seq_lt_trichotomy(es[j].name@, es[k].name@);
    if seq_lt(es[i].name@, es[j].name@) && seq_lt(es[j].name@, es[k].name@) {
        lemma_seq_lt_transitive(es[i].name@, es[j].name@, es[k].name@);
    }
}

/// The positions of the entries in listing order.
pub fn listing_order(es: &Vec<DirEntryFacts>) -> (r: Vec<usize>)
    ensures
        is_listing_order(es@, r@.map_values(|x: usize| x as int)),
{
    let n = es.len();
    let mut order: Vec<usize> = Vec::new();
    let mut idx: usize = 0;
    while idx < n
        invariant
            n == es@.len(),
            idx <= n,
            order@.len() == idx,
            forall|k: int| 0 <= k < order@.len() ==> #[trigger] order@[k] < idx,
            forall|i: int| 0 <= i < idx ==> #[trigger] order@.contains(i as usize),
            forall|a: int, b: int|
                0 <= a < b < order@.len() ==> entry_before(
                    es@,
                    #[trigger] order@[a] as int,
                    #[trigger] order@[b] as int,
                ),
        decreases n - idx,
    {
        let mut p: usize = 0;
        while p < order.len() && !listed_before(es, idx, order[p])
            invariant
                n == es@.len(),
                idx < n,
                p <= order@.len(),
                forall|k: int| 0 <= k < order@.len() ==> #[trigger] order@[k] < idx,
                forall|q: int| 0 <= q < p ==> !entry_before(es@, idx as int, #[trigger] order@[q] as int),
            decreases order@.len() - p,
        {
            p = p + 1;
        }
        let ghost old_order = order@;
        order.insert(p, idx);
        proof {
            assert(order@ == old_order.insert(p as int, idx));
            assert forall|a: int, b: int| 0 <= a < b < order@.len() implies entry_before(
                es@,
                #[trigger] order@[a] as int,
                #[trigger] order@[b] as int,
            ) by {
                let x = order@[a] as int;
                let y = order@[b] as int;
                if a < p && b < p {
                    assert(old_order[a] == order@[a] && old_order[b] == order@[b]);
                } else if a < p && b == p {
                    lemma_entry_before_order(es@, x, y, y);
                    assert(x < y);
                } else if a < p && b > p {
                    assert(old_order[a] == order@[a] && old_order[b - 1] == order@[b]);
                } else if a == p {
                    assert(old_order[b - 1] == order@[b]);
                    if p < old_order.len() {
                        let z = old_order[p as int] as int;
                        assert(entry_before(es@, x, z));
                        if b - 1 > p {
                            assert(entry_before(es@, z, y));
                            lemma_entry_before_order(es@, x, z, y);
                        }
                    }
                } else {
                    assert(old_order[a - 1] == order@[a] && old_order[b - 1] == order@[b]);
                }
            }
            assert forall|i: int| 0 <= i < idx + 1 implies #[trigger] order@.contains(i as usize) by {
                if i == idx {
                    assert(order@[p as int] == idx);
                } else {
                    assert(old_order.contains(i as usize));
                    let k = choose|k: int| 0 <= k < old_order.len() && old_order[k] == i as usize;
                    if k < p {
                        assert(order@[k] == i as usize);
                    } else {
                        assert(order@[k + 1] == i as usize);
                    }
                }
            }
            assert forall|k: int| 0 <= k < order@.len() implies #[trigger] order@[k] < idx + 1 by {
                if k < p {
                    assert(order@[k] == old_order[k]);
                } else if k > p {
                    assert(order@[k] == old_order[k - 1]);
                }
            }
        }
        idx = idx + 1;
    }
    proof {
        let o = order@.map_values(|x: usize| x as int);
        assert forall|i: int| 0 <= i < es@.len() implies #[trigger] o.contains(i) by {
            assert(order@.contains(i as usize));
            let k = choose|k: int| 0 <= k < order@.len() && order@[k] == i as usize;
            assert(o[k] == i);
        }
        assert forall|a: int, b: int| 0 <= a < b < o.len() implies entry_before(
            es@,
            #[trigger] o[a],
            #[trigger] o[b],
        ) by {
            assert(o[a] == order@[a] as int);
            assert(o[b] == order@[b] as int);
        }
    }
    order
}

/// The records built so far followed by the rest, or the rest's error.
pub open spec fn prepend_infos(done: Seq<FileInfoView>, rest: Result<Seq<FileInfoView>, FsError>) -> Result<
    Seq<FileInfoView>,
    FsError,
> {
    match rest {
        Ok(r) => Ok(done + r),
        Err(e) => Err(e),
    }
}

proof fn lemma_prepend_nothing(x: Result<Seq<FileInfoView>, FsError>)
    ensures
        prepend_infos(seq![], x) == x,
{
    if let Ok(r) = x {
        assert(Seq::<FileInfoView>::empty() + r =~= r);
    }
}

proof fn lemma_prepend_one(
    done: Seq<FileInfoView>,
    info: FileInfoView,
    rest: Result<Seq<FileInfoView>, FsError>,
)
    ensures
        prepend_infos(
            done,
            match rest {
                Err(e) => Err(e),
                Ok(r) => Ok(seq![info] + r),
            },
        ) == prepend_infos(done.push(info), rest),
{
    if let Ok(r) = rest {
        assert(done + (seq![info] + r) =~= done.push(info) + r);
    }
}

/// The path of entry `name` relative to the shared directory, when it is
/// listed in directory `dir`.
fn entry_path(dir: &str, name: &str) -> (r: String)
    ensures
        r@ == relative_path(dir@, name@),
{
    let is_root = dir.unicode_len() == 1 && dir.get_char(0) == '/';
    proof {
        if dir@.len() == 1 && dir@[0] == '/' {
            assert(dir@ =~= seq!['/']);
        }
        if dir@ == seq!['/'] {
            assert(dir@[0] == '/');
        }
    }
    if dir.unicode_len() == 0 || is_root {
        String::from_str(name)
    } else {
        let mut r = trim_end_matches(dir, '/');
        r.push('/');
        r.append(name);
        r
    }
}

/// The listed record of an entry.
fn entry_record(dir: &str, e: &DirEntryFacts, m: &EntryMeta) -> (r: FileInfo)
    ensures
        r@ == entry_info(dir@, *e, *m),
{
    let modified = match m.modified_secs {
        None => None,
        Some(ts) => Some(
            match format_utc(ts as i64, "%Y-%m-%d %H:%M:%S") {
                Some(t) => t,
                None => String::new(),
            },
        ),
    };
    FileInfo {
        name: e.name.clone(),
        path: entry_path(dir, e.name.as_str()),
        is_dir: m.is_dir,
        size: if m.is_file {
            Some(m.len)
        } else {
            None
        },
        modified,
    }
}

/// Confinement: whatever a request is, a path that sanitizing yields lies
/// at or below the canonical shared directory, component by component.
pub proof fn lemma_sanitized_within_base(base: Seq<char>, requested: Seq<char>, probe: PathProbe)
    ensures
        sanitized(base, requested, probe) matches Ok(p) ==> text_result(probe.canonical_base) is Ok
            && within(p, text_result(probe.canonical_base)->Ok_0),
{
}

/// A request that decodes to a relative path is looked up below the shared
/// directory: its full path begins with the shared directory.
pub proof fn lemma_relative_request_stays_below(base: Seq<char>, requested: Seq<char>)
    requires
        !is_absolute(percent_decoded(requested)),
    ensures
        has_prefix(requested_full_path(base, requested), base),
{
    let full = requested_full_path(base, requested);
    assert(full.subrange(0, base.len() as int) =~= base);
}

/// In a listing order, directories come before files, names ascend within
/// each group, and entries with the same name keep their reading order.
pub proof fn lemma_listing_order_sorted(es: Seq<DirEntryFacts>, order: Seq<int>, a: int, b: int)
    requires
        is_listing_order(es, order),
        0 <= a < b < order.len(),
    ensures
        es[order[b]].sorts_as_dir ==> es[order[a]].sorts_as_dir,
        es[order[a]].sorts_as_dir == es[order[b]].sorts_as_dir ==> !seq_lt(
            es[order[b]].name@,
            es[order[a]].name@,
        ),
        es[order[a]].sorts_as_dir == es[order[b]].sorts_as_dir && es[order[a]].name@
            == es[order[b]].name@ ==> order[a] < order[b],
{
    assert(entry_before(es, order[a], order[b]));
    lemma_seq_lt_trichotomy(es[order[a]].name@, es[order[b]].name@);
}

/// The listing order is determined by the entries: two listing orders of
/// the same entries are equal.
pub proof fn lemma_listing_order_unique(es: Seq<DirEntryFacts>, o1: Seq<int>, o2: Seq<int>)
    requires
        is_listing_order(es, o1),
        is_listing_order(es, o2),
    ensures
        o1 == o2,
{
    lemma_orders_agree_upto(es, o1, o2, o1.len() as int);
    assert(o1 =~= o2);
}

/// Two listing orders of the same entries agree on their first `i`
/// positions.
proof fn lemma_orders_agree_upto(es: Seq<DirEntryFacts>, o1: Seq<int>, o2: Seq<int>, i: int)
    requires
        is_listing_order(es, o1),
        is_listing_order(es, o2),
        0 <= i <= o1.len(),
    ensures
        forall|k: int| 0 <= k < i ==> o1[k] == o2[k],
    decreases i,
{
    if i > 0 {
        let n = i - 1;
        lemma_orders_agree_upto(es, o1, o2, n);
        let x = o1[n];
        let y = o2[n];
        if x != y {
            assert(o1.contains(y));
            assert(o2.contains(x));
            let j1 = choose|j: int| 0 <= j < o1.len() && o1[j] == y;
            let j2 = choose|j: int| 0 <= j < o2.len() && o2[j] == x;
            lemma_entry_before_order(es, x, y, x);
            lemma_entry_before_order(es, y, y, y);
            lemma_entry_before_order(es, x, x, x);
            if j1 < n {
                assert(o2[j1] == y);
                assert(entry_before(es, o2[j1], o2[n]));
            } else {
                assert(j1 > n);
                assert(entry_before(es, o1[n], o1[j1]));
                if j2 < n {
                    assert(o1[j2] == x);
                    assert(entry_before(es, o1[j2], o1[n]));
                } else {
                    assert(j2 > n);
                    assert(entry_before(es, o2[n], o2[j2]));
                }
            }
        }
    }
}

/// The files of a shared directory.
pub struct FileService {
    base_dir: String,
}

impl FileService {
    /// The shared directory, as it was given.
    pub closed spec fn base(&self) -> Seq<char> {
        self.base_dir@
    }

    /// A service for the directory `base_dir`.
    pub fn new(base_dir: String) -> (r: FileService)
        ensures
            r.base() == base_dir@,
    {
        FileService { base_dir }
    }

    /// The shared directory.
    pub fn base_dir(&self) -> (r: &str)
        ensures
            r@ == self.base(),
    {
        self.base_dir.as_str()
    }

    /// The full path of a request, before the filesystem resolves it: the
    /// percent-decoded request joined onto the shared directory.
    pub fn full_path(&self, requested: &str) -> (r: String)
        ensures
            r@ == requested_full_path(self.base(), requested@),
    {
        let decoded = percent_decode(requested);
        join(self.base_dir.as_str(), decoded.as_str())
    }

    /// Resolves a request to a canonical path within the shared directory:
    /// the request is percent-decoded and joined onto the directory, the
    /// filesystem's canonical forms in `probe` replace it, and a result
    /// outside the canonical shared directory is refused.
    pub fn sanitize_path(&self, requested: &str, probe: &PathProbe) -> (r: Result<
        String,
        FileServiceError,
    >)
        ensures
            path_result(r) == sanitized(self.base(), requested@, *probe),
    {
        let canonical_base = match &probe.canonical_base {
            Ok(b) => b,
            Err(e) => {
                return Err(FileServiceError::Io(e.clone()));
            },
        };
        let full = self.full_path(requested);
        let canonical_requested = match &probe.canonical_full {
            Ok(c) => c.clone(),
            Err(_) => match &probe.canonical_parent {
                None => {
                    return Err(FileServiceError::Io(String::from_str("Invalid path")));
                },
                Some(Err(e)) => {
                    return Err(FileServiceError::Io(e.clone()));
                },
                Some(Ok(cp)) => {
                    let name = match file_name(full.as_str()) {
                        Some(n) => n,
                        None => String::new(),
                    };
                    join(cp.as_str(), name.as_str())
                },
            },
        };
        if !path_within(canonical_requested.as_str(), canonical_base.as_str()) {
            return Err(FileServiceError::PathNotAllowed(canonical_requested));
        }
        Ok(canonical_requested)
    }

    /// The path of a file to download: the resolved request, which must be
    /// a regular file (`target_is_file` tells whether the path that
    /// [`FileService::sanitize_path`] yields for `probe` is one).
    pub fn get_file_path(&self, path: &str, probe: &PathProbe, target_is_file: bool) -> (r: Result<
        String,
        FileServiceError,
    >)
        ensures
            path_result(r) == match sanitized(self.base(), path@, *probe) {
                Err(e) => Err(e),
                Ok(p) => if target_is_file {
                    Ok(p)
                } else {
                    Err(FsError::NotADirectory("Not a file"@))
                },
            },
    {
        let full_path = self.sanitize_path(path, probe)?;
        if !target_is_file {
            return Err(FileServiceError::NotADirectory(String::from_str("Not a file")));
        }
        Ok(full_path)
    }

    /// The path at which an upload to `relative_path` is saved.
    pub fn get_save_path(&self, relative_path: &str, probe: &PathProbe) -> (r: Result<
        String,
        FileServiceError,
    >)
        ensures
            path_result(r) == sanitized(self.base(), relative_path@, *probe),
    {
        self.sanitize_path(relative_path, probe)
    }
    /// Lists directory `path` of the shared tree. The request is resolved
    /// as by [`FileService::sanitize_path`]; `target_is_dir` tells whether
    /// the resolved path is a directory, and `entries` holds what reading
    /// it returned. Directories come first, then files, each by name (ties
    /// in reading order); each entry's path is relative to the shared
    /// directory; the parent is given except at the shared root.
    pub fn list_directory(
        &self,
        path: &str,
        probe: &PathProbe,
        target_is_dir: bool,
        entries: &Result<Vec<DirEntryFacts>, String>,
    ) -> (r: Result<DirectoryListing, FileServiceError>)
        ensures
            sanitized(self.base(), path@, *probe) is Err || !target_is_dir || entries is Err
                ==> listing_view(r) == listing_result(
                self.base(),
                path@,
                *probe,
                target_is_dir,
                *entries,
                seq![],
            ),
            sanitized(self.base(), path@, *probe) is Ok && target_is_dir && entries is Ok
                ==> exists|order: Seq<int>|
                is_listing_order(read_entries(*entries), order) && listing_view(r)
                    == listing_result(self.base(), path@, *probe, target_is_dir, *entries, order),
    {
        let full_path = self.sanitize_path(path, probe)?;
        if !target_is_dir {
            return Err(FileServiceError::NotADirectory(full_path));
        }
        let es = match entries {
            Err(e) => {
                return Err(FileServiceError::Io(e.clone()));
            },
            Ok(v) => v,
        };
        let order = listing_order(es);
        let ghost o = order@.map_values(|x: usize| x as int);
        let mut files: Vec<FileInfo> = Vec::new();
        let mut k: usize = 0;
        proof {
            assert(files@.map_values(|f: FileInfo| f@) =~= Seq::<FileInfoView>::empty());
            lemma_prepend_nothing(infos_from(path@, es@, o, 0));
        }
        while k < order.len()
            invariant
                o == order@.map_values(|x: usize| x as int),
                is_listing_order(es@, o),
                read_entries(*entries) == es@,
                *entries is Ok,
                target_is_dir,
                sanitized(self.base(), path@, *probe) == Ok::<Seq<char>, FsError>(full_path@),
                k <= order@.len(),
                infos_from(path@, es@, o, 0) == prepend_infos(
                    files@.map_values(|f: FileInfo| f@),
                    infos_from(path@, es@, o, k as int),
                ),
            decreases order@.len() - k,
        {
            let e = &es[order[k]];
            assert(o[k as int] == order@[k as int] as int);
            match &e.metadata {
                Err(m) => {
                    assert(infos_from(path@, es@, o, 0) == Err::<Seq<FileInfoView>, FsError>(
                        FsError::Io(m@),
                    ));
                    assert(is_listing_order(read_entries(*entries), o));
                    return Err(FileServiceError::Io(m.clone()));
                },
                Ok(m) => {
                    let info = entry_record(path, e, m);
                    let ghost before = files@.map_values(|f: FileInfo| f@);
                    files.push(info);
                    proof {
                        assert(files@.map_values(|f: FileInfo| f@) =~= before.push(info@));
                        lemma_prepend_one(before, info@, infos_from(path@, es@, o, k + 1));
                    }
                },
            }
            k = k + 1;
        }
        assert(infos_from(path@, es@, o, 0) == Ok::<Seq<FileInfoView>, FsError>(
            files@.map_values(|f: FileInfo| f@) + Seq::<FileInfoView>::empty(),
        ));
        assert(files@.map_values(|f: FileInfo| f@) + Seq::<FileInfoView>::empty() =~= files@.map_values(
            |f: FileInfo| f@,
        ));
        let canonical_base = match &probe.canonical_base {
            Ok(b) => b,
            Err(e) => {
                return Err(FileServiceError::Io(e.clone()));
            },
        };
        let parent_path = if path_eq(full_path.as_str(), canonical_base.as_str()) {
            None
        } else {
            Some(
                match path_parent(path) {
                    Some(p) => if p.as_str().unicode_len() > 0 {
                        p
                    } else {
                        String::new()
                    },
                    None => String::new(),
                },
            )
        };
        let listing = DirectoryListing {
            current_path: String::from_str(path),
            parent_path,
            files,
        };
        assert(is_listing_order(read_entries(*entries), o));
        assert(listing_view(Ok(listing)) == listing_result(
            self.base(),
            path@,
            *probe,
            target_is_dir,
            *entries,
            o,
        ));
        Ok(listing)
    }
}

/// The path listed for entry `name` of a directory other than the shared
/// root is the directory with its trailing slashes dropped, then `/` and
/// the name: it ends in `/name`, what precedes is `dir` up to its trailing
/// slashes, and `dir` with one more slash lists the same path. At the
/// root (`""` or `"/"`) the path is the name.
pub proof fn lemma_entry_path_in_directory(dir: Seq<char>, name: Seq<char>)
    ensures
        (dir.len() == 0 || dir == seq!['/']) ==> relative_path(dir, name) == name,
        dir.len() > 0 && dir != seq!['/'] ==> ({
            let p = relative_path(dir, name);
            let q = p.subrange(0, p.len() - name.len() - 1);
            &&& p.len() == q.len() + 1 + name.len()
            &&& p.subrange(q.len() as int, p.len() as int) == seq!['/'] + name
            &&& q.len() <= dir.len()
            &&& dir.subrange(0, q.len() as int) == q
            &&& forall|i: int| q.len() <= i < dir.len() ==> dir[i] == '/'
            &&& (q.len() == 0 || q.last() != '/')
            &&& relative_path(dir.push('/'), name) == p
        }),
{
    lemma_trim_end_char(dir, '/');
    if dir.len() > 0 && dir != seq!['/'] {
        let t = trim_end_char(dir, '/');
        let p = relative_path(dir, name);
        assert(p == t + seq!['/'] + name);
        assert(p.subrange(0, p.len() - name.len() - 1) =~= t);
        assert(p.subrange(t.len() as int, p.len() as int) =~= seq!['/'] + name);
        assert(dir.push('/').len() > 1);
        assert(dir.push('/') != seq!['/']) by {
            assert(dir.push('/').len() != seq!['/'].len());
        }
    }
}

/// Listing a directory given with any number of extra trailing slashes
/// gives its entries the same paths.
pub proof fn lemma_entry_path_ignores_trailing_slashes(dir: Seq<char>, name: Seq<char>, k: nat)
    requires
        dir.len() > 0 && dir != seq!['/'],
    ensures
        relative_path(dir + Seq::new(k, |i: int| '/'), name) == relative_path(dir, name),
    decreases k,
{
    if k > 0 {
        lemma_entry_path_ignores_trailing_slashes(dir, name, (k - 1) as nat);
        let shorter = dir + Seq::new((k - 1) as nat, |i: int| '/');
        assert(dir + Seq::new(k, |i: int| '/') =~= shorter.push('/'));
        lemma_entry_path_in_directory(shorter, name);
        assert(shorter.len() > 0);
        assert(shorter != seq!['/']) by {
            if k > 1 {
                assert(shorter.len() > 1);
            } else {
                assert(shorter =~= dir);
            }
        }
    } else {
        assert(dir + Seq::new(0, |i: int| '/') =~= dir);
    }
}

} // verus!

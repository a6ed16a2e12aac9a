//! The HTTP server's configuration and the decisions its handlers make:
//! status codes, download headers, where uploads are saved and what a
//! failed upload answers.
use vstd::prelude::*;
use crate::file_service::{FileServiceError, FsError};
use crate::foreign::{guessed_mime, mime_for_path};
use crate::paths::{file_name, final_name};
use crate::text::{lemma_trim_end_char, trim_end_char, trim_end_matches};

verus! {

/// The largest request body the server accepts: 100 GiB.
pub const BODY_LIMIT_BYTES: u64 = 107374182400u64;

/// The configuration of the HTTP server: its port, the shared directory
/// and an optional password.
pub struct HttpServer {
    port: u16,
    shared_dir: String,
    password: Option<String>,
}

impl HttpServer {
    /// The port the server listens on.
    pub closed spec fn port_spec(&self) -> u16 {
        self.port
    }

    /// The shared directory it serves.
    pub closed spec fn shared_dir_spec(&self) -> Seq<char> {
        self.shared_dir@
    }

    /// The password it asks for.
    pub closed spec fn password_spec(&self) -> Option<Seq<char>> {
        match self.password {
            Some(p) => Some(p@),
            None => None,
        }
    }

    /// A server for `shared_dir` on `port`.
    pub fn new(port: u16, shared_dir: String, password: Option<String>) -> (r: HttpServer)
        ensures
            r.port_spec() == port,
            r.shared_dir_spec() == shared_dir@,
            r.password_spec() == match password {
                Some(p) => Some(p@),
                None => None,
            },
    {
        HttpServer { port, shared_dir, password }
    }

    /// The port the server listens on.
    pub fn port(&self) -> (r: u16)
        ensures
            r == self.port_spec(),
    {
        self.port
    }

    /// The shared directory it serves.
    pub fn shared_dir(&self) -> (r: &str)
        ensures
            r@ == self.shared_dir_spec(),
    {
        self.shared_dir.as_str()
    }

    /// The password it asks for.
    pub fn password(&self) -> (r: Option<String>)
        ensures
            match r {
                Some(p) => Some(p@),
                None => None,
            } == self.password_spec(),
    {
        match &self.password {
            Some(p) => Some(p.clone()),
            None => None,
        }
    }
}

/// The query of the listing and upload requests: the directory, relative
/// to the shared one.
#[derive(Debug, Clone, PartialEq, Eq)]
pub struct ListFilesQuery {
    pub path: Option<String>,
}

impl ListFilesQuery {
    /// The requested directory, empty for the shared root.
    pub fn target(&self) -> (r: String)
        ensures
            r@ == match self.path {
                Some(p) => p@,
                None => Seq::<char>::empty(),
            },
    {
        match &self.path {
            Some(p) => p.clone(),
            None => String::new(),
        }
    }
}

/// The status of a failed listing: forbidden outside the shared directory,
/// a bad request for a non-directory, an internal error otherwise.
pub open spec fn listing_status(e: FsError) -> u16 {
    match e {
        FsError::PathNotAllowed(_) => 403,
        FsError::NotADirectory(_) => 400,
        FsError::Io(_) => 500,
    }
}

/// The status of a failed download: forbidden outside the shared
/// directory, not found otherwise.
pub open spec fn download_status(e: FsError) -> u16 {
    match e {
        FsError::PathNotAllowed(_) => 403,
        _ => 404,
    }
}

/// The status answered when a listing fails with `e`.
pub fn list_error_status(e: &FileServiceError) -> (r: u16)
    ensures
        r == listing_status(e@),
{
    match e {
        FileServiceError::PathNotAllowed(_) => 403,
        FileServiceError::NotADirectory(_) => 400,
        FileServiceError::Io(_) => 500,
    }
}

/// The status answered when a download fails with `e`.
pub fn download_error_status(e: &FileServiceError) -> (r: u16)
    ensures
        r == download_status(e@),
{
    match e {
        FileServiceError::PathNotAllowed(_) => 403,
        _ => 404,
    }
}

/// The name under which a file is downloaded: its final name, or
/// "unknown" when it has none or the name on disk is not UTF-8 text
/// (`name_is_text` false).
pub open spec fn download_name(path: Seq<char>, name_is_text: bool) -> Seq<char> {
    match final_name(path) {
        Some(n) => if name_is_text {
            n
        } else {
            "unknown"@
        },
        None => "unknown"@,
    }
}

/// The name under which the file at `path` is downloaded; `name_is_text`
/// tells whether its final name on disk is valid UTF-8 (`path` being the
/// text of that path).
pub fn download_file_name(path: &str, name_is_text: bool) -> (r: String)
    ensures
        r@ == download_name(path@, name_is_text),
{
    match file_name(path) {
        Some(n) => if name_is_text {
            n
        } else {
            String::from_str("unknown")
        },
        None => String::from_str("unknown"),
    }
}

/// The `Content-Disposition` value that makes a client save the file
/// under `name`.
pub fn content_disposition(name: &str) -> (r: String)
    ensures
        r@ == "attachment; filename=\""@ + name@ + "\""@,
{
    let mut r = String::from_str("attachment; filename=\"");
    r.append(name);
    r.append("\"");
    r
}

/// The media type sent with the file at `path`, from its extension.
pub fn download_mime(path: &str) -> (r: String)
    ensures
        r@ == guessed_mime(path@),
{
    mime_for_path(path)
}

/// The name of an uploaded file: the one the client sent, or "unnamed".
pub fn uploaded_file_name(sent: Option<String>) -> (r: String)
    ensures
        r@ == match sent {
            Some(n) => n@,
            None => "unnamed"@,
        },
{
    match sent {
        Some(n) => n,
        None => String::from_str("unnamed"),
    }
}

/// Where an upload named `name` to directory `dir` goes, relative to the
/// shared directory.
pub open spec fn upload_path(dir: Seq<char>, name: Seq<char>) -> Seq<char> {
    if dir.len() == 0 {
        name
    } else {
        trim_end_char(dir, '/') + seq!['/'] + name
    }
}

/// The path, relative to the shared directory, at which an upload named
/// `name` to directory `dir` is saved.
pub fn upload_save_path(dir: &str, name: &str) -> (r: String)
    ensures
        r@ == upload_path(dir@, name@),
{
    if dir.unicode_len() == 0 {
        String::from_str(name)
    } else {
        let mut r = trim_end_matches(dir, '/');
        r.push('/');
        r.append(name);
        r
    }
}

/// The step of an upload that failed.
#[derive(Debug, Clone, Copy, PartialEq, Eq, Structural)]
pub enum UploadFailure {
    /// The multipart body could not be read.
    Multipart,
    /// The save path was refused.
    InvalidSavePath,
    /// The target directory could not be created.
    CreateDirectory,
    /// The file could not be created.
    CreateFile,
    /// A chunk of the file could not be read.
    Chunk,
    /// A chunk could not be written.
    Write,
    /// The file could not be flushed.
    Flush,
}

/// The status answered for a failed upload step: a bad request when the
/// client's data could not be read, an internal error otherwise.
pub open spec fn upload_status(f: UploadFailure) -> u16 {
    match f {
        UploadFailure::Multipart | UploadFailure::Chunk => 400,
        _ => 500,
    }
}

/// The message answered for a failed upload step of file `name` with the
/// cause `detail`.
pub open spec fn upload_message(f: UploadFailure, name: Seq<char>, detail: Seq<char>) -> Seq<char> {
    match f {
        UploadFailure::Multipart => "Multipart error: "@ + detail,
        UploadFailure::InvalidSavePath => "Invalid save path for "@ + name + ": "@ + detail,
        UploadFailure::CreateDirectory => "Failed to create directory: "@ + detail,
        UploadFailure::CreateFile => "Failed to create file "@ + name + ": "@ + detail,
        UploadFailure::Chunk => "Chunk error for "@ + name + ": "@ + detail,
        UploadFailure::Write => "Failed to write file "@ + name + ": "@ + detail,
        UploadFailure::Flush => "Failed to flush file "@ + name + ": "@ + detail,
    }
}

/// The status and message answered for a failed upload step.
pub fn upload_failure(f: UploadFailure, name: &str, detail: &str) -> (r: (u16, String))
    ensures
        r.0 == upload_status(f),
        r.1@ == upload_message(f, name@, detail@),
{
    let (status, mut m) = match f {
        UploadFailure::Multipart => {
            let m = String::from_str("Multipart error: ");
            (400u16, m)
        },
        UploadFailure::InvalidSavePath => {
            let mut m = String::from_str("Invalid save path for ");
            m.append(name);
            m.append(": ");
            (500u16, m)
        },
        UploadFailure::CreateDirectory => {
            let m = String::from_str("Failed to create directory: ");
            (500u16, m)
        },
        UploadFailure::CreateFile => {
            let mut m = String::from_str("Failed to create file ");
            m.append(name);
            m.append(": ");
            (500u16, m)
        },
        UploadFailure::Chunk => {
            let mut m = String::from_str("Chunk error for ");
            m.append(name);
            m.append(": ");
            (400u16, m)
        },
        UploadFailure::Write => {
            let mut m = String::from_str("Failed to write file ");
            m.append(name);
            m.append(": ");
            (500u16, m)
        },
        UploadFailure::Flush => {
            let mut m = String::from_str("Failed to flush file ");
            m.append(name);
            m.append(": ");
            (500u16, m)
        },
    };
    m.append(detail);
    (status, m)
}

/// A file received by an upload: its name, where it goes relative to the
/// shared directory, the bytes written so far and the path it is saved to.
#[derive(Debug, Clone, PartialEq, Eq)]
pub struct UploadedFile {
    pub file_name: String,
    pub path: String,
    pub size: u64,
    pub saved_to: String,
}

/// The view of an [`UploadedFile`].
pub struct UploadedFileView {
    pub file_name: Seq<char>,
    pub path: Seq<char>,
    pub size: u64,
    pub saved_to: Seq<char>,
}

impl View for UploadedFile {
    type V = UploadedFileView;

    open spec fn view(&self) -> UploadedFileView {
        UploadedFileView {
            file_name: self.file_name@,
            path: self.path@,
            size: self.size,
            saved_to: self.saved_to@,
        }
    }
}

/// What a failed upload step answers: the status, the message, and the
/// partly written file to remove first, if one was created.
#[derive(Debug, Clone, PartialEq, Eq)]
pub struct UploadAnswer {
    pub status: u16,
    pub message: String,
    pub remove: Option<String>,
}

/// The progress of one upload request: the files saved so far, in order,
/// and the file being received, if any.
pub struct UploadSession {
    target: String,
    files: Vec<UploadedFile>,
    current: Option<UploadedFile>,
    opened: bool,
}

/// The view of an [`UploadSession`]: the target directory, the files saved,
/// the file being received and whether it has been created on disk.
pub struct UploadSessionView {
    pub target: Seq<char>,
    pub files: Seq<UploadedFileView>,
    pub current: Option<UploadedFileView>,
    pub opened: bool,
}

/// The views of a list of uploaded files.
pub open spec fn uploaded_views(v: Seq<UploadedFile>) -> Seq<UploadedFileView> {
    v.map_values(|f: UploadedFile| f@)
}

impl View for UploadSession {
    type V = UploadSessionView;

    closed spec fn view(&self) -> UploadSessionView {
        UploadSessionView {
            target: self.target@,
            files: uploaded_views(self.files@),
            current: match self.current {
                Some(f) => Some(f@),
                None => None,
            },
            opened: self.opened,
        }
    }
}

/// The name of the file being received, empty when there is none.
pub open spec fn current_name(s: UploadSessionView) -> Seq<char> {
    match s.current {
        Some(f) => f.file_name,
        None => Seq::empty(),
    }
}

impl UploadSession {
    /// A session for an upload into directory `target` (relative to the
    /// shared directory), with nothing received yet.
    pub fn new(target: &str) -> (r: UploadSession)
        ensures
            r@ == (UploadSessionView { target: target@, files: seq![], current: None, opened: false }),
    {
        let r = UploadSession { target: String::from_str(target), files: Vec::new(), current: None, opened: false };
        assert(r@.files =~= Seq::<UploadedFileView>::empty());
        r
    }

    /// A field of the body starts a new file, named as the client sent it
    /// (or "unnamed"); returns the path it is to be saved under, relative
    /// to the shared directory.
    pub fn start_file(&mut self, sent: Option<String>) -> (r: String)
        ensures
            ({
                let name = match sent {
                    Some(n) => n@,
                    None => "unnamed"@,
                };
                &&& r@ == upload_path(old(self)@.target, name)
                &&& final(self)@ == (UploadSessionView {
                    current: Some(UploadedFileView { file_name: name, path: r@, size: 0, saved_to: seq![] }),
                    opened: false,
                    ..old(self)@
                })
            }),
    {
        let file_name = uploaded_file_name(sent);
        let path = upload_save_path(self.target.as_str(), file_name.as_str());
        let r = path.clone();
        self.current = Some(UploadedFile { file_name, path, size: 0, saved_to: String::new() });
        self.opened = false;
        r
    }

    /// The file being received was created at `full_path`.
    pub fn file_created(&mut self, full_path: String)
        ensures
            final(self)@ == (UploadSessionView {
                current: match old(self)@.current {
                    Some(f) => Some(UploadedFileView { saved_to: full_path@, ..f }),
                    None => None,
                },
                opened: old(self)@.current is Some,
                ..old(self)@
            }),
    {
        match self.current.take() {
            Some(mut f) => {
                f.saved_to = full_path;
                self.current = Some(f);
                self.opened = true;
            },
            None => {
                self.opened = false;
            },
        }
    }

    /// The bytes received so far for the current file (zero when none is
    /// being received).
    pub fn received(&self) -> (r: u64)
        ensures
            r == match self@.current {
                Some(f) => f.size,
                None => 0,
            },
    {
        match &self.current {
            Some(f) => f.size,
            None => 0,
        }
    }

    /// A chunk of `len` bytes of the current file was received.
    pub fn add_chunk(&mut self, len: u64)
        requires
            old(self)@.current matches Some(f) ==> f.size + len <= u64::MAX,
        ensures
            final(self)@ == (UploadSessionView {
                current: match old(self)@.current {
                    Some(f) => Some(UploadedFileView { size: (f.size + len) as u64, ..f }),
                    None => None,
                },
                ..old(self)@
            }),
    {
        match self.current.take() {
            Some(mut f) => {
                f.size = f.size + len;
                self.current = Some(f);
            },
            None => {},
        }
    }

    /// The current file was written completely: it joins the saved files.
    pub fn finish_file(&mut self)
        ensures
            final(self)@ == (UploadSessionView {
                files: match old(self)@.current {
                    Some(f) => old(self)@.files.push(f),
                    None => old(self)@.files,
                },
                current: None,
                opened: false,
                ..old(self)@
            }),
    {
        match self.current.take() {
            Some(f) => {
                let ghost before = uploaded_views(self.files@);
                self.files.push(f);
                assert(uploaded_views(self.files@) =~= before.push(f@));
            },
            None => {},
        }
        self.opened = false;
    }

    /// What the upload answers when a step fails with cause `detail`: the
    /// status and message of the failure for the current file, and that
    /// file, to be removed, when it was already created. The files saved
    /// before stay.
    pub fn failure(&self, kind: UploadFailure, detail: &str) -> (r: UploadAnswer)
        ensures
            r.status == upload_status(kind),
            r.message@ == upload_message(kind, current_name(self@), detail@),
            r.remove is Some == (self@.opened && self@.current is Some),
            r.remove matches Some(p) ==> self@.current matches Some(f) && p@ == f.saved_to,
    {
        proof {
            reveal_strlit("");
        }
        let name = match &self.current {
            Some(f) => f.file_name.as_str(),
            None => "",
        };
        let (status, message) = upload_failure(kind, name, detail);
        let remove = match &self.current {
            Some(f) => if self.opened {
                Some(f.saved_to.clone())
            } else {
                None
            },
            None => None,
        };
        UploadAnswer { status, message, remove }
    }

    /// The files saved, in the order they were received.
    pub fn files(&self) -> (r: &Vec<UploadedFile>)
        ensures
            uploaded_views(r@) == self@.files,
    {
        &self.files
    }
}

/// An upload named `name` into a non-empty directory `dir` is saved at the
/// directory with its trailing slashes dropped, then `/` and the name: the
/// path ends in `/name`, what precedes is `dir` up to its trailing slashes,
/// and `dir` with one more slash gives the same path. Without a directory
/// the path is the name.
pub proof fn lemma_upload_path_in_directory(dir: Seq<char>, name: Seq<char>)
    ensures
        dir.len() == 0 ==> upload_path(dir, name) == name,
        dir.len() > 0 ==> ({
            let p = upload_path(dir, name);
            let q = p.subrange(0, p.len() - name.len() - 1);
            &&& p.len() == q.len() + 1 + name.len()
            &&& p.subrange(q.len() as int, p.len() as int) == seq!['/'] + name
            &&& q.len() <= dir.len()
            &&& dir.subrange(0, q.len() as int) == q
            &&& forall|i: int| q.len() <= i < dir.len() ==> dir[i] == '/'
            &&& (q.len() == 0 || q.last() != '/')
            &&& upload_path(dir.push('/'), name) == p
        }),
{
    lemma_trim_end_char(dir, '/');
    if dir.len() > 0 {
        let t = trim_end_char(dir, '/');
        let p = upload_path(dir, name);
        assert(p == t + seq!['/'] + name);
        assert(p.subrange(0, p.len() - name.len() - 1) =~= t);
        assert(p.subrange(t.len() as int, p.len() as int) =~= seq!['/'] + name);
    }
}

/// An upload into a directory given with any number of extra trailing
/// slashes is saved at the same path.
pub proof fn lemma_upload_path_ignores_trailing_slashes(dir: Seq<char>, name: Seq<char>, k: nat)
    requires
        dir.len() > 0,
    ensures
        upload_path(dir + Seq::new(k, |i: int| '/'), name) == upload_path(dir, name),
    decreases k,
{
    if k > 0 {
        lemma_upload_path_ignores_trailing_slashes(dir, name, (k - 1) as nat);
        let shorter = dir + Seq::new((k - 1) as nat, |i: int| '/');
        assert(dir + Seq::new(k, |i: int| '/') =~= shorter.push('/'));
        lemma_upload_path_in_directory(shorter, name);
        assert(shorter.len() > 0);
    } else {
        assert(dir + Seq::new(0, |i: int| '/') =~= dir);
    }
}

} // verus!

//! The records the service hands out: file entries, directory listings and
//! server addresses, each with its mathematical view.
use vstd::prelude::*;

verus! {

/// One entry of a directory listing.
#[derive(Debug, Clone, PartialEq, Eq)]
pub struct FileInfo {
    pub name: String,
    pub path: String,
    pub is_dir: bool,
    pub size: Option<u64>,
    pub modified: Option<String>,
}

/// The view of a [`FileInfo`].
pub struct FileInfoView {
    pub name: Seq<char>,
    pub path: Seq<char>,
    pub is_dir: bool,
    pub size: Option<u64>,
    pub modified: Option<Seq<char>>,
}

/// The view of an optional string.
pub open spec fn opt_view(o: Option<String>) -> Option<Seq<char>> {
    match o {
        Some(s) => Some(s@),
        None => None,
    }
}

impl View for FileInfo {
    type V = FileInfoView;

    open spec fn view(&self) -> FileInfoView {
        FileInfoView {
            name: self.name@,
            path: self.path@,
            is_dir: self.is_dir,
            size: self.size,
            modified: opt_view(self.modified),
        }
    }
}

/// The listing of one directory of the shared tree.
#[derive(Debug, Clone, PartialEq, Eq)]
pub struct DirectoryListing {
    pub current_path: String,
    pub parent_path: Option<String>,
    pub files: Vec<FileInfo>,
}

/// The view of a [`DirectoryListing`].
pub struct DirectoryListingView {
    pub current_path: Seq<char>,
    pub parent_path: Option<Seq<char>>,
    pub files: Seq<FileInfoView>,
}

impl View for DirectoryListing {
    type V = DirectoryListingView;

    open spec fn view(&self) -> DirectoryListingView {
        DirectoryListingView {
            current_path: self.current_path@,
            parent_path: opt_view(self.parent_path),
            files: self.files@.map_values(|f: FileInfo| f@),
        }
    }
}

/// An address at which the server can be reached.
#[derive(Debug, Clone, PartialEq, Eq)]
pub struct ServerInfo {
    pub address: String,
    pub port: u16,
    pub url: String,
}

/// The view of a [`ServerInfo`].
pub struct ServerInfoView {
    pub address: Seq<char>,
    pub port: u16,
    pub url: Seq<char>,
}

impl View for ServerInfo {
    type V = ServerInfoView;

    open spec fn view(&self) -> ServerInfoView {
        ServerInfoView { address: self.address@, port: self.port, url: self.url@ }
    }
}

impl ServerInfo {
    /// A copy of this record.
    pub fn duplicate(&self) -> (r: ServerInfo)
        ensures
            r@ == self@,
    {
        ServerInfo { address: self.address.clone(), port: self.port, url: self.url.clone() }
    }
}

} // verus!

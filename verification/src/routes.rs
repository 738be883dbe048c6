//! The endpoints of the server: under which methods and paths they are reached, and which of them
//! ask for a session.

use vstd::prelude::*;

verus! {

/// The methods that an endpoint is reached by.
#[derive(Debug, PartialEq, Eq, Structural, Clone, Copy)]
pub enum Verb {
    Get,
    Post,
    Put,
    Delete,
    Any,
}

/// The endpoints.
#[derive(Debug, PartialEq, Eq, Structural, Clone, Copy)]
pub enum Endpoint {
    /// What is shown of the own account.
    GetUser,
    /// Changes the own account.
    UpdateUser,
    /// The settings.
    GetSettings,
    /// Changes the settings.
    UpdateSettings,
    /// Lists a folder.
    ListFiles,
    /// Deletes a file or folder.
    DeleteFile,
    /// Uploads files.
    UploadFile,
    /// Makes a folder.
    MakeDir,
    /// Moves a file or folder.
    MoveFile,
    /// Copies a file or folder.
    CopyFile,
    /// Downloads a file.
    DownloadFile,
    /// Writes a new file.
    CreateFile,
    /// The text of a file.
    GetContent,
    /// Writes the text of a file.
    UpdateContent,
    /// Tells text from other files.
    DetectType,
    /// Makes files public or not.
    SetVisibility,
    /// The permissions of a file.
    GetPermission,
    /// Sets the permissions of a file.
    SetPermission,
    /// Deletes several files.
    BatchDelete,
    /// Downloads several files.
    BatchDownload,
    /// Moves several files.
    BatchMove,
    /// Copies several files.
    BatchCopy,
    /// Packs files.
    Compress,
    /// Unpacks an archive.
    Decompress,
    /// Fetches a file from the network.
    FetchUrl,
    /// Searches for files by name.
    Search,
    /// Uploads a folder.
    UploadFolder,
    /// Lists the folders of a folder.
    DirTree,
    /// Opens a terminal.
    Terminal,
    /// Lists the own share links.
    ListShares,
    /// Makes a share link.
    CreateShare,
    /// Deletes a share link.
    DeleteShare,
    /// The WebDAV settings.
    GetWebdav,
    /// Changes the WebDAV settings.
    UpdateWebdav,
    /// Whether the first account has been made.
    AuthStatus,
    /// Makes the first account.
    Setup,
    /// Opens a session.
    Login,
    /// What a share link leads to.
    AccessShare,
    /// Downloads through a share link.
    DownloadShare,
    /// Lists the public files.
    PublicFiles,
    /// Lists the public files.
    PublicList,
    /// Downloads a public file.
    PublicDownload,
    /// Shows a public file.
    PublicRaw,
    /// Shows a file through a share link.
    ShareRaw,
    /// The WebDAV root.
    Dav,
    /// A WebDAV resource.
    DavPath,
}

/// The method that an endpoint is reached by.
pub open spec fn verb_of(e: Endpoint) -> Verb {
    match e {
        Endpoint::GetUser => Verb::Get,
        Endpoint::UpdateUser => Verb::Put,
        Endpoint::GetSettings => Verb::Get,
        Endpoint::UpdateSettings => Verb::Put,
        Endpoint::ListFiles => Verb::Get,
        Endpoint::DeleteFile => Verb::Delete,
        Endpoint::UploadFile => Verb::Post,
        Endpoint::MakeDir => Verb::Post,
        Endpoint::MoveFile => Verb::Post,
        Endpoint::CopyFile => Verb::Post,
        Endpoint::DownloadFile => Verb::Get,
        Endpoint::CreateFile => Verb::Post,
        Endpoint::GetContent => Verb::Get,
        Endpoint::UpdateContent => Verb::Put,
        Endpoint::DetectType => Verb::Get,
        Endpoint::SetVisibility => Verb::Put,
        Endpoint::GetPermission => Verb::Get,
        Endpoint::SetPermission => Verb::Put,
        Endpoint::BatchDelete => Verb::Post,
        Endpoint::BatchDownload => Verb::Post,
        Endpoint::BatchMove => Verb::Post,
        Endpoint::BatchCopy => Verb::Post,
        Endpoint::Compress => Verb::Post,
        Endpoint::Decompress => Verb::Post,
        Endpoint::FetchUrl => Verb::Post,
        Endpoint::Search => Verb::Get,
        Endpoint::UploadFolder => Verb::Post,
        Endpoint::DirTree => Verb::Get,
        Endpoint::Terminal => Verb::Get,
        Endpoint::ListShares => Verb::Get,
        Endpoint::CreateShare => Verb::Post,
        Endpoint::DeleteShare => Verb::Delete,
        Endpoint::GetWebdav => Verb::Get,
        Endpoint::UpdateWebdav => Verb::Put,
        Endpoint::AuthStatus => Verb::Get,
        Endpoint::Setup => Verb::Post,
        Endpoint::Login => Verb::Post,
        Endpoint::AccessShare => Verb::Get,
        Endpoint::DownloadShare => Verb::Get,
        Endpoint::PublicFiles => Verb::Get,
        Endpoint::PublicList => Verb::Get,
        Endpoint::PublicDownload => Verb::Get,
        Endpoint::PublicRaw => Verb::Get,
        Endpoint::ShareRaw => Verb::Get,
        Endpoint::Dav => Verb::Any,
        Endpoint::DavPath => Verb::Any,
    }
}

/// The path that an endpoint is reached under; a name in braces stands for one segment, and one
/// with a star for all that follow.
pub open spec fn pattern_of(e: Endpoint) -> Seq<char> {
    match e {
        Endpoint::GetUser => "/api/user"@,
        Endpoint::UpdateUser => "/api/user"@,
        Endpoint::GetSettings => "/api/settings"@,
        Endpoint::UpdateSettings => "/api/settings"@,
        Endpoint::ListFiles => "/api/files"@,
        Endpoint::DeleteFile => "/api/files"@,
        Endpoint::UploadFile => "/api/files/upload"@,
        Endpoint::MakeDir => "/api/files/mkdir"@,
        Endpoint::MoveFile => "/api/files/move"@,
        Endpoint::CopyFile => "/api/files/copy"@,
        Endpoint::DownloadFile => "/api/files/download"@,
        Endpoint::CreateFile => "/api/files/create"@,
        Endpoint::GetContent => "/api/files/content"@,
        Endpoint::UpdateContent => "/api/files/content"@,
        Endpoint::DetectType => "/api/files/detect"@,
        Endpoint::SetVisibility => "/api/files/visibility"@,
        Endpoint::GetPermission => "/api/files/permission"@,
        Endpoint::SetPermission => "/api/files/permission"@,
        Endpoint::BatchDelete => "/api/files/batch-delete"@,
        Endpoint::BatchDownload => "/api/files/batch-download"@,
        Endpoint::BatchMove => "/api/files/batch-move"@,
        Endpoint::BatchCopy => "/api/files/batch-copy"@,
        Endpoint::Compress => "/api/files/compress"@,
        Endpoint::Decompress => "/api/files/decompress"@,
        Endpoint::FetchUrl => "/api/files/fetch-url"@,
        Endpoint::Search => "/api/files/search"@,
        Endpoint::UploadFolder => "/api/files/upload-folder"@,
        Endpoint::DirTree => "/api/files/dirtree"@,
        Endpoint::Terminal => "/api/ws/terminal"@,
        Endpoint::ListShares => "/api/share"@,
        Endpoint::CreateShare => "/api/share"@,
        Endpoint::DeleteShare => "/api/share/{id}"@,
        Endpoint::GetWebdav => "/api/webdav/settings"@,
        Endpoint::UpdateWebdav => "/api/webdav/settings"@,
        Endpoint::AuthStatus => "/api/auth/status"@,
        Endpoint::Setup => "/api/auth/setup"@,
        Endpoint::Login => "/api/auth/login"@,
        Endpoint::AccessShare => "/api/s/{code}"@,
        Endpoint::DownloadShare => "/api/s/{code}/download"@,
        Endpoint::PublicFiles => "/public"@,
        Endpoint::PublicList => "/pub/list"@,
        Endpoint::PublicDownload => "/pub/dl"@,
        Endpoint::PublicRaw => "/raw/{*path}"@,
        Endpoint::ShareRaw => "/s/{code}/raw"@,
        Endpoint::Dav => "/dav"@,
        Endpoint::DavPath => "/dav/{*path}"@,
    }
}

/// The endpoints that are open to everybody: those that lead to a session, to what is shared or to
/// what is public, and WebDAV, which has its own gate.
pub open spec fn open_to_all(e: Endpoint) -> bool {
    ||| e is AuthStatus
    ||| e is Setup
    ||| e is Login
    ||| e is AccessShare
    ||| e is DownloadShare
    ||| e is PublicFiles
    ||| e is PublicList
    ||| e is PublicDownload
    ||| e is PublicRaw
    ||| e is ShareRaw
    ||| e is Dav
    ||| e is DavPath
}

impl Endpoint {
    /// The method that the endpoint is reached by.
    pub fn verb(self) -> (r: Verb)
        ensures
            r == verb_of(self),
    {
        match self {
            Endpoint::GetUser => Verb::Get,
            Endpoint::UpdateUser => Verb::Put,
            Endpoint::GetSettings => Verb::Get,
            Endpoint::UpdateSettings => Verb::Put,
            Endpoint::ListFiles => Verb::Get,
            Endpoint::DeleteFile => Verb::Delete,
            Endpoint::UploadFile => Verb::Post,
            Endpoint::MakeDir => Verb::Post,
            Endpoint::MoveFile => Verb::Post,
            Endpoint::CopyFile => Verb::Post,
            Endpoint::DownloadFile => Verb::Get,
            Endpoint::CreateFile => Verb::Post,
            Endpoint::GetContent => Verb::Get,
            Endpoint::UpdateContent => Verb::Put,
            Endpoint::DetectType => Verb::Get,
            Endpoint::SetVisibility => Verb::Put,
            Endpoint::GetPermission => Verb::Get,
            Endpoint::SetPermission => Verb::Put,
            Endpoint::BatchDelete => Verb::Post,
            Endpoint::BatchDownload => Verb::Post,
            Endpoint::BatchMove => Verb::Post,
            Endpoint::BatchCopy => Verb::Post,
            Endpoint::Compress => Verb::Post,
            Endpoint::Decompress => Verb::Post,
            Endpoint::FetchUrl => Verb::Post,
            Endpoint::Search => Verb::Get,
            Endpoint::UploadFolder => Verb::Post,
            Endpoint::DirTree => Verb::Get,
            Endpoint::Terminal => Verb::Get,
            Endpoint::ListShares => Verb::Get,
            Endpoint::CreateShare => Verb::Post,
            Endpoint::DeleteShare => Verb::Delete,
            Endpoint::GetWebdav => Verb::Get,
            Endpoint::UpdateWebdav => Verb::Put,
            Endpoint::AuthStatus => Verb::Get,
            Endpoint::Setup => Verb::Post,
            Endpoint::Login => Verb::Post,
            Endpoint::AccessShare => Verb::Get,
            Endpoint::DownloadShare => Verb::Get,
            Endpoint::PublicFiles => Verb::Get,
            Endpoint::PublicList => Verb::Get,
            Endpoint::PublicDownload => Verb::Get,
            Endpoint::PublicRaw => Verb::Get,
            Endpoint::ShareRaw => Verb::Get,
            Endpoint::Dav => Verb::Any,
            Endpoint::DavPath => Verb::Any,
        }
    }

    /// The path that the endpoint is reached under.
    pub fn pattern(self) -> (r: &'static str)
        ensures
            r@ == pattern_of(self),
    {
        match self {
            Endpoint::GetUser => "/api/user",
            Endpoint::UpdateUser => "/api/user",
            Endpoint::GetSettings => "/api/settings",
            Endpoint::UpdateSettings => "/api/settings",
            Endpoint::ListFiles => "/api/files",
            Endpoint::DeleteFile => "/api/files",
            Endpoint::UploadFile => "/api/files/upload",
            Endpoint::MakeDir => "/api/files/mkdir",
            Endpoint::MoveFile => "/api/files/move",
            Endpoint::CopyFile => "/api/files/copy",
            Endpoint::DownloadFile => "/api/files/download",
            Endpoint::CreateFile => "/api/files/create",
            Endpoint::GetContent => "/api/files/content",
            Endpoint::UpdateContent => "/api/files/content",
            Endpoint::DetectType => "/api/files/detect",
            Endpoint::SetVisibility => "/api/files/visibility",
            Endpoint::GetPermission => "/api/files/permission",
            Endpoint::SetPermission => "/api/files/permission",
            Endpoint::BatchDelete => "/api/files/batch-delete",
            Endpoint::BatchDownload => "/api/files/batch-download",
            Endpoint::BatchMove => "/api/files/batch-move",
            Endpoint::BatchCopy => "/api/files/batch-copy",
            Endpoint::Compress => "/api/files/compress",
            Endpoint::Decompress => "/api/files/decompress",
            Endpoint::FetchUrl => "/api/files/fetch-url",
            Endpoint::Search => "/api/files/search",
            Endpoint::UploadFolder => "/api/files/upload-folder",
            Endpoint::DirTree => "/api/files/dirtree",
            Endpoint::Terminal => "/api/ws/terminal",
            Endpoint::ListShares => "/api/share",
            Endpoint::CreateShare => "/api/share",
            Endpoint::DeleteShare => "/api/share/{id}",
            Endpoint::GetWebdav => "/api/webdav/settings",
            Endpoint::UpdateWebdav => "/api/webdav/settings",
            Endpoint::AuthStatus => "/api/auth/status",
            Endpoint::Setup => "/api/auth/setup",
            Endpoint::Login => "/api/auth/login",
            Endpoint::AccessShare => "/api/s/{code}",
            Endpoint::DownloadShare => "/api/s/{code}/download",
            Endpoint::PublicFiles => "/public",
            Endpoint::PublicList => "/pub/list",
            Endpoint::PublicDownload => "/pub/dl",
            Endpoint::PublicRaw => "/raw/{*path}",
            Endpoint::ShareRaw => "/s/{code}/raw",
            Endpoint::Dav => "/dav",
            Endpoint::DavPath => "/dav/{*path}",
        }
    }

    /// Whether the endpoint asks for a session.
    pub fn needs_session(self) -> (r: bool)
        ensures
            r == !open_to_all(self),
    {
        match self {
            Endpoint::AuthStatus
            | Endpoint::Setup
            | Endpoint::Login
            | Endpoint::AccessShare
            | Endpoint::DownloadShare
            | Endpoint::PublicFiles
            | Endpoint::PublicList
            | Endpoint::PublicDownload
            | Endpoint::PublicRaw
            | Endpoint::ShareRaw
            | Endpoint::Dav
            | Endpoint::DavPath => false,
            _ => true,
        }
    }

    /// The place of an endpoint among all of them.
    pub open spec fn place(self) -> int {
        match self {
            Endpoint::GetUser => 0,
            Endpoint::UpdateUser => 1,
            Endpoint::GetSettings => 2,
            Endpoint::UpdateSettings => 3,
            Endpoint::ListFiles => 4,
            Endpoint::DeleteFile => 5,
            Endpoint::UploadFile => 6,
            Endpoint::MakeDir => 7,
            Endpoint::MoveFile => 8,
            Endpoint::CopyFile => 9,
            Endpoint::DownloadFile => 10,
            Endpoint::CreateFile => 11,
            Endpoint::GetContent => 12,
            Endpoint::UpdateContent => 13,
            Endpoint::DetectType => 14,
            Endpoint::SetVisibility => 15,
            Endpoint::GetPermission => 16,
            Endpoint::SetPermission => 17,
            Endpoint::BatchDelete => 18,
            Endpoint::BatchDownload => 19,
            Endpoint::BatchMove => 20,
            Endpoint::BatchCopy => 21,
            Endpoint::Compress => 22,
            Endpoint::Decompress => 23,
            Endpoint::FetchUrl => 24,
            Endpoint::Search => 25,
            Endpoint::UploadFolder => 26,
            Endpoint::DirTree => 27,
            Endpoint::Terminal => 28,
            Endpoint::ListShares => 29,
            Endpoint::CreateShare => 30,
            Endpoint::DeleteShare => 31,
            Endpoint::GetWebdav => 32,
            Endpoint::UpdateWebdav => 33,
            Endpoint::AuthStatus => 34,
            Endpoint::Setup => 35,
            Endpoint::Login => 36,
            Endpoint::AccessShare => 37,
            Endpoint::DownloadShare => 38,
            Endpoint::PublicFiles => 39,
            Endpoint::PublicList => 40,
            Endpoint::PublicDownload => 41,
            Endpoint::PublicRaw => 42,
            Endpoint::ShareRaw => 43,
            Endpoint::Dav => 44,
            Endpoint::DavPath => 45,
        }
    }

    /// All endpoints.
    pub fn all() -> (r: Vec<Endpoint>)
        ensures
            forall|e: Endpoint| r@.contains(e),
            r@.no_duplicates(),
    {
        let v: Vec<Endpoint> = vec![
            Endpoint::GetUser,
            Endpoint::UpdateUser,
            Endpoint::GetSettings,
            Endpoint::UpdateSettings,
            Endpoint::ListFiles,
            Endpoint::DeleteFile,
            Endpoint::UploadFile,
            Endpoint::MakeDir,
            Endpoint::MoveFile,
            Endpoint::CopyFile,
            Endpoint::DownloadFile,
            Endpoint::CreateFile,
            Endpoint::GetContent,
            Endpoint::UpdateContent,
            Endpoint::DetectType,
            Endpoint::SetVisibility,
            Endpoint::GetPermission,
            Endpoint::SetPermission,
            Endpoint::BatchDelete,
            Endpoint::BatchDownload,
            Endpoint::BatchMove,
            Endpoint::BatchCopy,
            Endpoint::Compress,
            Endpoint::Decompress,
            Endpoint::FetchUrl,
            Endpoint::Search,
            Endpoint::UploadFolder,
            Endpoint::DirTree,
            Endpoint::Terminal,
            Endpoint::ListShares,
            Endpoint::CreateShare,
            Endpoint::DeleteShare,
            Endpoint::GetWebdav,
            Endpoint::UpdateWebdav,
            Endpoint::AuthStatus,
            Endpoint::Setup,
            Endpoint::Login,
            Endpoint::AccessShare,
            Endpoint::DownloadShare,
            Endpoint::PublicFiles,
            Endpoint::PublicList,
            Endpoint::PublicDownload,
            Endpoint::PublicRaw,
            Endpoint::ShareRaw,
            Endpoint::Dav,
            Endpoint::DavPath,
        ];
        assert forall|e: Endpoint| v@.contains(e) by {
            assert(v@[e.place()] == e);
        }
        assert forall|i: int| 0 <= i < v@.len() implies (#[trigger] v@[i]).place() == i by {
            assert(v@.len() == 46);
        }
        v
    }
}

// ---------------------------------------------------------------------------
// Laws
// ---------------------------------------------------------------------------

/// The programming interface asks for a session, but for what leads to one and for what is shared; the rest
/// of the server does not.
pub proof fn law_interface_asks_for_a_session(e: Endpoint)
    ensures
        !open_to_all(e) <==> "/api/"@.is_prefix_of(pattern_of(e)) && !"/api/auth/"@.is_prefix_of(
            pattern_of(e),
        ) && !"/api/s/"@.is_prefix_of(pattern_of(e)),
        verb_of(e) is Any <==> "/dav"@.is_prefix_of(pattern_of(e)),
{
    reveal_strlit("/api/user");
    reveal_strlit("/api/settings");
    reveal_strlit("/api/files");
    reveal_strlit("/api/files/upload");
    reveal_strlit("/api/files/mkdir");
    reveal_strlit("/api/files/move");
    reveal_strlit("/api/files/copy");
    reveal_strlit("/api/files/download");
    reveal_strlit("/api/files/create");
    reveal_strlit("/api/files/content");
    reveal_strlit("/api/files/detect");
    reveal_strlit("/api/files/visibility");
    reveal_strlit("/api/files/permission");
    reveal_strlit("/api/files/batch-delete");
    reveal_strlit("/api/files/batch-download");
    reveal_strlit("/api/files/batch-move");
    reveal_strlit("/api/files/batch-copy");
    reveal_strlit("/api/files/compress");
    reveal_strlit("/api/files/decompress");
    reveal_strlit("/api/files/fetch-url");
    reveal_strlit("/api/files/search");
    reveal_strlit("/api/files/upload-folder");
    reveal_strlit("/api/files/dirtree");
    reveal_strlit("/api/ws/terminal");
    reveal_strlit("/api/share");
    reveal_strlit("/api/share/{id}");
    reveal_strlit("/api/webdav/settings");
    reveal_strlit("/api/auth/status");
    reveal_strlit("/api/auth/setup");
    reveal_strlit("/api/auth/login");
    reveal_strlit("/api/s/{code}");
    reveal_strlit("/api/s/{code}/download");
    reveal_strlit("/public");
    reveal_strlit("/pub/list");
    reveal_strlit("/pub/dl");
    reveal_strlit("/raw/{*path}");
    reveal_strlit("/s/{code}/raw");
    reveal_strlit("/dav");
    reveal_strlit("/dav/{*path}");
    reveal_strlit("/api/");
    reveal_strlit("/api/auth/");
    reveal_strlit("/api/s/");
    reveal_strlit("/dav");
    assert("/api/user"@.subrange(0, 5) =~= "/api/"@);
    assert("/api/user"@[5] != "/api/auth/"@[5]);
    assert("/api/user"@[5] != "/api/s/"@[5]);
    assert("/api/user"@[1] != "/dav"@[1]);
    assert("/api/settings"@.subrange(0, 5) =~= "/api/"@);
    assert("/api/settings"@[5] != "/api/auth/"@[5]);
    assert("/api/settings"@[6] != "/api/s/"@[6]);
    assert("/api/settings"@[1] != "/dav"@[1]);
    assert("/api/files"@.subrange(0, 5) =~= "/api/"@);
    assert("/api/files"@[5] != "/api/auth/"@[5]);
    assert("/api/files"@[5] != "/api/s/"@[5]);
    assert("/api/files"@[1] != "/dav"@[1]);
    assert("/api/files/upload"@.subrange(0, 5) =~= "/api/"@);
    assert("/api/files/upload"@[5] != "/api/auth/"@[5]);
    assert("/api/files/upload"@[5] != "/api/s/"@[5]);
    assert("/api/files/upload"@[1] != "/dav"@[1]);
    assert("/api/files/mkdir"@.subrange(0, 5) =~= "/api/"@);
    assert("/api/files/mkdir"@[5] != "/api/auth/"@[5]);
    assert("/api/files/mkdir"@[5] != "/api/s/"@[5]);
    assert("/api/files/mkdir"@[1] != "/dav"@[1]);
    assert("/api/files/move"@.subrange(0, 5) =~= "/api/"@);
    assert("/api/files/move"@[5] != "/api/auth/"@[5]);
    assert("/api/files/move"@[5] != "/api/s/"@[5]);
    assert("/api/files/move"@[1] != "/dav"@[1]);
    assert("/api/files/copy"@.subrange(0, 5) =~= "/api/"@);
    assert("/api/files/copy"@[5] != "/api/auth/"@[5]);
    assert("/api/files/copy"@[5] != "/api/s/"@[5]);
    assert("/api/files/copy"@[1] != "/dav"@[1]);
    assert("/api/files/download"@.subrange(0, 5) =~= "/api/"@);
    assert("/api/files/download"@[5] != "/api/auth/"@[5]);
    assert("/api/files/download"@[5] != "/api/s/"@[5]);
    assert("/api/files/download"@[1] != "/dav"@[1]);
    assert("/api/files/create"@.subrange(0, 5) =~= "/api/"@);
    assert("/api/files/create"@[5] != "/api/auth/"@[5]);
    assert("/api/files/create"@[5] != "/api/s/"@[5]);
    assert("/api/files/create"@[1] != "/dav"@[1]);
    assert("/api/files/content"@.subrange(0, 5) =~= "/api/"@);
    assert("/api/files/content"@[5] != "/api/auth/"@[5]);
    assert("/api/files/content"@[5] != "/api/s/"@[5]);
    assert("/api/files/content"@[1] != "/dav"@[1]);
    assert("/api/files/detect"@.subrange(0, 5) =~= "/api/"@);
    assert("/api/files/detect"@[5] != "/api/auth/"@[5]);
    assert("/api/files/detect"@[5] != "/api/s/"@[5]);
    assert("/api/files/detect"@[1] != "/dav"@[1]);
    assert("/api/files/visibility"@.subrange(0, 5) =~= "/api/"@);
    assert("/api/files/visibility"@[5] != "/api/auth/"@[5]);
    assert("/api/files/visibility"@[5] != "/api/s/"@[5]);
    assert("/api/files/visibility"@[1] != "/dav"@[1]);
    assert("/api/files/permission"@.subrange(0, 5) =~= "/api/"@);
    assert("/api/files/permission"@[5] != "/api/auth/"@[5]);
    assert("/api/files/permission"@[5] != "/api/s/"@[5]);
    assert("/api/files/permission"@[1] != "/dav"@[1]);
    assert("/api/files/batch-delete"@.subrange(0, 5) =~= "/api/"@);
    assert("/api/files/batch-delete"@[5] != "/api/auth/"@[5]);
    assert("/api/files/batch-delete"@[5] != "/api/s/"@[5]);
    assert("/api/files/batch-delete"@[1] != "/dav"@[1]);
    assert("/api/files/batch-download"@.subrange(0, 5) =~= "/api/"@);
    assert("/api/files/batch-download"@[5] != "/api/auth/"@[5]);
    assert("/api/files/batch-download"@[5] != "/api/s/"@[5]);
    assert("/api/files/batch-download"@[1] != "/dav"@[1]);
    assert("/api/files/batch-move"@.subrange(0, 5) =~= "/api/"@);
    assert("/api/files/batch-move"@[5] != "/api/auth/"@[5]);
    assert("/api/files/batch-move"@[5] != "/api/s/"@[5]);
    assert("/api/files/batch-move"@[1] != "/dav"@[1]);
    assert("/api/files/batch-copy"@.subrange(0, 5) =~= "/api/"@);
    assert("/api/files/batch-copy"@[5] != "/api/auth/"@[5]);
    assert("/api/files/batch-copy"@[5] != "/api/s/"@[5]);
    assert("/api/files/batch-copy"@[1] != "/dav"@[1]);
    assert("/api/files/compress"@.subrange(0, 5) =~= "/api/"@);
    assert("/api/files/compress"@[5] != "/api/auth/"@[5]);
    assert("/api/files/compress"@[5] != "/api/s/"@[5]);
    assert("/api/files/compress"@[1] != "/dav"@[1]);
    assert("/api/files/decompress"@.subrange(0, 5) =~= "/api/"@);
    assert("/api/files/decompress"@[5] != "/api/auth/"@[5]);
    assert("/api/files/decompress"@[5] != "/api/s/"@[5]);
    assert("/api/files/decompress"@[1] != "/dav"@[1]);
    assert("/api/files/fetch-url"@.subrange(0, 5) =~= "/api/"@);
    assert("/api/files/fetch-url"@[5] != "/api/auth/"@[5]);
    assert("/api/files/fetch-url"@[5] != "/api/s/"@[5]);
    assert("/api/files/fetch-url"@[1] != "/dav"@[1]);
    assert("/api/files/search"@.subrange(0, 5) =~= "/api/"@);
    assert("/api/files/search"@[5] != "/api/auth/"@[5]);
    assert("/api/files/search"@[5] != "/api/s/"@[5]);
    assert("/api/files/search"@[1] != "/dav"@[1]);
    assert("/api/files/upload-folder"@.subrange(0, 5) =~= "/api/"@);
    assert("/api/files/upload-folder"@[5] != "/api/auth/"@[5]);
    assert("/api/files/upload-folder"@[5] != "/api/s/"@[5]);
    assert("/api/files/upload-folder"@[1] != "/dav"@[1]);
    assert("/api/files/dirtree"@.subrange(0, 5) =~= "/api/"@);
    assert("/api/files/dirtree"@[5] != "/api/auth/"@[5]);
    assert("/api/files/dirtree"@[5] != "/api/s/"@[5]);
    assert("/api/files/dirtree"@[1] != "/dav"@[1]);
    assert("/api/ws/terminal"@.subrange(0, 5) =~= "/api/"@);
    assert("/api/ws/terminal"@[5] != "/api/auth/"@[5]);
    assert("/api/ws/terminal"@[5] != "/api/s/"@[5]);
    assert("/api/ws/terminal"@[1] != "/dav"@[1]);
    assert("/api/share"@.subrange(0, 5) =~= "/api/"@);
    assert("/api/share"@[5] != "/api/auth/"@[5]);
    assert("/api/share"@[6] != "/api/s/"@[6]);
    assert("/api/share"@[1] != "/dav"@[1]);
    assert("/api/share/{id}"@.subrange(0, 5) =~= "/api/"@);
    assert("/api/share/{id}"@[5] != "/api/auth/"@[5]);
    assert("/api/share/{id}"@[6] != "/api/s/"@[6]);
    assert("/api/share/{id}"@[1] != "/dav"@[1]);
    assert("/api/webdav/settings"@.subrange(0, 5) =~= "/api/"@);
    assert("/api/webdav/settings"@[5] != "/api/auth/"@[5]);
    assert("/api/webdav/settings"@[5] != "/api/s/"@[5]);
    assert("/api/webdav/settings"@[1] != "/dav"@[1]);
    assert("/api/auth/status"@.subrange(0, 5) =~= "/api/"@);
    assert("/api/auth/status"@.subrange(0, 10) =~= "/api/auth/"@);
    assert("/api/auth/status"@[5] != "/api/s/"@[5]);
    assert("/api/auth/status"@[1] != "/dav"@[1]);
    assert("/api/auth/setup"@.subrange(0, 5) =~= "/api/"@);
    assert("/api/auth/setup"@.subrange(0, 10) =~= "/api/auth/"@);
    assert("/api/auth/setup"@[5] != "/api/s/"@[5]);
    assert("/api/auth/setup"@[1] != "/dav"@[1]);
    assert("/api/auth/login"@.subrange(0, 5) =~= "/api/"@);
    assert("/api/auth/login"@.subrange(0, 10) =~= "/api/auth/"@);
    assert("/api/auth/login"@[5] != "/api/s/"@[5]);
    assert("/api/auth/login"@[1] != "/dav"@[1]);
    assert("/api/s/{code}"@.subrange(0, 5) =~= "/api/"@);
    assert("/api/s/{code}"@[5] != "/api/auth/"@[5]);
    assert("/api/s/{code}"@.subrange(0, 7) =~= "/api/s/"@);
    assert("/api/s/{code}"@[1] != "/dav"@[1]);
    assert("/api/s/{code}/download"@.subrange(0, 5) =~= "/api/"@);
    assert("/api/s/{code}/download"@[5] != "/api/auth/"@[5]);
    assert("/api/s/{code}/download"@.subrange(0, 7) =~= "/api/s/"@);
    assert("/api/s/{code}/download"@[1] != "/dav"@[1]);
    assert("/public"@[1] != "/api/"@[1]);
    assert("/public"@[1] != "/api/auth/"@[1]);
    assert("/public"@[1] != "/api/s/"@[1]);
    assert("/public"@[1] != "/dav"@[1]);
    assert("/pub/list"@[1] != "/api/"@[1]);
    assert("/pub/list"@[1] != "/api/auth/"@[1]);
    assert("/pub/list"@[1] != "/api/s/"@[1]);
    assert("/pub/list"@[1] != "/dav"@[1]);
    assert("/pub/dl"@[1] != "/api/"@[1]);
    assert("/pub/dl"@[1] != "/api/auth/"@[1]);
    assert("/pub/dl"@[1] != "/api/s/"@[1]);
    assert("/pub/dl"@[1] != "/dav"@[1]);
    assert("/raw/{*path}"@[1] != "/api/"@[1]);
    assert("/raw/{*path}"@[1] != "/api/auth/"@[1]);
    assert("/raw/{*path}"@[1] != "/api/s/"@[1]);
    assert("/raw/{*path}"@[1] != "/dav"@[1]);
    assert("/s/{code}/raw"@[1] != "/api/"@[1]);
    assert("/s/{code}/raw"@[1] != "/api/auth/"@[1]);
    assert("/s/{code}/raw"@[1] != "/api/s/"@[1]);
    assert("/s/{code}/raw"@[1] != "/dav"@[1]);
    assert("/dav"@[1] != "/api/"@[1]);
    assert("/dav"@[1] != "/api/auth/"@[1]);
    assert("/dav"@[1] != "/api/s/"@[1]);
    assert("/dav"@.subrange(0, 4) =~= "/dav"@);
    assert("/dav/{*path}"@[1] != "/api/"@[1]);
    assert("/dav/{*path}"@[1] != "/api/auth/"@[1]);
    assert("/dav/{*path}"@[1] != "/api/s/"@[1]);
    assert("/dav/{*path}"@.subrange(0, 4) =~= "/dav"@);
    let p = pattern_of(e);
    let a = "/api/"@;
    let b = "/api/auth/"@;
    let c = "/api/s/"@;
    let d = "/dav"@;
    if a.is_prefix_of(p) {
        assert(p.subrange(0, 5) == a);
        assert(forall|i: int| 0 <= i < 5 ==> p[i] == a[i]) by {
            assert forall|i: int| 0 <= i < 5 implies p[i] == a[i] by {
                assert(p.subrange(0, 5)[i] == a[i]);
            }
        }
    }
    if b.is_prefix_of(p) {
        assert forall|i: int| 0 <= i < 10 implies p[i] == b[i] by {
            assert(p.subrange(0, 10)[i] == b[i]);
        }
    }
    if c.is_prefix_of(p) {
        assert forall|i: int| 0 <= i < 7 implies p[i] == c[i] by {
            assert(p.subrange(0, 7)[i] == c[i]);
        }
    }
    if d.is_prefix_of(p) {
        assert forall|i: int| 0 <= i < 4 implies p[i] == d[i] by {
            assert(p.subrange(0, 4)[i] == d[i]);
        }
    }
}

/// What is reached under one path is reached by different methods: what reads by `GET`, what makes something
/// by `POST`, what changes something by `PUT`, and what removes something by `DELETE`.
pub proof fn law_one_path_different_methods()
    ensures
        pattern_of(Endpoint::GetUser) == pattern_of(Endpoint::UpdateUser),
        pattern_of(Endpoint::GetSettings) == pattern_of(Endpoint::UpdateSettings),
        pattern_of(Endpoint::GetContent) == pattern_of(Endpoint::UpdateContent),
        pattern_of(Endpoint::GetPermission) == pattern_of(Endpoint::SetPermission),
        pattern_of(Endpoint::GetWebdav) == pattern_of(Endpoint::UpdateWebdav),
        pattern_of(Endpoint::ListFiles) == pattern_of(Endpoint::DeleteFile),
        pattern_of(Endpoint::ListShares) == pattern_of(Endpoint::CreateShare),
        forall|e: Endpoint|
            (e is GetUser || e is GetSettings || e is GetContent || e is GetPermission || e is GetWebdav
                || e is ListFiles || e is ListShares) ==> #[trigger] verb_of(e) is Get,
        forall|e: Endpoint|
            (e is UpdateUser || e is UpdateSettings || e is UpdateContent || e is SetPermission
                || e is UpdateWebdav) ==> #[trigger] verb_of(e) is Put,
        forall|e: Endpoint| e is DeleteFile || e is DeleteShare ==> #[trigger] verb_of(e) is Delete,
        verb_of(Endpoint::CreateShare) is Post,
{
}

/// What is done with files is reached below the path of the files, by the name of what is done: what only
/// reads by `GET`, what sets something of a file by `PUT`, and the rest by `POST`.
pub proof fn law_files_are_reached_by_what_is_done()
    ensures
        pattern_of(Endpoint::UploadFile) == pattern_of(Endpoint::ListFiles) + "/upload"@,
        pattern_of(Endpoint::MakeDir) == pattern_of(Endpoint::ListFiles) + "/mkdir"@,
        pattern_of(Endpoint::MoveFile) == pattern_of(Endpoint::ListFiles) + "/move"@,
        pattern_of(Endpoint::CopyFile) == pattern_of(Endpoint::ListFiles) + "/copy"@,
        pattern_of(Endpoint::DownloadFile) == pattern_of(Endpoint::ListFiles) + "/download"@,
        pattern_of(Endpoint::CreateFile) == pattern_of(Endpoint::ListFiles) + "/create"@,
        pattern_of(Endpoint::GetContent) == pattern_of(Endpoint::ListFiles) + "/content"@,
        pattern_of(Endpoint::UpdateContent) == pattern_of(Endpoint::ListFiles) + "/content"@,
        pattern_of(Endpoint::DetectType) == pattern_of(Endpoint::ListFiles) + "/detect"@,
        pattern_of(Endpoint::SetVisibility) == pattern_of(Endpoint::ListFiles) + "/visibility"@,
        pattern_of(Endpoint::GetPermission) == pattern_of(Endpoint::ListFiles) + "/permission"@,
        pattern_of(Endpoint::SetPermission) == pattern_of(Endpoint::ListFiles) + "/permission"@,
        pattern_of(Endpoint::BatchDelete) == pattern_of(Endpoint::ListFiles) + "/batch-delete"@,
        pattern_of(Endpoint::BatchDownload) == pattern_of(Endpoint::ListFiles) + "/batch-download"@,
        pattern_of(Endpoint::BatchMove) == pattern_of(Endpoint::ListFiles) + "/batch-move"@,
        pattern_of(Endpoint::BatchCopy) == pattern_of(Endpoint::ListFiles) + "/batch-copy"@,
        pattern_of(Endpoint::Compress) == pattern_of(Endpoint::ListFiles) + "/compress"@,
        pattern_of(Endpoint::Decompress) == pattern_of(Endpoint::ListFiles) + "/decompress"@,
        pattern_of(Endpoint::FetchUrl) == pattern_of(Endpoint::ListFiles) + "/fetch-url"@,
        pattern_of(Endpoint::Search) == pattern_of(Endpoint::ListFiles) + "/search"@,
        pattern_of(Endpoint::UploadFolder) == pattern_of(Endpoint::ListFiles) + "/upload-folder"@,
        pattern_of(Endpoint::DirTree) == pattern_of(Endpoint::ListFiles) + "/dirtree"@,
        forall|e: Endpoint|
            (e is DownloadFile || e is GetContent || e is DetectType || e is GetPermission
                || e is Search || e is DirTree) ==> #[trigger] verb_of(e) is Get,
        forall|e: Endpoint|
            (e is UpdateContent || e is SetVisibility || e is SetPermission) ==> #[trigger] verb_of(e) is Put,
        forall|e: Endpoint|
            (e is UploadFile || e is MakeDir || e is MoveFile || e is CopyFile || e is CreateFile
                || e is BatchDelete || e is BatchDownload || e is BatchMove || e is BatchCopy
                || e is Compress || e is Decompress || e is FetchUrl
                || e is UploadFolder) ==> #[trigger] verb_of(e) is Post,
{
    reveal_strlit("/api/files");
    reveal_strlit("/upload");
    reveal_strlit("/api/files/upload");
    assert("/api/files"@ + "/upload"@ =~= "/api/files/upload"@);
    reveal_strlit("/mkdir");
    reveal_strlit("/api/files/mkdir");
    assert("/api/files"@ + "/mkdir"@ =~= "/api/files/mkdir"@);
    reveal_strlit("/move");
    reveal_strlit("/api/files/move");
    assert("/api/files"@ + "/move"@ =~= "/api/files/move"@);
    reveal_strlit("/copy");
    reveal_strlit("/api/files/copy");
    assert("/api/files"@ + "/copy"@ =~= "/api/files/copy"@);
    reveal_strlit("/download");
    reveal_strlit("/api/files/download");
    assert("/api/files"@ + "/download"@ =~= "/api/files/download"@);
    reveal_strlit("/create");
    reveal_strlit("/api/files/create");
    assert("/api/files"@ + "/create"@ =~= "/api/files/create"@);
    reveal_strlit("/content");
    reveal_strlit("/api/files/content");
    assert("/api/files"@ + "/content"@ =~= "/api/files/content"@);
    reveal_strlit("/detect");
    reveal_strlit("/api/files/detect");
    assert("/api/files"@ + "/detect"@ =~= "/api/files/detect"@);
    reveal_strlit("/visibility");
    reveal_strlit("/api/files/visibility");
    assert("/api/files"@ + "/visibility"@ =~= "/api/files/visibility"@);
    reveal_strlit("/permission");
    reveal_strlit("/api/files/permission");
    assert("/api/files"@ + "/permission"@ =~= "/api/files/permission"@);
    reveal_strlit("/batch-delete");
    reveal_strlit("/api/files/batch-delete");
    assert("/api/files"@ + "/batch-delete"@ =~= "/api/files/batch-delete"@);
    reveal_strlit("/batch-download");
    reveal_strlit("/api/files/batch-download");
    assert("/api/files"@ + "/batch-download"@ =~= "/api/files/batch-download"@);
    reveal_strlit("/batch-move");
    reveal_strlit("/api/files/batch-move");
    assert("/api/files"@ + "/batch-move"@ =~= "/api/files/batch-move"@);
    reveal_strlit("/batch-copy");
    reveal_strlit("/api/files/batch-copy");
    assert("/api/files"@ + "/batch-copy"@ =~= "/api/files/batch-copy"@);
    reveal_strlit("/compress");
    reveal_strlit("/api/files/compress");
    assert("/api/files"@ + "/compress"@ =~= "/api/files/compress"@);
    reveal_strlit("/decompress");
    reveal_strlit("/api/files/decompress");
    assert("/api/files"@ + "/decompress"@ =~= "/api/files/decompress"@);
    reveal_strlit("/fetch-url");
    reveal_strlit("/api/files/fetch-url");
    assert("/api/files"@ + "/fetch-url"@ =~= "/api/files/fetch-url"@);
    reveal_strlit("/search");
    reveal_strlit("/api/files/search");
    assert("/api/files"@ + "/search"@ =~= "/api/files/search"@);
    reveal_strlit("/upload-folder");
    reveal_strlit("/api/files/upload-folder");
    assert("/api/files"@ + "/upload-folder"@ =~= "/api/files/upload-folder"@);
    reveal_strlit("/dirtree");
    reveal_strlit("/api/files/dirtree");
    assert("/api/files"@ + "/dirtree"@ =~= "/api/files/dirtree"@);
}

/// What is shared or public is read by `GET`, as the state of the first account is; the account is made and a
/// session opened by `POST`. A link is reached by its code, as it is deleted by its number.
pub proof fn law_open_endpoints_are_reached()
    ensures
        forall|e: Endpoint|
            (e is AuthStatus || e is AccessShare || e is DownloadShare || e is PublicFiles || e is PublicList
                || e is PublicDownload || e is PublicRaw || e is ShareRaw || e is Terminal)
                ==> #[trigger] verb_of(e) is Get,
        forall|e: Endpoint| (e is Setup || e is Login) ==> #[trigger] verb_of(e) is Post,
        pattern_of(Endpoint::AuthStatus) == "/api/auth"@ + "/status"@,
        pattern_of(Endpoint::Setup) == "/api/auth"@ + "/setup"@,
        pattern_of(Endpoint::Login) == "/api/auth"@ + "/login"@,
        pattern_of(Endpoint::AccessShare) == "/api"@ + "/s/{code}"@,
        pattern_of(Endpoint::DownloadShare) == pattern_of(Endpoint::AccessShare) + "/download"@,
        pattern_of(Endpoint::ShareRaw) == "/s/{code}"@ + "/raw"@,
        pattern_of(Endpoint::DeleteShare) == pattern_of(Endpoint::ListShares) + "/{id}"@,
        pattern_of(Endpoint::DavPath) == pattern_of(Endpoint::Dav) + "/{*path}"@,
        pattern_of(Endpoint::PublicRaw) == "/raw"@ + "/{*path}"@,
{
    reveal_strlit("/api/auth");
    reveal_strlit("/status");
    reveal_strlit("/setup");
    reveal_strlit("/login");
    reveal_strlit("/api");
    reveal_strlit("/s/{code}");
    reveal_strlit("/download");
    reveal_strlit("/raw");
    reveal_strlit("/{id}");
    reveal_strlit("/{*path}");
    reveal_strlit("/dav");
    reveal_strlit("/api/share");
    reveal_strlit("/api/auth/status");
    reveal_strlit("/api/auth/setup");
    reveal_strlit("/api/auth/login");
    reveal_strlit("/api/s/{code}");
    reveal_strlit("/api/s/{code}/download");
    reveal_strlit("/s/{code}/raw");
    reveal_strlit("/api/share/{id}");
    reveal_strlit("/dav/{*path}");
    reveal_strlit("/raw/{*path}");
    assert("/api/auth"@ + "/status"@ =~= "/api/auth/status"@);
    assert("/api/auth"@ + "/setup"@ =~= "/api/auth/setup"@);
    assert("/api/auth"@ + "/login"@ =~= "/api/auth/login"@);
    assert("/api"@ + "/s/{code}"@ =~= "/api/s/{code}"@);
    assert("/api/s/{code}"@ + "/download"@ =~= "/api/s/{code}/download"@);
    assert("/s/{code}"@ + "/raw"@ =~= "/s/{code}/raw"@);
    assert("/api/share"@ + "/{id}"@ =~= "/api/share/{id}"@);
    assert("/dav"@ + "/{*path}"@ =~= "/dav/{*path}"@);
    assert("/raw"@ + "/{*path}"@ =~= "/raw/{*path}"@);
}

} // verus!

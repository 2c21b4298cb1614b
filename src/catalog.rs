//! The values that the request layer and the file catalog exchange with the
//! core: catalog entries, download and cancel requests, and their job keys.
use vstd::prelude::*;
use crate::jobs::DownloadStatus;

verus! {

/// Settings of the process.
pub struct Config {
    pub database_url: String,
    /// Nickname used on IRC.
    pub nickname: String,
    /// Directory that downloaded files go to.
    pub download_path: String,
    pub port: u16,
}

impl Config {
    pub fn new(database_url: String, nickname: String, download_path: String, port: u16) -> (r:
        Config)
        ensures
            r.database_url == database_url,
            r.nickname == nickname,
            r.download_path == download_path,
            r.port == port,
    {
        Config { database_url, nickname, download_path, port }
    }
}

/// A file that the catalog lists.
pub struct DownloadableFile {
    pub channel_name: String,
    pub network: String,
    pub file_number: String,
    pub bot_name: String,
    pub file_size: String,
    pub file_name: String,
}

/// A catalog file with its job key.
pub struct DownloadableFileWithId {
    pub file: DownloadableFile,
    pub id: String,
}

/// Status of a file as the catalog's clients name it.
#[derive(Debug, Clone, Copy, PartialEq, Eq, Structural)]
pub enum StatusOption {
    Pending,
    Downloading,
    Downloaded,
    Error,
    Cancelled,
}

/// A request to download a file.
pub struct DownloadRequest {
    pub filename: String,
    pub server: String,
    pub channel: String,
    pub bot: String,
    pub pack: String,
    pub file_size: Option<String>,
}

/// A request to cancel a download.
pub struct CancelRequest {
    pub filename: String,
    pub server: String,
    pub channel: String,
    pub bot: String,
    pub pack: String,
    pub file_size: Option<String>,
}

/// A filter on the listing of jobs by status name.
pub struct StatusQuery {
    pub status: Option<String>,
}

/// A search of the catalog by file name.
pub struct SearchQuery {
    pub name: String,
}

/// The six parts of a job key joined by `-`.
pub open spec fn job_key(
    a: Seq<char>,
    b: Seq<char>,
    c: Seq<char>,
    d: Seq<char>,
    e: Seq<char>,
    f: Seq<char>,
) -> Seq<char> {
    a + seq!['-'] + b + seq!['-'] + c + seq!['-'] + d + seq!['-'] + e + seq!['-'] + f
}

fn join_key(a: &str, b: &str, c: &str, d: &str, e: &str, f: &str) -> (r: String)
    ensures
        r@ == job_key(a@, b@, c@, d@, e@, f@),
{
    proof {
        reveal_strlit("-");
    }
    let r = String::from_str(a).concat("-").concat(b).concat("-").concat(c).concat("-").concat(
        d,
    ).concat("-").concat(e).concat("-").concat(f);
    assert(r@ =~= job_key(a@, b@, c@, d@, e@, f@));
    r
}

/// The job key of a catalog file: network, channel, bot, pack number, file
/// name and size, joined by `-`.
pub fn build_job_key(file: &DownloadableFile) -> (r: String)
    ensures
        r@ == job_key(
            file.network@,
            file.channel_name@,
            file.bot_name@,
            file.file_number@,
            file.file_name@,
            file.file_size@,
        ),
{
    join_key(
        file.network.as_str(),
        file.channel_name.as_str(),
        file.bot_name.as_str(),
        file.file_number.as_str(),
        file.file_name.as_str(),
        file.file_size.as_str(),
    )
}

/// The file together with its job key.
pub fn add_job_key(file: DownloadableFile) -> (r: DownloadableFileWithId)
    ensures
        r.file == file,
        r.id@ == job_key(
            file.network@,
            file.channel_name@,
            file.bot_name@,
            file.file_number@,
            file.file_name@,
            file.file_size@,
        ),
{
    let id = build_job_key(&file);
    DownloadableFileWithId { file, id }
}

/// The declared size of a request, or the empty text.
pub open spec fn size_or_empty(s: Option<String>) -> Seq<char> {
    match s {
        Some(v) => v@,
        None => Seq::empty(),
    }
}

fn size_text(s: &Option<String>) -> (r: &str)
    ensures
        r@ == size_or_empty(*s),
{
    proof {
        reveal_strlit("");
    }
    match s {
        Some(v) => v.as_str(),
        None => "",
    }
}

impl DownloadRequest {
    /// The job key: server, channel, bot, pack, file name and declared size
    /// (empty when absent), joined by `-`.
    pub fn job_key(&self) -> (r: String)
        ensures
            r@ == job_key(
                self.server@,
                self.channel@,
                self.bot@,
                self.pack@,
                self.filename@,
                size_or_empty(self.file_size),
            ),
    {
        join_key(
            self.server.as_str(),
            self.channel.as_str(),
            self.bot.as_str(),
            self.pack.as_str(),
            self.filename.as_str(),
            size_text(&self.file_size),
        )
    }

    /// Every field but the size is given.
    pub fn is_complete(&self) -> (r: bool)
        ensures
            r == (self.channel@.len() > 0 && self.server@.len() > 0 && self.pack@.len() > 0
                && self.bot@.len() > 0 && self.filename@.len() > 0),
    {
        self.channel.as_str().unicode_len() > 0 && self.server.as_str().unicode_len() > 0
            && self.pack.as_str().unicode_len() > 0 && self.bot.as_str().unicode_len() > 0
            && self.filename.as_str().unicode_len() > 0
    }
}

impl CancelRequest {
    /// The job key, formed as for a download request.
    pub fn job_key(&self) -> (r: String)
        ensures
            r@ == job_key(
                self.server@,
                self.channel@,
                self.bot@,
                self.pack@,
                self.filename@,
                size_or_empty(self.file_size),
            ),
    {
        join_key(
            self.server.as_str(),
            self.channel.as_str(),
            self.bot.as_str(),
            self.pack.as_str(),
            self.filename.as_str(),
            size_text(&self.file_size),
        )
    }
}

/// The name of a status in listings.
pub open spec fn status_name(s: DownloadStatus) -> Seq<char> {
    match s {
        DownloadStatus::Pending => seq!['p', 'e', 'n', 'd', 'i', 'n', 'g'],
        DownloadStatus::Connecting => seq!['c', 'o', 'n', 'n', 'e', 'c', 't', 'i', 'n', 'g'],
        DownloadStatus::Downloading => seq!['d', 'o', 'w', 'n', 'l', 'o', 'a', 'd', 'i', 'n', 'g'],
        DownloadStatus::Completed => seq!['c', 'o', 'm', 'p', 'l', 'e', 't', 'e', 'd'],
        DownloadStatus::Failed => seq!['f', 'a', 'i', 'l', 'e', 'd'],
        DownloadStatus::Cancelled => seq!['c', 'a', 'n', 'c', 'e', 'l', 'l', 'e', 'd'],
    }
}

/// The name of `s` in listings.
pub fn status_name_of(s: DownloadStatus) -> (r: &'static str)
    ensures
        r@ == status_name(s),
{
    proof {
        reveal_strlit("pending");
        reveal_strlit("connecting");
        reveal_strlit("downloading");
        reveal_strlit("completed");
        reveal_strlit("failed");
        reveal_strlit("cancelled");
    }
    let r = match s {
        DownloadStatus::Pending => "pending",
        DownloadStatus::Connecting => "connecting",
        DownloadStatus::Downloading => "downloading",
        DownloadStatus::Completed => "completed",
        DownloadStatus::Failed => "failed",
        DownloadStatus::Cancelled => "cancelled",
    };
    assert(r@ =~= status_name(s));
    r
}

impl StatusQuery {
    /// Whether a job of status `s` is listed: all are when no status is
    /// asked for, else those whose status name is the one asked for.
    pub fn admits(&self, s: DownloadStatus) -> (r: bool)
        ensures
            r == match self.status {
                None => true,
                Some(name) => name@ == status_name(s),
            },
    {
        match &self.status {
            None => true,
            Some(name) => *name == String::from_str(status_name_of(s)),
        }
    }
}

} // verus!

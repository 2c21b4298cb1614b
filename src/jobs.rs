//! The download manager's job table: one record per job key, the rules for
//! starting and cancelling jobs, and the state machine that a job's
//! workflow drives through it.
use vstd::prelude::*;

verus! {

/// Where a job stands.
#[derive(Debug, Clone, Copy, PartialEq, Eq, Structural)]
pub enum DownloadStatus {
    Pending,
    Connecting,
    Downloading,
    Completed,
    Failed,
    Cancelled,
}

pub open spec fn is_active(s: DownloadStatus) -> bool {
    s == DownloadStatus::Pending || s == DownloadStatus::Connecting || s
        == DownloadStatus::Downloading
}

pub open spec fn is_terminal(s: DownloadStatus) -> bool {
    !is_active(s)
}

/// Position of a status in the order Pending, Connecting, Downloading, end.
pub open spec fn rank(s: DownloadStatus) -> nat {
    match s {
        DownloadStatus::Pending => 0,
        DownloadStatus::Connecting => 1,
        DownloadStatus::Downloading => 2,
        _ => 3,
    }
}

/// A status may follow another: it stays, or it moves forward from a status
/// that is not terminal.
pub open spec fn may_follow(a: DownloadStatus, b: DownloadStatus) -> bool {
    a == b || (!is_terminal(a) && rank(a) < rank(b))
}

/// The record of one job.
pub struct DownloadProgress {
    pub id: String,
    pub filename: String,
    pub server: String,
    pub channel: String,
    pub bot: String,
    pub pack: String,
    pub status: DownloadStatus,
    /// Bytes received so far.
    pub progress: u64,
    /// Size that the offer announced; absent until it arrives.
    pub total_size: Option<u64>,
    /// Where the file was written, once it was.
    pub download_path: Option<String>,
    pub error: Option<String>,
}

impl DownloadProgress {
    /// An exact copy of the record.
    pub fn copy(&self) -> (r: DownloadProgress)
        ensures
            r == *self,
    {
        let download_path = match &self.download_path {
            Some(p) => Some(p.clone()),
            None => None,
        };
        let error = match &self.error {
            Some(e) => Some(e.clone()),
            None => None,
        };
        DownloadProgress {
            id: self.id.clone(),
            filename: self.filename.clone(),
            server: self.server.clone(),
            channel: self.channel.clone(),
            bot: self.bot.clone(),
            pack: self.pack.clone(),
            status: self.status,
            progress: self.progress,
            total_size: self.total_size,
            download_path,
            error,
        }
    }
}

/// Why an operation on the job table was refused.
#[derive(Debug, Clone, Copy, PartialEq, Eq, Structural)]
pub enum JobError {
    /// A job with this key is pending, connecting or downloading.
    Conflict,
    /// No job has this key.
    NotFound,
}

/// What a job's workflow reports to the table.
pub enum JobEvent {
    /// The workflow began to reach the IRC server.
    Connect,
    /// The offer arrived, announcing a file of this many bytes.
    OfferReceived(u64),
    /// A progress report of the transfer.
    Progress { bytes_received: u64, finished: bool, error: Option<String> },
    /// The transfer ended well and the file is at this path.
    Saved(String),
    /// The workflow failed with this message before the transfer reported an end.
    Failed(String),
}

/// The record after `e`; events that do not fit the record's status leave it as it is.
pub open spec fn apply_event(r: DownloadProgress, e: JobEvent) -> DownloadProgress {
    match e {
        JobEvent::Connect => if r.status == DownloadStatus::Pending {
            DownloadProgress { status: DownloadStatus::Connecting, ..r }
        } else {
            r
        },
        JobEvent::OfferReceived(total) => if r.status == DownloadStatus::Connecting {
            DownloadProgress {
                status: DownloadStatus::Downloading,
                total_size: Some(total),
                ..r
            }
        } else {
            r
        },
        JobEvent::Progress { bytes_received, finished, error } => if r.status
            == DownloadStatus::Downloading {
            if !finished {
                DownloadProgress { progress: bytes_received, ..r }
            } else if error is Some {
                DownloadProgress {
                    progress: bytes_received,
                    status: DownloadStatus::Failed,
                    error: error,
                    ..r
                }
            } else {
                DownloadProgress {
                    progress: bytes_received,
                    status: DownloadStatus::Completed,
                    ..r
                }
            }
        } else {
            r
        },
        JobEvent::Saved(path) => if r.status == DownloadStatus::Downloading || r.status
            == DownloadStatus::Completed {
            DownloadProgress {
                status: DownloadStatus::Completed,
                download_path: Some(path),
                ..r
            }
        } else {
            r
        },
        JobEvent::Failed(message) => if is_active(r.status) {
            DownloadProgress { status: DownloadStatus::Failed, error: Some(message), ..r }
        } else {
            r
        },
    }
}

/// A fresh record, as a job starts.
pub open spec fn fresh_record(
    id: Seq<char>,
    server: Seq<char>,
    channel: Seq<char>,
    bot: Seq<char>,
    pack: Seq<char>,
    filename: Seq<char>,
    r: DownloadProgress,
) -> bool {
    &&& r.id@ == id
    &&& r.server@ == server
    &&& r.channel@ == channel
    &&& r.bot@ == bot
    &&& r.pack@ == pack
    &&& r.filename@ == filename
    &&& r.status == DownloadStatus::Pending
    &&& r.progress == 0
    &&& r.total_size is None
    &&& r.download_path is None
    &&& r.error is None
}

/// The table of jobs, keyed by the job key.
pub struct XdccDownloadManager {
    pub downloads: Vec<DownloadProgress>,
    /// Directory that downloaded files go to.
    pub download_path: String,
}

impl XdccDownloadManager {
    /// No two records share a key.
    pub open spec fn wf(&self) -> bool {
        forall|i: int, j: int|
            0 <= i < j < self.downloads@.len() ==> self.downloads@[i].id@
                != self.downloads@[j].id@
    }

    pub open spec fn has_job(&self, id: Seq<char>) -> bool {
        exists|i: int| 0 <= i < self.downloads@.len() && self.downloads@[i].id@ == id
    }

    /// The record with key `id`, where `has_job(id)`.
    pub open spec fn job(&self, id: Seq<char>) -> DownloadProgress {
        self.downloads@[choose|i: int| 0 <= i < self.downloads@.len() && self.downloads@[i].id@ == id]
    }

    /// The records of the other keys are those of `old`.
    pub open spec fn others_unchanged(&self, old: &Self, id: Seq<char>) -> bool {
        &&& forall|k: Seq<char>| k != id ==> (self.has_job(k) <==> old.has_job(k))
        &&& forall|k: Seq<char>| k != id && old.has_job(k) ==> self.job(k) == old.job(k)
        &&& self.download_path == old.download_path
    }

    proof fn lemma_job_at(&self, i: int)
        requires
            self.wf(),
            0 <= i < self.downloads@.len(),
        ensures
            self.has_job(self.downloads@[i].id@),
            self.job(self.downloads@[i].id@) == self.downloads@[i],
    {
        let k = self.downloads@[i].id@;
        let c = choose|j: int| 0 <= j < self.downloads@.len() && self.downloads@[j].id@ == k;
        assert(0 <= c < self.downloads@.len() && self.downloads@[c].id@ == k);
        assert(c == i);
    }

    /// An empty table whose files go to `download_path`.
    pub fn new(download_path: String) -> (r: XdccDownloadManager)
        ensures
            r.wf(),
            forall|k: Seq<char>| !r.has_job(k),
            r.download_path == download_path,
    {
        XdccDownloadManager { downloads: Vec::new(), download_path }
    }

    fn position(&self, id: &String) -> (r: Option<usize>)
        requires
            self.wf(),
        ensures
            match r {
                Some(i) => i < self.downloads@.len() && self.downloads@[i as int].id@ == id@
                    && self.has_job(id@) && self.job(id@) == self.downloads@[i as int],
                None => !self.has_job(id@),
            },
    {
        let mut i: usize = 0;
        while i < self.downloads.len()
            invariant
                self.wf(),
                i <= self.downloads@.len(),
                forall|j: int| 0 <= j < i ==> self.downloads@[j].id@ != id@,
            decreases self.downloads@.len() - i,
        {
            if self.downloads[i].id == *id {
                proof {
                    self.lemma_job_at(i as int);
                }
                return Some(i);
            }
            i = i + 1;
        }
        None
    }

    /// A snapshot of all records.
    pub fn get_downloads(&self) -> (r: Vec<DownloadProgress>)
        ensures
            r@ == self.downloads@,
    {
        let mut r: Vec<DownloadProgress> = Vec::new();
        let mut i: usize = 0;
        while i < self.downloads.len()
            invariant
                i <= self.downloads@.len(),
                r@ == self.downloads@.subrange(0, i as int),
            decreases self.downloads@.len() - i,
        {
            r.push(self.downloads[i].copy());
            i = i + 1;
        }
        assert(r@ =~= self.downloads@);
        r
    }

    /// The record with key `id`, if there is one.
    pub fn get_download(&self, id: &str) -> (r: Option<DownloadProgress>)
        requires
            self.wf(),
        ensures
            r is Some <==> self.has_job(id@),
            r is Some ==> r->0 == self.job(id@),
    {
        let key = String::from_str(id);
        match self.position(&key) {
            Some(i) => Some(self.downloads[i].copy()),
            None => None,
        }
    }

    /// Replaces the record at `i` by `rec`, which has the same key.
    fn replace_at(&mut self, i: usize, rec: DownloadProgress)
        requires
            old(self).wf(),
            i < old(self).downloads@.len(),
            rec.id@ == old(self).downloads@[i as int].id@,
        ensures
            final(self).wf(),
            final(self).downloads@ == old(self).downloads@.update(i as int, rec),
            final(self).has_job(rec.id@),
            final(self).job(rec.id@) == rec,
            final(self).others_unchanged(old(self), rec.id@),
    {
        let ghost before = *self;
        self.downloads.remove(i);
        self.downloads.insert(i, rec);
        assert(self.downloads@ =~= before.downloads@.update(i as int, rec));
        proof {
            assert(self.downloads@[i as int] == rec);
            self.lemma_job_at(i as int);
            assert forall|k: Seq<char>| k != rec.id@ implies (self.has_job(k)
                <==> before.has_job(k)) by {
                if self.has_job(k) {
                    let j = choose|j: int|
                        0 <= j < self.downloads@.len() && self.downloads@[j].id@ == k;
                    assert(before.downloads@[j].id@ == k);
                }
                if before.has_job(k) {
                    let j = choose|j: int|
                        0 <= j < before.downloads@.len() && before.downloads@[j].id@ == k;
                    assert(self.downloads@[j].id@ == k);
                }
            }
            assert forall|k: Seq<char>| k != rec.id@ && before.has_job(k) implies self.job(k)
                == before.job(k) by {
                let j = choose|j: int|
                    0 <= j < before.downloads@.len() && before.downloads@[j].id@ == k;
                before.lemma_job_at(j);
                assert(self.downloads@[j] == before.downloads@[j]);
                self.lemma_job_at(j);
            }
        }
    }

    /// Marks the job `id` cancelled. Cancelling is advisory: the workflow
    /// sees it at its next step.
    pub fn cancel_download(&mut self, id: &str) -> (r: Result<(), JobError>)
        requires
            old(self).wf(),
        ensures
            final(self).wf(),
            r is Err <==> !old(self).has_job(id@),
            r is Err ==> r == Err::<(), JobError>(JobError::NotFound) && *final(self) == *old(self),
            r is Ok ==> final(self).has_job(id@) && final(self).job(id@) == (DownloadProgress {
                status: DownloadStatus::Cancelled,
                ..old(self).job(id@)
            }) && final(self).others_unchanged(old(self), id@),
    {
        let key = String::from_str(id);
        match self.position(&key) {
            Some(i) => {
                let mut rec = self.downloads[i].copy();
                rec.status = DownloadStatus::Cancelled;
                self.replace_at(i, rec);
                Ok(())
            },
            None => Err(JobError::NotFound),
        }
    }

    /// Starts a job under the key `id`: refused while a job with that key is
    /// pending, connecting or downloading; otherwise a fresh pending record
    /// takes the key (replacing an ended one) and the key is returned. The
    /// caller then runs the workflow.
    pub fn start_download_with_id(
        &mut self,
        id: &str,
        server: &str,
        channel: &str,
        bot: &str,
        pack: &str,
        filename: &str,
    ) -> (r: Result<String, JobError>)
        requires
            old(self).wf(),
        ensures
            final(self).wf(),
            r is Err <==> (old(self).has_job(id@) && is_active(old(self).job(id@).status)),
            r is Err ==> r == Err::<String, JobError>(JobError::Conflict) && *final(self) == *old(
                self,
            ),
            r is Ok ==> r->Ok_0@ == id@ && final(self).has_job(id@) && fresh_record(
                id@,
                server@,
                channel@,
                bot@,
                pack@,
                filename@,
                final(self).job(id@),
            ) && final(self).others_unchanged(old(self), id@),
    {
        let key = String::from_str(id);
        let rec = DownloadProgress {
            id: String::from_str(id),
            filename: String::from_str(filename),
            server: String::from_str(server),
            channel: String::from_str(channel),
            bot: String::from_str(bot),
            pack: String::from_str(pack),
            status: DownloadStatus::Pending,
            progress: 0,
            total_size: None,
            download_path: None,
            error: None,
        };
        match self.position(&key) {
            Some(i) => {
                let st = self.downloads[i].status;
                if st == DownloadStatus::Pending || st == DownloadStatus::Connecting || st
                    == DownloadStatus::Downloading {
                    return Err(JobError::Conflict);
                }
                self.replace_at(i, rec);
            },
            None => {
                let ghost before = *self;
                self.downloads.push(rec);
                proof {
                    let n = before.downloads@.len();
                    assert forall|a: int, b: int|
                        0 <= a < b < self.downloads@.len() implies self.downloads@[a].id@
                        != self.downloads@[b].id@ by {
                        if b == n {
                            assert(before.downloads@[a].id@ != id@);
                        } else {
                            assert(self.downloads@[a] == before.downloads@[a]);
                            assert(self.downloads@[b] == before.downloads@[b]);
                        }
                    }
                    self.lemma_job_at(n as int);
                    assert forall|k: Seq<char>| k != id@ implies (self.has_job(k)
                        <==> before.has_job(k)) by {
                        if self.has_job(k) {
                            let j = choose|j: int|
                                0 <= j < self.downloads@.len() && self.downloads@[j].id@ == k;
                            assert(j < n);
                            assert(before.downloads@[j].id@ == k);
                        }
                        if before.has_job(k) {
                            let j = choose|j: int|
                                0 <= j < before.downloads@.len() && before.downloads@[j].id@ == k;
                            assert(self.downloads@[j].id@ == k);
                        }
                    }
                    assert forall|k: Seq<char>| k != id@ && before.has_job(k) implies self.job(k)
                        == before.job(k) by {
                        let j = choose|j: int|
                            0 <= j < before.downloads@.len() && before.downloads@[j].id@ == k;
                        before.lemma_job_at(j);
                        assert(self.downloads@[j] == before.downloads@[j]);
                        self.lemma_job_at(j);
                    }
                }
            },
        }
        Ok(key)
    }

    /// Applies a workflow event to the job `id`. Returns whether the job is
    /// still pending, connecting or downloading afterwards (false also when
    /// the key is unknown): the workflow stops when it is not.
    pub fn advance(&mut self, id: &str, event: JobEvent) -> (r: bool)
        requires
            old(self).wf(),
        ensures
            final(self).wf(),
            !old(self).has_job(id@) ==> !r && *final(self) == *old(self),
            old(self).has_job(id@) ==> {
                &&& final(self).has_job(id@)
                &&& final(self).job(id@) == apply_event(old(self).job(id@), event)
                &&& final(self).others_unchanged(old(self), id@)
                &&& r == is_active(final(self).job(id@).status)
            },
    {
        let key = String::from_str(id);
        let i = match self.position(&key) {
            Some(i) => i,
            None => {
                return false;
            },
        };
        let mut rec = self.downloads[i].copy();
        let st = rec.status;
        match event {
            JobEvent::Connect => {
                if st == DownloadStatus::Pending {
                    rec.status = DownloadStatus::Connecting;
                }
            },
            JobEvent::OfferReceived(total) => {
                if st == DownloadStatus::Connecting {
                    rec.status = DownloadStatus::Downloading;
                    rec.total_size = Some(total);
                }
            },
            JobEvent::Progress { bytes_received, finished, error } => {
                if st == DownloadStatus::Downloading {
                    rec.progress = bytes_received;
                    if finished {
                        match error {
                            Some(e) => {
                                rec.status = DownloadStatus::Failed;
                                rec.error = Some(e);
                            },
                            None => {
                                rec.status = DownloadStatus::Completed;
                            },
                        }
                    }
                }
            },
            JobEvent::Saved(path) => {
                if st == DownloadStatus::Downloading || st == DownloadStatus::Completed {
                    rec.status = DownloadStatus::Completed;
                    rec.download_path = Some(path);
                }
            },
            JobEvent::Failed(message) => {
                if st == DownloadStatus::Pending || st == DownloadStatus::Connecting || st
                    == DownloadStatus::Downloading {
                    rec.status = DownloadStatus::Failed;
                    rec.error = Some(message);
                }
            },
        }
        let live = rec.status == DownloadStatus::Pending || rec.status
            == DownloadStatus::Connecting || rec.status == DownloadStatus::Downloading;
        self.replace_at(i, rec);
        live
    }
}

/// No workflow event moves a job backwards, or out of an ended status.
pub proof fn lemma_event_moves_forward(r: DownloadProgress, e: JobEvent)
    ensures
        may_follow(r.status, apply_event(r, e).status),
{
}

/// Cancelling a job that has not ended moves it forward, to an ended status.
pub proof fn lemma_cancel_moves_forward(s: DownloadStatus)
    requires
        is_active(s),
    ensures
        may_follow(s, DownloadStatus::Cancelled),
        is_terminal(DownloadStatus::Cancelled),
{
}

/// A history in which each status may follow the one before it is in the
/// order Pending, Connecting, Downloading, end: ranks never fall, and once a
/// status is terminal it stays.
pub proof fn lemma_history_in_order(h: Seq<DownloadStatus>)
    requires
        forall|i: int| 0 <= i < h.len() - 1 ==> may_follow(#[trigger] h[i], h[i + 1]),
    ensures
        forall|i: int, j: int|
            0 <= i <= j < h.len() ==> rank(#[trigger] h[i]) <= rank(#[trigger] h[j]) && (
            is_terminal(h[i]) ==> h[j] == h[i]),
    decreases h.len(),
{
    if h.len() > 1 {
        let t = h.drop_last();
        assert forall|i: int| 0 <= i < t.len() - 1 implies may_follow(#[trigger] t[i], t[i + 1]) by {
            assert(t[i] == h[i] && t[i + 1] == h[i + 1]);
            assert(may_follow(h[i], h[i + 1]));
        }
        lemma_history_in_order(t);
        assert forall|i: int, j: int| 0 <= i <= j < h.len() implies rank(#[trigger] h[i]) <= rank(
            #[trigger] h[j],
        ) && (is_terminal(h[i]) ==> h[j] == h[i]) by {
            if j < h.len() - 1 {
                assert(t[i] == h[i] && t[j] == h[j]);
            } else if i < j {
                let p = h.len() - 2;
                assert(t[i] == h[i] && t[p] == h[p]);
                assert(may_follow(h[p], h[p + 1]));
            }
        }
    }
}

/// A job that a start has just recorded is pending, so a second start with
/// the same key is refused until the first job has ended.
pub proof fn lemma_started_job_blocks_restart(
    m: XdccDownloadManager,
    id: Seq<char>,
    server: Seq<char>,
    channel: Seq<char>,
    bot: Seq<char>,
    pack: Seq<char>,
    filename: Seq<char>,
)
    requires
        m.has_job(id),
        fresh_record(id, server, channel, bot, pack, filename, m.job(id)),
    ensures
        m.has_job(id) && is_active(m.job(id).status),
{
}

} // verus!

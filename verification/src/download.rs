//! The content-addressed download cache index. One record per canonical URL
//! (query stripped), a fresh file id per fetch with the URL's extension kept,
//! per-consumer target directories for symlink fan-out, and a table of the
//! fetches in flight. The classification of a request — reuse, await, retry
//! or start a fetch — is decided here in one exclusive section; the actual
//! network and file-system work happens outside and is driven by the returned
//! plan. Whether the completed cache file is still present on disk is a fact
//! only the caller can observe, so it is handed in as a boolean.

use crate::foreign::{canon_of, fresh_uuid, parse_url, upath_of};
use crate::text::{file_id_spec, file_id_for};
use vstd::prelude::*;

verus! {

/// Lifecycle of one download record.
#[derive(Clone, Copy, PartialEq, Eq, Structural, Debug)]
pub enum DownloadStatus {
    Pending,
    Completed,
    Failed,
}

/// One tracked download.
#[derive(Debug)]
pub struct DownloadTask {
    url: String,
    downloadable_url: String,
    status: DownloadStatus,
    file_id: String,
    target_dirs: Vec<String>,
}

/// Mathematical image of a [`DownloadTask`].
#[verifier::ext_equal]
pub ghost struct DownloadTaskView {
    pub url: Seq<char>,
    pub downloadable_url: Seq<char>,
    pub status: DownloadStatus,
    pub file_id: Seq<char>,
    pub dirs: Seq<Seq<char>>,
}

impl View for DownloadTask {
    type V = DownloadTaskView;

    closed spec fn view(&self) -> DownloadTaskView {
        DownloadTaskView {
            url: self.url@,
            downloadable_url: self.downloadable_url@,
            status: self.status,
            file_id: self.file_id@,
            dirs: self.target_dirs@.map_values(|d: String| d@),
        }
    }
}

/// A task with one more target directory; a directory already registered is
/// not repeated.
pub open spec fn add_dir(t: DownloadTaskView, d: Seq<char>) -> DownloadTaskView {
    if t.dirs.contains(d) {
        t
    } else {
        DownloadTaskView { dirs: t.dirs.push(d), ..t }
    }
}

/// A fresh pending record.
pub open spec fn fresh_task(
    canonical: Seq<char>,
    downloadable: Seq<char>,
    file_id: Seq<char>,
    dir: Seq<char>,
) -> DownloadTaskView {
    DownloadTaskView {
        url: canonical,
        downloadable_url: downloadable,
        status: DownloadStatus::Pending,
        file_id: file_id,
        dirs: seq![dir],
    }
}

/// Appends an element unless it is already present.
pub open spec fn push_unique(s: Seq<Seq<char>>, x: Seq<char>) -> Seq<Seq<char>> {
    if s.contains(x) {
        s
    } else {
        s.push(x)
    }
}

impl DownloadTask {
    /// Reassembles a record from its stored fields.
    pub(crate) fn from_parts(
        url: String,
        downloadable_url: String,
        status: DownloadStatus,
        file_id: String,
        target_dirs: Vec<String>,
    ) -> (t: DownloadTask)
        ensures
            t@ == (DownloadTaskView {
                url: url@,
                downloadable_url: downloadable_url@,
                status: status,
                file_id: file_id@,
                dirs: target_dirs@.map_values(|d: String| d@),
            }),
    {
        DownloadTask { url, downloadable_url, status, file_id, target_dirs }
    }

    /// Builds the record for a URL: the identity key is the URL without its
    /// query, and the file id keeps the extension of the URL path's last
    /// segment. `None` when the URL does not parse.
    pub fn new(url: &str, fresh: &str) -> (r: Option<DownloadTask>)
        ensures
            r is Some <==> canon_of(url@) is Some,
            r matches Some(t) ==> t@ == (DownloadTaskView {
                url: canon_of(url@)->0,
                downloadable_url: url@,
                status: DownloadStatus::Pending,
                file_id: file_id_spec(fresh@, upath_of(url@)),
                dirs: Seq::<Seq<char>>::empty(),
            }),
    {
        match parse_url(url) {
            Some((canonical, path)) => {
                let file_id = file_id_for(fresh, path.as_str());
                let t = DownloadTask {
                    url: canonical,
                    downloadable_url: url.to_owned(),
                    status: DownloadStatus::Pending,
                    file_id,
                    target_dirs: Vec::new(),
                };
                proof {
                    assert(t.target_dirs@.map_values(|d: String| d@) =~= Seq::<Seq<char>>::empty());
                }
                Some(t)
            },
            None => None,
        }
    }

    pub fn url(&self) -> (r: &String)
        ensures
            r@ == self@.url,
    {
        &self.url
    }

    pub fn downloadable_url(&self) -> (r: &String)
        ensures
            r@ == self@.downloadable_url,
    {
        &self.downloadable_url
    }

    pub fn status(&self) -> (r: DownloadStatus)
        ensures
            r == self@.status,
    {
        self.status
    }

    pub fn file_id(&self) -> (r: &String)
        ensures
            r@ == self@.file_id,
    {
        &self.file_id
    }

    pub fn target_dirs(&self) -> (r: &Vec<String>)
        ensures
            r@.map_values(|d: String| d@) == self@.dirs,
    {
        &self.target_dirs
    }

    pub fn with_status(&mut self, status: DownloadStatus)
        ensures
            final(self)@ == (DownloadTaskView { status: status, ..old(self)@ }),
    {
        self.status = status;
    }
}

/// Mathematical image of a [`DownloadState`].
#[verifier::ext_equal]
pub ghost struct CacheView {
    pub tasks: Seq<DownloadTaskView>,
    pub inflight: Seq<Seq<char>>,
}

pub open spec fn has_url(tasks: Seq<DownloadTaskView>, u: Seq<char>) -> bool {
    exists|i: int| 0 <= i < tasks.len() && (#[trigger] tasks[i]).url == u
}

pub open spec fn url_idx(tasks: Seq<DownloadTaskView>, u: Seq<char>) -> int {
    choose|i: int| 0 <= i < tasks.len() && (#[trigger] tasks[i]).url == u
}

pub open spec fn has_id(tasks: Seq<DownloadTaskView>, id: Seq<char>) -> bool {
    exists|i: int| 0 <= i < tasks.len() && (#[trigger] tasks[i]).file_id == id
}

pub open spec fn id_idx(tasks: Seq<DownloadTaskView>, id: Seq<char>) -> int {
    choose|i: int| 0 <= i < tasks.len() && (#[trigger] tasks[i]).file_id == id
}

/// Well-formedness: file ids and canonical URLs are unique keys, the
/// in-flight table holds no id twice, and no task registers a directory
/// twice.
pub open spec fn cache_wf(s: CacheView) -> bool {
    &&& forall|i: int, j: int|
        0 <= i < j < s.tasks.len() ==> (#[trigger] s.tasks[i]).file_id != (
        #[trigger] s.tasks[j]).file_id
    &&& forall|i: int, j: int|
        0 <= i < j < s.tasks.len() ==> (#[trigger] s.tasks[i]).url != (#[trigger] s.tasks[j]).url
    &&& forall|i: int, j: int|
        0 <= i < j < s.inflight.len() ==> s.inflight[i] != s.inflight[j]
    &&& forall|t: DownloadTaskView|
        #[trigger] s.tasks.contains(t) ==> forall|i: int, j: int|
            0 <= i < j < t.dirs.len() ==> t.dirs[i] != t.dirs[j]
}

/// What a request returns: the file is ready, or the caller must wait — and,
/// when `spawn` is set, first start the fetch described by the new record.
#[derive(Debug)]
pub enum CreateDownloadTaskResult {
    Existed,
    Created(FetchPlan),
}

/// The caller's duties for a `Created` outcome.
#[derive(Debug)]
pub struct FetchPlan {
    /// Start the fetch for this record (and open its status channel); when
    /// false, a fetch for the same URL is already in flight — subscribe to it.
    pub spawn: bool,
    /// Directories whose symlinks to a vanished cache file must be deleted.
    pub stale: Vec<String>,
    /// The file id those stale symlinks point at.
    pub stale_file_id: Option<String>,
}

/// Mathematical image of a [`CreateDownloadTaskResult`].
#[verifier::ext_equal]
pub ghost enum OutcomeView {
    Existed,
    Created { spawn: bool, stale: Seq<Seq<char>>, stale_id: Option<Seq<char>> },
}

impl View for CreateDownloadTaskResult {
    type V = OutcomeView;

    open spec fn view(&self) -> OutcomeView {
        match self {
            CreateDownloadTaskResult::Existed => OutcomeView::Existed,
            CreateDownloadTaskResult::Created(p) => OutcomeView::Created {
                spawn: p.spawn,
                stale: p.stale@.map_values(|d: String| d@),
                stale_id: match p.stale_file_id {
                    Some(ref id) => Some(id@),
                    None => None,
                },
            },
        }
    }
}

/// Why a request was rejected.
#[derive(Clone, Copy, PartialEq, Eq, Structural, Debug)]
pub enum DownloadRequestError {
    /// The URL does not parse.
    InvalidUrl,
    /// The derived file id is already taken by another record.
    IdCollision,
}

/// The request classification, as a function of the index, the request, the
/// fresh identifier, and whether the completed record's cache file is still
/// present. Mirrored exactly by `create_download_task`.
pub open spec fn spec_request(
    s: CacheView,
    url: Seq<char>,
    target: Seq<char>,
    fresh: Seq<char>,
    ok: bool,
) -> (CacheView, Result<(Seq<char>, OutcomeView), DownloadRequestError>) {
    match canon_of(url) {
        None => (s, Err(DownloadRequestError::InvalidUrl)),
        Some(u) => {
            let nid = file_id_spec(fresh, upath_of(url));
            if has_url(s.tasks, u) {
                let i = url_idx(s.tasks, u);
                let t = s.tasks[i];
                if t.status is Pending {
                    (
                        CacheView { tasks: s.tasks.update(i, add_dir(t, target)), ..s },
                        Ok(
                            (
                                t.file_id,
                                OutcomeView::Created {
                                    spawn: false,
                                    stale: Seq::empty(),
                                    stale_id: None,
                                },
                            ),
                        ),
                    )
                } else if t.status is Completed && ok {
                    (
                        CacheView { tasks: s.tasks.update(i, add_dir(t, target)), ..s },
                        Ok((t.file_id, OutcomeView::Existed)),
                    )
                } else {
                    // a completed record whose file vanished, or a failed
                    // record being retried: replace it with a fresh fetch
                    if has_id(s.tasks, nid) {
                        (s, Err(DownloadRequestError::IdCollision))
                    } else {
                        let stale: Seq<Seq<char>> = if t.status is Completed {
                            t.dirs
                        } else {
                            Seq::empty()
                        };
                        let stale_id: Option<Seq<char>> = if t.status is Completed {
                            Some(t.file_id)
                        } else {
                            None
                        };
                        (
                            CacheView {
                                tasks: s.tasks.remove(i).push(fresh_task(u, url, nid, target)),
                                inflight: push_unique(s.inflight, nid),
                            },
                            Ok(
                                (
                                    nid,
                                    OutcomeView::Created {
                                        spawn: true,
                                        stale: stale,
                                        stale_id: stale_id,
                                    },
                                ),
                            ),
                        )
                    }
                }
            } else {
                if has_id(s.tasks, nid) {
                    (s, Err(DownloadRequestError::IdCollision))
                } else {
                    (
                        CacheView {
                            tasks: s.tasks.push(fresh_task(u, url, nid, target)),
                            inflight: push_unique(s.inflight, nid),
                        },
                        Ok(
                            (
                                nid,
                                OutcomeView::Created {
                                    spawn: true,
                                    stale: Seq::empty(),
                                    stale_id: None,
                                },
                            ),
                        ),
                    )
                }
            }
        },
    }
}

/// What a download request reports back to the client: the file id and the
/// record's status.
#[derive(Clone, Debug)]
pub struct ResponseDownloadTask {
    pub file_id: String,
    pub status: DownloadStatus,
}

/// The cache index and the in-flight table.
#[derive(Debug)]
pub struct DownloadState {
    downloads: Vec<DownloadTask>,
    in_flight: Vec<String>,
}

impl View for DownloadState {
    type V = CacheView;

    closed spec fn view(&self) -> CacheView {
        CacheView {
            tasks: self.downloads@.map_values(|t: DownloadTask| t@),
            inflight: self.in_flight@.map_values(|s: String| s@),
        }
    }
}

impl DownloadState {
    pub fn new() -> (r: Self)
        ensures
            cache_wf(r@),
            r@.tasks == Seq::<DownloadTaskView>::empty(),
            r@.inflight == Seq::<Seq<char>>::empty(),
    {
        let r = DownloadState { downloads: Vec::new(), in_flight: Vec::new() };
        proof {
            assert(r@.tasks =~= Seq::<DownloadTaskView>::empty());
            assert(r@.inflight =~= Seq::<Seq<char>>::empty());
        }
        r
    }

    /// Rebuilds an index from restored records, e.g. those parsed from the
    /// persisted file. The in-flight table starts empty: status channels do
    /// not survive a restart.
    pub fn from_tasks(tasks: Vec<DownloadTask>) -> (r: Self)
        requires
            forall|i: int, j: int|
                0 <= i < j < tasks@.len() ==> (#[trigger] tasks@[i])@.file_id != (
                #[trigger] tasks@[j])@.file_id,
            forall|i: int, j: int|
                0 <= i < j < tasks@.len() ==> (#[trigger] tasks@[i])@.url != (
                #[trigger] tasks@[j])@.url,
            forall|i: int|
                0 <= i < tasks@.len() ==> forall|j: int, k: int|
                    0 <= j < k < (#[trigger] tasks@[i])@.dirs.len() ==> tasks@[i]@.dirs[j]
                        != tasks@[i]@.dirs[k],
        ensures
            cache_wf(r@),
            r@.tasks == tasks@.map_values(|t: DownloadTask| t@),
            r@.inflight == Seq::<Seq<char>>::empty(),
    {
        let r = DownloadState { downloads: tasks, in_flight: Vec::new() };
        proof {
            assert(r@.inflight =~= Seq::<Seq<char>>::empty());
            assert forall|t: DownloadTaskView| #[trigger] r@.tasks.contains(t) implies forall|
                i: int,
                j: int,
            | 0 <= i < j < t.dirs.len() ==> t.dirs[i] != t.dirs[j] by {
                let k = choose|k: int| 0 <= k < r@.tasks.len() && r@.tasks[k] == t;
                assert(tasks@[k]@ == t);
            }
        }
        r
    }

    /// The tracked records, in index order.
    pub fn tasks(&self) -> (r: &Vec<DownloadTask>)
        ensures
            r@.map_values(|t: DownloadTask| t@) == self@.tasks,
    {
        &self.downloads
    }

    fn find_url(&self, u: &String) -> (r: Option<usize>)
        ensures
            r matches Some(i) ==> i < self@.tasks.len() && self@.tasks[i as int].url == u@,
            r is None ==> !has_url(self@.tasks, u@),
    {
        let n = self.downloads.len();
        let mut i: usize = 0;
        while i < n
            invariant
                0 <= i <= n,
                n == self@.tasks.len(),
                forall|j: int| 0 <= j < i ==> (#[trigger] self@.tasks[j]).url != u@,
            decreases n - i,
        {
            if self.downloads[i].url == *u {
                assert(self@.tasks[i as int].url == u@);
                return Some(i);
            }
            assert(self@.tasks[i as int].url != u@);
            i = i + 1;
        }
        None
    }

    fn find_id(&self, id: &String) -> (r: Option<usize>)
        ensures
            r matches Some(i) ==> i < self@.tasks.len() && self@.tasks[i as int].file_id == id@,
            r is None ==> !has_id(self@.tasks, id@),
    {
        let n = self.downloads.len();
        let mut i: usize = 0;
        while i < n
            invariant
                0 <= i <= n,
                n == self@.tasks.len(),
                forall|j: int| 0 <= j < i ==> (#[trigger] self@.tasks[j]).file_id != id@,
            decreases n - i,
        {
            if self.downloads[i].file_id == *id {
                assert(self@.tasks[i as int].file_id == id@);
                return Some(i);
            }
            assert(self@.tasks[i as int].file_id != id@);
            i = i + 1;
        }
        None
    }

    pub fn get_by_id(&self, id: &str) -> (r: Option<&DownloadTask>)
        ensures
            r is Some <==> has_id(self@.tasks, id@),
            r matches Some(t) ==> cache_wf(self@) ==> t@ == self@.tasks[id_idx(self@.tasks, id@)],
    {
        let key = id.to_owned();
        match self.find_id(&key) {
            Some(i) => {
                proof {
                    if cache_wf(self@) {
                        let j = id_idx(self@.tasks, id@);
                        assert(0 <= j < self@.tasks.len() && self@.tasks[j].file_id == id@);
                    }
                }
                Some(&self.downloads[i])
            },
            None => None,
        }
    }

    /// Looks a record up by its canonical URL, exactly as stored.
    pub fn get_by_url(&self, url: &str) -> (r: Option<&DownloadTask>)
        ensures
            r is Some <==> has_url(self@.tasks, url@),
            r matches Some(t) ==> cache_wf(self@) ==> t@ == self@.tasks[url_idx(
                self@.tasks,
                url@,
            )],
    {
        let key = url.to_owned();
        match self.find_url(&key) {
            Some(i) => {
                proof {
                    if cache_wf(self@) {
                        let j = url_idx(self@.tasks, url@);
                        assert(0 <= j < self@.tasks.len() && self@.tasks[j].url == url@);
                    }
                }
                Some(&self.downloads[i])
            },
            None => None,
        }
    }

    /// Inserts a record whose file id and URL are not yet tracked.
    pub fn add(&mut self, task: DownloadTask)
        requires
            cache_wf(old(self)@),
            !has_id(old(self)@.tasks, task@.file_id),
            !has_url(old(self)@.tasks, task@.url),
            forall|i: int, j: int| 0 <= i < j < task@.dirs.len() ==> task@.dirs[i] != task@.dirs[j],
        ensures
            cache_wf(final(self)@),
            final(self)@.tasks == old(self)@.tasks.push(task@),
            final(self)@.inflight == old(self)@.inflight,
    {
        let ghost tv = task@;
        self.downloads.push(task);
        proof {
            assert(self@.tasks =~= old(self)@.tasks.push(tv));
            assert(self@.inflight =~= old(self)@.inflight);
            assert forall|a: int, b: int| 0 <= a < b < self@.tasks.len() implies (
            #[trigger] self@.tasks[a]).file_id != (#[trigger] self@.tasks[b]).file_id by {
                if b == self@.tasks.len() - 1 {
                    assert(has_id(old(self)@.tasks, old(self)@.tasks[a].file_id));
                }
            }
            assert forall|a: int, b: int| 0 <= a < b < self@.tasks.len() implies (
            #[trigger] self@.tasks[a]).url != (#[trigger] self@.tasks[b]).url by {
                if b == self@.tasks.len() - 1 {
                    assert(has_url(old(self)@.tasks, old(self)@.tasks[a].url));
                }
            }
            assert forall|t: DownloadTaskView| #[trigger] self@.tasks.contains(t) implies forall|
                i: int,
                j: int,
            | 0 <= i < j < t.dirs.len() ==> t.dirs[i] != t.dirs[j] by {
                let k = choose|k: int| 0 <= k < self@.tasks.len() && self@.tasks[k] == t;
                if k < self@.tasks.len() - 1 {
                    assert(old(self)@.tasks.contains(t));
                }
            }
        }
    }

    /// Registers one more consumer directory on a record.
    pub fn add_target_dir(&mut self, file_id: &str, target_dir: &str)
        requires
            cache_wf(old(self)@),
        ensures
            cache_wf(final(self)@),
            final(self)@.inflight == old(self)@.inflight,
            !has_id(old(self)@.tasks, file_id@) ==> final(self)@ == old(self)@,
            has_id(old(self)@.tasks, file_id@) ==> final(self)@.tasks == old(self)@.tasks.update(
                id_idx(old(self)@.tasks, file_id@),
                add_dir(old(self)@.tasks[id_idx(old(self)@.tasks, file_id@)], target_dir@),
            ),
    {
        let key = file_id.to_owned();
        match self.find_id(&key) {
            Some(i) => {
                proof {
                    let j = id_idx(self@.tasks, file_id@);
                    assert(0 <= j < self@.tasks.len() && self@.tasks[j].file_id == file_id@);
                }
                let ghost pre = self@.tasks[i as int];
                let dkey = target_dir.to_owned();
                let n = self.downloads[i].target_dirs.len();
                let mut k: usize = 0;
                let mut present = false;
                while k < n
                    invariant
                        0 <= k <= n,
                        i < self.downloads@.len(),
                        n == self.downloads@[i as int].target_dirs@.len(),
                        pre == self.downloads@[i as int]@,
                        dkey@ == target_dir@,
                        present <==> exists|j: int|
                            0 <= j < k && (#[trigger] self.downloads@[i as int].target_dirs@[j])@
                                == target_dir@,
                    decreases n - k,
                {
                    let same = self.downloads[i].target_dirs[k] == dkey;
                    proof {
                        assert(same == ((self.downloads@[i as int].target_dirs@[k as int])@
                            == dkey@));
                    }
                    if same {
                        present = true;
                        assert((self.downloads@[i as int].target_dirs@[k as int])@ == target_dir@);
                    } else {
                        assert((self.downloads@[i as int].target_dirs@[k as int])@ != target_dir@);
                    }
                    k = k + 1;
                }
                proof {
                    if present {
                        let j = choose|j: int|
                            0 <= j < n && (#[trigger] self.downloads@[i as int].target_dirs@[j])@
                                == target_dir@;
                        assert(pre.dirs[j] == target_dir@);
                    } else if pre.dirs.contains(target_dir@) {
                        let m = choose|m: int|
                            0 <= m < pre.dirs.len() && pre.dirs[m] == target_dir@;
                        assert((self.downloads@[i as int].target_dirs@[m])@ == target_dir@);
                    }
                    assert(present <==> pre.dirs.contains(target_dir@));
                }
                if !present {
                    self.downloads[i].target_dirs.push(target_dir.to_owned());
                    proof {
                        assert(self@.tasks[i as int].dirs =~= pre.dirs.push(target_dir@));
                        assert(self@.tasks =~= old(self)@.tasks.update(
                            i as int,
                            add_dir(pre, target_dir@),
                        ));
                    }
                } else {
                    proof {
                        assert(add_dir(pre, target_dir@) == pre);
                        assert(self@.tasks =~= old(self)@.tasks.update(
                            i as int,
                            add_dir(pre, target_dir@),
                        ));
                    }
                }
                proof {
                    assert(self@.inflight =~= old(self)@.inflight);
                    lemma_task_dirs_unique(old(self)@, i as int);
                    lemma_add_dir_unique(pre, target_dir@);
                    lemma_wf_after_update(old(self)@, i as int, add_dir(pre, target_dir@));
                    assert(cache_wf(
                        CacheView {
                            tasks: old(self)@.tasks.update(i as int, add_dir(pre, target_dir@)),
                            ..old(self)@
                        },
                    ));
                }
            },
            None => {},
        }
    }

    /// Sets a record's status; a no-op for an untracked id.
    pub fn update_status(&mut self, file_id: &str, status: DownloadStatus)
        requires
            cache_wf(old(self)@),
        ensures
            cache_wf(final(self)@),
            final(self)@.inflight == old(self)@.inflight,
            !has_id(old(self)@.tasks, file_id@) ==> final(self)@ == old(self)@,
            has_id(old(self)@.tasks, file_id@) ==> final(self)@.tasks == old(self)@.tasks.update(
                id_idx(old(self)@.tasks, file_id@),
                (DownloadTaskView {
                    status: status,
                    ..old(self)@.tasks[id_idx(old(self)@.tasks, file_id@)]
                }),
            ),
    {
        let key = file_id.to_owned();
        match self.find_id(&key) {
            Some(i) => {
                proof {
                    let j = id_idx(self@.tasks, file_id@);
                    assert(0 <= j < self@.tasks.len() && self@.tasks[j].file_id == file_id@);
                }
                let ghost pre = self@.tasks[i as int];
                self.downloads[i].status = status;
                proof {
                    assert(self@.tasks =~= old(self)@.tasks.update(
                        i as int,
                        (DownloadTaskView { status: status, ..pre }),
                    ));
                    assert(self@.inflight =~= old(self)@.inflight);
                    lemma_task_dirs_unique(old(self)@, i as int);
                    lemma_wf_after_update(
                        old(self)@,
                        i as int,
                        (DownloadTaskView { status: status, ..pre }),
                    );
                }
            },
            None => {},
        }
    }

    /// Drops a record, returning it so the caller can delete the cache file's
    /// symlinks; the record's URL and directories leave the index with it.
    pub fn remove(&mut self, file_id: &str) -> (r: Option<DownloadTask>)
        requires
            cache_wf(old(self)@),
        ensures
            cache_wf(final(self)@),
            final(self)@.inflight == old(self)@.inflight,
            r is Some <==> has_id(old(self)@.tasks, file_id@),
            r is None ==> final(self)@ == old(self)@,
            r matches Some(t) ==> t@ == old(self)@.tasks[id_idx(old(self)@.tasks, file_id@)]
                && final(self)@.tasks == old(self)@.tasks.remove(
                id_idx(old(self)@.tasks, file_id@),
            ),
    {
        let key = file_id.to_owned();
        match self.find_id(&key) {
            Some(i) => {
                proof {
                    let j = id_idx(self@.tasks, file_id@);
                    assert(0 <= j < self@.tasks.len() && self@.tasks[j].file_id == file_id@);
                }
                let t = self.downloads.remove(i);
                proof {
                    assert(self@.tasks =~= old(self)@.tasks.remove(i as int));
                    assert(self@.inflight =~= old(self)@.inflight);
                    assert forall|a: int, b: int| 0 <= a < b < self@.tasks.len() implies (
                    #[trigger] self@.tasks[a]).file_id != (#[trigger] self@.tasks[b]).file_id by {
                        assert(self@.tasks[a] == if a < i {
                            old(self)@.tasks[a]
                        } else {
                            old(self)@.tasks[a + 1]
                        });
                        assert(self@.tasks[b] == if b < i {
                            old(self)@.tasks[b]
                        } else {
                            old(self)@.tasks[b + 1]
                        });
                    }
                    assert forall|a: int, b: int| 0 <= a < b < self@.tasks.len() implies (
                    #[trigger] self@.tasks[a]).url != (#[trigger] self@.tasks[b]).url by {
                        assert(self@.tasks[a] == if a < i {
                            old(self)@.tasks[a]
                        } else {
                            old(self)@.tasks[a + 1]
                        });
                        assert(self@.tasks[b] == if b < i {
                            old(self)@.tasks[b]
                        } else {
                            old(self)@.tasks[b + 1]
                        });
                    }
                    assert forall|u: DownloadTaskView| #[trigger] self@.tasks.contains(
                        u,
                    ) implies forall|a: int, b: int|
                        0 <= a < b < u.dirs.len() ==> u.dirs[a] != u.dirs[b] by {
                        let m = choose|m: int| 0 <= m < self@.tasks.len() && self@.tasks[m] == u;
                        assert(u == if m < i {
                            old(self)@.tasks[m]
                        } else {
                            old(self)@.tasks[m + 1]
                        });
                        assert(old(self)@.tasks.contains(u));
                    }
                }
                Some(t)
            },
            None => None,
        }
    }

    /// The consumer directories of a record.
    pub fn target_dirs(&self, file_id: &str) -> (r: Option<&Vec<String>>)
        ensures
            r is Some <==> has_id(self@.tasks, file_id@),
            r matches Some(v) ==> cache_wf(self@) ==> v@.map_values(|d: String| d@)
                == self@.tasks[id_idx(self@.tasks, file_id@)].dirs,
    {
        let key = file_id.to_owned();
        match self.find_id(&key) {
            Some(i) => {
                proof {
                    if cache_wf(self@) {
                        let j = id_idx(self@.tasks, file_id@);
                        assert(0 <= j < self@.tasks.len() && self@.tasks[j].file_id == file_id@);
                    }
                }
                Some(&self.downloads[i].target_dirs)
            },
            None => None,
        }
    }

    /// Empties a record's consumer set, returning the directories it held.
    pub fn remove_target_dirs(&mut self, file_id: &str) -> (r: Option<Vec<String>>)
        requires
            cache_wf(old(self)@),
        ensures
            cache_wf(final(self)@),
            final(self)@.inflight == old(self)@.inflight,
            r is Some <==> has_id(old(self)@.tasks, file_id@),
            r is None ==> final(self)@ == old(self)@,
            r matches Some(v) ==> v@.map_values(|d: String| d@) == old(self)@.tasks[id_idx(
                old(self)@.tasks,
                file_id@,
            )].dirs && final(self)@.tasks == old(self)@.tasks.update(
                id_idx(old(self)@.tasks, file_id@),
                (DownloadTaskView {
                    dirs: Seq::empty(),
                    ..old(self)@.tasks[id_idx(old(self)@.tasks, file_id@)]
                }),
            ),
    {
        let key = file_id.to_owned();
        match self.find_id(&key) {
            Some(i) => {
                proof {
                    let j = id_idx(self@.tasks, file_id@);
                    assert(0 <= j < self@.tasks.len() && self@.tasks[j].file_id == file_id@);
                }
                let ghost pre = self@.tasks[i as int];
                let mut dirs: Vec<String> = Vec::new();
                core::mem::swap(&mut dirs, &mut self.downloads[i].target_dirs);
                proof {
                    assert(self@.tasks[i as int].dirs =~= Seq::<Seq<char>>::empty());
                    assert(self@.tasks =~= old(self)@.tasks.update(
                        i as int,
                        (DownloadTaskView { dirs: Seq::empty(), ..pre }),
                    ));
                    assert(self@.inflight =~= old(self)@.inflight);
                    lemma_wf_after_update(
                        old(self)@,
                        i as int,
                        (DownloadTaskView { dirs: Seq::empty(), ..pre }),
                    );
                }
                Some(dirs)
            },
            None => None,
        }
    }

    /// Whether a fetch for this file id has a live status channel.
    pub fn get_notification(&self, file_id: &str) -> (r: bool)
        ensures
            r == self@.inflight.contains(file_id@),
    {
        let key = file_id.to_owned();
        let n = self.in_flight.len();
        let mut i: usize = 0;
        while i < n
            invariant
                0 <= i <= n,
                n == self@.inflight.len(),
                key@ == file_id@,
                forall|j: int| 0 <= j < i ==> self@.inflight[j] != file_id@,
            decreases n - i,
        {
            if self.in_flight[i] == key {
                assert(self@.inflight[i as int] == file_id@);
                return true;
            }
            assert(self@.inflight[i as int] != file_id@);
            i = i + 1;
        }
        false
    }

    /// Records that a fetch for this file id has a status channel.
    pub fn set_notification(&mut self, file_id: &str)
        requires
            cache_wf(old(self)@),
        ensures
            cache_wf(final(self)@),
            final(self)@.tasks == old(self)@.tasks,
            final(self)@.inflight == push_unique(old(self)@.inflight, file_id@),
    {
        if !self.get_notification(file_id) {
            self.in_flight.push(file_id.to_owned());
            proof {
                assert(self@.inflight =~= old(self)@.inflight.push(file_id@));
                assert(self@.tasks =~= old(self)@.tasks);
            }
        }
    }

    /// Drops the in-flight entry for a finished fetch; reports whether one
    /// was present.
    pub fn remove_notification(&mut self, file_id: &str) -> (r: bool)
        requires
            cache_wf(old(self)@),
        ensures
            cache_wf(final(self)@),
            final(self)@.tasks == old(self)@.tasks,
            r == old(self)@.inflight.contains(file_id@),
            !r ==> final(self)@ == old(self)@,
            !final(self)@.inflight.contains(file_id@),
    {
        let key = file_id.to_owned();
        let n = self.in_flight.len();
        let mut i: usize = 0;
        while i < n
            invariant
                0 <= i <= n,
                n == self@.inflight.len(),
                cache_wf(self@),
                self == old(self),
                key@ == file_id@,
                forall|j: int| 0 <= j < i ==> self@.inflight[j] != file_id@,
            decreases n - i,
        {
            if self.in_flight[i] == key {
                proof {
                    assert(self@.inflight[i as int] == file_id@);
                }
                self.in_flight.remove(i);
                proof {
                    assert(self@.inflight =~= old(self)@.inflight.remove(i as int));
                    assert(self@.tasks =~= old(self)@.tasks);
                    assert forall|a: int, b: int|
                        0 <= a < b < self@.inflight.len() implies self@.inflight[a]
                        != self@.inflight[b] by {
                        assert(self@.inflight[a] == if a < i {
                            old(self)@.inflight[a]
                        } else {
                            old(self)@.inflight[a + 1]
                        });
                        assert(self@.inflight[b] == if b < i {
                            old(self)@.inflight[b]
                        } else {
                            old(self)@.inflight[b + 1]
                        });
                    }
                    assert forall|a: int| 0 <= a < self@.inflight.len() implies self@.inflight[a]
                        != file_id@ by {
                        assert(self@.inflight[a] == if a < i {
                            old(self)@.inflight[a]
                        } else {
                            old(self)@.inflight[a + 1]
                        });
                    }
                }
                return true;
            }
            assert(self@.inflight[i as int] != file_id@);
            i = i + 1;
        }
        false
    }
}

proof fn lemma_task_dirs_unique(s: CacheView, i: int)
    requires
        cache_wf(s),
        0 <= i < s.tasks.len(),
    ensures
        forall|a: int, b: int|
            0 <= a < b < s.tasks[i].dirs.len() ==> s.tasks[i].dirs[a] != s.tasks[i].dirs[b],
{
    assert(s.tasks.contains(s.tasks[i]));
}

proof fn lemma_add_dir_unique(t: DownloadTaskView, d: Seq<char>)
    requires
        forall|a: int, b: int| 0 <= a < b < t.dirs.len() ==> t.dirs[a] != t.dirs[b],
    ensures
        forall|a: int, b: int|
            0 <= a < b < add_dir(t, d).dirs.len() ==> add_dir(t, d).dirs[a] != add_dir(
                t,
                d,
            ).dirs[b],
{
    if !t.dirs.contains(d) {
        assert forall|a: int, b: int|
            0 <= a < b < add_dir(t, d).dirs.len() implies add_dir(t, d).dirs[a] != add_dir(
            t,
            d,
        ).dirs[b] by {
            if b == add_dir(t, d).dirs.len() - 1 {
                assert(t.dirs.contains(t.dirs[a]));
            }
        }
    }
}

proof fn lemma_wf_after_update(s: CacheView, i: int, t2: DownloadTaskView)
    requires
        cache_wf(s),
        0 <= i < s.tasks.len(),
        t2.url == s.tasks[i].url,
        t2.file_id == s.tasks[i].file_id,
        forall|a: int, b: int| 0 <= a < b < t2.dirs.len() ==> t2.dirs[a] != t2.dirs[b],
    ensures
        cache_wf(CacheView { tasks: s.tasks.update(i, t2), ..s }),
{
    let s1 = CacheView { tasks: s.tasks.update(i, t2), ..s };
    assert forall|t: DownloadTaskView| #[trigger] s1.tasks.contains(t) implies forall|
        a: int,
        b: int,
    | 0 <= a < b < t.dirs.len() ==> t.dirs[a] != t.dirs[b] by {
        let m = choose|m: int| 0 <= m < s1.tasks.len() && s1.tasks[m] == t;
        if m != i {
            assert(s.tasks.contains(t));
        }
    }
}

/// New-dir uniqueness of a freshly built task, for reuse in the proofs below.
proof fn lemma_fresh_task_dirs(u: Seq<char>, url: Seq<char>, nid: Seq<char>, target: Seq<char>)
    ensures
        forall|a: int, b: int|
            0 <= a < b < fresh_task(u, url, nid, target).dirs.len() ==> fresh_task(
                u,
                url,
                nid,
                target,
            ).dirs[a] != fresh_task(u, url, nid, target).dirs[b],
{
}

/// The classification step of a request, under the cache's exclusive section.
///
/// Given the raw URL and the consumer directory, decides — against the
/// current index — whether the file is ready, a fetch is already in flight,
/// or a fetch must start, and applies the index mutation in the same step.
/// `fresh` is the identifier for a new record, should one be needed;
/// `cache_file_ok` reports whether the completed record's cache file is still
/// present and readable, and is read only in that case.
///
/// Deduplication: while a record for the same canonical URL is pending, the
/// outcome is `Created { spawn: false }` with the existing file id — a second
/// fetch is never started.
pub fn create_download_task(
    state: &mut DownloadState,
    url: &str,
    target_dir: &str,
    fresh: &str,
    cache_file_ok: bool,
) -> (r: Result<(String, CreateDownloadTaskResult), DownloadRequestError>)
    requires
        cache_wf(old(state)@),
    ensures
        cache_wf(final(state)@),
        final(state)@ == spec_request(old(state)@, url@, target_dir@, fresh@, cache_file_ok).0,
        ({
            let outcome = spec_request(old(state)@, url@, target_dir@, fresh@, cache_file_ok).1;
            match r {
                Ok(p) => outcome matches Ok(q) && p.0@ == q.0 && p.1@ == q.1,
                Err(e) => outcome matches Err(q) && q == e,
            }
        }),
{
    let ghost pre = state@;
    let (canonical, path) = match parse_url(url) {
        Some(p) => p,
        None => {
            return Err(DownloadRequestError::InvalidUrl);
        },
    };
    let new_id = file_id_for(fresh, path.as_str());
    match state.find_url(&canonical) {
        Some(i) => {
            proof {
                let j = url_idx(pre.tasks, canonical@);
                assert(0 <= j < pre.tasks.len() && pre.tasks[j].url == canonical@);
                assert(j == i as int);
            }
            let ghost t = pre.tasks[i as int];
            let status = state.downloads_status(i);
            let is_pending = matches!(status, DownloadStatus::Pending);
            let is_completed = matches!(status, DownloadStatus::Completed);
            if is_pending || (is_completed && cache_file_ok) {
                let file_id = state.file_id_at(i);
                state.add_target_dir(file_id.as_str(), target_dir);
                proof {
                    assert(id_idx(pre.tasks, t.file_id) == i as int) by {
                        let j = id_idx(pre.tasks, t.file_id);
                        assert(0 <= j < pre.tasks.len() && pre.tasks[j].file_id == t.file_id);
                    }
                    assert(state@.tasks == pre.tasks.update(i as int, add_dir(t, target_dir@)));
                }
                if is_pending {
                    let out = CreateDownloadTaskResult::Created(
                        FetchPlan { spawn: false, stale: Vec::new(), stale_file_id: None },
                    );
                    proof {
                        assert(out@ =~= OutcomeView::Created {
                            spawn: false,
                            stale: Seq::empty(),
                            stale_id: None,
                        });
                    }
                    Ok((file_id, out))
                } else {
                    Ok((file_id, CreateDownloadTaskResult::Existed))
                }
            } else {
                if state.find_id(&new_id).is_some() {
                    return Err(DownloadRequestError::IdCollision);
                }
                let old_key = state.file_id_at(i);
                let old_task = match state.remove(old_key.as_str()) {
                    Some(t) => t,
                    None => vstd::pervasive::unreached(),
                };
                proof {
                    assert(id_idx(pre.tasks, old_key@) == i as int) by {
                        let j = id_idx(pre.tasks, old_key@);
                        assert(0 <= j < pre.tasks.len() && pre.tasks[j].file_id == old_key@);
                    }
                    assert(old_task@ == t);
                    assert(state@.tasks == pre.tasks.remove(i as int));
                }
                let is_stale_completed = matches!(old_task.status(), DownloadStatus::Completed);
                let mut stale: Vec<String> = Vec::new();
                let mut stale_file_id: Option<String> = None;
                let DownloadTask { file_id: old_id, target_dirs: old_dirs, .. } = old_task;
                if is_stale_completed {
                    stale = old_dirs;
                    stale_file_id = Some(old_id);
                }
                let task = make_fresh_task(&canonical, url, &new_id, target_dir);
                proof {
                    lemma_fresh_task_dirs(canonical@, url@, new_id@, target_dir@);
                    assert(!has_id(state@.tasks, new_id@)) by {
                        if has_id(state@.tasks, new_id@) {
                            let j = choose|j: int|
                                0 <= j < state@.tasks.len() && (#[trigger] state@.tasks[j]).file_id
                                    == new_id@;
                            assert(state@.tasks[j] == if j < i as int {
                                pre.tasks[j]
                            } else {
                                pre.tasks[j + 1]
                            });
                            assert(has_id(pre.tasks, new_id@));
                        }
                    }
                    assert(!has_url(state@.tasks, canonical@)) by {
                        if has_url(state@.tasks, canonical@) {
                            let j = choose|j: int|
                                0 <= j < state@.tasks.len() && (#[trigger] state@.tasks[j]).url
                                    == canonical@;
                            assert(state@.tasks[j] == if j < i as int {
                                pre.tasks[j]
                            } else {
                                pre.tasks[j + 1]
                            });
                            let k = if j < i as int {
                                j
                            } else {
                                j + 1
                            };
                            assert(pre.tasks[k].url == canonical@ && k != i as int);
                        }
                    }
                }
                state.add(task);
                state.set_notification(new_id.as_str());
                proof {
                    assert(state@.tasks =~= pre.tasks.remove(i as int).push(
                        fresh_task(canonical@, url@, new_id@, target_dir@),
                    ));
                    assert(state@.inflight =~= push_unique(pre.inflight, new_id@));
                    assert(state@ =~= spec_request(
                        pre,
                        url@,
                        target_dir@,
                        fresh@,
                        cache_file_ok,
                    ).0);
                }
                let out = CreateDownloadTaskResult::Created(
                    FetchPlan { spawn: true, stale, stale_file_id },
                );
                proof {
                    if t.status is Completed {
                        assert(out@ =~= OutcomeView::Created {
                            spawn: true,
                            stale: t.dirs,
                            stale_id: Some(t.file_id),
                        });
                    } else {
                        assert(out@ =~= OutcomeView::Created {
                            spawn: true,
                            stale: Seq::empty(),
                            stale_id: None,
                        });
                    }
                }
                Ok((new_id, out))
            }
        },
        None => {
            if state.find_id(&new_id).is_some() {
                return Err(DownloadRequestError::IdCollision);
            }
            let task = make_fresh_task(&canonical, url, &new_id, target_dir);
            proof {
                lemma_fresh_task_dirs(canonical@, url@, new_id@, target_dir@);
            }
            state.add(task);
            state.set_notification(new_id.as_str());
            proof {
                assert(state@.tasks =~= pre.tasks.push(
                    fresh_task(canonical@, url@, new_id@, target_dir@),
                ));
                assert(state@.inflight =~= push_unique(pre.inflight, new_id@));
                assert(state@ =~= spec_request(pre, url@, target_dir@, fresh@, cache_file_ok).0);
            }
            let out = CreateDownloadTaskResult::Created(
                FetchPlan { spawn: true, stale: Vec::new(), stale_file_id: None },
            );
            proof {
                assert(out@ =~= OutcomeView::Created {
                    spawn: true,
                    stale: Seq::empty(),
                    stale_id: None,
                });
            }
            Ok((new_id, out))
        },
    }
}

impl DownloadState {
    fn downloads_status(&self, i: usize) -> (r: DownloadStatus)
        requires
            i < self@.tasks.len(),
        ensures
            r == self@.tasks[i as int].status,
    {
        self.downloads[i].status
    }

    fn file_id_at(&self, i: usize) -> (r: String)
        requires
            i < self@.tasks.len(),
        ensures
            r@ == self@.tasks[i as int].file_id,
    {
        self.downloads[i].file_id.clone()
    }
}

fn make_fresh_task(canonical: &String, url: &str, file_id: &String, target_dir: &str) -> (t:
    DownloadTask)
    ensures
        t@ == fresh_task(canonical@, url@, file_id@, target_dir@),
{
    let mut dirs: Vec<String> = Vec::new();
    dirs.push(target_dir.to_owned());
    let t = DownloadTask {
        url: canonical.clone(),
        downloadable_url: url.to_owned(),
        status: DownloadStatus::Pending,
        file_id: file_id.clone(),
        target_dirs: dirs,
    };
    proof {
        assert(t@.dirs =~= seq![target_dir@]);
    }
    t
}

/// A fresh identifier for a new record, from a random UUID.
pub fn new_fresh_id() -> (r: String)
    ensures
        r@.len() == 36,
{
    fresh_uuid()
}

/// At most one record — and so at most one fetch — ever exists per
/// canonical URL: two indices holding the same URL are the same index.
pub proof fn lemma_one_record_per_url(s: CacheView, i: int, j: int)
    requires
        cache_wf(s),
        0 <= i < s.tasks.len(),
        0 <= j < s.tasks.len(),
        s.tasks[i].url == s.tasks[j].url,
    ensures
        i == j,
{
}

/// Deduplication (the request contract, restated): a request for a URL whose
/// record is pending never starts a second fetch — it subscribes to the one
/// in flight, under the existing file id. With URLs unique in the index,
/// at most one fetch per canonical URL is ever in flight.
pub proof fn lemma_request_deduplicates(
    s: CacheView,
    url: Seq<char>,
    target: Seq<char>,
    fresh: Seq<char>,
    ok: bool,
)
    requires
        cache_wf(s),
        canon_of(url) is Some,
        has_url(s.tasks, canon_of(url)->0),
        s.tasks[url_idx(s.tasks, canon_of(url)->0)].status is Pending,
    ensures
        spec_request(s, url, target, fresh, ok).1 == Ok::<
            (Seq<char>, OutcomeView),
            DownloadRequestError,
        >(
            (
                s.tasks[url_idx(s.tasks, canon_of(url)->0)].file_id,
                OutcomeView::Created { spawn: false, stale: Seq::empty(), stale_id: None },
            ),
        ),
{
}

/// After a successful request, the index holds exactly one record for the
/// canonical URL, under the returned file id: pending when a fetch was
/// started or joined, completed when the file was ready.
pub proof fn lemma_request_registers(
    s: CacheView,
    url: Seq<char>,
    target: Seq<char>,
    fresh: Seq<char>,
    ok: bool,
)
    requires
        cache_wf(s),
        spec_request(s, url, target, fresh, ok).1 is Ok,
    ensures
        ({
            let (s1, r1) = spec_request(s, url, target, fresh, ok);
            let u = canon_of(url)->0;
            &&& cache_wf(s1)
            &&& has_url(s1.tasks, u)
            &&& r1 matches Ok(p) ==> s1.tasks[url_idx(s1.tasks, u)].file_id == p.0 && (p.1
                matches OutcomeView::Created { .. } ==> s1.tasks[url_idx(s1.tasks, u)].status
                is Pending) && (p.1 is Existed ==> s1.tasks[url_idx(s1.tasks, u)].status
                is Completed)
        }),
{
    let u = canon_of(url)->0;
    let (s1, r1) = spec_request(s, url, target, fresh, ok);
    let nid = file_id_spec(fresh, upath_of(url));
    if has_url(s.tasks, u) {
        let i = url_idx(s.tasks, u);
        assert(0 <= i < s.tasks.len() && s.tasks[i].url == u);
        let t = s.tasks[i];
        if t.status is Pending || (t.status is Completed && ok) {
            let t2 = add_dir(t, target);
            assert(s1.tasks == s.tasks.update(i, t2));
            assert(s1.tasks[i].url == u);
            assert(has_url(s1.tasks, u));
            lemma_task_dirs_unique(s, i);
            lemma_add_dir_unique(t, target);
            lemma_wf_after_update(s, i, t2);
            let j = url_idx(s1.tasks, u);
            assert(0 <= j < s1.tasks.len() && s1.tasks[j].url == u);
            assert(j == i);
        } else {
            let rest = s.tasks.remove(i);
            let nt = fresh_task(u, url, nid, target);
            assert(s1.tasks == rest.push(nt));
            let last = s1.tasks.len() - 1;
            assert(s1.tasks[last] == nt);
            assert(has_url(s1.tasks, u));
            lemma_wf_after_replace(s, i, nt);
            let j = url_idx(s1.tasks, u);
            assert(0 <= j < s1.tasks.len() && s1.tasks[j].url == u);
            assert(j == last);
        }
    } else {
        let nt = fresh_task(u, url, nid, target);
        assert(s1.tasks == s.tasks.push(nt));
        let last = s1.tasks.len() - 1;
        assert(s1.tasks[last] == nt);
        assert(has_url(s1.tasks, u));
        lemma_wf_after_push(s, nt);
        let j = url_idx(s1.tasks, u);
        assert(0 <= j < s1.tasks.len() && s1.tasks[j].url == u);
        assert(j == last);
    }
}

/// Repeating a request immediately yields the same file id and starts no
/// second fetch, whatever the first one decided — provided the cache file a
/// ready record points at has not vanished in between (`ok2` still reports
/// it present).
pub proof fn lemma_request_idempotent(
    s: CacheView,
    url: Seq<char>,
    target: Seq<char>,
    fresh1: Seq<char>,
    ok1: bool,
    fresh2: Seq<char>,
    ok2: bool,
)
    requires
        cache_wf(s),
        spec_request(s, url, target, fresh1, ok1).1 is Ok,
        (spec_request(s, url, target, fresh1, ok1).1 matches Ok(p) && p.1 is Existed) ==> ok2,
    ensures
        ({
            let (s1, r1) = spec_request(s, url, target, fresh1, ok1);
            let (s2, r2) = spec_request(s1, url, target, fresh2, ok2);
            &&& r2 is Ok
            &&& r2 matches Ok(p2) ==> r1 matches Ok(p1) && p2.0 == p1.0 && !(p2.1
                matches OutcomeView::Created { spawn: true, .. })
        }),
{
    let u = canon_of(url)->0;
    let (s1, r1) = spec_request(s, url, target, fresh1, ok1);
    lemma_request_registers(s, url, target, fresh1, ok1);
    let j = url_idx(s1.tasks, u);
    assert(0 <= j < s1.tasks.len() && s1.tasks[j].url == u);
}

proof fn lemma_wf_after_replace(s: CacheView, i: int, nt: DownloadTaskView)
    requires
        cache_wf(s),
        0 <= i < s.tasks.len(),
        nt.status is Pending,
        nt.url == s.tasks[i].url,
        nt.dirs.len() <= 1,
        !has_id(s.tasks, nt.file_id),
    ensures
        cache_wf(
            CacheView {
                tasks: s.tasks.remove(i).push(nt),
                inflight: push_unique(s.inflight, nt.file_id),
            },
        ),
{
    let rest = s.tasks.remove(i);
    let s1 = CacheView { tasks: rest.push(nt), inflight: push_unique(s.inflight, nt.file_id) };
    assert forall|a: int| 0 <= a < rest.len() implies rest[a] == (if a < i {
        s.tasks[a]
    } else {
        s.tasks[a + 1]
    }) by {}
    assert forall|a: int, b: int| 0 <= a < b < s1.tasks.len() implies (
    #[trigger] s1.tasks[a]).file_id != (#[trigger] s1.tasks[b]).file_id by {
        if b == s1.tasks.len() - 1 {
            assert(has_id(s.tasks, rest[a].file_id));
        }
    }
    assert forall|a: int, b: int| 0 <= a < b < s1.tasks.len() implies (#[trigger] s1.tasks[a]).url
        != (#[trigger] s1.tasks[b]).url by {}
    assert forall|a: int, b: int|
        0 <= a < b < s1.inflight.len() implies s1.inflight[a] != s1.inflight[b] by {
        if !s.inflight.contains(nt.file_id) && b == s1.inflight.len() - 1 {
            assert(s1.inflight[a] == s.inflight[a]);
        }
    }
    assert forall|t: DownloadTaskView| #[trigger] s1.tasks.contains(t) implies forall|
        a: int,
        b: int,
    | 0 <= a < b < t.dirs.len() ==> t.dirs[a] != t.dirs[b] by {
        let m = choose|m: int| 0 <= m < s1.tasks.len() && s1.tasks[m] == t;
        if m < s1.tasks.len() - 1 {
            assert(s.tasks.contains(t));
        }
    }
}

proof fn lemma_wf_after_push(s: CacheView, nt: DownloadTaskView)
    requires
        cache_wf(s),
        nt.status is Pending,
        nt.dirs.len() <= 1,
        !has_id(s.tasks, nt.file_id),
        !has_url(s.tasks, nt.url),
    ensures
        cache_wf(
            CacheView {
                tasks: s.tasks.push(nt),
                inflight: push_unique(s.inflight, nt.file_id),
            },
        ),
{
    let s1 = CacheView { tasks: s.tasks.push(nt), inflight: push_unique(s.inflight, nt.file_id) };
    assert forall|a: int, b: int| 0 <= a < b < s1.tasks.len() implies (
    #[trigger] s1.tasks[a]).file_id != (#[trigger] s1.tasks[b]).file_id by {
        if b == s1.tasks.len() - 1 {
            assert(has_id(s.tasks, s.tasks[a].file_id));
        }
    }
    assert forall|a: int, b: int| 0 <= a < b < s1.tasks.len() implies (#[trigger] s1.tasks[a]).url
        != (#[trigger] s1.tasks[b]).url by {
        if b == s1.tasks.len() - 1 {
            assert(has_url(s.tasks, s.tasks[a].url));
        }
    }
    assert forall|a: int, b: int|
        0 <= a < b < s1.inflight.len() implies s1.inflight[a] != s1.inflight[b] by {
        if !s.inflight.contains(nt.file_id) && b == s1.inflight.len() - 1 {
            assert(s1.inflight[a] == s.inflight[a]);
        }
    }
    assert forall|t: DownloadTaskView| #[trigger] s1.tasks.contains(t) implies forall|
        a: int,
        b: int,
    | 0 <= a < b < t.dirs.len() ==> t.dirs[a] != t.dirs[b] by {
        let m = choose|m: int| 0 <= m < s1.tasks.len() && s1.tasks[m] == t;
        if m < s1.tasks.len() - 1 {
            assert(s.tasks.contains(t));
        }
    }
}

} // verus!

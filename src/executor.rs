use vstd::prelude::*;

use crate::planner::{ChunkState, chunk_bytes, covers_exactly, create_chunks, planned};

verus! {

/// Errors of a download run.
#[derive(Debug)]
pub enum DownloadError {
    /// The request could not be sent or its body could not be read.
    NetworkError(String),
    /// Creating, writing, seeking or removing a local file failed.
    FileError(String),
    /// A chunk request was answered with a status other than `200` or `206`.
    HttpError(u16),
    /// A worker task could not be joined.
    SpawnError(String),
    /// The resume record could not be encoded.
    JsonError(String),
    /// The resume record is not usable.
    StateError(String),
    /// At least one chunk failed; the sidecar is kept for a later resume.
    ChunkDownloadFailed,
    /// A chunk response carried a `Content-Type` other than the probe's.
    ContentTypeMismatch,
}

/// The resume record persisted next to the output file.
#[derive(Debug)]
pub struct DownloadState {
    pub url: String,
    pub total_size: u64,
    pub etag: Option<String>,
    pub chunks: Vec<ChunkState>,
}

/// An optional string seen as an optional sequence of characters.
pub open spec fn opt_view(o: Option<String>) -> Option<Seq<char>> {
    match o {
        Some(s) => Some(s@),
        None => None,
    }
}

impl DownloadState {
    /// The record's chunks are a plan of its resource: they cover `[0, total_size - 1]`
    /// exactly, or, for an empty resource, are the single completed range `[0, 0]`.
    pub open spec fn wf(&self) -> bool {
        if self.total_size == 0 {
            self.chunks@ == planned(0, false)
        } else {
            covers_exactly(self.chunks@, self.total_size as nat)
        }
    }

    /// The record was made for this URL, size and identity tag.
    pub open spec fn matches(&self, url: Seq<char>, total_size: u64, etag: Option<Seq<char>>) -> bool {
        &&& self.url@ == url
        &&& self.total_size == total_size
        &&& opt_view(self.etag) == etag
    }
}

/// What is known of the sidecar before a run starts.
#[derive(Debug)]
pub enum StoredState {
    /// No sidecar exists.
    Absent,
    /// A sidecar exists but does not parse as a resume record.
    Unreadable,
    /// A sidecar exists and holds this record.
    Found(DownloadState),
}

/// What a run does to the files before any chunk is fetched.
#[derive(Clone, Copy, Debug, PartialEq, Eq, Structural)]
pub enum ResumeAction {
    /// Keep the output and the sidecar; fetch what the record marks pending.
    WarmResume,
    /// Remove the sidecar and the partial output, then start as `Fresh` does.
    ColdRestart,
    /// Create the output, pre-allocate it to the total size, and write the new record.
    Fresh,
}

/// The record a run works from, and how it was reached.
#[derive(Debug)]
pub struct Reconciled {
    pub action: ResumeAction,
    pub state: DownloadState,
}

/// Sum of the sizes of the completed chunks among `chunks`.
pub open spec fn completed_sum(chunks: Seq<ChunkState>) -> int
    decreases chunks.len(),
{
    if chunks.len() == 0 {
        0
    } else {
        completed_sum(chunks.drop_last()) + if chunks.last().completed {
            chunk_bytes(chunks.last())
        } else {
            0
        }
    }
}

/// Indices of the chunks that are not completed.
pub open spec fn pending_set(chunks: Seq<ChunkState>) -> Set<int> {
    Set::new(|i: int| 0 <= i < chunks.len() && !chunks[i].completed)
}

pub(crate) fn clone_opt(o: &Option<String>) -> (r: Option<String>)
    ensures
        opt_view(r) == opt_view(*o),
{
    match o {
        Some(s) => Some(s.clone()),
        None => None,
    }
}

fn opt_eq(a: &Option<String>, b: &Option<String>) -> (r: bool)
    ensures
        r == (opt_view(*a) == opt_view(*b)),
{
    match (a, b) {
        (Some(x), Some(y)) => String::eq(x, y),
        (None, None) => true,
        _ => false,
    }
}

/// A new record for the resource: a fresh plan with every chunk pending.
pub fn fresh_state(url: &str, total_size: u64, etag: &Option<String>, is_multipart: bool) -> (r:
    DownloadState)
    ensures
        r.matches(url@, total_size, opt_view(*etag)),
        r.chunks@ == planned(total_size as nat, is_multipart),
        r.wf(),
{
    let chunks = create_chunks(total_size, is_multipart);
    proof {
        if total_size > 0 {
            crate::planner::lemma_plan_covers(total_size as nat, is_multipart);
        }
    }
    DownloadState { url: url.to_owned(), total_size, etag: clone_opt(etag), chunks }
}

/// Whether the record may be resumed for this URL, size and identity tag.
pub fn state_matches(state: &DownloadState, url: &str, total_size: u64, etag: &Option<String>) -> (r:
    bool)
    ensures
        r == state.matches(url@, total_size, opt_view(*etag)),
{
    let same_url = String::eq(&state.url, &url.to_owned());
    state.total_size == total_size && same_url && opt_eq(&state.etag, etag)
}

/// Whether the record's chunks form a plan of its resource.
pub fn state_is_valid(state: &DownloadState) -> (r: bool)
    ensures
        r == state.wf(),
{
    let n = state.chunks.len();
    if n == 0 {
        return false;
    }
    if state.total_size == 0 {
        let c = state.chunks[0];
        let ok = n == 1 && c.start == 0 && c.end == 0 && c.completed;
        proof {
            if ok {
                assert(state.chunks@ =~= planned(0, false));
            }
        }
        return ok;
    }
    if state.chunks[0].start != 0 || state.chunks[n - 1].end != state.total_size - 1 {
        return false;
    }
    let mut i: usize = 0;
    while i < n
        invariant
            n == state.chunks@.len(),
            i <= n,
            forall|k: int| 0 <= k < i ==> #[trigger] state.chunks@[k].start <= state.chunks@[k].end,
            forall|k: int|
                0 <= k < i && k < n - 1 ==> #[trigger] state.chunks@[k + 1].start
                    == state.chunks@[k].end + 1,
        decreases n - i,
    {
        let c = state.chunks[i];
        if c.start > c.end {
            return false;
        }
        if i + 1 < n && (c.end == u64::MAX || state.chunks[i + 1].start != c.end + 1) {
            assert(state.chunks@[i as int + 1].start != state.chunks@[i as int].end + 1);
            return false;
        }
        i = i + 1;
    }
    true
}

/// Decides from the stored sidecar what a run starts from. A readable, well-formed record
/// made for the same URL, size and identity tag is resumed as it stands; any other record,
/// or an unreadable sidecar, is dropped for a fresh plan (a cold restart); with no sidecar
/// the run starts fresh.
pub fn reconcile(
    stored: StoredState,
    url: &str,
    total_size: u64,
    etag: &Option<String>,
    is_multipart: bool,
) -> (r: Reconciled)
    ensures
        r.state.wf(),
        r.state.matches(url@, total_size, opt_view(*etag)),
        match stored {
            StoredState::Found(s) => if s.wf() && s.matches(url@, total_size, opt_view(*etag)) {
                r.action == ResumeAction::WarmResume && r.state == s
            } else {
                r.action == ResumeAction::ColdRestart && r.state.chunks@ == planned(
                    total_size as nat,
                    is_multipart,
                )
            },
            StoredState::Unreadable => r.action == ResumeAction::ColdRestart && r.state.chunks@
                == planned(total_size as nat, is_multipart),
            StoredState::Absent => r.action == ResumeAction::Fresh && r.state.chunks@ == planned(
                total_size as nat,
                is_multipart,
            ),
        },
{
    match stored {
        StoredState::Found(s) => {
            if state_is_valid(&s) && state_matches(&s, url, total_size, etag) {
                Reconciled { action: ResumeAction::WarmResume, state: s }
            } else {
                Reconciled {
                    action: ResumeAction::ColdRestart,
                    state: fresh_state(url, total_size, etag, is_multipart),
                }
            }
        },
        StoredState::Unreadable => Reconciled {
            action: ResumeAction::ColdRestart,
            state: fresh_state(url, total_size, etag, is_multipart),
        },
        StoredState::Absent => Reconciled {
            action: ResumeAction::Fresh,
            state: fresh_state(url, total_size, etag, is_multipart),
        },
    }
}

proof fn lemma_completed_sum_bound(chunks: Seq<ChunkState>, k: int)
    requires
        chunks.len() > 0,
        chunks[0].start == 0,
        0 <= k <= chunks.len(),
        forall|i: int| 0 <= i < chunks.len() ==> #[trigger] chunks[i].start <= chunks[i].end,
        forall|i: int| 0 <= i < chunks.len() - 1 ==> #[trigger] chunks[i + 1].start == chunks[i].end + 1,
    ensures
        0 <= completed_sum(chunks.take(k)) <= if k == 0 {
            0
        } else {
            chunks[k - 1].end + 1
        },
    decreases k,
{
    if k > 0 {
        lemma_completed_sum_bound(chunks, k - 1);
        assert(chunks.take(k).drop_last() =~= chunks.take(k - 1));
        if k > 1 {
            let j = k - 2;
            assert(chunks[j + 1].start == chunks[j].end + 1);
        }
    }
}

proof fn lemma_completed_sum_mono(chunks: Seq<ChunkState>, a: int, b: int)
    requires
        0 <= a <= b <= chunks.len(),
        forall|i: int| 0 <= i < chunks.len() ==> #[trigger] chunks[i].start <= chunks[i].end,
    ensures
        completed_sum(chunks.take(a)) <= completed_sum(chunks.take(b)),
    decreases b - a,
{
    if a < b {
        lemma_completed_sum_mono(chunks, a, b - 1);
        assert(chunks.take(b).drop_last() =~= chunks.take(b - 1));
    }
}

/// Number of bytes that the record's completed chunks hold.
pub fn completed_bytes(state: &DownloadState) -> (r: u64)
    requires
        state.wf(),
    ensures
        r == completed_sum(state.chunks@),
        r <= state.total_size || state.total_size == 0,
{
    let n = state.chunks.len();
    let ghost cs = state.chunks@;
    let mut sum: u64 = 0;
    let mut i: usize = 0;
    proof {
        if state.total_size == 0 {
            assert(cs == planned(0, false));
        }
        lemma_completed_sum_bound(cs, n as int);
        assert(cs.take(n as int) =~= cs);
        assert(cs.take(0) =~= Seq::<ChunkState>::empty());
    }
    while i < n
        invariant
            n == cs.len(),
            cs == state.chunks@,
            n > 0,
            cs[0].start == 0,
            forall|k: int| 0 <= k < cs.len() ==> #[trigger] cs[k].start <= cs[k].end,
            forall|k: int| 0 <= k < cs.len() - 1 ==> #[trigger] cs[k + 1].start == cs[k].end + 1,
            completed_sum(cs) <= cs.last().end + 1,
            cs.last().end < u64::MAX,
            i <= n,
            sum == completed_sum(cs.take(i as int)),
        decreases n - i,
    {
        let c = state.chunks[i];
        proof {
            lemma_completed_sum_mono(cs, i as int + 1, n as int);
            assert(cs.take(n as int) =~= cs);
            assert(cs.take(i as int + 1).drop_last() =~= cs.take(i as int));
        }
        if c.completed {
            sum = sum + (c.end - c.start + 1);
        }
        i = i + 1;
    }
    proof {
        assert(cs.take(n as int) =~= cs);
    }
    sum
}

/// Indices of the chunks still to fetch, in increasing order.
pub fn pending_chunks(state: &DownloadState) -> (r: Vec<usize>)
    ensures
        forall|k: int| 0 <= k < r@.len() ==> pending_set(state.chunks@).contains(#[trigger] r@[k] as int),
        forall|i: int| #[trigger] pending_set(state.chunks@).contains(i) ==> r@.contains(i as usize),
        forall|a: int, b: int| 0 <= a < b < r@.len() ==> r@[a] < r@[b],
{
    let n = state.chunks.len();
    let mut r: Vec<usize> = Vec::new();
    let mut i: usize = 0;
    while i < n
        invariant
            n == state.chunks@.len(),
            i <= n,
            forall|k: int| 0 <= k < r@.len() ==> r@[k] < i && pending_set(state.chunks@).contains(
                #[trigger] r@[k] as int,
            ),
            forall|j: int| 0 <= j < i && #[trigger] pending_set(state.chunks@).contains(j) ==> r@.contains(
                j as usize,
            ),
            forall|a: int, b: int| 0 <= a < b < r@.len() ==> r@[a] < r@[b],
        decreases n - i,
    {
        let ghost before = r@;
        if !state.chunks[i].completed {
            r.push(i);
            assert(r@[r@.len() - 1] == i);
        }
        proof {
            assert forall|j: int| 0 <= j < i + 1 && #[trigger] pending_set(state.chunks@).contains(j)
                implies r@.contains(j as usize) by {
                if j == i {
                    assert(r@[r@.len() - 1] == i);
                } else {
                    let k = choose|k: int| 0 <= k < before.len() && before[k] == j as usize;
                    assert(r@[k] == j as usize);
                }
            }
        }
        i = i + 1;
    }
    r
}

/// Marks chunk `i` completed after its bytes were written; nothing else changes.
pub fn mark_completed(state: &mut DownloadState, i: usize)
    requires
        i < old(state).chunks@.len(),
    ensures
        final(state).chunks@ == old(state).chunks@.update(
            i as int,
            ChunkState { completed: true, ..old(state).chunks@[i as int] },
        ),
        final(state).url == old(state).url,
        final(state).total_size == old(state).total_size,
        final(state).etag == old(state).etag,
        old(state).wf() ==> final(state).wf(),
        pending_set(final(state).chunks@) == pending_set(old(state).chunks@).remove(i as int),
{
    let mut c = state.chunks[i];
    c.completed = true;
    state.chunks.set(i, c);
    proof {
        assert(pending_set(state.chunks@) =~= pending_set(old(state).chunks@).remove(i as int));
        if old(state).wf() && old(state).total_size == 0 {
            assert(state.chunks@ =~= planned(0, false));
        }
    }
}

/// Marking a chunk completed keeps every completed chunk completed, and takes the marked
/// chunk out of what is left to fetch: a chunk once persisted as completed is not fetched
/// or written again.
pub proof fn lemma_progress_monotone(before: Seq<ChunkState>, after: Seq<ChunkState>, i: int)
    requires
        0 <= i < before.len(),
        after == before.update(i, ChunkState { completed: true, ..before[i] }),
    ensures
        after.len() == before.len(),
        forall|j: int| 0 <= j < before.len() && #[trigger] before[j].completed ==> after[j].completed,
        forall|j: int| 0 <= j < before.len() ==> after[j].start == before[j].start && after[j].end
            == before[j].end,
        !pending_set(after).contains(i),
        forall|j: int| #[trigger] pending_set(after).contains(j) ==> pending_set(before).contains(j),
{
}

/// Checks the answer to one chunk request: the status must be `200` or `206`, and the
/// `Content-Type` must equal the probe's exactly (both absent counts as equal).
pub fn check_chunk_response(
    status: u16,
    content_type: &Option<String>,
    expected_content_type: &Option<String>,
) -> (r: Result<(), DownloadError>)
    ensures
        status != 200 && status != 206 ==> r == Err::<(), DownloadError>(
            DownloadError::HttpError(status),
        ),
        (status == 200 || status == 206) && opt_view(*content_type) != opt_view(
            *expected_content_type,
        ) ==> r == Err::<(), DownloadError>(DownloadError::ContentTypeMismatch),
        r is Ok <==> (status == 200 || status == 206) && opt_view(*content_type) == opt_view(
            *expected_content_type,
        ),
{
    if status != 206 && status != 200 {
        return Err(DownloadError::HttpError(status));
    }
    if !opt_eq(content_type, expected_content_type) {
        return Err(DownloadError::ContentTypeMismatch);
    }
    Ok(())
}

/// Number of chunk fetches in flight at once: eight for a parallel run, one otherwise.
pub fn fetch_concurrency(is_multipart: bool) -> (r: usize)
    ensures
        r == (if is_multipart {
            8usize
        } else {
            1usize
        }),
{
    if is_multipart {
        8
    } else {
        1
    }
}

/// Checks the answer to the unranged request of a streamed download: any `2xx` status is
/// accepted, any other fails with `HttpError`.
pub fn check_stream_response(status: u16) -> (r: Result<(), DownloadError>)
    ensures
        200 <= status <= 299 ==> r is Ok,
        !(200 <= status <= 299) ==> r == Err::<(), DownloadError>(DownloadError::HttpError(status)),
{
    if 200 <= status && status <= 299 {
        Ok(())
    } else {
        Err(DownloadError::HttpError(status))
    }
}

/// How a run ends once every chunk task has finished.
#[derive(Debug)]
pub struct RunEnd {
    pub outcome: Result<(), DownloadError>,
    /// The sidecar is removed, which happens exactly when the run succeeds.
    pub remove_sidecar: bool,
}

/// Gathers the outcomes of all chunk tasks: success only when every task succeeded, else
/// `ChunkDownloadFailed`; the sidecar is removed on success only.
pub fn finish_run(results: &Vec<Result<(), DownloadError>>) -> (r: RunEnd)
    ensures
        r.outcome is Ok <==> forall|k: int| 0 <= k < results@.len() ==> #[trigger] results@[k] is Ok,
        r.outcome is Err ==> r.outcome == Err::<(), DownloadError>(
            DownloadError::ChunkDownloadFailed,
        ),
        r.remove_sidecar <==> r.outcome is Ok,
{
    let mut has_error = false;
    let mut i: usize = 0;
    while i < results.len()
        invariant
            i <= results@.len(),
            has_error <==> exists|k: int| 0 <= k < i && #[trigger] results@[k] is Err,
        decreases results@.len() - i,
    {
        if results[i].is_err() {
            has_error = true;
        }
        i = i + 1;
    }
    if has_error {
        RunEnd { outcome: Err(DownloadError::ChunkDownloadFailed), remove_sidecar: false }
    } else {
        RunEnd { outcome: Ok(()), remove_sidecar: true }
    }
}

} // verus!

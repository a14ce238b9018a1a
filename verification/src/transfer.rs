//! The file-transfer subsystem: the progress handle shared with the
//! presentation layer, the download worker's per-chunk state machine, the
//! destination-name collision rule, and the upload side's chunk schedule.
//! Reading and writing the actual files is I/O and happens outside this
//! crate; every decision those workers make is taken here.

use vstd::prelude::*;

use crate::protocol::{InternalMessage, InternalMessageView, Message, MessageView};
use vstd::slice::{slice_subrange, slice_to_vec};
use vstd::string::StringExecFns;

verus! {

/// Size of one file-content chunk on the wire.
pub const CHUNK_SIZE: usize = 4096;

/// How many collision suffixes are tried before a download is abandoned:
/// the plain name, then " (1)" through " (9)".
pub const MAX_NAME_ATTEMPTS: usize = 10;

/// Position and goal of a running transfer, in bytes.
#[derive(Debug, Clone, Copy, PartialEq, Eq, Structural)]
pub struct LoadingBarStatus {
    pub position: u64,
    pub end: u64,
}

/// What a transfer's progress bar shows: a position, or an error text that
/// replaces it.
#[derive(Debug, Clone)]
pub enum LoadingBar {
    Status(LoadingBarStatus),
    Error(String),
}

/// The progress handle the presentation layer polls: the bar, and a dirty
/// flag set on every change so the renderer knows to redraw.
#[derive(Debug, Clone)]
pub struct LoadingBarWrap {
    pub loadingbar: LoadingBar,
    pub changed: bool,
}

/// True when no transfer is running behind this bar, so a new one may
/// begin: there is no bar, the last one finished, or the last one failed.
pub fn is_loading_bar_free(ld: &Option<LoadingBarWrap>) -> (r: bool)
    ensures
        r == match ld {
            Option::None => true,
            Option::Some(w) => match w.loadingbar {
                LoadingBar::Status(st) => st.position == st.end,
                LoadingBar::Error(_) => true,
            },
        },
{
    match ld {
        None => true,
        Some(w) => match &w.loadingbar {
            LoadingBar::Status(st) => st.position == st.end,
            LoadingBar::Error(_) => true,
        },
    }
}

/// The state a download worker keeps for one incoming file: how many bytes
/// it has accepted, the announced total, and the progress handle it owes
/// the presentation layer.
pub struct DownloadState {
    pub bytes_accepted: u64,
    pub total: u64,
    pub bar: LoadingBarWrap,
}

impl DownloadState {
    /// The progress handle tracks the worker: the bar shows exactly the
    /// accepted byte count against the announced total, unless the
    /// transfer has failed, and never claims more than the total.
    pub open spec fn wf(&self) -> bool {
        &&& self.bytes_accepted <= self.total
        &&& match self.bar.loadingbar {
            LoadingBar::Status(st) => st.position == self.bytes_accepted && st.end == self.total,
            LoadingBar::Error(_) => true,
        }
    }

    /// True once the transfer has failed; a failed download never resumes.
    pub open spec fn failed(&self) -> bool {
        self.bar.loadingbar is Error
    }

    /// True when every announced byte has been accepted without failure.
    pub open spec fn complete(&self) -> bool {
        !self.failed() && self.bytes_accepted == self.total
    }

    /// A fresh download expecting `total` bytes.
    pub fn new(total: u64) -> (r: DownloadState)
        ensures
            r.wf(),
            !r.failed(),
            r.bytes_accepted == 0,
            r.total == total,
            r.bar.changed,
    {
        DownloadState {
            bytes_accepted: 0,
            total,
            bar: LoadingBarWrap {
                loadingbar: LoadingBar::Status(LoadingBarStatus { position: 0, end: total }),
                changed: true,
            },
        }
    }

    /// Judges one incoming chunk.  A chunk is accepted only when its offset
    /// equals the bytes already accepted and it stays inside the announced
    /// total; any gap, overlap or overflow is corruption, which marks the
    /// transfer failed and freezes the accepted count, so the caller writes
    /// nothing more.  Either way the dirty flag is set.
    pub fn accept_chunk(&mut self, offset: u64, len: u64) -> (r: ChunkOutcome)
        requires
            old(self).wf(),
            !old(self).failed(),
        ensures
            final(self).wf(),
            final(self).total == old(self).total,
            final(self).bar.changed,
            if offset == old(self).bytes_accepted && len <= old(self).total - old(
                self,
            ).bytes_accepted {
                &&& r == ChunkOutcome::Accepted
                &&& !final(self).failed()
                &&& final(self).bytes_accepted == old(self).bytes_accepted + len
            } else {
                &&& r == ChunkOutcome::Corrupted
                &&& final(self).failed()
                &&& final(self).bytes_accepted == old(self).bytes_accepted
            },
    {
        if offset != self.bytes_accepted || len > self.total - self.bytes_accepted {
            self.bar = LoadingBarWrap {
                loadingbar: LoadingBar::Error(
                    String::from_str("file content arrived out of order"),
                ),
                changed: true,
            };
            ChunkOutcome::Corrupted
        } else {
            self.bytes_accepted = self.bytes_accepted + len;
            self.bar = LoadingBarWrap {
                loadingbar: LoadingBar::Status(
                    LoadingBarStatus { position: self.bytes_accepted, end: self.total },
                ),
                changed: true,
            };
            ChunkOutcome::Accepted
        }
    }

    /// Marks the transfer failed with the given reason: used when the
    /// uploader reports an error or the local disk write fails.  The
    /// accepted count freezes and the dirty flag is set.
    pub fn fail(&mut self, reason: String)
        requires
            old(self).wf(),
        ensures
            final(self).failed(),
            final(self).wf(),
            final(self).bytes_accepted == old(self).bytes_accepted,
            final(self).total == old(self).total,
            final(self).bar.changed,
    {
        self.bar = LoadingBarWrap { loadingbar: LoadingBar::Error(reason), changed: true };
    }

    /// True when the transfer has delivered every announced byte.
    pub fn is_complete(&self) -> (r: bool)
        ensures
            r == self.complete(),
    {
        match &self.bar.loadingbar {
            LoadingBar::Status(_) => self.bytes_accepted == self.total,
            LoadingBar::Error(_) => false,
        }
    }

    /// Reads and clears the dirty flag: the renderer's cache-invalidation
    /// check.
    pub fn take_changed(&mut self) -> (r: bool)
        ensures
            r == old(self).bar.changed,
            !final(self).bar.changed,
            final(self).bar.loadingbar == old(self).bar.loadingbar,
            final(self).bytes_accepted == old(self).bytes_accepted,
            final(self).total == old(self).total,
            old(self).wf() ==> final(self).wf(),
    {
        let r = self.bar.changed;
        self.bar.changed = false;
        r
    }
}

/// Whether a chunk was taken or found to be corruption.
#[derive(Debug, Clone, Copy, PartialEq, Eq, Structural)]
pub enum ChunkOutcome {
    Accepted,
    Corrupted,
}

/// The suffix appended to a destination name on its nth collision.
pub open spec fn spec_collision_suffix(attempt: int) -> Seq<char> {
    if attempt == 0 {
        Seq::<char>::empty()
    } else if attempt == 1 {
        " (1)"@
    } else if attempt == 2 {
        " (2)"@
    } else if attempt == 3 {
        " (3)"@
    } else if attempt == 4 {
        " (4)"@
    } else if attempt == 5 {
        " (5)"@
    } else if attempt == 6 {
        " (6)"@
    } else if attempt == 7 {
        " (7)"@
    } else if attempt == 8 {
        " (8)"@
    } else {
        " (9)"@
    }
}

/// The nth destination name tried for a download: the plain file name,
/// then the name with " (1)" through " (9)".
pub open spec fn spec_candidate_name(base: Seq<char>, attempt: int) -> Seq<char> {
    base + spec_collision_suffix(attempt)
}

/// The nth destination name tried for `base`, or nothing once the attempts
/// are used up.
pub fn candidate_file_name(base: &String, attempt: usize) -> (r: Option<String>)
    ensures
        match r {
            Option::Some(s) => attempt < MAX_NAME_ATTEMPTS && s@ == spec_candidate_name(
                base@,
                attempt as int,
            ),
            Option::None => attempt >= MAX_NAME_ATTEMPTS,
        },
{
    if attempt == 0 {
        let r = base.clone();
        proof {
            assert(r@ =~= spec_candidate_name(base@, 0));
        }
        return Some(r);
    }
    let suffix: &str = if attempt == 1 {
        " (1)"
    } else if attempt == 2 {
        " (2)"
    } else if attempt == 3 {
        " (3)"
    } else if attempt == 4 {
        " (4)"
    } else if attempt == 5 {
        " (5)"
    } else if attempt == 6 {
        " (6)"
    } else if attempt == 7 {
        " (7)"
    } else if attempt == 8 {
        " (8)"
    } else if attempt == 9 {
        " (9)"
    } else {
        return None;
    };
    Some(base.clone().concat(suffix))
}

/// True when some string in `taken` reads the same as `name`.
pub open spec fn spec_name_taken(name: Seq<char>, taken: Seq<String>) -> bool {
    exists|i: int| 0 <= i < taken.len() && taken[i]@ == name
}

/// True when some entry of `taken` equals `name`.
fn name_taken(taken: &Vec<String>, name: &String) -> (r: bool)
    ensures
        r == spec_name_taken(name@, taken@),
{
    let n = taken.len();
    let mut i: usize = 0;
    while i < n
        invariant
            i <= n == taken@.len(),
            forall|j: int| 0 <= j < i ==> taken@[j]@ != name@,
        decreases n - i,
    {
        if taken[i].eq(name) {
            return true;
        }
        i += 1;
    }
    false
}

/// Picks the destination name for a download of `base` when the names in
/// `taken` already exist: the first untaken candidate, in order — the
/// plain name, then " (1)" through " (9)" — or nothing when all ten
/// collide, which abandons the download.
pub fn pick_destination(base: &String, taken: &Vec<String>) -> (r: Option<String>)
    ensures
        match r {
            Option::Some(s) => exists|a: int|
                {
                    &&& 0 <= a < MAX_NAME_ATTEMPTS
                    &&& s@ == spec_candidate_name(base@, a)
                    &&& !spec_name_taken(s@, taken@)
                    &&& forall|b: int|
                        0 <= b < a ==> spec_name_taken(spec_candidate_name(base@, b), taken@)
                },
            Option::None => forall|a: int|
                0 <= a < MAX_NAME_ATTEMPTS ==> spec_name_taken(
                    spec_candidate_name(base@, a),
                    taken@,
                ),
        },
{
    let mut attempt: usize = 0;
    while attempt < MAX_NAME_ATTEMPTS
        invariant
            attempt <= MAX_NAME_ATTEMPTS,
            forall|b: int|
                0 <= b < attempt ==> spec_name_taken(spec_candidate_name(base@, b), taken@),
        decreases MAX_NAME_ATTEMPTS - attempt,
    {
        let cand = match candidate_file_name(base, attempt) {
            Some(c) => c,
            None => {
                return None;
            },
        };
        if !name_taken(taken, &cand) {
            proof {
                let a = attempt as int;
                assert(0 <= a < MAX_NAME_ATTEMPTS && cand@ == spec_candidate_name(base@, a)
                    && !spec_name_taken(cand@, taken@) && forall|b: int|
                    0 <= b < a ==> spec_name_taken(spec_candidate_name(base@, b), taken@));
            }
            return Some(cand);
        }
        attempt += 1;
    }
    None
}

/// The bytes of chunk `i` of `data`: a full `CHUNK_SIZE` slice, except that
/// the last chunk carries whatever remains.
pub open spec fn spec_chunk(data: Seq<u8>, i: int) -> Seq<u8> {
    data.subrange(
        i * CHUNK_SIZE,
        if (i + 1) * CHUNK_SIZE <= data.len() {
            (i + 1) * CHUNK_SIZE
        } else {
            data.len() as int
        },
    )
}

/// The concatenation of the first `k` chunks of `data`.
pub open spec fn spec_chunks_concat(data: Seq<u8>, k: int) -> Seq<u8>
    decreases k,
{
    if k <= 0 {
        Seq::<u8>::empty()
    } else {
        spec_chunks_concat(data, k - 1) + spec_chunk(data, k - 1)
    }
}

proof fn lemma_chunks_prefix(data: Seq<u8>, j: int)
    requires
        0 <= j,
        j == 0 || (j - 1) * CHUNK_SIZE < data.len(),
    ensures
        spec_chunks_concat(data, j) =~= data.subrange(
            0,
            if j * CHUNK_SIZE <= data.len() {
                j * CHUNK_SIZE
            } else {
                data.len() as int
            },
        ),
    decreases j,
{
    if j > 0 {
        lemma_chunks_prefix(data, j - 1);
    }
}

/// The chunk schedule covers the file exactly: concatenating every chunk
/// of a `k`-chunk schedule for `data` — `k` as `chunk_file` produces it —
/// gives `data` back byte for byte.  A receiver that accepts each chunk at
/// its offset therefore reconstructs the file, and sees completion exactly
/// when the accepted bytes reach the announced total.
pub proof fn lemma_chunks_cover_data(data: Seq<u8>, k: int)
    requires
        0 <= k,
        data.len() <= k * CHUNK_SIZE,
        k * CHUNK_SIZE < data.len() + CHUNK_SIZE,
    ensures
        spec_chunks_concat(data, k) == data,
{
    lemma_chunks_prefix(data, k);
    assert(data.subrange(0, data.len() as int) =~= data);
}

/// The upload side's whole chunk schedule for one file: consecutive
/// `FileContent` messages whose offsets start at zero and step by the bytes
/// sent, covering `data` exactly, in order.
pub fn chunk_file(file_id: u64, data: &Vec<u8>) -> (r: Vec<Message>)
    ensures
        data@.len() == 0 ==> r@.len() == 0,
        data@.len() <= r@.len() * CHUNK_SIZE,
        r@.len() * CHUNK_SIZE < data@.len() + CHUNK_SIZE,
        forall|i: int|
            0 <= i < r@.len() ==> r@[i]@ == MessageView::Internal(
                InternalMessageView::FileContent(
                    file_id,
                    (i * CHUNK_SIZE) as u64,
                    spec_chunk(data@, i),
                ),
            ),
{
    let n = data.len();
    let mut out: Vec<Message> = Vec::new();
    let mut off: usize = 0;
    while off < n
        invariant
            off <= n == data@.len(),
            off == out@.len() * CHUNK_SIZE || (off == n && n <= out@.len() * CHUNK_SIZE
                && out@.len() * CHUNK_SIZE < n + CHUNK_SIZE),
            forall|i: int|
                0 <= i < out@.len() ==> out@[i]@ == MessageView::Internal(
                    InternalMessageView::FileContent(
                        file_id,
                        (i * CHUNK_SIZE) as u64,
                        spec_chunk(data@, i),
                    ),
                ),
        decreases n - off,
    {
        let end = if n - off < CHUNK_SIZE {
            n
        } else {
            off + CHUNK_SIZE
        };
        let chunk = slice_to_vec(slice_subrange(data.as_slice(), off, end));
        let ghost k = out@.len() as int;
        proof {
            assert(chunk@ =~= spec_chunk(data@, k));
        }
        out.push(Message::Internal(InternalMessage::FileContent(file_id, off as u64, chunk)));
        off = end;
    }
    out
}

} // verus!

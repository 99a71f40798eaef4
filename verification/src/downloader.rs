//! The bounded-concurrency acquisition engine: one chunked transfer per
//! resource descriptor, at most a fixed number in flight at a time, with
//! per-item results collected and per-item failures recorded without
//! aborting the rest of the backlog.
//!
//! What a remote source does is handed in as a [`ByteSource`] value, so the
//! whole run — admission, transfer, accounting, aggregation — is one
//! deterministic function of the plan and the sources. A caller that talks
//! to a real network runs one task per admitted item against the same
//! [`crate::pool::PoolState`] and [`crate::transfer`] primitives and feeds
//! the observed bytes in.

use vstd::prelude::*;
use vstd::string::StrSliceExecFns;
use vstd::string::StringExecFns;
use crate::gallery::{Gallery, Image, ImageV};
use crate::pool::PoolState;
use crate::progress::{Progress, TrackerV};
use crate::sanitize::{sanitize_seq, sanitize_title};
use crate::transfer::{chunked_copy, LocalStore, StoredFileV};

verus! {

/// How long a file name may show in a progress label before it is cut.
pub const TITLE_DISPLAY_LENGTH: usize = 16;

/// What one remote source does when asked for its bytes.
#[derive(Debug)]
pub enum ByteSource {
    /// Advertises a content length, responds with exactly these bytes,
    /// then reports end-of-data. The advertisement sizes the byte
    /// tracker and nothing else: the transfer ends on end-of-data alone,
    /// and an advertisement shorter than the payload cannot push the
    /// tracker past its total.
    Data { advertised: u64, bytes: Vec<u8> },
    /// The connection fails before any byte arrives, for this reason.
    Unreachable(String),
    /// Delivers this prefix, then fails mid-stream, for this reason.
    Broken(Vec<u8>, String),
    /// Never responds; the transfer stays in flight.
    Silent,
}

/// The mathematical value of a byte source.
pub enum ByteSourceV {
    Data { advertised: u64, bytes: Seq<u8> },
    Unreachable(Seq<char>),
    Broken(Seq<u8>, Seq<char>),
    Silent,
}

impl View for ByteSource {
    type V = ByteSourceV;

    open spec fn view(&self) -> ByteSourceV {
        match *self {
            ByteSource::Data { advertised, ref bytes } => ByteSourceV::Data {
                advertised,
                bytes: bytes@,
            },
            ByteSource::Unreachable(ref c) => ByteSourceV::Unreachable(c@),
            ByteSource::Broken(ref d, ref c) => ByteSourceV::Broken(d@, c@),
            ByteSource::Silent => ByteSourceV::Silent,
        }
    }
}

/// What went wrong with one download, or with the run around it.
#[derive(Debug)]
pub enum DownloadError {
    /// Performing the request failed: the source was unreachable.
    NetworkError(String),
    /// Reading or writing the filesystem failed; in particular, the sink
    /// path already existed when the transfer tried to create it.
    FileSystemError(String),
    /// Awaiting the next chunk failed mid-stream.
    ChunkError(String),
    /// Writing a chunk to the sink failed.
    WriteError(String),
    /// The root directory could not be created.
    AddDirError(String),
    /// Packaging the downloaded files into an archive failed.
    ZipError(crate::archive::ZipError),
    /// Removing the original directory after archiving failed.
    RemoveDirError(String, String),
}

/// The mathematical value of a download error.
pub enum DownloadErrorV {
    NetworkError(Seq<char>),
    FileSystemError(Seq<char>),
    ChunkError(Seq<char>),
    WriteError(Seq<char>),
    AddDirError(Seq<char>),
    ZipError(crate::archive::ZipErrorV),
    RemoveDirError(Seq<char>, Seq<char>),
}

impl View for DownloadError {
    type V = DownloadErrorV;

    open spec fn view(&self) -> DownloadErrorV {
        match *self {
            DownloadError::NetworkError(ref m) => DownloadErrorV::NetworkError(m@),
            DownloadError::FileSystemError(ref m) => DownloadErrorV::FileSystemError(m@),
            DownloadError::ChunkError(ref m) => DownloadErrorV::ChunkError(m@),
            DownloadError::WriteError(ref m) => DownloadErrorV::WriteError(m@),
            DownloadError::AddDirError(ref m) => DownloadErrorV::AddDirError(m@),
            DownloadError::ZipError(ref e) => DownloadErrorV::ZipError(e@),
            DownloadError::RemoveDirError(ref p, ref m) => DownloadErrorV::RemoveDirError(p@, m@),
        }
    }
}

impl DownloadError {
    /// One line saying what failed, for the diagnostic surface.
    pub fn describe(&self) -> (r: String)
        ensures
            match self@ {
                DownloadErrorV::NetworkError(m) => r@ == "error while performing request: "@ + m,
                DownloadErrorV::FileSystemError(m) => r@
                    == "error while reading/writing to the filesystem: "@ + m,
                DownloadErrorV::ChunkError(m) => r@ == "error while awaiting next chunk: "@ + m,
                DownloadErrorV::WriteError(m) => r@ == "error while writing to file: "@ + m,
                DownloadErrorV::AddDirError(m) => r@ == "error while creating directory: "@ + m,
                DownloadErrorV::ZipError(z) => r@ == "error while zipping content: "@
                    + crate::archive::zip_error_text(z),
                DownloadErrorV::RemoveDirError(p, m) => r@ == "error while removing directory "@
                    + p + ": "@ + m,
            },
    {
        match self {
            DownloadError::NetworkError(m) => String::from_str(
                "error while performing request: ",
            ).concat(m.as_str()),
            DownloadError::FileSystemError(m) => String::from_str(
                "error while reading/writing to the filesystem: ",
            ).concat(m.as_str()),
            DownloadError::ChunkError(m) => String::from_str(
                "error while awaiting next chunk: ",
            ).concat(m.as_str()),
            DownloadError::WriteError(m) => String::from_str(
                "error while writing to file: ",
            ).concat(m.as_str()),
            DownloadError::AddDirError(m) => String::from_str(
                "error while creating directory: ",
            ).concat(m.as_str()),
            DownloadError::ZipError(e) => String::from_str(
                "error while zipping content: ",
            ).concat(e.describe().as_str()),
            DownloadError::RemoveDirError(p, m) => String::from_str(
                "error while removing directory ",
            ).concat(p.as_str()).concat(": ").concat(m.as_str()),
        }
    }
}

/// One successfully completed transfer: which descriptor it served, how
/// many bytes landed, and where.
#[derive(Debug)]
pub struct TransferResult {
    pub descriptor: Image,
    pub bytes_written: u64,
    pub local_path: String,
}

/// The mathematical value of a transfer result.
pub struct TransferResultV {
    pub descriptor: ImageV,
    pub bytes_written: u64,
    pub local_path: Seq<char>,
}

impl View for TransferResult {
    type V = TransferResultV;

    open spec fn view(&self) -> TransferResultV {
        TransferResultV {
            descriptor: self.descriptor@,
            bytes_written: self.bytes_written,
            local_path: self.local_path@,
        }
    }
}

/// One recorded per-item failure: the item's submission index and why.
#[derive(Debug)]
pub struct ItemFailure {
    pub index: usize,
    pub error: DownloadError,
}

/// Everything one pool run produced: the successes and the recorded
/// failures, both in submission order, and the items that never completed
/// within the run.
#[derive(Debug)]
pub struct AggregateResult {
    pub successes: Vec<TransferResult>,
    pub failures: Vec<ItemFailure>,
    pub pending: Vec<usize>,
}

/// Why a whole gallery failed.
#[derive(Debug)]
pub enum GalleryError {
    /// A concurrency cap of zero was handed in.
    InvalidConcurrency,
    /// The root directory could not be created.
    Setup(DownloadError),
    /// At least one item failed or never completed; every cause is listed.
    Items(Vec<ItemFailure>, Vec<usize>),
}

/// What one item's transfer comes to.
pub enum ItemOutcome {
    /// The full payload landed.
    Success(Seq<u8>),
    /// The source was unreachable for this reason; no file was created.
    FailNetwork(Seq<char>),
    /// The sink path already existed; no file was created.
    FailSinkExists,
    /// The stream broke, for this reason, after this prefix was written;
    /// the partial file is left for the caller to keep or remove.
    FailMidStream(Seq<u8>, Seq<char>),
    /// The item never completed: its source never responded, or slots held
    /// by unresponsive sources kept it from being admitted.
    Pending,
}

/// The deterministic model of one pool run: the plan's items, what each
/// source does, the concurrency cap, the sanitized root directory and the
/// file names already taken when the run starts.
pub struct RunModel {
    pub items: Seq<ImageV>,
    pub behaviors: Seq<ByteSourceV>,
    pub cap: int,
    pub root: Seq<char>,
    pub init_names: Set<Seq<char>>,
}

impl RunModel {
    /// The sink path of item `i`: the root, a separator, and the sanitized
    /// local name.
    pub open spec fn path(self, i: int) -> Seq<char> {
        self.root + seq!['/'] + sanitize_seq(self.items[i].file)
    }

    /// How many sources among the first `i` stay silent for ever.
    pub open spec fn silent_before(self, i: int) -> int
        decreases i,
    {
        if i <= 0 {
            0
        } else {
            self.silent_before(i - 1) + if self.behaviors[i - 1] is Silent {
                1int
            } else {
                0int
            }
        }
    }

    /// Whether item `i` is ever admitted: only silent sources hold their
    /// slot for ever, so item `i` waits only on them.
    pub open spec fn attempted(self, i: int) -> bool {
        self.silent_before(i) < self.cap
    }

    /// Whether item `i` creates its sink file, given the names taken when
    /// its turn comes.
    pub open spec fn creates_at(self, i: int, taken: Set<Seq<char>>) -> bool {
        self.attempted(i) && (self.behaviors[i] is Data || self.behaviors[i] is Broken)
            && !taken.contains(self.path(i))
    }

    /// The file names taken after items `0 .. i` had their turn.
    pub open spec fn names_after(self, i: int) -> Set<Seq<char>>
        decreases i,
    {
        if i <= 0 {
            self.init_names
        } else {
            let prev = self.names_after(i - 1);
            if self.creates_at(i - 1, prev) {
                prev.insert(self.path(i - 1))
            } else {
                prev
            }
        }
    }

    /// What item `i` comes to.
    pub open spec fn outcome(self, i: int) -> ItemOutcome {
        let taken = self.names_after(i);
        if !self.attempted(i) {
            ItemOutcome::Pending
        } else {
            match self.behaviors[i] {
                ByteSourceV::Silent => ItemOutcome::Pending,
                ByteSourceV::Unreachable(c) => ItemOutcome::FailNetwork(c),
                ByteSourceV::Data { bytes: d, .. } => if taken.contains(self.path(i)) {
                    ItemOutcome::FailSinkExists
                } else {
                    ItemOutcome::Success(d)
                },
                ByteSourceV::Broken(d, c) => if taken.contains(self.path(i)) {
                    ItemOutcome::FailSinkExists
                } else {
                    ItemOutcome::FailMidStream(d, c)
                },
            }
        }
    }

    /// The transfer results of the items among `0 .. n` that succeed, in
    /// submission order.
    pub open spec fn successes_upto(self, n: int) -> Seq<TransferResultV>
        decreases n,
    {
        if n <= 0 {
            Seq::empty()
        } else {
            let rest = self.successes_upto(n - 1);
            match self.outcome(n - 1) {
                ItemOutcome::Success(d) => rest.push(
                    TransferResultV {
                        descriptor: self.items[n - 1],
                        bytes_written: d.len() as u64,
                        local_path: self.path(n - 1),
                    },
                ),
                _ => rest,
            }
        }
    }

    /// The indices among `0 .. n` that fail, in submission order.
    pub open spec fn failed_upto(self, n: int) -> Seq<int>
        decreases n,
    {
        if n <= 0 {
            Seq::empty()
        } else {
            let rest = self.failed_upto(n - 1);
            match self.outcome(n - 1) {
                ItemOutcome::FailNetwork(_) => rest.push(n - 1),
                ItemOutcome::FailSinkExists => rest.push(n - 1),
                ItemOutcome::FailMidStream(..) => rest.push(n - 1),
                _ => rest,
            }
        }
    }

    /// The indices among `0 .. n` that never complete, in submission order.
    pub open spec fn pending_upto(self, n: int) -> Seq<int>
        decreases n,
    {
        if n <= 0 {
            Seq::empty()
        } else {
            let rest = self.pending_upto(n - 1);
            match self.outcome(n - 1) {
                ItemOutcome::Pending => rest.push(n - 1),
                _ => rest,
            }
        }
    }

    /// The files the run creates among items `0 .. n`, in creation order:
    /// the full payload of a success, the delivered prefix of a transfer
    /// that broke mid-stream.
    pub open spec fn created_upto(self, n: int) -> Seq<StoredFileV>
        decreases n,
    {
        if n <= 0 {
            Seq::empty()
        } else {
            let rest = self.created_upto(n - 1);
            match self.outcome(n - 1) {
                ItemOutcome::Success(d) => rest.push(
                    StoredFileV { name: self.path(n - 1), data: d },
                ),
                ItemOutcome::FailMidStream(d, _) => rest.push(
                    StoredFileV { name: self.path(n - 1), data: d },
                ),
                _ => rest,
            }
        }
    }

    /// How many items among `0 .. n` complete, success or failure alike.
    pub open spec fn completed_upto(self, n: int) -> int {
        self.successes_upto(n).len() + self.failed_upto(n).len() as int
    }

    /// The items among `0 .. n` whose source stays silent, in submission
    /// order; these are exactly the slots held for ever.
    pub open spec fn silents_upto(self, n: int) -> Seq<int>
        decreases n,
    {
        if n <= 0 {
            Seq::empty()
        } else {
            let rest = self.silents_upto(n - 1);
            if self.behaviors[n - 1] is Silent {
                rest.push(n - 1)
            } else {
                rest
            }
        }
    }
}

/// The model of a run, from the plan as handed to the engine.
pub open spec fn run_model(
    items: Seq<ImageV>,
    behaviors: Seq<ByteSourceV>,
    cap: int,
    root: Seq<char>,
    init_names: Set<Seq<char>>,
) -> RunModel {
    RunModel { items, behaviors, cap, root, init_names }
}

/// One step of every fold of the model, written out once.
pub proof fn lemma_model_step(m: RunModel, i: int)
    requires
        0 <= i,
    ensures
        m.silent_before(i + 1) == m.silent_before(i) + if m.behaviors[i] is Silent {
            1int
        } else {
            0int
        },
        m.silents_upto(i + 1) == if m.behaviors[i] is Silent {
            m.silents_upto(i).push(i)
        } else {
            m.silents_upto(i)
        },
        m.names_after(i + 1) == if m.creates_at(i, m.names_after(i)) {
            m.names_after(i).insert(m.path(i))
        } else {
            m.names_after(i)
        },
        m.successes_upto(i + 1) == match m.outcome(i) {
            ItemOutcome::Success(d) => m.successes_upto(i).push(
                TransferResultV {
                    descriptor: m.items[i],
                    bytes_written: d.len() as u64,
                    local_path: m.path(i),
                },
            ),
            _ => m.successes_upto(i),
        },
        m.failed_upto(i + 1) == match m.outcome(i) {
            ItemOutcome::FailNetwork(_) => m.failed_upto(i).push(i),
            ItemOutcome::FailSinkExists => m.failed_upto(i).push(i),
            ItemOutcome::FailMidStream(..) => m.failed_upto(i).push(i),
            _ => m.failed_upto(i),
        },
        m.pending_upto(i + 1) == match m.outcome(i) {
            ItemOutcome::Pending => m.pending_upto(i).push(i),
            _ => m.pending_upto(i),
        },
        m.created_upto(i + 1) == match m.outcome(i) {
            ItemOutcome::Success(d) => m.created_upto(i).push(
                StoredFileV { name: m.path(i), data: d },
            ),
            ItemOutcome::FailMidStream(d, _) => m.created_upto(i).push(
                StoredFileV { name: m.path(i), data: d },
            ),
            _ => m.created_upto(i),
        },
{
}

/// Counting silent sources agrees with listing them, and every listed one
/// lies in range.
pub proof fn lemma_silents_len(m: RunModel, n: int)
    requires
        n >= 0,
    ensures
        m.silents_upto(n).len() == m.silent_before(n),
        forall|k: int| 0 <= k < m.silents_upto(n).len() ==> 0 <= #[trigger] m.silents_upto(n)[k] < n,
    decreases n,
{
    if n > 0 {
        lemma_silents_len(m, n - 1);
        assert forall|k: int|
            0 <= k < m.silents_upto(n).len() implies 0 <= #[trigger] m.silents_upto(n)[k]
            < n by {
            if k < m.silents_upto(n - 1).len() {
                assert(m.silents_upto(n)[k] == m.silents_upto(n - 1)[k]);
            }
        }
    }
}

/// Silent sources only accumulate as the backlog advances.
pub proof fn lemma_silent_before_mono(m: RunModel, i: int, j: int)
    requires
        0 <= i <= j,
    ensures
        m.silent_before(i) <= m.silent_before(j),
    decreases j,
{
    if j > i {
        lemma_silent_before_mono(m, i, j - 1);
    }
}

/// While every item is still admitted, the pending ones are exactly those
/// whose source stays silent.
pub proof fn lemma_pending_is_silents(m: RunModel, n: int)
    requires
        n >= 0,
        forall|j: int| 0 <= j < n ==> m.attempted(j),
    ensures
        m.pending_upto(n) == m.silents_upto(n),
    decreases n,
{
    if n > 0 {
        lemma_pending_is_silents(m, n - 1);
        assert(m.attempted(n - 1));
        lemma_model_step(m, n - 1);
    }
}

/// Every item comes to exactly one of success, failure and pending.
pub proof fn lemma_outcome_partition(m: RunModel, n: int)
    requires
        n >= 0,
    ensures
        m.successes_upto(n).len() + m.failed_upto(n).len() + m.pending_upto(n).len() == n,
        m.completed_upto(n) + m.pending_upto(n).len() == n,
    decreases n,
{
    if n > 0 {
        lemma_outcome_partition(m, n - 1);
        lemma_model_step(m, n - 1);
    }
}

/// How a run's ledger relates to the ledger it started from: tracker `h`
/// has counted `done` completed items and nothing else of it moved; all
/// other pre-existing trackers are untouched; new trackers may follow.
pub open spec fn ledger_frame(oldl: Seq<TrackerV>, newl: Seq<TrackerV>, h: int, done: int) -> bool {
    &&& newl.len() >= oldl.len()
    &&& forall|k: int| 0 <= k < oldl.len() && k != h ==> newl[k] == oldl[k]
    &&& newl[h].total == oldl[h].total
    &&& newl[h].label == oldl[h].label
    &&& newl[h].finished == oldl[h].finished
    &&& newl[h].current == if oldl[h].current + done <= oldl[h].total {
        oldl[h].current + done
    } else {
        oldl[h].total as int
    }
}

/// Whether the recorded failures are exactly the model's failed items, in
/// submission order, each with an error of the kind the model assigns.
pub open spec fn failures_match(fs: Seq<ItemFailureV>, m: RunModel, n: int) -> bool {
    &&& fs.len() == m.failed_upto(n).len()
    &&& forall|k: int|
        0 <= k < fs.len() ==> (#[trigger] fs[k]).index == m.failed_upto(n)[k] && fail_matches(
            fs[k].error,
            m.outcome(m.failed_upto(n)[k]),
        )
}

/// Recording one more failure keeps the record exact.
proof fn lemma_failures_push(fs0: Seq<ItemFailureV>, fv: ItemFailureV, m: RunModel, i: int)
    requires
        0 <= i,
        failures_match(fs0, m, i),
        m.failed_upto(i + 1) == m.failed_upto(i).push(i),
        fv.index == i,
        fail_matches(fv.error, m.outcome(i)),
    ensures
        failures_match(fs0.push(fv), m, i + 1),
{
    assert forall|k: int| 0 <= k < fs0.push(fv).len() implies (#[trigger] fs0.push(fv)[k]).index
        == m.failed_upto(i + 1)[k] && fail_matches(
        fs0.push(fv)[k].error,
        m.outcome(m.failed_upto(i + 1)[k]),
    ) by {
        if k < fs0.len() {
            assert(fs0.push(fv)[k] == fs0[k]);
            assert(m.failed_upto(i + 1)[k] == m.failed_upto(i)[k]);
        } else {
            assert(fs0.push(fv)[k] == fv);
            assert(m.failed_upto(i + 1)[k] == i);
        }
    }
}

/// Pushing one file extends the store's name set by exactly that name.
proof fn lemma_push_file_names(olds: crate::transfer::LocalStoreV, news: crate::transfer::LocalStoreV, f: StoredFileV)
    requires
        news.files == olds.files.push(f),
    ensures
        news.file_names() == olds.file_names().insert(f.name),
{
    assert forall|nm: Seq<char>| news.has_file(nm) implies olds.file_names().insert(
        f.name,
    ).contains(nm) by {
        let i = choose|i: int| 0 <= i < news.files.len() && (#[trigger] news.files[i]).name == nm;
        if i < olds.files.len() {
            assert(olds.files[i].name == nm);
            assert(olds.has_file(nm));
        } else {
            assert(news.files[i] == f);
        }
    }
    assert forall|nm: Seq<char>| olds.file_names().insert(f.name).contains(nm) implies
        news.has_file(nm) by {
        if nm == f.name {
            assert(news.files[olds.files.len() as int].name == nm);
        } else {
            assert(olds.has_file(nm));
            let i = choose|i: int|
                0 <= i < olds.files.len() && (#[trigger] olds.files[i]).name == nm;
            assert(news.files[i].name == nm);
        }
    }
    assert(news.file_names() =~= olds.file_names().insert(f.name));
}

/// The mathematical value of a recorded per-item failure.
pub struct ItemFailureV {
    pub index: int,
    pub error: DownloadErrorV,
}

impl View for ItemFailure {
    type V = ItemFailureV;

    open spec fn view(&self) -> ItemFailureV {
        ItemFailureV { index: self.index as int, error: self.error@ }
    }
}

/// Whether a recorded error is exactly the one the model assigns the
/// item, its underlying cause wrapped and never dropped.
pub open spec fn fail_matches(e: DownloadErrorV, o: ItemOutcome) -> bool {
    match o {
        ItemOutcome::FailNetwork(cause) => e == DownloadErrorV::NetworkError(cause),
        ItemOutcome::FailSinkExists => e == DownloadErrorV::FileSystemError(
            "file already exists"@,
        ),
        ItemOutcome::FailMidStream(_, cause) => e == DownloadErrorV::ChunkError(cause),
        _ => false,
    }
}

/// Runs the bounded worker pool over the plan's items: each item is
/// admitted in submission order under the concurrency cap, transferred in
/// chunks into the store, and completed — success or failure — without
/// aborting the rest of the backlog. Tracker `g_h` counts one unit per
/// completed item. The run drains the whole backlog; items whose source
/// never responds, and items kept out because unresponsive sources hold
/// every slot, are returned as pending.
#[verifier::loop_isolation(false)]
pub fn run_items(
    items: &Vec<Image>,
    behaviors: &Vec<ByteSource>,
    max_concurrency: usize,
    chunk_size: usize,
    root: &String,
    store: &mut LocalStore,
    ledger: &mut Progress,
    g_h: usize,
) -> (r: Result<AggregateResult, crate::pool::PoolError>)
    requires
        behaviors@.len() == items@.len(),
        chunk_size >= 1,
        old(store).wf(),
        old(ledger).wf(),
        g_h < old(ledger)@.len(),
    ensures
        ({
            let m = run_model(
                items@.map_values(|im: Image| im@),
                behaviors@.map_values(|b: ByteSource| b@),
                max_concurrency as int,
                root@,
                old(store)@.file_names(),
            );
            let n = items@.len() as int;
            match r {
                Err(e) => max_concurrency == 0 && e == crate::pool::PoolError::ZeroConcurrency
                    && *final(store) == *old(store) && *final(ledger) == *old(ledger),
                Ok(agg) => {
                    &&& max_concurrency >= 1
                    &&& agg.successes@.map_values(|t: TransferResult| t@) == m.successes_upto(n)
                    &&& failures_match(agg.failures@.map_values(|f: ItemFailure| f@), m, n)
                    &&& agg.pending@.map_values(|u: usize| u as int) == m.pending_upto(n)
                    &&& final(store)@.files == old(store)@.files + m.created_upto(n)
                    &&& final(store)@.dirs == old(store)@.dirs
                    &&& final(store).wf()
                    &&& final(store)@.file_names() == m.names_after(n)
                    &&& final(ledger).wf()
                    &&& ledger_frame(old(ledger)@, final(ledger)@, g_h as int, m.completed_upto(n))
                },
            }
        }),
{
    let ghost m = run_model(
        items@.map_values(|im: Image| im@),
        behaviors@.map_values(|b: ByteSource| b@),
        max_concurrency as int,
        root@,
        old(store)@.file_names(),
    );
    let n = items.len();
    let mut pool = match PoolState::new(n, max_concurrency) {
        Ok(p) => p,
        Err(e) => {
            return Err(e);
        },
    };
    let mut successes: Vec<TransferResult> = Vec::new();
    let mut failures: Vec<ItemFailure> = Vec::new();
    let mut pending: Vec<usize> = Vec::new();
    proof {
        assert(successes@.map_values(|t: TransferResult| t@) =~= m.successes_upto(0));
        assert(failures@.map_values(|f: ItemFailure| f@) =~= Seq::<ItemFailureV>::empty());
        assert(store@.files =~= old(store)@.files + m.created_upto(0));
    }
    while pool.can_admit()
        invariant
            0 <= pool.submitted() <= n,
            pool.wf(),
            pool.cap() == m.cap,
            pool.items() == n as int,
            !pool.is_cancelled(),
            pool.active_seq() == m.silents_upto(pool.submitted()),
            forall|j: int| 0 <= j < pool.submitted() ==> m.attempted(j),
            successes@.map_values(|t: TransferResult| t@) == m.successes_upto(pool.submitted()),
            failures_match(failures@.map_values(|f: ItemFailure| f@), m, pool.submitted()),
            pending@.len() == 0,
            store.wf(),
            store@.files == old(store)@.files + m.created_upto(pool.submitted()),
            store@.dirs == old(store)@.dirs,
            store@.file_names() == m.names_after(pool.submitted()),
            ledger.wf(),
            g_h < ledger@.len(),
            ledger_frame(old(ledger)@, ledger@, g_h as int, m.completed_upto(pool.submitted())),
        decreases n - pool.submitted(),
    {
        proof {
            lemma_silents_len(m, pool.submitted());
        }
        let i = pool.start_next();
        let ghost ii = i as int;
        proof {
            assert(m.attempted(ii));
            assert(m.behaviors[ii] == behaviors@[ii]@);
            assert(m.items[ii] == items@[ii]@);
            lemma_model_step(m, ii);
            lemma_silents_len(m, ii);
        }
        let fname = items[i].get_filename();
        let sanitized = sanitize_title(fname.as_str());
        let mut path = root.clone();
        path.push('/');
        path.append(sanitized.as_str());
        proof {
            assert(path@ =~= m.path(ii));
        }
        let b = &behaviors[i];
        match b {
            ByteSource::Silent => {
                proof {
                    assert(m.outcome(ii) is Pending);
                    assert(pool.active_seq() =~= m.silents_upto(ii + 1));
                }
            },
            ByteSource::Unreachable(cause) => {
                let ghost fmap0 = failures@.map_values(|f: ItemFailure| f@);
                let ghost fv = ItemFailureV {
                    index: ii,
                    error: DownloadErrorV::NetworkError(cause@),
                };
                failures.push(
                    ItemFailure { index: i, error: DownloadError::NetworkError(cause.clone()) },
                );
                ledger.inc(g_h, 1);
                let ghost act_before = pool.active_seq();
                proof {
                    assert(act_before =~= m.silents_upto(ii).push(ii));
                    assert(act_before[act_before.len() - 1] == ii);
                    assert(act_before.contains(ii));
                }
                pool.complete(i);
                proof {
                    assert(m.outcome(ii) == ItemOutcome::FailNetwork(cause@));
                    let k = choose|k: int|
                        0 <= k < act_before.len() && act_before[k] == ii && pool.active_seq()
                            == act_before.remove(k);
                    if k < m.silents_upto(ii).len() {
                        assert(m.silents_upto(ii)[k] == ii);
                        assert(false);
                    }
                    assert(pool.active_seq() =~= m.silents_upto(ii + 1));
                    assert(failures@.map_values(|f: ItemFailure| f@) =~= fmap0.push(fv));
                    lemma_failures_push(fmap0, fv, m, ii);
                }
            },
            ByteSource::Data { advertised, bytes: d } => {
                if store.has_file(path.as_str()) {
                    proof {
                        assert(m.names_after(ii).contains(m.path(ii)));
                        assert(m.outcome(ii) is FailSinkExists);
                    }
                    let ghost fmap0 = failures@.map_values(|f: ItemFailure| f@);
                    let ghost fv = ItemFailureV {
                        index: ii,
                        error: DownloadErrorV::FileSystemError("file already exists"@),
                    };
                    failures.push(
                        ItemFailure {
                            index: i,
                            error: DownloadError::FileSystemError(
                                String::from_str("file already exists"),
                            ),
                        },
                    );
                    proof {
                        assert(failures@.map_values(|f: ItemFailure| f@) =~= fmap0.push(fv));
                        lemma_failures_push(fmap0, fv, m, ii);
                    }
                } else {
                    proof {
                        assert(!m.names_after(ii).contains(m.path(ii)));
                        assert(m.outcome(ii) == ItemOutcome::Success(d@));
                        assert(m.creates_at(ii, m.names_after(ii)));
                    }
                    let label_base = try_truncate(fname);
                    let label = String::from_str("Downloading ").concat(label_base.as_str());
                    let t_h = ledger.add_prog(*advertised, label.as_str());
                    let mut sink: Vec<u8> = Vec::new();
                    let bytes = chunked_copy(d, chunk_size, &mut sink, ledger, t_h);
                    let ghost st0 = store@;
                    store.insert_file(path.clone(), sink);
                    proof {
                        lemma_push_file_names(st0, store@, StoredFileV { name: m.path(ii), data: d@ });
                    }
                    successes.push(
                        TransferResult {
                            descriptor: items[i].clone(),
                            bytes_written: bytes,
                            local_path: path,
                        },
                    );
                    proof {
                        assert(store@.files =~= old(store)@.files + m.created_upto(ii + 1));
                        assert(successes@.map_values(|t: TransferResult| t@) =~= m.successes_upto(
                            ii + 1,
                        ));
                    }
                }
                ledger.inc(g_h, 1);
                let ghost act_before = pool.active_seq();
                proof {
                    assert(act_before =~= m.silents_upto(ii).push(ii));
                    assert(act_before[act_before.len() - 1] == ii);
                    assert(act_before.contains(ii));
                }
                pool.complete(i);
                proof {
                    let k = choose|k: int|
                        0 <= k < act_before.len() && act_before[k] == ii && pool.active_seq()
                            == act_before.remove(k);
                    if k < m.silents_upto(ii).len() {
                        assert(m.silents_upto(ii)[k] == ii);
                        assert(false);
                    }
                    assert(pool.active_seq() =~= m.silents_upto(ii + 1));
                }
            },
            ByteSource::Broken(d, cause) => {
                if store.has_file(path.as_str()) {
                    proof {
                        assert(m.names_after(ii).contains(m.path(ii)));
                        assert(m.outcome(ii) is FailSinkExists);
                    }
                    let ghost fmap0 = failures@.map_values(|f: ItemFailure| f@);
                    let ghost fv = ItemFailureV {
                        index: ii,
                        error: DownloadErrorV::FileSystemError("file already exists"@),
                    };
                    failures.push(
                        ItemFailure {
                            index: i,
                            error: DownloadError::FileSystemError(
                                String::from_str("file already exists"),
                            ),
                        },
                    );
                    proof {
                        assert(failures@.map_values(|f: ItemFailure| f@) =~= fmap0.push(fv));
                        lemma_failures_push(fmap0, fv, m, ii);
                    }
                } else {
                    proof {
                        assert(!m.names_after(ii).contains(m.path(ii)));
                        assert(m.outcome(ii) == ItemOutcome::FailMidStream(d@, cause@));
                        assert(m.creates_at(ii, m.names_after(ii)));
                    }
                    let label_base = try_truncate(fname);
                    let label = String::from_str("Downloading ").concat(label_base.as_str());
                    let t_h = ledger.add_prog(d.len() as u64, label.as_str());
                    let mut sink: Vec<u8> = Vec::new();
                    let _delivered = chunked_copy(d, chunk_size, &mut sink, ledger, t_h);
                    let ghost st0 = store@;
                    store.insert_file(path.clone(), sink);
                    proof {
                        lemma_push_file_names(st0, store@, StoredFileV { name: m.path(ii), data: d@ });
                        assert(store@.files =~= old(store)@.files + m.created_upto(ii + 1));
                    }
                    let ghost fmap0 = failures@.map_values(|f: ItemFailure| f@);
                    let ghost fv = ItemFailureV {
                        index: ii,
                        error: DownloadErrorV::ChunkError(cause@),
                    };
                    failures.push(
                        ItemFailure { index: i, error: DownloadError::ChunkError(cause.clone()) },
                    );
                    proof {
                        assert(failures@.map_values(|f: ItemFailure| f@) =~= fmap0.push(fv));
                        lemma_failures_push(fmap0, fv, m, ii);
                    }
                }
                ledger.inc(g_h, 1);
                let ghost act_before = pool.active_seq();
                proof {
                    assert(act_before =~= m.silents_upto(ii).push(ii));
                    assert(act_before[act_before.len() - 1] == ii);
                    assert(act_before.contains(ii));
                }
                pool.complete(i);
                proof {
                    let k = choose|k: int|
                        0 <= k < act_before.len() && act_before[k] == ii && pool.active_seq()
                            == act_before.remove(k);
                    if k < m.silents_upto(ii).len() {
                        assert(m.silents_upto(ii)[k] == ii);
                        assert(false);
                    }
                    assert(pool.active_seq() =~= m.silents_upto(ii + 1));
                }
            },
        }
    }
    let ghost s = pool.submitted();
    proof {
        lemma_pending_is_silents(m, s);
    }
    let fl = pool.in_flight();
    let mut k: usize = 0;
    while k < fl
        invariant
            k <= fl,
            fl == pool.active_seq().len(),
            pending@.len() == k,
            forall|j: int| 0 <= j < k ==> pending@[j] as int == pool.active_seq()[j],
        decreases fl - k,
    {
        let a = pool.active_at(k);
        pending.push(a);
        k += 1;
    }
    proof {
        assert(pending@.map_values(|u: usize| u as int) =~= m.pending_upto(s));
    }
    let mut cur = pool.submitted_count();
    proof {
        if cur < n {
            assert(!(pool.submitted() < pool.items() && pool.active_seq().len() < pool.cap()
                && !pool.is_cancelled()));
            lemma_silents_len(m, s);
            assert(m.silent_before(s) >= m.cap);
        }
    }
    while cur < n
        invariant
            s <= cur <= n,
            m.silent_before(s) >= m.cap || s == n as int,
            pending@.map_values(|u: usize| u as int) == m.pending_upto(cur as int),
            successes@.map_values(|t: TransferResult| t@) == m.successes_upto(cur as int),
            failures_match(failures@.map_values(|f: ItemFailure| f@), m, cur as int),
            store@.files == old(store)@.files + m.created_upto(cur as int),
            store@.file_names() == m.names_after(cur as int),
            ledger_frame(old(ledger)@, ledger@, g_h as int, m.completed_upto(cur as int)),
        decreases n - cur,
    {
        proof {
            lemma_silent_before_mono(m, s, cur as int);
            assert(!m.attempted(cur as int));
            assert(m.outcome(cur as int) is Pending);
            lemma_model_step(m, cur as int);
        }
        pending.push(cur);
        proof {
            assert(pending@.map_values(|u: usize| u as int) =~= m.pending_upto(cur + 1));
        }
        cur += 1;
    }
    Ok(AggregateResult { successes, failures, pending })
}

/// The model of acquiring one gallery: the plan's items and title, what
/// each source does, the cap, and the store as the run finds it.
pub open spec fn acquire_model(
    g: crate::gallery::GalleryV,
    behaviors: Seq<ByteSourceV>,
    cap: int,
    s: crate::transfer::LocalStoreV,
) -> RunModel {
    run_model(g.images, behaviors, cap, sanitize_seq(g.title), s.file_names())
}

/// How a finished acquisition relates store and ledger to their starting
/// states: the run's files were added, the root directory was created, a
/// gallery tracker sized to the item count was appended, counted one unit
/// per completed item, and marked finished; everything older is untouched.
pub open spec fn acquired_state(
    olds: crate::transfer::LocalStoreV,
    news: crate::transfer::LocalStoreV,
    oldl: Seq<TrackerV>,
    newl: Seq<TrackerV>,
    m: RunModel,
    n: int,
) -> bool {
    &&& news.files == olds.files + m.created_upto(n)
    &&& news.dirs == olds.dirs.push(m.root)
    &&& news.file_names() == m.names_after(n)
    &&& newl.len() > oldl.len()
    &&& forall|k: int| 0 <= k < oldl.len() ==> newl[k] == oldl[k]
    &&& newl[oldl.len() as int].total == n as u64
    &&& newl[oldl.len() as int].label == "Downloading images"@
    &&& newl[oldl.len() as int].current == m.completed_upto(n)
    &&& newl[oldl.len() as int].finished
}

/// Acquires one gallery end-to-end: creates the root directory, sizes a
/// gallery-level tracker to the expected item count, runs the bounded
/// worker pool over the items, and — stricter than the pool's own
/// drain-everything behavior — fails the whole gallery with the complete
/// list of per-item causes if any item failed or never completed. No
/// partial success is ever reported silently.
pub fn acquire(
    gallery: &Gallery,
    behaviors: &Vec<ByteSource>,
    max_concurrency: usize,
    chunk_size: usize,
    store: &mut LocalStore,
    ledger: &mut Progress,
) -> (r: Result<Vec<TransferResult>, GalleryError>)
    requires
        gallery.counted(),
        behaviors@.len() == gallery@.images.len(),
        chunk_size >= 1,
        old(store).wf(),
        old(ledger).wf(),
    ensures
        final(store).wf(),
        final(ledger).wf(),
        ({
            let m = acquire_model(
                gallery@,
                behaviors@.map_values(|b: ByteSource| b@),
                max_concurrency as int,
                old(store)@,
            );
            let n = gallery@.images.len() as int;
            match r {
                Err(GalleryError::InvalidConcurrency) => max_concurrency == 0 && *final(store)
                    == *old(store) && *final(ledger) == *old(ledger),
                Err(GalleryError::Setup(e)) => max_concurrency >= 1 && old(store)@.has_dir(m.root)
                    && e@ is FileSystemError && *final(store) == *old(store) && *final(ledger)
                    == *old(ledger),
                Err(GalleryError::Items(fs, ps)) => max_concurrency >= 1 && !old(store)@.has_dir(
                    m.root,
                ) && fs@.len() + ps@.len() > 0 && failures_match(
                    fs@.map_values(|f: ItemFailure| f@),
                    m,
                    n,
                ) && ps@.map_values(|u: usize| u as int) == m.pending_upto(n) && acquired_state(
                    old(store)@,
                    final(store)@,
                    old(ledger)@,
                    final(ledger)@,
                    m,
                    n,
                ),
                Ok(rs) => max_concurrency >= 1 && !old(store)@.has_dir(m.root)
                    && rs@.map_values(|t: TransferResult| t@) == m.successes_upto(n) && rs@.len()
                    == n && m.failed_upto(n).len() == 0 && m.pending_upto(n).len() == 0
                    && acquired_state(
                    old(store)@,
                    final(store)@,
                    old(ledger)@,
                    final(ledger)@,
                    m,
                    n,
                ),
            }
        }),
{
    let ghost m = acquire_model(
        gallery@,
        behaviors@.map_values(|b: ByteSource| b@),
        max_concurrency as int,
        old(store)@,
    );
    let ghost n = gallery@.images.len() as int;
    if max_concurrency == 0 {
        return Err(GalleryError::InvalidConcurrency);
    }
    let root = sanitize_title(gallery.title().as_str());
    if store.has_dir(root.as_str()) {
        return Err(
            GalleryError::Setup(
                DownloadError::FileSystemError(String::from_str("directory already exists")),
            ),
        );
    }
    store.insert_dir(root.clone());
    proof {
        assert(store@.file_names() =~= old(store)@.file_names());
    }
    let total = gallery.len() as u64;
    let g_h = ledger.add_prog(total, "Downloading images");
    let ghost led1 = ledger@;
    let ghost sto1 = store@;
    let imgs = gallery.images();
    let run = run_items(
        imgs,
        behaviors,
        max_concurrency,
        chunk_size,
        &root,
        store,
        ledger,
        g_h,
    );
    let agg = match run {
        Ok(a) => a,
        Err(_) => {
            proof {
                assert(false);
            }
            return Err(GalleryError::InvalidConcurrency);
        },
    };
    proof {
        assert(imgs@.map_values(|im: Image| im@) == m.items);
        assert(sto1.file_names() == m.init_names);
        lemma_outcome_partition(m, n);
        assert(ledger@[g_h as int].current == m.completed_upto(n));
    }
    ledger.finish(g_h);
    if agg.failures.len() == 0 && agg.pending.len() == 0 {
        proof {
            assert(agg.pending@.map_values(|u: usize| u as int).len() == 0);
            assert(m.pending_upto(n).len() == 0);
            assert(agg.successes@.map_values(|t: TransferResult| t@).len() == n);
        }
        Ok(agg.successes)
    } else {
        Err(GalleryError::Items(agg.failures, agg.pending))
    }
}

/// Names only accumulate as the run advances.
proof fn lemma_names_monotone(m: RunModel, i: int, j: int)
    requires
        0 <= i <= j,
    ensures
        forall|p: Seq<char>|
            m.names_after(i).contains(p) ==> #[trigger] m.names_after(j).contains(p),
    decreases j,
{
    if j > i {
        lemma_names_monotone(m, i, j - 1);
        assert forall|p: Seq<char>|
            m.names_after(i).contains(p) implies #[trigger] m.names_after(j).contains(p) by {
            assert(m.names_after(j - 1).contains(p));
            if m.creates_at(j - 1, m.names_after(j - 1)) {
                assert(m.names_after(j) == m.names_after(j - 1).insert(m.path(j - 1)));
            }
        }
    }
}

/// Every successful transfer's sink path is present among the names the
/// run leaves behind.
proof fn lemma_success_paths_present(m: RunModel, n: int)
    requires
        n >= 0,
    ensures
        forall|k: int|
            0 <= k < m.successes_upto(n).len() ==> m.names_after(n).contains(
                (#[trigger] m.successes_upto(n)[k]).local_path,
            ),
    decreases n,
{
    if n > 0 {
        lemma_success_paths_present(m, n - 1);
        lemma_model_step(m, n - 1);
        lemma_names_monotone(m, n - 1, n);
        assert forall|k: int|
            0 <= k < m.successes_upto(n).len() implies m.names_after(n).contains(
            (#[trigger] m.successes_upto(n)[k]).local_path,
        ) by {
            if k < m.successes_upto(n - 1).len() {
                assert(m.successes_upto(n)[k] == m.successes_upto(n - 1)[k]);
                assert(m.names_after(n - 1).contains(m.successes_upto(n - 1)[k].local_path));
            } else {
                assert(m.outcome(n - 1) is Success);
                assert(m.successes_upto(n)[k].local_path == m.path(n - 1));
                assert(m.creates_at(n - 1, m.names_after(n - 1)));
                assert(m.names_after(n) == m.names_after(n - 1).insert(m.path(n - 1)));
            }
        }
    }
}

/// Whether success `k` of the model's run has a created file under its
/// path whose size is its recorded byte count.
pub open spec fn success_recorded(m: RunModel, n: int, k: int) -> bool {
    exists|j: int|
        0 <= j < m.created_upto(n).len() && (#[trigger] m.created_upto(n)[j]).name
            == m.successes_upto(n)[k].local_path && m.created_upto(n)[j].data.len() as u64
            == m.successes_upto(n)[k].bytes_written
}

/// Every successful transfer's byte count equals the size of the file the
/// run created for it: what was counted is exactly what lies in the store,
/// with the full payload as its content.
pub proof fn lemma_success_sizes(m: RunModel, n: int)
    requires
        n >= 0,
    ensures
        forall|k: int| 0 <= k < m.successes_upto(n).len() ==> #[trigger] success_recorded(m, n, k),
    decreases n,
{
    if n > 0 {
        lemma_success_sizes(m, n - 1);
        lemma_model_step(m, n - 1);
        assert forall|k: int|
            0 <= k < m.successes_upto(n).len() implies #[trigger] success_recorded(m, n, k) by {
            if k < m.successes_upto(n - 1).len() {
                assert(m.successes_upto(n)[k] == m.successes_upto(n - 1)[k]);
                assert(success_recorded(m, n - 1, k));
                let j = choose|j: int|
                    0 <= j < m.created_upto(n - 1).len() && (#[trigger] m.created_upto(
                        n - 1,
                    )[j]).name == m.successes_upto(n - 1)[k].local_path && m.created_upto(
                        n - 1,
                    )[j].data.len() as u64 == m.successes_upto(n - 1)[k].bytes_written;
                assert(m.created_upto(n)[j] == m.created_upto(n - 1)[j]);
                assert(0 <= j < m.created_upto(n).len());
                assert(m.created_upto(n)[j].name == m.successes_upto(n)[k].local_path);
                assert(m.created_upto(n)[j].data.len() as u64 == m.successes_upto(
                    n,
                )[k].bytes_written);
            } else {
                assert(m.outcome(n - 1) is Success);
                let d = m.outcome(n - 1)->Success_0;
                assert(m.successes_upto(n) == m.successes_upto(n - 1).push(
                    TransferResultV {
                        descriptor: m.items[n - 1],
                        bytes_written: d.len() as u64,
                        local_path: m.path(n - 1),
                    },
                ));
                assert(k == m.successes_upto(n).len() - 1);
                assert(m.successes_upto(n)[k].local_path == m.path(n - 1));
                assert(m.successes_upto(n)[k].bytes_written == d.len() as u64);
                let j = m.created_upto(n).len() - 1;
                assert(m.created_upto(n) == m.created_upto(n - 1).push(
                    StoredFileV { name: m.path(n - 1), data: d },
                ));
                assert(m.created_upto(n)[j].name == m.path(n - 1));
                assert(m.created_upto(n)[j].data.len() == d.len());
                assert(0 <= j < m.created_upto(n).len());
                assert(m.created_upto(n)[j].name == m.successes_upto(n)[k].local_path);
                assert(m.created_upto(n)[j].data.len() as u64 == m.successes_upto(n)[k].bytes_written);
            }
        }
    }
}

/// The packaging plan for one acquired gallery: the root directory entry,
/// then one file entry per downloaded file, in download order.
pub open spec fn archive_entries_of(root: Seq<char>, rs: Seq<TransferResultV>) -> Seq<
    crate::archive::ArchiveEntryV,
> {
    seq![crate::archive::ArchiveEntryV::DirectoryEntry { archive_path: root }] + rs.map_values(
        |t: TransferResultV| crate::archive::ArchiveEntryV::FileEntry {
            source_path: t.local_path,
            archive_path: t.local_path,
        },
    )
}

/// Sums what a packaging plan would write, refusing a sum that would not
/// fit the byte counter.
fn packed_total_of(entries: &Vec<crate::archive::ArchiveEntry>, store: &LocalStore) -> (r: Option<
    u64,
>)
    requires
        store.wf(),
    ensures
        ({
            let ev = entries@.map_values(|e: crate::archive::ArchiveEntry| e@);
            let n = entries@.len() as int;
            match r {
                Some(t) => crate::archive::sources_present(ev, store@, n) && t
                    == crate::archive::packed_total(ev, store@, n),
                None => crate::archive::packed_total(ev, store@, n) > u64::MAX
                    || !crate::archive::sources_present(ev, store@, n),
            }
        }),
{
    let ghost ev = entries@.map_values(|e: crate::archive::ArchiveEntry| e@);
    let ghost n = entries@.len() as int;
    let mut sum: u64 = 0;
    let mut i: usize = 0;
    while i < entries.len()
        invariant
            i <= entries@.len(),
            store.wf(),
            ev == entries@.map_values(|e: crate::archive::ArchiveEntry| e@),
            n == entries@.len() as int,
            crate::archive::sources_present(ev, store@, i as int),
            sum == crate::archive::packed_total(ev, store@, i as int),
        decreases entries@.len() - i,
    {
        let ghost ii = i as int;
        proof {
            assert(ev[ii] == entries@[ii]@);
        }
        match &entries[i] {
            crate::archive::ArchiveEntry::FileEntry { source_path, archive_path } => {
                match store.get_file(source_path.as_str()) {
                    None => {
                        return None;
                    },
                    Some(data) => {
                        let member = crate::archive::member_path(archive_path.as_str());
                        if !member.as_str().is_empty() {
                            let len = data.len() as u64;
                            if sum > u64::MAX - len {
                                proof {
                                    crate::archive::lemma_packed_total_mono(ev, store@, ii + 1, n);
                                }
                                return None;
                            }
                            sum = sum + len;
                        }
                    },
                }
            },
            crate::archive::ArchiveEntry::DirectoryEntry { .. } => {},
        }
        i += 1;
    }
    Some(sum)
}

/// Downloads one gallery and, when asked, packages the downloaded files
/// and the root directory entry into one compressed container, with the
/// same chunk size and byte accounting as the downloads themselves. A
/// failure while archiving is fatal for the archive step but leaves every
/// downloaded file in place.
pub fn download_gallery(
    gallery: &Gallery,
    behaviors: &Vec<ByteSource>,
    max_concurrency: usize,
    chunk_size: usize,
    zip_enabled: bool,
    store: &mut LocalStore,
    ledger: &mut Progress,
) -> (r: Result<(Vec<TransferResult>, Option<(Vec<u8>, u64)>), GalleryError>)
    requires
        gallery.counted(),
        behaviors@.len() == gallery@.images.len(),
        chunk_size >= 1,
        old(store).wf(),
        old(ledger).wf(),
    ensures
        final(store).wf(),
        final(ledger).wf(),
        ({
            let m = acquire_model(
                gallery@,
                behaviors@.map_values(|b: ByteSource| b@),
                max_concurrency as int,
                old(store)@,
            );
            let n = gallery@.images.len() as int;
            match r {
                Err(GalleryError::InvalidConcurrency) => max_concurrency == 0,
                Err(GalleryError::Setup(e)) => max_concurrency >= 1 && (e@ is FileSystemError
                    ==> old(store)@.has_dir(m.root) && *final(store) == *old(store)
                    && *final(ledger) == *old(ledger)) && (e@ is ZipError ==> zip_enabled && acquired_state(
                    old(store)@,
                    final(store)@,
                    old(ledger)@,
                    final(ledger)@,
                    m,
                    n,
                ) && m.failed_upto(n).len() == 0 && m.pending_upto(n).len() == 0 && ({
                    let plan = archive_entries_of(m.root, m.successes_upto(n));
                    let pn = m.successes_upto(n).len() as int + 1;
                    crate::archive::packed_total(plan, final(store)@, pn) > u64::MAX
                        || !crate::archive::packed_fits(plan, final(store)@, pn)
                })) && (e@ is FileSystemError || e@ is ZipError),
                Err(GalleryError::Items(fs, ps)) => max_concurrency >= 1 && !old(store)@.has_dir(
                    m.root,
                ) && fs@.len() + ps@.len() > 0 && failures_match(
                    fs@.map_values(|f: ItemFailure| f@),
                    m,
                    n,
                ) && ps@.map_values(|u: usize| u as int) == m.pending_upto(n) && acquired_state(
                    old(store)@,
                    final(store)@,
                    old(ledger)@,
                    final(ledger)@,
                    m,
                    n,
                ),
                Ok(p) => max_concurrency >= 1 && !old(store)@.has_dir(m.root)
                    && p.0@.map_values(|t: TransferResult| t@) == m.successes_upto(n)
                    && m.failed_upto(n).len() == 0 && m.pending_upto(n).len() == 0
                    && acquired_state(
                    old(store)@,
                    final(store)@,
                    old(ledger)@,
                    final(ledger)@,
                    m,
                    n,
                ) && (p.1 is Some <==> zip_enabled) && (p.1 matches Some(a) ==> ({
                    let plan = archive_entries_of(m.root, m.successes_upto(n));
                    let pn = m.successes_upto(n).len() as int + 1;
                    a.1 == crate::archive::packed_total(plan, final(store)@, pn) && a.0@
                        == crate::archive::container_of(
                        crate::archive::packed_log(plan, final(store)@, pn),
                    )
                })),
            }
        }),
{
    let ghost m = acquire_model(
        gallery@,
        behaviors@.map_values(|b: ByteSource| b@),
        max_concurrency as int,
        old(store)@,
    );
    let ghost n = gallery@.images.len() as int;
    let root = sanitize_title(gallery.title().as_str());
    let results = match acquire(gallery, behaviors, max_concurrency, chunk_size, store, ledger) {
        Err(e) => {
            return Err(e);
        },
        Ok(rs) => rs,
    };
    if !zip_enabled {
        return Ok((results, None));
    }
    let mut entries: Vec<crate::archive::ArchiveEntry> = Vec::new();
    entries.push(
        crate::archive::ArchiveEntry::DirectoryEntry { archive_path: root.clone() },
    );
    let ghost plan = archive_entries_of(m.root, m.successes_upto(n));
    let mut k: usize = 0;
    proof {
        assert(entries@.map_values(|e: crate::archive::ArchiveEntry| e@) =~= plan.take(1));
    }
    while k < results.len()
        invariant
            k <= results@.len(),
            results@.map_values(|t: TransferResult| t@) == m.successes_upto(n),
            plan == archive_entries_of(m.root, m.successes_upto(n)),
            entries@.len() == k + 1,
            entries@.map_values(|e: crate::archive::ArchiveEntry| e@) == plan.take(k + 1),
        decreases results@.len() - k,
    {
        let ghost map0 = entries@.map_values(|e: crate::archive::ArchiveEntry| e@);
        entries.push(
            crate::archive::ArchiveEntry::FileEntry {
                source_path: results[k].local_path.clone(),
                archive_path: results[k].local_path.clone(),
            },
        );
        proof {
            assert(results@[k as int]@ == m.successes_upto(n)[k as int]);
            assert(plan[k + 1] == (crate::archive::ArchiveEntryV::FileEntry {
                source_path: m.successes_upto(n)[k as int].local_path,
                archive_path: m.successes_upto(n)[k as int].local_path,
            }));
            assert(entries@.map_values(|e: crate::archive::ArchiveEntry| e@) =~= map0.push(
                plan[k + 1],
            ));
            assert(map0.push(plan[k + 1]) =~= plan.take(k + 2));
        }
        k += 1;
    }
    proof {
        assert(plan.take(results@.len() as int + 1) =~= plan);
        lemma_success_paths_present(m, n);
        assert forall|j: int| 0 <= j < plan.len() implies match #[trigger] plan[j] {
            crate::archive::ArchiveEntryV::FileEntry { source_path, .. } => store@.has_file(
                source_path,
            ),
            crate::archive::ArchiveEntryV::DirectoryEntry { .. } => true,
        } by {
            if j >= 1 {
                assert(plan[j] == (crate::archive::ArchiveEntryV::FileEntry {
                    source_path: m.successes_upto(n)[j - 1].local_path,
                    archive_path: m.successes_upto(n)[j - 1].local_path,
                }));
                assert(m.names_after(n).contains(m.successes_upto(n)[j - 1].local_path));
            }
        }
    }
    match packed_total_of(&entries, store) {
        None => Err(
            GalleryError::Setup(
                DownloadError::ZipError(
                    crate::archive::ZipError::ZipOpenError(
                        String::from_str("archive would overflow the byte counter"),
                    ),
                ),
            ),
        ),
        Some(_) => {
            match crate::archive::package(&entries, store, chunk_size) {
                Err(e) => Err(GalleryError::Setup(DownloadError::ZipError(e))),
                Ok(packed) => Ok((results, Some(packed))),
            }
        },
    }
}

/// Cuts a name down to fit a progress label: names of
/// `TITLE_DISPLAY_LENGTH` characters or more keep only their first
/// `TITLE_DISPLAY_LENGTH - 3`.
pub fn try_truncate(raw: &String) -> (r: String)
    ensures
        r@ == if raw@.len() >= TITLE_DISPLAY_LENGTH {
            raw@.take(TITLE_DISPLAY_LENGTH - 3)
        } else {
            raw@
        },
{
    let n = raw.as_str().unicode_len();
    if n < TITLE_DISPLAY_LENGTH {
        return raw.clone();
    }
    let mut out = String::new();
    let mut i: usize = 0;
    while i < TITLE_DISPLAY_LENGTH - 3
        invariant
            i <= TITLE_DISPLAY_LENGTH - 3,
            TITLE_DISPLAY_LENGTH - 3 <= n,
            n == raw@.len(),
            out@ == raw@.take(i as int),
        decreases TITLE_DISPLAY_LENGTH - 3 - i,
    {
        let c = raw.as_str().get_char(i);
        out.push(c);
        proof {
            assert(out@ =~= raw@.take(i + 1));
        }
        i += 1;
    }
    out
}

} // verus!

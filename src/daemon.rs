//! State of the print daemon: the render cache, the job table and the queue
//! that hands jobs one at a time to the single print worker.
use vstd::prelude::*;

use crate::codec::PackedLine;
use crate::raster::{
    DitherMethod, GrayImage, binarize_preview, binarized, decoded_gray, encodable, encode_png,
    lines_view, load_for_print, pack_bw_image, packed_lines, png_encoding,
    png_signature, resize_height, trim,
};
use crate::text::{id_text, is_blank_text, is_white_space, next_id, str_eq};

verus! {

/// Jobs that can wait in the queue at once.
pub const QUEUE_CAPACITY: usize = 64;

/// Density used when a render request names none.
pub const DEFAULT_DENSITY: u8 = 3;

#[derive(Debug, Clone, Copy, PartialEq, Eq, Structural)]
pub enum JobStatus {
    Queued,
    Printing,
    Done,
    Failed,
}

/// A print job as clients see it.
#[derive(Debug, Clone)]
pub struct JobRecord {
    pub id: String,
    pub render_id: String,
    pub address: String,
    pub density: u8,
    pub status: JobStatus,
    pub error: Option<String>,
}

/// A rendered sticker: its preview, its wire lines and its print settings.
#[derive(Debug, Clone)]
pub struct RenderArtifact {
    pub preview_png: Vec<u8>,
    pub packed_lines: Vec<PackedLine>,
    pub density: u8,
    pub address_override: Option<String>,
}

/// What the worker needs to run one job.
#[derive(Debug, Clone)]
pub struct PrintCommand {
    pub job_id: String,
    pub render_id: String,
    pub address: String,
    pub density: u8,
    pub lines: Vec<PackedLine>,
}

/// Why a request is refused.
#[derive(Debug, Clone, Copy, PartialEq, Eq, Structural)]
pub enum ApiError {
    /// The text holds nothing but white space.
    EmptyText,
    /// The width is 0 where that is not allowed, or over 384.
    WidthOutOfRange,
    /// The image payload is not valid base64.
    InvalidBase64,
    /// The decoded payload is no image that the decoder reads.
    InvalidImage,
    /// Nothing is left to print once blank lines are trimmed.
    BlankRender,
    /// The density is outside `0..=7`.
    InvalidDensity,
    /// No address in the request, the render or the daemon's settings.
    MissingAddress,
    RenderNotFound,
    JobNotFound,
    /// The queue is full, or no further identifiers can be issued.
    QueueUnavailable,
    /// The preview cannot be encoded: it is empty or too large.
    Encode,
}

pub open spec fn opt_view(o: Option<String>) -> Option<Seq<char>> {
    match o {
        Some(s) => Some(s@),
        None => None,
    }
}

pub struct JobModel {
    pub id: Seq<char>,
    pub render_id: Seq<char>,
    pub address: Seq<char>,
    pub density: u8,
    pub status: JobStatus,
    pub error: Option<Seq<char>>,
}

impl View for JobRecord {
    type V = JobModel;

    open spec fn view(&self) -> JobModel {
        JobModel {
            id: self.id@,
            render_id: self.render_id@,
            address: self.address@,
            density: self.density,
            status: self.status,
            error: opt_view(self.error),
        }
    }
}

pub struct RenderModel {
    pub id: Seq<char>,
    pub preview_png: Seq<u8>,
    pub lines: Seq<Seq<u8>>,
    pub density: u8,
    pub address: Option<Seq<char>>,
}

pub struct DaemonModel {
    pub default_address: Option<Seq<char>>,
    pub renders: Seq<RenderModel>,
    pub jobs: Seq<JobModel>,
    /// Positions in `jobs` of the queued jobs, oldest first.
    pub queue: Seq<int>,
    /// Position in `jobs` of the job being printed.
    pub active: Option<int>,
}

/// Number of jobs being printed.
pub open spec fn printing_count(jobs: Seq<JobModel>) -> nat
    decreases jobs.len(),
{
    if jobs.len() == 0 {
        0
    } else {
        printing_count(jobs.drop_last()) + if jobs.last().status == JobStatus::Printing {
            1nat
        } else {
            0nat
        }
    }
}

/// `i` is the first render with this identifier.
pub open spec fn is_first_render(renders: Seq<RenderModel>, id: Seq<char>, i: int) -> bool {
    0 <= i < renders.len() && renders[i].id == id && forall|j: int|
        0 <= j < i ==> #[trigger] renders[j].id != id
}

pub open spec fn render_position(renders: Seq<RenderModel>, id: Seq<char>) -> Option<int> {
    if exists|i: int| is_first_render(renders, id, i) {
        Some(choose|i: int| is_first_render(renders, id, i))
    } else {
        None
    }
}

/// `i` is the first job with this identifier.
pub open spec fn is_first_job(jobs: Seq<JobModel>, id: Seq<char>, i: int) -> bool {
    0 <= i < jobs.len() && jobs[i].id == id && forall|j: int|
        0 <= j < i ==> #[trigger] jobs[j].id != id
}

pub open spec fn job_position(jobs: Seq<JobModel>, id: Seq<char>) -> Option<int> {
    if exists|i: int| is_first_job(jobs, id, i) {
        Some(choose|i: int| is_first_job(jobs, id, i))
    } else {
        None
    }
}

/// The first address present among the three.
pub open spec fn first_address(
    a: Option<Seq<char>>,
    b: Option<Seq<char>>,
    c: Option<Seq<char>>,
) -> Option<Seq<char>> {
    if a is Some {
        a
    } else if b is Some {
        b
    } else {
        c
    }
}

/// The outcome of storing a render of `preview` with these wire lines: refused
/// with the state unchanged when no line is left, the density is over 7, no
/// identifier is left or the preview cannot be encoded; else stored as `r_<n>`.
pub open spec fn stored_render(
    old: DaemonModel,
    new: DaemonModel,
    outcome: Result<Seq<char>, ApiError>,
    preview: GrayImage,
    lines: Seq<Seq<u8>>,
    density: u8,
    address: Option<Seq<char>>,
) -> bool {
    if lines.len() == 0 {
        outcome == Err::<Seq<char>, ApiError>(ApiError::BlankRender) && new == old
    } else if density > 7 {
        outcome == Err::<Seq<char>, ApiError>(ApiError::InvalidDensity) && new == old
    } else if old.renders.len() + 1 >= u64::MAX {
        outcome == Err::<Seq<char>, ApiError>(ApiError::QueueUnavailable) && new == old
    } else if !encodable(preview) {
        outcome == Err::<Seq<char>, ApiError>(ApiError::Encode) && new == old
    } else {
        let id = id_text("r"@, (old.renders.len() + 1) as nat);
        &&& outcome == Ok::<Seq<char>, ApiError>(id)
        &&& new == (DaemonModel {
            renders: old.renders.push(
                RenderModel {
                    id,
                    preview_png: png_encoding(
                        preview.width as nat,
                        preview.height as nat,
                        preview.pixels@,
                    ),
                    lines,
                    density,
                    address,
                },
            ),
            ..old
        })
    }
}

pub open spec fn id_outcome(r: Result<String, ApiError>) -> Result<Seq<char>, ApiError> {
    match r {
        Ok(id) => Ok(id@),
        Err(e) => Err(e),
    }
}

/// An image render request, defaults not yet applied: width 384, threshold 180,
/// Floyd-Steinberg, no inversion, blank lines trimmed, density 3.
pub struct ImageRenderRequest {
    pub image_base64: String,
    pub width_px: Option<u32>,
    pub max_height_px: Option<u32>,
    pub threshold: Option<u8>,
    pub dither_method: Option<DitherMethod>,
    pub invert: Option<bool>,
    pub trim_blank_top_bottom: Option<bool>,
    pub density: Option<u8>,
    pub address: Option<String>,
}

/// A stored render: its identifier, the black-and-white preview and its line count.
pub struct RenderSummary {
    pub render_id: String,
    pub preview: GrayImage,
    pub packed_lines: usize,
}

pub open spec fn summary_outcome(r: Result<RenderSummary, ApiError>) -> Result<Seq<char>, ApiError> {
    match r {
        Ok(s) => Ok(s.render_id@),
        Err(e) => Err(e),
    }
}

/// The wire lines of a black-and-white image, trimmed when asked.
pub open spec fn bw_lines(bw: GrayImage, trim_blank: bool) -> Seq<Seq<u8>> {
    if trim_blank {
        trim(packed_lines(bw, 0))
    } else {
        packed_lines(bw, 0)
    }
}

/// `bw` is the black-and-white preview, under the request's settings, of
/// `resized`: an image at print width whose height follows the aspect ratio of
/// the decoded image `d`. (The resampled pixels themselves are not known.)
pub open spec fn prepared_from(
    req: ImageRenderRequest,
    d: (nat, nat, Seq<u8>),
    resized: GrayImage,
    bw: GrayImage,
) -> bool {
    let width = req.width_px.unwrap_or(384);
    let method = match req.dither_method {
        Some(m) => m,
        None => DitherMethod::FloydSteinberg,
    };
    &&& resized.wf()
    &&& resized.width == width
    &&& resized.height == resize_height(d.0 as u32, d.1 as u32, width, req.max_height_px)
    &&& binarized(resized, bw, req.threshold.unwrap_or(180), method, req.invert.unwrap_or(false))
}

/// Some resized image of the decoded image `d` has `bw` as its preview.
pub open spec fn prepared(req: ImageRenderRequest, d: (nat, nat, Seq<u8>), bw: GrayImage) -> bool {
    exists|resized: GrayImage| #[trigger] prepared_from(req, d, resized, bw)
}

/// The outcome of preparing an image render: the width check, then base64, then
/// image decoding, then the black-and-white preview.
pub open spec fn prepare_outcome(req: ImageRenderRequest, r: Result<GrayImage, ApiError>) -> bool {
    let width = req.width_px.unwrap_or(384);
    if width == 0 || width > 384 {
        r == Err::<GrayImage, ApiError>(ApiError::WidthOutOfRange)
    } else {
        match base64_decoding(req.image_base64@) {
            None => r == Err::<GrayImage, ApiError>(ApiError::InvalidBase64),
            Some(bytes) => match decoded_gray(bytes) {
                None => r == Err::<GrayImage, ApiError>(ApiError::InvalidImage),
                Some(d) => r matches Ok(bw) && prepared(req, d, bw),
            },
        }
    }
}

/// The outcome of storing the black-and-white image `bw`: its wire lines
/// (trimmed when asked) and its PNG preview are stored as `stored_render` says.
pub open spec fn image_stored(
    bw: GrayImage,
    trim_blank: bool,
    density: Option<u8>,
    address: Option<Seq<char>>,
    old: DaemonModel,
    new: DaemonModel,
    r: Result<RenderSummary, ApiError>,
) -> bool {
    let lines = bw_lines(bw, trim_blank);
    &&& stored_render(
        old,
        new,
        summary_outcome(r),
        bw,
        lines,
        density.unwrap_or(DEFAULT_DENSITY),
        address,
    )
    &&& r matches Ok(s) ==> s.preview.wf() && s.preview.width == bw.width && s.preview.height
        == bw.height && s.preview.pixels@ == bw.pixels@ && s.packed_lines == lines.len()
}

/// What a render of the decoded image `d` comes to, with `resized` and `bw` as
/// witnesses of the preparation.
pub open spec fn image_render_done(
    req: ImageRenderRequest,
    d: (nat, nat, Seq<u8>),
    resized: GrayImage,
    bw: GrayImage,
    old: DaemonModel,
    new: DaemonModel,
    r: Result<RenderSummary, ApiError>,
) -> bool {
    &&& prepared_from(req, d, resized, bw)
    &&& image_stored(
        bw,
        req.trim_blank_top_bottom.unwrap_or(true),
        req.density,
        opt_view(req.address),
        old,
        new,
        r,
    )
}

spec fn has_render(renders: Seq<StoredRender>, id: Seq<char>) -> bool {
    exists|k: int| 0 <= k < renders.len() && (#[trigger] renders[k]).id@ == id
}

struct StoredRender {
    id: String,
    artifact: RenderArtifact,
}

impl StoredRender {
    spec fn model(&self) -> RenderModel {
        RenderModel {
            id: self.id@,
            preview_png: self.artifact.preview_png@,
            lines: lines_view(self.artifact.packed_lines@),
            density: self.artifact.density,
            address: opt_view(self.artifact.address_override),
        }
    }
}

/// The daemon's state. Renders and jobs are kept for the daemon's lifetime;
/// `r_<n>` and `j_<n>` name the n-th of each.
pub struct Daemon {
    default_address: Option<String>,
    renders: Vec<StoredRender>,
    jobs: Vec<JobRecord>,
    queue: Vec<usize>,
    active: Option<usize>,
    render_seq: u64,
    job_seq: u64,
}

impl View for Daemon {
    type V = DaemonModel;

    closed spec fn view(&self) -> DaemonModel {
        DaemonModel {
            default_address: opt_view(self.default_address),
            renders: self.renders@.map_values(|r: StoredRender| r.model()),
            jobs: self.jobs@.map_values(|j: JobRecord| j@),
            queue: self.queue@.map_values(|i: usize| i as int),
            active: match self.active {
                Some(i) => Some(i as int),
                None => None,
            },
        }
    }
}

fn copy_string_opt(o: &Option<String>) -> (r: Option<String>)
    ensures
        opt_view(r) == opt_view(*o),
{
    match o {
        Some(s) => Some(s.clone()),
        None => None,
    }
}

fn copy_lines(v: &Vec<PackedLine>) -> (r: Vec<PackedLine>)
    ensures
        r@ == v@,
{
    let mut out: Vec<PackedLine> = Vec::new();
    let mut i: usize = 0;
    while i < v.len()
        invariant
            i <= v@.len(),
            out@ == v@.subrange(0, i as int),
        decreases v.len() - i,
    {
        out.push(v[i]);
        i = i + 1;
        proof {
            assert(out@ =~= v@.subrange(0, i as int));
        }
    }
    proof {
        assert(v@.subrange(0, v@.len() as int) =~= v@);
    }
    out
}

fn copy_job(j: &JobRecord) -> (r: JobRecord)
    ensures
        r@ == j@,
{
    JobRecord {
        id: j.id.clone(),
        render_id: j.render_id.clone(),
        address: j.address.clone(),
        density: j.density,
        status: j.status,
        error: copy_string_opt(&j.error),
    }
}

/// Whether a job in this state is finished for good.
pub fn is_terminal(status: JobStatus) -> (r: bool)
    ensures
        r == (status == JobStatus::Done || status == JobStatus::Failed),
{
    match status {
        JobStatus::Done | JobStatus::Failed => true,
        _ => false,
    }
}

/// What a long-poll does after one look at the job.
#[derive(Debug, Clone, Copy, PartialEq, Eq, Structural)]
pub enum WaitStep {
    /// No such job.
    NotFound,
    /// The job is done or failed: answer now.
    Finished,
    /// The time is up while the job still runs: answer with its current state.
    TimedOut,
    /// Look again after a pause.
    Poll,
}

/// One pass of the long-poll: `status` is the job's, if it exists.
pub fn wait_step(status: Option<JobStatus>, deadline_passed: bool) -> (r: WaitStep)
    ensures
        status is None ==> r == WaitStep::NotFound,
        status matches Some(s) ==> (r == if s == JobStatus::Done || s == JobStatus::Failed {
            WaitStep::Finished
        } else if deadline_passed {
            WaitStep::TimedOut
        } else {
            WaitStep::Poll
        }),
{
    match status {
        None => WaitStep::NotFound,
        Some(s) => {
            if is_terminal(s) {
                WaitStep::Finished
            } else if deadline_passed {
                WaitStep::TimedOut
            } else {
                WaitStep::Poll
            }
        },
    }
}

impl Daemon {
    /// The invariant: identifiers follow positions, every job names a stored
    /// render, queued jobs are `Queued`, and the one job being printed, if any,
    /// is the active one.
    pub closed spec fn wf(&self) -> bool {
        &&& self.render_seq == self.renders@.len() + 1
        &&& self.job_seq == self.jobs@.len() + 1
        &&& forall|i: int|
            0 <= i < self.renders@.len() ==> (#[trigger] self.renders@[i]).id@ == id_text(
                "r"@,
                (i + 1) as nat,
            )
        &&& forall|i: int|
            0 <= i < self.jobs@.len() ==> (#[trigger] self.jobs@[i]).id@ == id_text(
                "j"@,
                (i + 1) as nat,
            )
        &&& forall|i: int|
            0 <= i < self.jobs@.len() ==> has_render(self.renders@, (#[trigger] self.jobs@[i]).render_id@)
        &&& self.queue@.len() <= QUEUE_CAPACITY
        &&& forall|k1: int, k2: int|
            0 <= k1 < k2 < self.queue@.len() ==> #[trigger] self.queue@[k1] != #[trigger] self.queue@[k2]
        &&& forall|k: int|
            0 <= k < self.queue@.len() ==> #[trigger] self.queue@[k] < self.jobs@.len()
                && self.jobs@[self.queue@[k] as int].status == JobStatus::Queued
        &&& self.active matches Some(a) ==> a < self.jobs@.len() && self.jobs@[a as int].status
            == JobStatus::Printing
        &&& forall|i: int|
            0 <= i < self.jobs@.len() && (#[trigger] self.jobs@[i]).status == JobStatus::Printing
                ==> (self.active matches Some(a) && a as int == i)
    }

    proof fn lemma_view_facts(&self)
        ensures
            self@.renders.len() == self.renders@.len(),
            self@.jobs.len() == self.jobs@.len(),
            self@.queue.len() == self.queue@.len(),
            forall|i: int| 0 <= i < self.jobs@.len() ==> #[trigger] self@.jobs[i] == self.jobs@[i]@,
            forall|i: int|
                0 <= i < self.renders@.len() ==> #[trigger] self@.renders[i]
                    == self.renders@[i].model(),
            forall|k: int| 0 <= k < self.queue@.len() ==> #[trigger] self@.queue[k] == self.queue@[k] as int,
    {
    }

    pub fn new(default_address: Option<String>) -> (r: Daemon)
        ensures
            r.wf(),
            r@ == (DaemonModel {
                default_address: opt_view(default_address),
                renders: seq![],
                jobs: seq![],
                queue: seq![],
                active: None,
            }),
    {
        let r = Daemon {
            default_address,
            renders: Vec::new(),
            jobs: Vec::new(),
            queue: Vec::new(),
            active: None,
            render_seq: 1,
            job_seq: 1,
        };
        proof {
            assert(r@.renders =~= seq![]);
            assert(r@.jobs =~= seq![]);
            assert(r@.queue =~= seq![]);
        }
        r
    }

    fn find_render(&self, id: &str) -> (r: Option<usize>)
        ensures
            r is None ==> forall|i: int|
                0 <= i < self.renders@.len() ==> (#[trigger] self.renders@[i]).id@ != id@,
            r matches Some(i) ==> is_first_render(self@.renders, id@, i as int),
    {
        proof {
            self.lemma_view_facts();
        }
        let mut i: usize = 0;
        while i < self.renders.len()
            invariant
                i <= self.renders@.len(),
                self@.renders.len() == self.renders@.len(),
                forall|j: int|
                    0 <= j < self.renders@.len() ==> #[trigger] self@.renders[j]
                        == self.renders@[j].model(),
                forall|j: int| 0 <= j < i ==> (#[trigger] self.renders@[j]).id@ != id@,
            decreases self.renders.len() - i,
        {
            if str_eq(self.renders[i].id.as_str(), id) {
                proof {
                    assert forall|j: int| 0 <= j < i implies #[trigger] self@.renders[j].id != id@ by {
                        assert(self@.renders[j] == self.renders@[j].model());
                    }
                }
                return Some(i);
            }
            i = i + 1;
        }
        None
    }

    fn find_job(&self, id: &str) -> (r: Option<usize>)
        ensures
            r is None ==> forall|i: int|
                0 <= i < self.jobs@.len() ==> (#[trigger] self.jobs@[i]).id@ != id@,
            r matches Some(i) ==> is_first_job(self@.jobs, id@, i as int),
    {
        proof {
            self.lemma_view_facts();
        }
        let mut i: usize = 0;
        while i < self.jobs.len()
            invariant
                i <= self.jobs@.len(),
                self@.jobs.len() == self.jobs@.len(),
                forall|j: int| 0 <= j < self.jobs@.len() ==> #[trigger] self@.jobs[j] == self.jobs@[j]@,
                forall|j: int| 0 <= j < i ==> (#[trigger] self.jobs@[j]).id@ != id@,
            decreases self.jobs.len() - i,
        {
            if str_eq(self.jobs[i].id.as_str(), id) {
                proof {
                    assert forall|j: int| 0 <= j < i implies #[trigger] self@.jobs[j].id != id@ by {
                        assert(self@.jobs[j] == self.jobs@[j]@);
                    }
                }
                return Some(i);
            }
            i = i + 1;
        }
        None
    }
}

proof fn lemma_first_render_unique(renders: Seq<RenderModel>, id: Seq<char>, i: int)
    requires
        is_first_render(renders, id, i),
    ensures
        render_position(renders, id) == Some(i),
{
    let k = choose|k: int| is_first_render(renders, id, k);
    assert(is_first_render(renders, id, k));
    if k < i {
        assert(renders[k].id != id);
    } else if k > i {
        assert(renders[i].id != id);
    }
}

proof fn lemma_no_render(renders: Seq<RenderModel>, id: Seq<char>)
    requires
        forall|i: int| 0 <= i < renders.len() ==> (#[trigger] renders[i]).id != id,
    ensures
        render_position(renders, id) is None,
{
    if exists|i: int| is_first_render(renders, id, i) {
        let k = choose|k: int| is_first_render(renders, id, k);
        assert(renders[k].id == id);
    }
}

proof fn lemma_first_job_unique(jobs: Seq<JobModel>, id: Seq<char>, i: int)
    requires
        is_first_job(jobs, id, i),
    ensures
        job_position(jobs, id) == Some(i),
{
    let k = choose|k: int| is_first_job(jobs, id, k);
    assert(is_first_job(jobs, id, k));
    if k < i {
        assert(jobs[k].id != id);
    } else if k > i {
        assert(jobs[i].id != id);
    }
}

proof fn lemma_no_job(jobs: Seq<JobModel>, id: Seq<char>)
    requires
        forall|i: int| 0 <= i < jobs.len() ==> (#[trigger] jobs[i]).id != id,
    ensures
        job_position(jobs, id) is None,
{
    if exists|i: int| is_first_job(jobs, id, i) {
        let k = choose|k: int| is_first_job(jobs, id, k);
        assert(jobs[k].id == id);
    }
}

proof fn lemma_no_printing(jobs: Seq<JobModel>)
    requires
        forall|i: int| 0 <= i < jobs.len() ==> (#[trigger] jobs[i]).status != JobStatus::Printing,
    ensures
        printing_count(jobs) == 0,
    decreases jobs.len(),
{
    if jobs.len() > 0 {
        let rest = jobs.drop_last();
        assert forall|i: int| 0 <= i < rest.len() implies (#[trigger] rest[i]).status
            != JobStatus::Printing by {
            assert(rest[i] == jobs[i]);
        }
        lemma_no_printing(rest);
    }
}

proof fn lemma_printing_at_most(jobs: Seq<JobModel>, a: Option<int>)
    requires
        forall|i: int|
            0 <= i < jobs.len() && (#[trigger] jobs[i]).status == JobStatus::Printing ==> a == Some(
                i,
            ),
        a matches Some(k) ==> 0 <= k < jobs.len() && jobs[k].status == JobStatus::Printing,
    ensures
        printing_count(jobs) == if a is Some {
            1nat
        } else {
            0nat
        },
    decreases jobs.len(),
{
    if jobs.len() == 0 {
        return;
    }
    let rest = jobs.drop_last();
    let last = jobs.len() - 1;
    if jobs[last].status == JobStatus::Printing {
        assert(a == Some(last));
        assert forall|i: int| 0 <= i < rest.len() implies (#[trigger] rest[i]).status
            != JobStatus::Printing by {
            assert(rest[i] == jobs[i]);
            if jobs[i].status == JobStatus::Printing {
                assert(a == Some(i));
            }
        }
        lemma_no_printing(rest);
    } else {
        assert forall|i: int|
            0 <= i < rest.len() && (#[trigger] rest[i]).status == JobStatus::Printing implies a
            == Some(i) by {
            assert(rest[i] == jobs[i]);
        }
        if let Some(k) = a {
            assert(k != last);
            assert(rest[k] == jobs[k]);
        }
        lemma_printing_at_most(rest, a);
    }
}

/// At most one print session: in every state that the daemon's operations reach,
/// at most one job is being printed, and it is the active one.
pub proof fn lemma_at_most_one_session(d: &Daemon)
    requires
        d.wf(),
    ensures
        printing_count(d@.jobs) <= 1,
        printing_count(d@.jobs) == if d@.active is Some {
            1nat
        } else {
            0nat
        },
{
    d.lemma_view_facts();
    let jobs = d@.jobs;
    assert forall|i: int|
        0 <= i < jobs.len() && (#[trigger] jobs[i]).status == JobStatus::Printing implies d@.active
        == Some(i) by {
        assert(jobs[i] == d.jobs@[i]@);
        assert(d.jobs@[i].status == JobStatus::Printing);
    }
    if let Some(k) = d@.active {
        assert(jobs[k] == d.jobs@[k]@);
    }
    lemma_printing_at_most(jobs, d@.active);
}

/// What the daemon's invariant gives its callers: queued entries are distinct
/// positions of `Queued` jobs, at most 64 of them, and the active position, if any,
/// holds the job being printed.
pub proof fn lemma_queue_positions(d: &Daemon)
    requires
        d.wf(),
    ensures
        d@.queue.len() <= QUEUE_CAPACITY,
        forall|k: int|
            0 <= k < d@.queue.len() ==> 0 <= #[trigger] d@.queue[k] < d@.jobs.len()
                && d@.jobs[d@.queue[k]].status == JobStatus::Queued,
        forall|k1: int, k2: int|
            0 <= k1 < k2 < d@.queue.len() ==> #[trigger] d@.queue[k1] != #[trigger] d@.queue[k2],
        d@.active matches Some(a) ==> 0 <= a < d@.jobs.len() && d@.jobs[a].status
            == JobStatus::Printing,
{
    d.lemma_view_facts();
    assert forall|k: int| 0 <= k < d@.queue.len() implies 0 <= #[trigger] d@.queue[k] < d@.jobs.len()
        && d@.jobs[d@.queue[k]].status == JobStatus::Queued by {
        assert(d@.queue[k] == d.queue@[k] as int);
        assert(d@.jobs[d@.queue[k]] == d.jobs@[d.queue@[k] as int]@);
    }
    assert forall|k1: int, k2: int| 0 <= k1 < k2 < d@.queue.len() implies #[trigger] d@.queue[k1]
        != #[trigger] d@.queue[k2] by {
        assert(d.queue@[k1] != d.queue@[k2]);
    }
    if let Some(a) = d@.active {
        assert(d@.jobs[a] == d.jobs@[a]@);
    }
}

/// Job identifiers follow creation order: the job created i-th is `j_<i+1>`, so of
/// two jobs the later one carries the larger number. (Jobs are only appended:
/// `queue_print` pushes and the other operations keep the table's length.)
pub proof fn lemma_job_ids_increase(d: &Daemon, i: int, j: int)
    requires
        d.wf(),
        0 <= i < j < d@.jobs.len(),
    ensures
        d@.jobs[i].id == id_text("j"@, (i + 1) as nat),
        d@.jobs[j].id == id_text("j"@, (j + 1) as nat),
        i + 1 < j + 1,
{
    d.lemma_view_facts();
    assert(d@.jobs[i] == d.jobs@[i]@);
    assert(d@.jobs[j] == d.jobs@[j]@);
}

impl Daemon {
    /// Stores a render: its preview image, encoded as PNG, and its wire lines.
    /// Refused when no line is left, when the density (3 when absent) is over 7,
    /// when no identifier is left, or when the preview is empty or too large to encode.
    pub fn create_render(
        &mut self,
        preview: &GrayImage,
        packed_lines: Vec<PackedLine>,
        density: Option<u8>,
        address: Option<String>,
    ) -> (r: Result<String, ApiError>)
        requires
            old(self).wf(),
            preview.wf(),
        ensures
            final(self).wf(),
            stored_render(
                old(self)@,
                final(self)@,
                id_outcome(r),
                *preview,
                lines_view(packed_lines@),
                density.unwrap_or(DEFAULT_DENSITY),
                opt_view(address),
            ),
            r is Ok ==> png_encoding(preview.width as nat, preview.height as nat, preview.pixels@).len()
                >= 8 && png_encoding(preview.width as nat, preview.height as nat, preview.pixels@).subrange(
                0,
                8,
            ) == png_signature(),
    {
        if packed_lines.len() == 0 {
            return Err(ApiError::BlankRender);
        }
        let d = match density {
            Some(d) => d,
            None => DEFAULT_DENSITY,
        };
        if d > 7 {
            return Err(ApiError::InvalidDensity);
        }
        if self.render_seq >= u64::MAX {
            return Err(ApiError::QueueUnavailable);
        }
        let png = match encode_png(preview) {
            Ok(b) => b,
            Err(_) => {
                return Err(ApiError::Encode);
            },
        };
        let ghost before = *self;
        let id = next_id("r", &mut self.render_seq);
        let stored = StoredRender {
            id: id.clone(),
            artifact: RenderArtifact {
                preview_png: png,
                packed_lines,
                density: d,
                address_override: address,
            },
        };
        self.renders.push(stored);
        proof {
            before.lemma_view_facts();
            assert(self.renders@ == before.renders@.push(stored));
            assert forall|i: int| 0 <= i < self.renders@.len() implies (
            #[trigger] self.renders@[i]).id@ == id_text("r"@, (i + 1) as nat) by {
                if i < before.renders@.len() {
                    assert(self.renders@[i] == before.renders@[i]);
                }
            }
            assert forall|i: int| 0 <= i < self.jobs@.len() implies has_render(
                self.renders@,
                (#[trigger] self.jobs@[i]).render_id@,
            ) by {
                assert(has_render(before.renders@, before.jobs@[i].render_id@));
                let k = choose|k: int|
                    0 <= k < before.renders@.len() && (#[trigger] before.renders@[k]).id@
                        == before.jobs@[i].render_id@;
                assert(self.renders@[k] == before.renders@[k]);
            }
            assert(self@.renders =~= before@.renders.push(stored.model()));
        }
        Ok(id)
    }
}

impl Daemon {
    /// Queues a print of a stored render. The address is the request's, else the
    /// render's, else the daemon's default; the density is the request's, else the
    /// render's. When the queue is full the request is refused and nothing is
    /// recorded; otherwise the job is recorded as `Queued` and handed to the worker.
    pub fn queue_print(&mut self, render_id: &str, address: Option<String>, density: Option<u8>) -> (r:
        Result<String, ApiError>)
        requires
            old(self).wf(),
        ensures
            final(self).wf(),
            match render_position(old(self)@.renders, render_id@) {
                None => r == Err::<String, ApiError>(ApiError::RenderNotFound) && final(self)@ == old(
                    self,
                )@,
                Some(k) => {
                    let rm = old(self)@.renders[k];
                    let addr = first_address(
                        opt_view(address),
                        rm.address,
                        old(self)@.default_address,
                    );
                    let d = match density {
                        Some(d) => d,
                        None => rm.density,
                    };
                    let n = old(self)@.jobs.len();
                    let job = JobModel {
                        id: id_text("j"@, (n + 1) as nat),
                        render_id: render_id@,
                        address: addr->0,
                        density: d,
                        status: JobStatus::Queued,
                        error: None,
                    };
                    if addr is None {
                        r == Err::<String, ApiError>(ApiError::MissingAddress) && final(self)@ == old(
                            self,
                        )@
                    } else if d > 7 {
                        r == Err::<String, ApiError>(ApiError::InvalidDensity) && final(self)@ == old(
                            self,
                        )@
                    } else if n + 1 >= u64::MAX {
                        r == Err::<String, ApiError>(ApiError::QueueUnavailable) && final(self)@
                            == old(self)@
                    } else if old(self)@.queue.len() >= QUEUE_CAPACITY {
                        r == Err::<String, ApiError>(ApiError::QueueUnavailable) && final(self)@
                            == old(self)@
                    } else {
                        r is Ok && r->Ok_0@ == job.id && final(self)@ == (DaemonModel {
                            jobs: old(self)@.jobs.push(job),
                            queue: old(self)@.queue.push(n as int),
                            ..old(self)@
                        })
                    }
                },
            },
    {
        proof {
            self.lemma_view_facts();
        }
        let k = match self.find_render(render_id) {
            Some(k) => k,
            None => {
                proof {
                    lemma_no_render(self@.renders, render_id@);
                }
                return Err(ApiError::RenderNotFound);
            },
        };
        proof {
            lemma_first_render_unique(self@.renders, render_id@, k as int);
        }
        let chosen = match address {
            Some(a) => Some(a),
            None => match &self.renders[k].artifact.address_override {
                Some(a) => Some(a.clone()),
                None => copy_string_opt(&self.default_address),
            },
        };
        let addr = match chosen {
            Some(a) => a,
            None => {
                return Err(ApiError::MissingAddress);
            },
        };
        let d = match density {
            Some(d) => d,
            None => self.renders[k].artifact.density,
        };
        if d > 7 {
            return Err(ApiError::InvalidDensity);
        }
        if self.job_seq >= u64::MAX || self.queue.len() >= QUEUE_CAPACITY {
            return Err(ApiError::QueueUnavailable);
        }
        let ghost before = *self;
        let position = self.jobs.len();
        let id = next_id("j", &mut self.job_seq);
        let record = JobRecord {
            id: id.clone(),
            render_id: render_id.to_owned(),
            address: addr,
            density: d,
            status: JobStatus::Queued,
            error: None,
        };
        self.jobs.push(record);
        proof {
            before.lemma_view_facts();
            assert(self.jobs@ == before.jobs@.push(record));
            assert forall|i: int| 0 <= i < self.jobs@.len() implies (#[trigger] self.jobs@[i]).id@
                == id_text("j"@, (i + 1) as nat) by {
                if i < before.jobs@.len() {
                    assert(self.jobs@[i] == before.jobs@[i]);
                }
            }
            assert forall|i: int| 0 <= i < self.jobs@.len() implies has_render(
                self.renders@,
                (#[trigger] self.jobs@[i]).render_id@,
            ) by {
                if i < before.jobs@.len() {
                    assert(self.jobs@[i] == before.jobs@[i]);
                } else {
                    assert((self.renders@[k as int]).id@ == render_id@);
                }
            }
            assert forall|k2: int| 0 <= k2 < self.queue@.len() implies #[trigger] self.queue@[k2]
                < self.jobs@.len() && self.jobs@[self.queue@[k2] as int].status
                == JobStatus::Queued by {
                assert(self.jobs@[self.queue@[k2] as int] == before.jobs@[self.queue@[k2] as int]);
            }
            if let Some(a) = self.active {
                assert(self.jobs@[a as int] == before.jobs@[a as int]);
            }
            assert forall|i: int|
                0 <= i < self.jobs@.len() && (#[trigger] self.jobs@[i]).status == JobStatus::Printing
                    implies (self.active matches Some(a) && a as int == i) by {
                assert(self.jobs@[i] == before.jobs@[i]);
            }
            assert(self@.jobs =~= before@.jobs.push(record@));
        }
        let ghost mid = *self;
        self.queue.push(position);
        proof {
            assert forall|k2: int| 0 <= k2 < self.queue@.len() implies #[trigger] self.queue@[k2]
                < self.jobs@.len() && self.jobs@[self.queue@[k2] as int].status
                == JobStatus::Queued by {
                if k2 < mid.queue@.len() {
                    assert(self.queue@[k2] == mid.queue@[k2]);
                }
            }
            assert forall|k1: int, k2: int| 0 <= k1 < k2 < self.queue@.len() implies #[trigger] self.queue@[k1]
                != #[trigger] self.queue@[k2] by {
                assert(self.queue@[k1] == mid.queue@[k1]);
                if k2 < mid.queue@.len() {
                    assert(self.queue@[k2] == mid.queue@[k2]);
                } else {
                    assert(mid.queue@[k1] < mid.jobs@.len() - 1);
                }
            }
            assert(self@.queue =~= mid@.queue.push(position as int));
        }
        Ok(id)
    }

    /// Hands the oldest queued job to the worker and marks it `Printing`, unless a
    /// job is already being printed or nothing is queued.
    pub fn start_next(&mut self) -> (r: Option<PrintCommand>)
        requires
            old(self).wf(),
        ensures
            final(self).wf(),
            old(self)@.active is Some || old(self)@.queue.len() == 0 ==> r is None && final(self)@
                == old(self)@,
            old(self)@.active is None && old(self)@.queue.len() > 0 ==> 0 <= old(self)@.queue[0]
                < old(self)@.jobs.len(),
            old(self)@.active is None && old(self)@.queue.len() > 0 ==> {
                let j = old(self)@.queue[0];
                let job = old(self)@.jobs[j];
                let k = render_position(old(self)@.renders, job.render_id);
                &&& k is Some
                &&& r matches Some(cmd) && cmd.job_id@ == job.id && cmd.render_id@ == job.render_id
                    && cmd.address@ == job.address && cmd.density == job.density && lines_view(
                    cmd.lines@,
                ) == old(self)@.renders[k->0].lines
                &&& final(self)@ == (DaemonModel {
                    jobs: old(self)@.jobs.update(
                        j,
                        JobModel { status: JobStatus::Printing, error: None, ..job },
                    ),
                    queue: old(self)@.queue.drop_first(),
                    active: Some(j),
                    ..old(self)@
                })
            },
    {
        proof {
            self.lemma_view_facts();
        }
        if self.active.is_some() || self.queue.len() == 0 {
            return None;
        }
        let ghost before = *self;
        let j = self.queue.remove(0);
        let k = match self.find_render(self.jobs[j].render_id.as_str()) {
            Some(k) => k,
            None => {
                proof {
                    assert(has_render(self.renders@, self.jobs@[j as int].render_id@));
                    let w = choose|w: int|
                        0 <= w < self.renders@.len() && (#[trigger] self.renders@[w]).id@
                            == self.jobs@[j as int].render_id@;
                    assert(false);
                }
                return None;
            },
        };
        proof {
            lemma_first_render_unique(self@.renders, self.jobs@[j as int].render_id@, k as int);
        }
        let cmd = PrintCommand {
            job_id: self.jobs[j].id.clone(),
            render_id: self.jobs[j].render_id.clone(),
            address: self.jobs[j].address.clone(),
            density: self.jobs[j].density,
            lines: copy_lines(&self.renders[k].artifact.packed_lines),
        };
        let old_job = copy_job(&self.jobs[j]);
        let updated = JobRecord { status: JobStatus::Printing, error: None, ..old_job };
        self.jobs.set(j, updated);
        self.active = Some(j);
        proof {
            assert(before.queue@[0] == j);
            assert forall|i: int| 0 <= i < self.jobs@.len() implies (#[trigger] self.jobs@[i]).id@
                == id_text("j"@, (i + 1) as nat) by {
                if i != j {
                    assert(self.jobs@[i] == before.jobs@[i]);
                }
            }
            assert forall|i: int| 0 <= i < self.jobs@.len() implies has_render(
                self.renders@,
                (#[trigger] self.jobs@[i]).render_id@,
            ) by {
                if i != j {
                    assert(self.jobs@[i] == before.jobs@[i]);
                } else {
                    assert(self.jobs@[i].render_id@ == before.jobs@[i].render_id@);
                    assert(has_render(before.renders@, before.jobs@[i].render_id@));
                }
            }
            assert forall|k2: int| 0 <= k2 < self.queue@.len() implies #[trigger] self.queue@[k2]
                < self.jobs@.len() && self.jobs@[self.queue@[k2] as int].status
                == JobStatus::Queued by {
                assert(self.queue@[k2] == before.queue@[k2 + 1]);
                let q = before.queue@[k2 + 1];
                assert(before.jobs@[q as int].status == JobStatus::Queued);
                assert(q != j) by {
                    assert(before.queue@[0] != before.queue@[k2 + 1]);
                }
                assert(self.jobs@[q as int] == before.jobs@[q as int]);
            }
            assert forall|i: int|
                0 <= i < self.jobs@.len() && (#[trigger] self.jobs@[i]).status == JobStatus::Printing
                    implies (self.active matches Some(a) && a as int == i) by {
                if i != j {
                    assert(self.jobs@[i] == before.jobs@[i]);
                    assert(before.active is None);
                }
            }
            assert(self@.jobs =~= before@.jobs.update(
                j as int,
                JobModel { status: JobStatus::Printing, error: None, ..before@.jobs[j as int] },
            ));
            assert forall|k1: int, k2: int| 0 <= k1 < k2 < self.queue@.len() implies #[trigger] self.queue@[k1]
                != #[trigger] self.queue@[k2] by {
                assert(self.queue@[k1] == before.queue@[k1 + 1]);
                assert(self.queue@[k2] == before.queue@[k2 + 1]);
            }
            assert(self@.queue =~= before@.queue.drop_first());
            assert(before@.jobs[j as int] == before.jobs@[j as int]@);
        }
        Some(cmd)
    }

    /// Records how the active job ended: `Done`, or `Failed` with the message.
    /// Does nothing when no job is active.
    pub fn finish_active(&mut self, outcome: Result<(), String>)
        requires
            old(self).wf(),
        ensures
            final(self).wf(),
            old(self)@.active is None ==> final(self)@ == old(self)@,
            old(self)@.active matches Some(a) ==> final(self)@ == (DaemonModel {
                jobs: old(self)@.jobs.update(
                    a,
                    JobModel {
                        status: if outcome is Ok {
                            JobStatus::Done
                        } else {
                            JobStatus::Failed
                        },
                        error: match outcome {
                            Ok(_) => None,
                            Err(m) => Some(m@),
                        },
                        ..old(self)@.jobs[a]
                    },
                ),
                active: None,
                ..old(self)@
            }),
    {
        proof {
            self.lemma_view_facts();
        }
        let a = match self.active {
            Some(a) => a,
            None => {
                return;
            },
        };
        let ghost before = *self;
        let old_job = copy_job(&self.jobs[a]);
        let updated = match outcome {
            Ok(()) => JobRecord { status: JobStatus::Done, error: None, ..old_job },
            Err(m) => JobRecord { status: JobStatus::Failed, error: Some(m), ..old_job },
        };
        self.jobs.set(a, updated);
        self.active = None;
        proof {
            assert forall|i: int| 0 <= i < self.jobs@.len() implies (#[trigger] self.jobs@[i]).id@
                == id_text("j"@, (i + 1) as nat) by {
                if i != a {
                    assert(self.jobs@[i] == before.jobs@[i]);
                }
            }
            assert forall|i: int| 0 <= i < self.jobs@.len() implies has_render(
                self.renders@,
                (#[trigger] self.jobs@[i]).render_id@,
            ) by {
                if i != a {
                    assert(self.jobs@[i] == before.jobs@[i]);
                } else {
                    assert(has_render(before.renders@, before.jobs@[i].render_id@));
                }
            }
            assert forall|k2: int| 0 <= k2 < self.queue@.len() implies #[trigger] self.queue@[k2]
                < self.jobs@.len() && self.jobs@[self.queue@[k2] as int].status
                == JobStatus::Queued by {
                let q = before.queue@[k2];
                assert(before.jobs@[q as int].status == JobStatus::Queued);
                assert(q != a);
                assert(self.jobs@[q as int] == before.jobs@[q as int]);
            }
            assert forall|i: int|
                0 <= i < self.jobs@.len() && (#[trigger] self.jobs@[i]).status == JobStatus::Printing
                    implies (self.active matches Some(a2) && a2 as int == i) by {
                if i != a {
                    assert(self.jobs@[i] == before.jobs@[i]);
                }
            }
            assert(before@.jobs[a as int] == before.jobs@[a as int]@);
            assert(self@.jobs =~= before@.jobs.update(
                a as int,
                JobModel {
                    status: if outcome is Ok {
                        JobStatus::Done
                    } else {
                        JobStatus::Failed
                    },
                    error: match outcome {
                        Ok(_) => None,
                        Err(m) => Some(m@),
                    },
                    ..before@.jobs[a as int]
                },
            ));
        }
    }

    /// The job with this identifier.
    pub fn get_job(&self, id: &str) -> (r: Result<JobRecord, ApiError>)
        requires
            self.wf(),
        ensures
            match job_position(self@.jobs, id@) {
                None => r == Err::<JobRecord, ApiError>(ApiError::JobNotFound),
                Some(i) => r matches Ok(j) && j@ == self@.jobs[i],
            },
    {
        proof {
            self.lemma_view_facts();
        }
        match self.find_job(id) {
            Some(i) => {
                proof {
                    lemma_first_job_unique(self@.jobs, id@, i as int);
                }
                Ok(copy_job(&self.jobs[i]))
            },
            None => {
                proof {
                    lemma_no_job(self@.jobs, id@);
                }
                Err(ApiError::JobNotFound)
            },
        }
    }

    /// The PNG preview of the render with this identifier.
    pub fn preview(&self, id: &str) -> (r: Result<Vec<u8>, ApiError>)
        requires
            self.wf(),
        ensures
            match render_position(self@.renders, id@) {
                None => r == Err::<Vec<u8>, ApiError>(ApiError::RenderNotFound),
                Some(i) => r matches Ok(b) && b@ == self@.renders[i].preview_png,
            },
    {
        proof {
            self.lemma_view_facts();
        }
        match self.find_render(id) {
            Some(i) => {
                proof {
                    lemma_first_render_unique(self@.renders, id@, i as int);
                }
                Ok(self.renders[i].artifact.preview_png.clone())
            },
            None => {
                proof {
                    lemma_no_render(self@.renders, id@);
                }
                Err(ApiError::RenderNotFound)
            },
        }
    }
}

/// Some resized image and black-and-white preview witness the render of `d`.
pub open spec fn rendered_from(
    req: ImageRenderRequest,
    d: (nat, nat, Seq<u8>),
    old: DaemonModel,
    new: DaemonModel,
    r: Result<RenderSummary, ApiError>,
) -> bool {
    exists|resized: GrayImage, bw: GrayImage|
        #[trigger] image_render_done(req, d, resized, bw, old, new, r)
}

/// The outcome of an image render request: the width check, then base64, then
/// image decoding, then, with the resized and binarized images as witnesses,
/// the outcome of storing the render.
pub open spec fn image_render_outcome(
    req: ImageRenderRequest,
    old: DaemonModel,
    new: DaemonModel,
    r: Result<RenderSummary, ApiError>,
) -> bool {
    let width = req.width_px.unwrap_or(384);
    if width == 0 || width > 384 {
        r == Err::<RenderSummary, ApiError>(ApiError::WidthOutOfRange)
    } else {
        match base64_decoding(req.image_base64@) {
            None => r == Err::<RenderSummary, ApiError>(ApiError::InvalidBase64),
            Some(bytes) => match decoded_gray(bytes) {
                None => r == Err::<RenderSummary, ApiError>(ApiError::InvalidImage),
                Some(d) => rendered_from(req, d, old, new, r),
            },
        }
    }
}

/// Prepares an image render request without touching the daemon: checks the
/// width, decodes the base64 payload and the image, resizes it to the print
/// width and turns it black and white.
pub fn prepare_image_render(req: &ImageRenderRequest) -> (r: Result<GrayImage, ApiError>)
    ensures
        prepare_outcome(*req, r),
{
    let width = match check_image_request(req.width_px) {
        Ok(w) => w,
        Err(e) => {
            return Err(e);
        },
    };
    let bytes = match decode_image_base64(req.image_base64.as_str()) {
        Ok(b) => b,
        Err(e) => {
            return Err(e);
        },
    };
    let resized = match load_for_print(bytes.as_slice(), width, req.max_height_px) {
        Some(g) => g,
        None => {
            return Err(ApiError::InvalidImage);
        },
    };
    let threshold = match req.threshold {
        Some(t) => t,
        None => 180,
    };
    let method = match req.dither_method {
        Some(m) => m,
        None => DitherMethod::FloydSteinberg,
    };
    let invert = match req.invert {
        Some(v) => v,
        None => false,
    };
    let bw = binarize_preview(&resized, threshold, method, invert);
    proof {
        let d = decoded_gray(bytes@)->0;
        assert(width == req.width_px.unwrap_or(384));
        assert(base64_decoding(req.image_base64@) == Some(bytes@));
        assert(prepared_from(*req, d, resized, bw));
        assert(prepared(*req, d, bw));
    }
    Ok(bw)
}

impl Daemon {
    /// Stores a black-and-white image as a render: packs it into wire lines
    /// (dropping blank ones at both ends when `trim_blank`) and keeps its PNG preview.
    pub fn store_image_render(
        &mut self,
        bw: GrayImage,
        trim_blank: bool,
        density: Option<u8>,
        address: Option<String>,
    ) -> (r: Result<RenderSummary, ApiError>)
        requires
            old(self).wf(),
            bw.wf(),
        ensures
            final(self).wf(),
            image_stored(bw, trim_blank, density, opt_view(address), old(self)@, final(self)@, r),
    {
        let lines = pack_bw_image(&bw, trim_blank);
        let count = lines.len();
        let ghost line_view = lines_view(lines@);
        let stored = self.create_render(&bw, lines, density, address);
        proof {
            assert(line_view.len() == count);
        }
        match stored {
            Ok(render_id) => Ok(RenderSummary { render_id, preview: bw, packed_lines: count }),
            Err(e) => Err(e),
        }
    }

    /// Renders an image request: prepares it, then stores it.
    pub fn render_image(&mut self, req: ImageRenderRequest) -> (r: Result<RenderSummary, ApiError>)
        requires
            old(self).wf(),
        ensures
            final(self).wf(),
            r is Err ==> final(self)@ == old(self)@,
            image_render_outcome(req, old(self)@, final(self)@, r),
    {
        let ghost req_view = req;
        let bw = match prepare_image_render(&req) {
            Ok(b) => b,
            Err(e) => {
                return Err(e);
            },
        };
        let trim_blank = match req.trim_blank_top_bottom {
            Some(v) => v,
            None => true,
        };
        let ghost bw_view = bw;
        let ghost before = self@;
        let r = self.store_image_render(bw, trim_blank, req.density, req.address);
        proof {
            let d = decoded_gray(base64_decoding(req_view.image_base64@)->0)->0;
            assert(prepared(req_view, d, bw_view));
            let resized = choose|rz: GrayImage| prepared_from(req_view, d, rz, bw_view);
            assert(image_render_done(req_view, d, resized, bw_view, before, self@, r));
            assert(rendered_from(req_view, d, before, self@, r));
        }
        r
    }
}

// ---------------------------------------------------------------------------
// Request checks
// ---------------------------------------------------------------------------

/// A text render needs text that is not all white space and a width of at most
/// 384 (384 when absent). Returns the width.
pub fn check_text_request(text: &str, width_px: Option<u32>) -> (r: Result<u32, ApiError>)
    ensures
        (forall|i: int| 0 <= i < text@.len() ==> is_white_space(#[trigger] text@[i])) ==> r
            == Err::<u32, ApiError>(ApiError::EmptyText),
        !(forall|i: int| 0 <= i < text@.len() ==> is_white_space(#[trigger] text@[i])) ==> r
            == if width_px.unwrap_or(384) > 384 {
            Err::<u32, ApiError>(ApiError::WidthOutOfRange)
        } else {
            Ok::<u32, ApiError>(width_px.unwrap_or(384))
        },
{
    if is_blank_text(text) {
        return Err(ApiError::EmptyText);
    }
    let width = match width_px {
        Some(w) => w,
        None => 384,
    };
    if width > 384 {
        Err(ApiError::WidthOutOfRange)
    } else {
        Ok(width)
    }
}

/// An image render needs a width in `1..=384` (384 when absent). Returns the width.
pub fn check_image_request(width_px: Option<u32>) -> (r: Result<u32, ApiError>)
    ensures
        r == if width_px.unwrap_or(384) == 0 || width_px.unwrap_or(384) > 384 {
            Err::<u32, ApiError>(ApiError::WidthOutOfRange)
        } else {
            Ok::<u32, ApiError>(width_px.unwrap_or(384))
        },
{
    let width = match width_px {
        Some(w) => w,
        None => 384,
    };
    if width == 0 || width > 384 {
        Err(ApiError::WidthOutOfRange)
    } else {
        Ok(width)
    }
}

/// The bytes that standard, padded base64 text decodes to, if it is valid.
pub uninterp spec fn base64_decoding(s: Seq<char>) -> Option<Seq<u8>>;

/// Relies on `base64::engine::general_purpose::STANDARD.decode`: the bytes that
/// the text stands for, or an error when it is not valid base64.
#[verifier::external_body]
fn standard_base64_decode(s: &str) -> (r: Option<Vec<u8>>)
    ensures
        match r {
            Some(b) => base64_decoding(s@) == Some(b@),
            None => base64_decoding(s@) is None,
        },
{
    base64::Engine::decode(&base64::engine::general_purpose::STANDARD, s).ok()
}

/// Decodes the base64 payload of an image render request.
pub fn decode_image_base64(s: &str) -> (r: Result<Vec<u8>, ApiError>)
    ensures
        match base64_decoding(s@) {
            Some(b) => r matches Ok(v) && v@ == b,
            None => r == Err::<Vec<u8>, ApiError>(ApiError::InvalidBase64),
        },
{
    match standard_base64_decode(s) {
        Some(b) => Ok(b),
        None => Err(ApiError::InvalidBase64),
    }
}

} // verus!

//! The answers to the requests about jobs: submitting one, listing all,
//! and showing one.

use vstd::prelude::*;
use vstd::utf8::{decode_utf8, encode_utf8, is_char_boundary};
use vstd::string::StringSliceAdditionalSpecFns;
use crate::db::job::{copy_text, Job, JobStatus, JobView};
use crate::db::metrics::lemma_newest_first_index;
use crate::db::model::{job_index, job_with_id, newest_first, submit_step};
use crate::db::ops::{get_job_by_id, insert_job, insert_job_with_id, summaries, summary_contents};
use crate::db::store::{JobStore, StoreError};
use crate::error::AppError;
use crate::model::ApiResponse;
use crate::number::{decimal_text, push_decimal};
use crate::text::{string_of, trim_text, trimmed};

verus! {

/// What a client sends to submit a job.
#[derive(Clone, Debug, PartialEq, Eq)]
pub struct CreateJobRequest {
    pub image: String,
}

/// What a listing shows of a job.
#[derive(Clone, Debug, PartialEq, Eq)]
pub struct JobListItem {
    pub id: String,
    pub image: String,
    pub status: String,
}

/// The mathematical content of a [`JobListItem`].
pub struct JobListItemView {
    pub id: Seq<char>,
    pub image: Seq<char>,
    pub status: Seq<char>,
}

impl View for JobListItem {
    type V = JobListItemView;

    open spec fn view(&self) -> JobListItemView {
        JobListItemView { id: self.id@, image: self.image@, status: self.status@ }
    }
}

/// What is shown of a single job.
#[derive(Clone, Debug, PartialEq, Eq)]
pub struct JobDetail {
    pub id: String,
    pub image: String,
    pub status: String,
    pub result: Option<String>,
    pub error_detail: Option<String>,
    pub retry_count: u64,
    pub created_at: i64,
    pub finished_at: Option<i64>,
}

/// The mathematical content of a [`JobDetail`].
pub struct JobDetailView {
    pub id: Seq<char>,
    pub image: Seq<char>,
    pub status: Seq<char>,
    pub result: Option<Seq<char>>,
    pub error_detail: Option<Seq<char>>,
    pub retry_count: nat,
    pub created_at: int,
    pub finished_at: Option<int>,
}

impl View for JobDetail {
    type V = JobDetailView;

    open spec fn view(&self) -> JobDetailView {
        JobDetailView {
            id: self.id@,
            image: self.image@,
            status: self.status@,
            result: crate::db::job::text_of(self.result),
            error_detail: crate::db::job::text_of(self.error_detail),
            retry_count: self.retry_count as nat,
            created_at: self.created_at as int,
            finished_at: crate::db::job::instant_of(self.finished_at),
        }
    }
}

/// The number of bytes up to which a result is shown in full.
pub const RESULT_LIMIT: usize = 500;

/// Whether `s` can be shortened to `max` bytes: it is that short already,
/// or its byte at `max` begins a character.
pub open spec fn cut_is_clean(s: Seq<char>, max: int) -> bool {
    encode_utf8(s).len() <= max || is_char_boundary(encode_utf8(s), max)
}

/// `s` shortened to `max` bytes: `s` itself where it is no longer;
/// otherwise its first `max` bytes, followed by a note of how many bytes
/// were left out.
pub open spec fn truncated(s: Seq<char>, max: int) -> Seq<char> {
    let bytes = encode_utf8(s);
    if bytes.len() <= max {
        s
    } else {
        decode_utf8(bytes.subrange(0, max)) + "\u{2026} (+"@ + decimal_text(
            (bytes.len() - max) as nat,
        ) + " chars)"@
    }
}

/// `o` with its text shortened to `max` bytes.
pub open spec fn truncated_text(o: Option<Seq<char>>, max: int) -> Option<Seq<char>> {
    match o {
        Some(s) => Some(truncated(s, max)),
        None => None,
    }
}

/// What a listing shows of the job `j`.
pub open spec fn list_item_of(j: JobView) -> JobListItemView {
    JobListItemView { id: j.id, image: j.image, status: j.status.text() }
}

/// What each job shows in a listing, in the order of the jobs.
pub open spec fn list_items(jobs: Seq<JobView>) -> Seq<JobListItemView> {
    Seq::new(jobs.len(), |i: int| list_item_of(jobs[i]))
}

/// The contents of a list of items.
pub open spec fn item_contents(v: Seq<JobListItem>) -> Seq<JobListItemView> {
    Seq::new(v.len(), |i: int| v[i]@)
}

/// What is shown of the job `j`: its result shortened to the limit.
pub open spec fn detail_of(j: JobView) -> JobDetailView {
    JobDetailView {
        id: j.id,
        image: j.image,
        status: j.status.text(),
        result: truncated_text(j.result, RESULT_LIMIT as int),
        error_detail: j.error_detail,
        retry_count: j.retry_count,
        created_at: j.created_at,
        finished_at: j.finished_at,
    }
}

/// What is said of a result that cannot be shortened.
pub open spec fn uncut_text() -> Seq<char> {
    "job result cannot be shortened inside a character"@
}

/// Whether the result of `j` can be shortened to the limit.
pub open spec fn shows_cleanly(j: JobView) -> bool {
    j.result is Some ==> cut_is_clean(j.result->0, RESULT_LIMIT as int)
}

/// Shortens `s` to `max` bytes. A text that is longer is cut there and gets
/// a note of how many bytes were left out; the cut must not fall inside a
/// character.
pub fn truncate(s: &str, max: usize) -> (r: String)
    requires
        cut_is_clean(s@, max as int),
    ensures
        r@ == truncated(s@, max as int),
{
    let len = s.as_bytes().len();
    if len <= max {
        s.to_owned()
    } else {
        let (head, _) = s.split_at(max);
        let mut digits: Vec<char> = Vec::new();
        push_decimal(&mut digits, (len - max) as u64);
        let count = string_of(&digits);
        proof {
            vstd::utf8::encode_utf8_decode_utf8(head@);
            assert(digits@ =~= decimal_text((s.spec_bytes().len() - max) as nat));
        }
        head.to_owned().concat("\u{2026} (+").concat(count.as_str()).concat(" chars)")
    }
}

/// Shortens `s` to `max` bytes where the cut does not fall inside a
/// character; otherwise there is no result.
pub fn truncate_checked(s: &str, max: usize) -> (r: Option<String>)
    ensures
        match r {
            Some(t) => cut_is_clean(s@, max as int) && t@ == truncated(s@, max as int),
            None => !cut_is_clean(s@, max as int),
        },
{
    if s.as_bytes().len() <= max || s.is_char_boundary(max) {
        Some(truncate(s, max))
    } else {
        None
    }
}

impl CreateJobRequest {
    /// The image to pull: what was sent, without the white space around
    /// it. A request that names no image is a bad request.
    pub fn image_name(&self) -> (r: Result<String, AppError>)
        ensures
            match r {
                Ok(name) => name@ == trimmed(self.image@) && name@.len() > 0,
                Err(e) => trimmed(self.image@).len() == 0 && e is BadRequest && e.message()
                    == "image is required"@,
            },
    {
        let name = trim_text(self.image.as_str());
        if name.as_str().unicode_len() == 0 {
            Err(AppError::bad_request("image is required"))
        } else {
            Ok(name)
        }
    }
}

/// Submits the job that `body` asks for under the id `id`. The answer
/// shows the job as queued. A request that names no image is a bad
/// request; an id that is taken is an internal error. Either way the store
/// stays as it is.
pub fn create_job_with_id(store: &mut JobStore, id: &str, body: &CreateJobRequest) -> (r: Result<
    ApiResponse<JobListItem>,
    AppError,
>)
    requires
        old(store).wf(),
    ensures
        final(store).wf(),
        match r {
            Ok(answer) => {
                &&& trimmed(body.image@).len() > 0
                &&& job_index(old(store)@.jobs, id@) is None
                &&& final(store)@ == submit_step(old(store)@, id@, trimmed(body.image@), 0, 3)
                &&& answer.success
                &&& answer.message@ == "job created"@
                &&& answer.data@ == (JobListItemView {
                    id: id@,
                    image: trimmed(body.image@),
                    status: JobStatus::Queued.text(),
                })
            },
            Err(e) => {
                &&& final(store)@ == old(store)@
                &&& if trimmed(body.image@).len() == 0 {
                    e is BadRequest && e.message() == "image is required"@
                } else {
                    job_index(old(store)@.jobs, id@) is Some && e is Internal && e.message()
                        == StoreError::DuplicateId.text()
                }
            },
        },
{
    let image = match body.image_name() {
        Ok(name) => name,
        Err(e) => {
            return Err(e);
        },
    };
    match insert_job_with_id(store, id, image.as_str()) {
        Ok(_) => Ok(
            ApiResponse::ok(
                "job created",
                JobListItem {
                    id: id.to_owned(),
                    image,
                    status: JobStatus::Queued.as_str().to_owned(),
                },
            ),
        ),
        Err(e) => Err(AppError::internal(e.as_str())),
    }
}

/// Submits the job that `body` asks for under an id drawn at random. The
/// answer shows the job as queued, with its id. A request that names no
/// image is a bad request and is refused whatever id was drawn. A request
/// that names one succeeds unless the id drawn is taken, which can only be
/// where the store holds a job with an id as long as a drawn one; that is
/// an internal error. Either way the store stays as it is.
pub fn create_job(store: &mut JobStore, body: &CreateJobRequest) -> (r: Result<
    ApiResponse<JobListItem>,
    AppError,
>)
    requires
        old(store).wf(),
    ensures
        final(store).wf(),
        trimmed(body.image@).len() == 0 ==> r is Err,
        trimmed(body.image@).len() > 0 && !crate::db::model::may_collide(old(store)@) ==> r is Ok,
        match r {
            Ok(answer) => {
                &&& trimmed(body.image@).len() > 0
                &&& job_index(old(store)@.jobs, answer.data.id@) is None
                &&& final(store)@ == submit_step(
                    old(store)@,
                    answer.data.id@,
                    trimmed(body.image@),
                    0,
                    3,
                )
                &&& answer.success
                &&& answer.message@ == "job created"@
                &&& answer.data.image@ == trimmed(body.image@)
                &&& answer.data.status@ == JobStatus::Queued.text()
            },
            Err(e) => {
                &&& final(store)@ == old(store)@
                &&& if trimmed(body.image@).len() == 0 {
                    e is BadRequest && e.message() == "image is required"@
                } else {
                    crate::db::model::may_collide(old(store)@) && e is Internal && e.message()
                        == StoreError::DuplicateId.text()
                }
            },
        },
{
    let image = match body.image_name() {
        Ok(name) => name,
        Err(e) => {
            return Err(e);
        },
    };
    match insert_job(store, image.as_str()) {
        Ok(id) => Ok(
            ApiResponse::ok(
                "job created",
                JobListItem { id, image, status: JobStatus::Queued.as_str().to_owned() },
            ),
        ),
        Err(e) => Err(AppError::internal(e.as_str())),
    }
}

/// The listing of all jobs, the most recently submitted first.
pub fn list_jobs(store: &JobStore) -> (answer: ApiResponse<Vec<JobListItem>>)
    ensures
        answer.success,
        answer.message@ == "ok"@,
        item_contents(answer.data@) == newest_first(
            list_items(store@.jobs),
            store@.jobs.len() as int,
        ),
{
    let rows = crate::db::ops::list_jobs(store);
    let ghost n = store@.jobs.len() as int;
    proof {
        crate::db::metrics::lemma_newest_first_len(summaries(store@.jobs), n);
        crate::db::metrics::lemma_newest_first_len(list_items(store@.jobs), n);
        assert(summary_contents(rows@).len() == n);
    }
    let mut data: Vec<JobListItem> = Vec::new();
    let mut i: usize = 0;
    while i < rows.len()
        invariant
            i <= rows.len(),
            rows.len() == n,
            n == store@.jobs.len(),
            data.len() == i,
            summary_contents(rows@) == newest_first(summaries(store@.jobs), n),
            forall|k: int| 0 <= k < i ==> (#[trigger] data@[k])@ == list_item_of(store@.jobs[n - 1 - k]),
        decreases rows.len() - i,
    {
        let row = &rows[i];
        proof {
            lemma_newest_first_index(summaries(store@.jobs), n, i as int);
            assert(summary_contents(rows@)[i as int] == rows@[i as int]@);
        }
        data.push(
            JobListItem {
                id: row.id.clone(),
                image: row.image.clone(),
                status: row.status.as_str().to_owned(),
            },
        );
        i = i + 1;
    }
    proof {
        let want = newest_first(list_items(store@.jobs), n);
        assert forall|k: int| 0 <= k < n implies item_contents(data@)[k] == want[k] by {
            lemma_newest_first_index(list_items(store@.jobs), n, k);
        }
        assert(item_contents(data@) =~= want);
    }
    ApiResponse::ok("ok", data)
}

/// What is shown of `job`, its result shortened to the limit.
pub fn job_detail(job: &Job) -> (detail: JobDetail)
    requires
        shows_cleanly(job@),
    ensures
        detail@ == detail_of(job@),
{
    let result = match &job.result {
        Some(text) => Some(truncate(text.as_str(), RESULT_LIMIT)),
        None => None,
    };
    JobDetail {
        id: job.id.clone(),
        image: job.image.clone(),
        status: job.status.as_str().to_owned(),
        result,
        error_detail: copy_text(&job.error_detail),
        retry_count: job.retry_count,
        created_at: job.created_at,
        finished_at: job.finished_at,
    }
}

/// Whether the result of `job` can be shortened to the limit.
pub fn can_show(job: &Job) -> (r: bool)
    ensures
        r == shows_cleanly(job@),
{
    match &job.result {
        Some(text) => text.as_str().as_bytes().len() <= RESULT_LIMIT
            || text.as_str().is_char_boundary(RESULT_LIMIT),
        None => true,
    }
}

/// The job stored under `id`, with its result shortened to the limit. A
/// job that is not stored is not found; a result that cannot be shortened
/// because the cut would fall inside a character is an internal error.
pub fn get_job(store: &JobStore, id: &str) -> (r: Result<ApiResponse<JobDetail>, AppError>)
    ensures
        match job_with_id(store@, id@) {
            None => r is Err && r->Err_0 is NotFound && r->Err_0.message() == "job not found"@,
            Some(j) => if shows_cleanly(j) {
                r is Ok && r->Ok_0.success && r->Ok_0.message@ == "ok"@ && r->Ok_0.data@
                    == detail_of(j)
            } else {
                r is Err && r->Err_0 is Internal && r->Err_0.message() == uncut_text()
            },
        },
{
    match get_job_by_id(store, id) {
        None => Err(AppError::not_found("job not found")),
        Some(job) => {
            if can_show(&job) {
                Ok(ApiResponse::ok("ok", job_detail(&job)))
            } else {
                Err(AppError::internal("job result cannot be shortened inside a character"))
            }
        },
    }
}

} // verus!

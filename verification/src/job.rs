//! One unit of work: a page's inference job. It accumulates the text of
//! the decoded records of its endpoint's stream under a token budget and
//! settles on a terminal status; and it builds the multi-modal chat
//! message that the request carries.

use vstd::prelude::*;

use crate::ollama::OllamaError;
use crate::record::{ChatMessage, RecordModel, Role, StreamRecord};
use crate::decoder::models_of;
use vstd::string::StringExecFns;
use base64::Engine;

verus! {

/// The lifecycle of a job, from creation to one of three terminal states.
#[derive(Debug, Clone, Copy, PartialEq, Eq, Structural)]
pub enum JobStatus {
    Pending,
    Streaming,
    CompletedWithinBudget,
    CompletedBudgetExceeded,
    Failed,
}

/// Mathematical content of a job: its page index, its token budget, the
/// accumulated output bytes, its status, and its error, if any.
pub ghost struct JobModel {
    pub index: usize,
    pub budget: usize,
    pub accumulated: Seq<u8>,
    pub status: JobStatus,
    pub error: Option<OllamaError>,
}

/// How one decoded record advances a streaming job: the record's content
/// is appended whole and counted against the budget; the job stops over
/// budget as soon as the count strictly exceeds it — whether or not the
/// record was terminal — and stops within budget on a terminal record.
pub open spec fn record_step(j: JobModel, r: RecordModel) -> JobModel {
    let acc = j.accumulated + r.content;
    JobModel {
        index: j.index,
        budget: j.budget,
        accumulated: acc,
        status: if acc.len() > j.budget {
            JobStatus::CompletedBudgetExceeded
        } else if r.done {
            JobStatus::CompletedWithinBudget
        } else {
            JobStatus::Streaming
        },
        error: j.error,
    }
}

/// A streaming job after consuming records in order, stopping at the
/// first record that settles a terminal status; a job that is not
/// streaming consumes nothing.
pub open spec fn job_after(j: JobModel, rs: Seq<RecordModel>) -> JobModel
    decreases rs.len(),
{
    if rs.len() == 0 || !(j.status is Streaming) {
        j
    } else {
        job_after(record_step(j, rs.first()), rs.drop_first())
    }
}

/// Consuming concatenated record batches is consuming them in turn.
pub proof fn lemma_job_after_append(j: JobModel, a: Seq<RecordModel>, b: Seq<RecordModel>)
    ensures
        job_after(j, a + b) == job_after(job_after(j, a), b),
    decreases a.len(),
{
    if a.len() == 0 {
        assert(a + b =~= b);
    } else if !(j.status is Streaming) {
        assert((a + b).len() > 0);
    } else {
        assert((a + b).first() == a.first());
        assert((a + b).drop_first() =~= a.drop_first() + b);
        lemma_job_after_append(record_step(j, a.first()), a.drop_first(), b);
    }
}

proof fn lemma_job_after_one(j: JobModel, r: RecordModel)
    ensures
        j.status is Streaming ==> job_after(j, seq![r]) == record_step(j, r),
        !(j.status is Streaming) ==> job_after(j, seq![r]) == j,
{
    reveal_with_fuel(job_after, 3);
    assert(seq![r].drop_first() =~= Seq::<RecordModel>::empty());
}

/// One page's inference job: owned by exactly one execution unit, mutated
/// only through its transition methods, immutable once terminal.
pub struct InferenceJob {
    index: usize,
    budget: usize,
    accumulated: Vec<u8>,
    status: JobStatus,
    error: Option<OllamaError>,
}

impl View for InferenceJob {
    type V = JobModel;

    closed spec fn view(&self) -> JobModel {
        JobModel {
            index: self.index,
            budget: self.budget,
            accumulated: self.accumulated@,
            status: self.status,
            error: self.error,
        }
    }
}

impl InferenceJob {
    /// A pending job for the given page index and token budget, with
    /// nothing accumulated.
    pub fn new(index: usize, budget: usize) -> (j: Self)
        ensures
            j@ == (JobModel {
                index,
                budget,
                accumulated: Seq::<u8>::empty(),
                status: JobStatus::Pending,
                error: None,
            }),
    {
        InferenceJob {
            index,
            budget,
            accumulated: Vec::new(),
            status: JobStatus::Pending,
            error: None,
        }
    }

    /// Marks the job streaming once its request has been accepted.
    pub fn start(&mut self)
        requires
            old(self)@.status is Pending,
        ensures
            final(self)@ == (JobModel { status: JobStatus::Streaming, ..old(self)@ }),
    {
        self.status = JobStatus::Streaming;
    }

    /// Consumes one decoded record: appends its content, counts it
    /// against the budget, and settles a terminal status when the budget
    /// is strictly exceeded or the record is terminal. Returns whether
    /// the job stopped and the stream should be abandoned.
    pub fn on_record(&mut self, rec: &StreamRecord) -> (stop: bool)
        requires
            old(self)@.status is Streaming,
        ensures
            final(self)@ == record_step(old(self)@, rec@),
            stop == !(final(self)@.status is Streaming),
    {
        let m = rec.content.len();
        let mut k: usize = 0;
        while k < m
            invariant
                k <= m,
                m == rec.content@.len(),
                self.accumulated@ == old(self).accumulated@ + rec.content@.take(k as int),
                self.index == old(self).index,
                self.budget == old(self).budget,
                self.status == old(self).status,
                self.error == old(self).error,
            decreases m - k,
        {
            proof {
                assert((old(self).accumulated@ + rec.content@.take(k as int)).push(
                    rec.content@[k as int],
                ) =~= old(self).accumulated@ + rec.content@.take(k as int + 1));
            }
            self.accumulated.push(rec.content[k]);
            k = k + 1;
        }
        proof {
            assert(rec.content@.take(m as int) =~= rec.content@);
        }
        if self.accumulated.len() > self.budget {
            self.status = JobStatus::CompletedBudgetExceeded;
            true
        } else if rec.done {
            self.status = JobStatus::CompletedWithinBudget;
            true
        } else {
            false
        }
    }

    /// Consumes a batch of decoded records in order, stopping at the
    /// first that settles a terminal status; the rest of the batch is
    /// ignored. Returns whether the job stopped.
    pub fn process_records(&mut self, recs: &Vec<StreamRecord>) -> (stop: bool)
        requires
            old(self)@.status is Streaming,
        ensures
            final(self)@ == job_after(old(self)@, models_of(recs@)),
            stop == !(final(self)@.status is Streaming),
    {
        let ghost all = models_of(recs@);
        let n = recs.len();
        let mut i: usize = 0;
        let mut stop = false;
        while i < n && !stop
            invariant
                i <= n,
                n == recs@.len(),
                all == models_of(recs@),
                self@ == job_after(old(self)@, all.take(i as int)),
                stop == !(self@.status is Streaming),
            decreases n - i,
        {
            proof {
                assert(all.len() == n);
                assert(all[i as int] == recs@[i as int]@);
                lemma_job_after_append(old(self)@, all.take(i as int), seq![all[i as int]]);
                lemma_job_after_one(self@, all[i as int]);
                assert(all.take(i as int) + seq![all[i as int]] =~= all.take(i as int + 1));
                assert(all[i as int] == recs@[i as int]@);
            }
            stop = self.on_record(&recs[i]);
            i = i + 1;
        }
        proof {
            if i == n {
                assert(all.take(n as int) =~= all);
            } else {
                lemma_job_after_append(old(self)@, all.take(i as int), all.skip(i as int));
                assert(all.take(i as int) + all.skip(i as int) =~= all);
            }
        }
        stop
    }

    /// Ends the stream without a terminal record having been seen: the
    /// connection was truncated, which fails the job.
    pub fn on_stream_end(&mut self)
        requires
            old(self)@.status is Streaming,
        ensures
            final(self)@.status is Failed,
            final(self)@.error matches Some(e) && e is InvalidResponse,
            final(self)@.accumulated == old(self)@.accumulated,
            final(self)@.index == old(self)@.index,
            final(self)@.budget == old(self)@.budget,
    {
        self.status = JobStatus::Failed;
        self.error = Some(
            OllamaError::InvalidResponse(String::from_str("stream ended without a done record")),
        );
    }

    /// Fails the job with a transport error: request submission failed or
    /// the response carried a non-success status. Touches nothing but
    /// this job.
    pub fn on_transport_error(&mut self, err: OllamaError)
        requires
            old(self)@.status is Pending || old(self)@.status is Streaming,
        ensures
            final(self)@ == (JobModel { status: JobStatus::Failed, error: Some(err), ..old(self)@ }),
    {
        self.status = JobStatus::Failed;
        self.error = Some(err);
    }

    /// The job's page index.
    pub fn index(&self) -> (r: usize)
        ensures
            r == self@.index,
    {
        self.index
    }

    /// The job's token budget.
    pub fn budget(&self) -> (r: usize)
        ensures
            r == self@.budget,
    {
        self.budget
    }

    /// The job's current status.
    pub fn status(&self) -> (r: JobStatus)
        ensures
            r == self@.status,
    {
        self.status
    }

    /// The number of content bytes consumed so far, as counted against
    /// the budget.
    pub fn consumed(&self) -> (r: usize)
        ensures
            r == self@.accumulated.len(),
    {
        self.accumulated.len()
    }

    /// The accumulated output text so far, as UTF-8 bytes.
    pub fn text(&self) -> (r: &Vec<u8>)
        ensures
            r@ == self@.accumulated,
    {
        &self.accumulated
    }

    /// The job's error, if it failed.
    pub fn error(&self) -> (r: &Option<OllamaError>)
        ensures
            *r == self@.error,
    {
        &self.error
    }

    /// Surrenders the accumulated output text for persisting.
    pub fn into_text(self) -> (r: Vec<u8>)
        ensures
            r@ == self@.accumulated,
    {
        self.accumulated
    }
}

/// The base64 encoding of a byte payload, in the standard alphabet with
/// padding: a function of the bytes alone.
pub uninterp spec fn base64_of(bytes: Seq<u8>) -> Seq<char>;

/// Relies on base64's `Engine::encode` with the `STANDARD` engine: the
/// encoding is a function of the input bytes alone, four output
/// characters for every three input bytes, rounded up.
#[verifier::external_body]
fn encode_base64(data: &[u8]) -> (r: String)
    requires
        data@.len() <= usize::MAX as int / 4 * 3,
    ensures
        r@ == base64_of(data@),
        r@.len() == 4 * ((data@.len() + 2) / 3),
{
    base64::engine::general_purpose::STANDARD.encode(data)
}

/// The single user message of a page's chat request: the configured
/// prompt as content, no reasoning text, and the page's encoded image as
/// the one base64 attachment.
pub fn build_page_message(prompt: &str, image: &[u8]) -> (m: ChatMessage)
    requires
        image@.len() <= usize::MAX as int / 4 * 3,
    ensures
        m.role is User,
        m.content@ == prompt@,
        m.thinking is None,
        m.images matches Some(imgs) && imgs@.len() == 1 && imgs@[0]@ == base64_of(image@),
{
    let encoded = encode_base64(image);
    let mut images: Vec<String> = Vec::new();
    images.push(encoded);
    ChatMessage { role: Role::User, content: prompt.to_owned(), thinking: None, images: Some(
        images,
    ) }
}

} // verus!

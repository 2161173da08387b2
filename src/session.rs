use vstd::prelude::*;
use crate::route::{avatar_source, avatar_source_url, parsed_url_host, url_verdict, validate_image_url, Identity};
use crate::status::{error_text, render_status, status_text, success_message, success_text, JobError};

verus! {

/// One invocation of the transform command.
pub enum Request {
    /// Transform an avatar: the named target's, or the invoker's own.
    Avatar { target: Option<Identity> },
    /// Transform the image behind a link.
    Image { url: String },
}

/// The link to download for a request, or the error that ends it first.
pub open spec fn request_source(req: Request, invoker: Identity) -> Result<Seq<char>, JobError> {
    match req {
        Request::Avatar { target } => Ok(avatar_source(target, invoker)),
        Request::Image { url } => match url_verdict(parsed_url_host(url@)) {
            Ok(_) => Ok(url@),
            Err(e) => Err(e),
        },
    }
}

pub open spec fn source_view(r: Result<String, JobError>) -> Result<Seq<char>, JobError> {
    match r {
        Ok(s) => Ok(s@),
        Err(e) => Err(e),
    }
}

/// Classifies a request into the link to download, or the error to show.
/// An error comes before any network request: the caller downloads only
/// the link that an `Ok` carries.
pub fn start_job(req: &Request, invoker: &Identity) -> (r: Result<String, JobError>)
    ensures
        source_view(r) == request_source(*req, *invoker),
{
    match req {
        Request::Avatar { target } => {
            let t: Option<&Identity> = match target {
                Some(t) => Some(t),
                None => None,
            };
            Ok(avatar_source_url(t, invoker))
        },
        Request::Image { url } => match validate_image_url(url.as_str()) {
            Ok(()) => Ok(url.clone()),
            Err(e) => Err(e),
        },
    }
}

/// A link that does not parse, or whose host is not trusted, ends the job
/// with its fixed error text and no link to download.
pub proof fn law_rejected_link_is_not_fetched(url: String, invoker: Identity)
    requires
        !(parsed_url_host(url@) matches Some(Some(h)) && crate::route::allowed_host(h)),
    ensures
        parsed_url_host(url@) is None ==> request_source(Request::Image { url }, invoker)
            == Err::<Seq<char>, JobError>(JobError::InvalidUrl)
            && error_text(JobError::InvalidUrl) == "Invalid url"@,
        parsed_url_host(url@) is Some ==> request_source(Request::Image { url }, invoker)
            == Err::<Seq<char>, JobError>(JobError::NotDiscordHosted)
            && error_text(JobError::NotDiscordHosted) == "You can only use discord hosted images"@,
{
}

/// Counts of one job's status message: reporter wake-ups, edits made, and
/// whether the final edit was made.
pub struct JobCounts {
    pub ticks: nat,
    pub edits: nat,
    pub finished: bool,
}

pub open spec fn job_start() -> JobCounts {
    JobCounts { ticks: 0, edits: 0, finished: false }
}

pub open spec fn after_tick(v: JobCounts) -> JobCounts {
    JobCounts { ticks: v.ticks + 1, edits: v.edits + 1, finished: v.finished }
}

pub open spec fn after_finish(v: JobCounts) -> JobCounts {
    if v.finished {
        v
    } else {
        JobCounts { ticks: v.ticks, edits: v.edits + 1, finished: true }
    }
}

pub open spec fn ticks_from(n: nat, v: JobCounts) -> JobCounts
    decreases n,
{
    if n == 0 {
        v
    } else {
        after_tick(ticks_from((n - 1) as nat, v))
    }
}

pub open spec fn finishes_from(k: nat, v: JobCounts) -> JobCounts
    decreases k,
{
    if k == 0 {
        v
    } else {
        after_finish(finishes_from((k - 1) as nat, v))
    }
}

proof fn lemma_ticks_from(n: nat)
    ensures
        ticks_from(n, job_start()) == (JobCounts { ticks: n, edits: n, finished: false }),
    decreases n,
{
    if n > 0 {
        lemma_ticks_from((n - 1) as nat);
    }
}

proof fn lemma_finishes_from(k: nat, n: nat)
    requires
        k >= 1,
    ensures
        finishes_from(k, JobCounts { ticks: n, edits: n, finished: false })
            == (JobCounts { ticks: n, edits: n + 1, finished: true }),
    decreases k,
{
    let v = JobCounts { ticks: n, edits: n, finished: false };
    if k > 1 {
        lemma_finishes_from((k - 1) as nat, n);
    } else {
        assert(finishes_from(0, v) == v);
    }
}

/// However many times the reporter woke up, and however many times the job
/// was finished, its status message got exactly one final edit: the edits
/// number the wake-ups plus one.
pub proof fn law_one_terminal_edit(n: nat, k: nat)
    requires
        k >= 1,
    ensures
        finishes_from(k, ticks_from(n, job_start())).edits == n + 1,
        finishes_from(k, ticks_from(n, job_start())).finished,
{
    lemma_ticks_from(n);
    lemma_finishes_from(k, n);
}

/// One edit of the status message during the upload.
pub struct StatusEdit {
    pub text: String,
    /// Whether the reporter waits for another wake-up.
    pub keep_waiting: bool,
}

/// The final edit of the status message.
pub struct FinalMessage {
    pub content: String,
    /// Link of the hosted result, shown as the embed's title and image.
    pub embed_url: Option<String>,
}

pub open spec fn final_content(outcome: Result<String, JobError>) -> Seq<char> {
    match outcome {
        Ok(_) => success_text(),
        Err(e) => error_text(e),
    }
}

pub open spec fn final_embed(outcome: Result<String, JobError>) -> Option<Seq<char>> {
    match outcome {
        Ok(u) => Some(u@),
        Err(_) => None,
    }
}

pub open spec fn embed_view(e: Option<String>) -> Option<Seq<char>> {
    match e {
        Some(u) => Some(u@),
        None => None,
    }
}

/// The status message of one job: the reporter edits it once per wake-up
/// until the upload is done, then it gets one final edit.
pub struct UploadJob {
    ticks: u64,
    edits: u64,
    finished: bool,
}

impl View for UploadJob {
    type V = JobCounts;

    closed spec fn view(&self) -> JobCounts {
        JobCounts { ticks: self.ticks as nat, edits: self.edits as nat, finished: self.finished }
    }
}

impl UploadJob {
    pub closed spec fn wf(&self) -> bool {
        &&& self.ticks < u64::MAX
        &&& self.edits == self.ticks + if self.finished { 1u64 } else { 0u64 }
    }

    pub fn new() -> (r: Self)
        ensures
            r.wf(),
            r@ == job_start(),
    {
        UploadJob { ticks: 0, edits: 0, finished: false }
    }

    /// The reporter woke up with the upload at `percent`: the edit to make,
    /// and whether to wait again.
    pub fn tick(&mut self, percent: u8) -> (r: StatusEdit)
        requires
            old(self).wf(),
            !old(self)@.finished,
            percent <= 100,
            old(self)@.ticks + 1 < u64::MAX,
        ensures
            final(self).wf(),
            final(self)@ == after_tick(old(self)@),
            r.text@ == status_text(percent as nat),
            r.keep_waiting == (percent < 100),
    {
        self.ticks = self.ticks + 1;
        self.edits = self.edits + 1;
        StatusEdit { text: render_status(percent), keep_waiting: percent < 100 }
    }

    /// The final edit for `outcome`: the hosted link, or the error that ended
    /// the job. Only the first call gives one.
    pub fn finish(&mut self, outcome: &Result<String, JobError>) -> (r: Option<FinalMessage>)
        requires
            old(self).wf(),
        ensures
            final(self).wf(),
            final(self)@ == after_finish(old(self)@),
            old(self)@.finished ==> r is None,
            !old(self)@.finished ==> (r matches Some(m) && m.content@ == final_content(*outcome)
                && embed_view(m.embed_url) == final_embed(*outcome)),
    {
        if self.finished {
            return None;
        }
        self.edits = self.edits + 1;
        self.finished = true;
        let m = match outcome {
            Ok(u) => FinalMessage { content: String::from_str(success_message()), embed_url: Some(u.clone()) },
            Err(e) => FinalMessage { content: String::from_str(e.message()), embed_url: None },
        };
        Some(m)
    }

    pub fn ticks(&self) -> (r: u64)
        ensures
            r == self@.ticks,
    {
        self.ticks
    }

    pub fn edits(&self) -> (r: u64)
        ensures
            r == self@.edits,
    {
        self.edits
    }

    pub fn is_finished(&self) -> (r: bool)
        ensures
            r == self@.finished,
    {
        self.finished
    }
}

} // verus!

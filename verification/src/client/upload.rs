//! Uploading until the outcome is known: what an answer to an upload means, when the path is
//! asked for, and when the upload is sent again.
use vstd::prelude::*;

use crate::client::reply;
use crate::client::reply::{ClientError, ClientErrorView, PathStat, PathStatView};
use crate::client::wire::Header;
use crate::daemon::net;
use crate::json::{Json, JsonView};
use crate::text;

verus! {

/// What came of an upload.
#[derive(Debug, Clone, Copy, PartialEq, Eq, Structural)]
pub struct PutOutcome {
    pub generation: u64,
    /// How often the upload was sent.
    pub attempts: u32,
    /// Found by asking for the path, not confirmed by an answer to the upload.
    pub resolved_by_query: bool,
    /// On tape. Only an upload that does not wait for that can succeed without it.
    pub committed: bool,
}

/// An upload under way.
#[derive(Debug, Clone, PartialEq, Eq)]
pub struct Put {
    pub path: String,
    pub len: u64,
    /// The hash of the content.
    pub digest: String,
    /// Wait until it is on tape.
    pub wait: bool,
    pub attempts: u32,
}

#[verifier::ext_equal]
pub struct PutView {
    pub path: Seq<char>,
    pub len: u64,
    pub digest: Seq<char>,
    pub wait: bool,
    pub attempts: u32,
}

impl View for Put {
    type V = PutView;

    open spec fn view(&self) -> PutView {
        PutView {
            path: self.path@,
            len: self.len,
            digest: self.digest@,
            wait: self.wait,
            attempts: self.attempts,
        }
    }
}

/// What an upload was answered.
#[derive(Debug)]
pub enum PutReply {
    Answer { status: u16, body: Vec<u8> },
    Failed(ClientError),
}

/// What is done next.
#[derive(Debug)]
pub enum PutStep {
    Done(PutOutcome),
    Fail(ClientError),
    /// The path is asked for: the outcome is not known.
    Ask,
    /// The path is asked for again after a pause: a version is under way.
    AskAgain,
    /// The upload is sent again.
    Again,
}

#[verifier::ext_equal]
pub enum StepView {
    Done(PutOutcome),
    Fail(ClientErrorView),
    Ask,
    AskAgain,
    Again,
}

impl View for PutStep {
    type V = StepView;

    open spec fn view(&self) -> StepView {
        match *self {
            PutStep::Done(o) => StepView::Done(o),
            PutStep::Fail(e) => StepView::Fail(e@),
            PutStep::Ask => StepView::Ask,
            PutStep::AskAgain => StepView::AskAgain,
            PutStep::Again => StepView::Again,
        }
    }
}

/// The upload is sent again, unless the time is up.
pub open spec fn again(time_up: bool) -> StepView {
    if time_up {
        StepView::Fail(
            ClientErrorView::NoLeader("上传在期限内没有得到确认"@),
        )
    } else {
        StepView::Again
    }
}

/// What follows from the answer to an upload with this document.
pub open spec fn after_answer(
    p: PutView,
    status: u16,
    j: JsonView,
    said: Seq<char>,
    time_up: bool,
) -> StepView {
    if status == 201 {
        StepView::Done(
            PutOutcome {
                generation: reply::num_or_zero(j, "generation"@),
                attempts: p.attempts,
                resolved_by_query: false,
                committed: true,
            },
        )
    } else if status == 202 && !p.wait {
        StepView::Done(
            PutOutcome {
                generation: 0,
                attempts: p.attempts,
                resolved_by_query: false,
                committed: false,
            },
        )
    } else if status == 500 {
        if j.text_in("status"@) == Some("failed"@) {
            again(time_up)
        } else {
            StepView::Ask
        }
    } else if status == 412 {
        StepView::Fail(ClientErrorView::Exists(p.path))
    } else {
        StepView::Fail(ClientErrorView::Rejected { status, body: said })
    }
}

/// A complete version of the same length is staged.
pub open spec fn staged_alike(p: PutView, st: Option<PathStatView>) -> bool {
    st is Some && st->0.state == "staged"@ && st->0.length == p.len
}

/// A version is under way.
pub open spec fn under_way(st: Option<PathStatView>) -> bool {
    st is Some && st->0.state != "committed"@
}

/// The committed version has the content of the upload.
pub open spec fn is_ours(p: PutView, st: Option<PathStatView>) -> bool {
    st is Some && st->0.current is Some && st->0.current->0.length == p.len
        && st->0.current->0.sha256 == p.digest
}

/// What follows from the state of the path. `first` says that it is the first question after the
/// upload.
pub open spec fn after_query(
    p: PutView,
    st: Option<PathStatView>,
    first: bool,
    time_up: bool,
) -> StepView {
    if first && !p.wait && staged_alike(p, st) {
        StepView::Done(
            PutOutcome {
                generation: 0,
                attempts: p.attempts,
                resolved_by_query: true,
                committed: false,
            },
        )
    } else if under_way(st) && !time_up {
        StepView::AskAgain
    } else if is_ours(p, st) {
        StepView::Done(
            PutOutcome {
                generation: st->0.current->0.generation,
                attempts: p.attempts,
                resolved_by_query: true,
                committed: true,
            },
        )
    } else {
        again(time_up)
    }
}

pub open spec fn path_view(st: Option<PathStat>) -> Option<PathStatView> {
    match st {
        Some(s) => Some(s@),
        None => None,
    }
}

/// The headers of an upload: one that only creates is refused where the path has a committed
/// version.
pub fn put_headers(create_only: bool) -> (r: Vec<Header>)
    ensures
        r@.len() == (if create_only {
            1int
        } else {
            0
        }),
        create_only ==> r@[0].name@ == "If-None-Match"@ && r@[0].value@ == "*"@,
{
    let mut out: Vec<Header> = Vec::new();
    if create_only {
        out.push(Header { name: "If-None-Match".to_owned(), value: "*".to_owned() });
    }
    out
}

impl Put {
    /// An upload of `len` bytes with this hash.
    pub fn new(path: &str, len: u64, digest: &str, wait: bool) -> (r: Self)
        ensures
            r@ == (PutView { path: path@, len, digest: digest@, wait, attempts: 0 }),
    {
        Put { path: path.to_owned(), len, digest: digest.to_owned(), wait, attempts: 0 }
    }

    /// An upload of `data`: its length and its hash go by the data.
    pub fn of(path: &str, data: &[u8], wait: bool) -> (r: Self)
        ensures
            r@ == (PutView {
                path: path@,
                len: data@.len() as u64,
                digest: net::sha256_hex_of(data@),
                wait,
                attempts: 0,
            }),
            r@.len == data@.len(),
    {
        let digest = net::sha256_hex(data);
        Put::new(path, data.len() as u64, digest.as_str(), wait)
    }

    /// The upload is sent.
    pub fn send(&mut self)
        requires
            old(self)@.attempts < u32::MAX,
        ensures
            final(self)@ == (PutView {
                attempts: (old(self)@.attempts + 1) as u32,
                ..old(self)@
            }),
    {
        self.attempts = self.attempts + 1;
    }

    fn retry(&self, time_up: bool) -> (r: PutStep)
        ensures
            r@ == again(time_up),
    {
        if time_up {
            PutStep::Fail(
                ClientError::NoLeader("上传在期限内没有得到确认".to_owned()),
            )
        } else {
            PutStep::Again
        }
    }

    /// What follows from an answer with this document; `said` is its body as text.
    pub fn answered(&self, status: u16, j: &Json, said: String, time_up: bool) -> (r: PutStep)
        ensures
            r@ == after_answer(self@, status, j@, said@, time_up),
    {
        if status == 201 {
            let generation: u64 = match j.num_in("generation") {
                Some(n) => n,
                None => 0,
            };
            PutStep::Done(
                PutOutcome {
                    generation,
                    attempts: self.attempts,
                    resolved_by_query: false,
                    committed: true,
                },
            )
        } else if status == 202 && !self.wait {
            PutStep::Done(
                PutOutcome {
                    generation: 0,
                    attempts: self.attempts,
                    resolved_by_query: false,
                    committed: false,
                },
            )
        } else if status == 500 {
            let failed = match j.text_in("status") {
                Some(s) => text::same(s.as_str(), "failed"),
                None => false,
            };
            if failed {
                self.retry(time_up)
            } else {
                PutStep::Ask
            }
        } else if status == 412 {
            PutStep::Fail(ClientError::Exists(self.path.clone()))
        } else {
            PutStep::Fail(ClientError::Rejected { status, body: said })
        }
    }

    /// What follows from the answer to the upload. A transport failure leaves the outcome open.
    pub fn replied(&self, r: PutReply, time_up: bool) -> (step: PutStep)
        ensures
            step@ == (match r {
                PutReply::Answer { status, body } => after_answer(
                    self@,
                    status,
                    reply::body_doc(body@),
                    text::lossy_text(body@),
                    time_up,
                ),
                PutReply::Failed(e) => if e is Io {
                    StepView::Ask
                } else {
                    StepView::Fail(e@)
                },
            }),
    {
        match r {
            PutReply::Answer { status, body } => {
                let j = reply::body_json(body.as_slice());
                let said = text::lossy(body.as_slice());
                self.answered(status, &j, said, time_up)
            },
            PutReply::Failed(ClientError::Io(_)) => PutStep::Ask,
            PutReply::Failed(e) => PutStep::Fail(e),
        }
    }

    /// What follows from the state of the path.
    pub fn found(&self, st: &Option<PathStat>, first: bool, time_up: bool) -> (r: PutStep)
        ensures
            r@ == after_query(self@, path_view(*st), first, time_up),
    {
        let (staged, busy) = match st {
            Some(s) => (
                text::same(s.state.as_str(), "staged") && s.length == self.len,
                !text::same(s.state.as_str(), "committed"),
            ),
            None => (false, false),
        };
        if first && !self.wait && staged {
            return PutStep::Done(
                PutOutcome {
                    generation: 0,
                    attempts: self.attempts,
                    resolved_by_query: true,
                    committed: false,
                },
            );
        }
        if busy && !time_up {
            return PutStep::AskAgain;
        }
        match st {
            Some(s) => match &s.current {
                Some(c) => {
                    if c.length == self.len && text::same(
                        c.sha256.as_str(),
                        self.digest.as_str(),
                    ) {
                        return PutStep::Done(
                            PutOutcome {
                                generation: c.generation,
                                attempts: self.attempts,
                                resolved_by_query: true,
                                committed: true,
                            },
                        );
                    }
                },
                None => {},
            },
            None => {},
        }
        self.retry(time_up)
    }
}

/// An upload counts as on tape only where the server confirmed it, or where the committed version
/// at the path has its length and its hash.
pub proof fn law_success_is_certain(
    p: PutView,
    status: u16,
    j: JsonView,
    said: Seq<char>,
    st: Option<PathStatView>,
    first: bool,
    time_up: bool,
)
    ensures
        after_answer(p, status, j, said, time_up) matches StepView::Done(o) ==> (o.committed ==> status
            == 201),
        after_query(p, st, first, time_up) matches StepView::Done(o) ==> (o.committed ==> is_ours(
            p,
            st,
        )),
{
}

/// An upload that waits for the tape never succeeds without it.
pub proof fn law_waiting_upload_is_committed(
    p: PutView,
    status: u16,
    j: JsonView,
    said: Seq<char>,
    st: Option<PathStatView>,
    first: bool,
    time_up: bool,
)
    requires
        p.wait,
    ensures
        after_answer(p, status, j, said, time_up) matches StepView::Done(o) ==> o.committed,
        after_query(p, st, first, time_up) matches StepView::Done(o) ==> o.committed,
{
}

/// While a version is under way and there is time, the upload is not sent again.
pub proof fn law_no_second_upload_while_one_is_under_way(
    p: PutView,
    st: Option<PathStatView>,
    first: bool,
)
    requires
        under_way(st),
    ensures
        !(after_query(p, st, first, false) is Again),
{
}

} // verus!

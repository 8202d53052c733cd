//! What clients are answered.
use vstd::prelude::*;

use crate::daemon::files;
use crate::daemon::files::{Flight, ServiceView, StatView};
use crate::daemon::http;
use crate::daemon::http::{Facts, PlanView, ReadAnswer, ReadOutcome};
use crate::daemon::paths;
use crate::daemon::paths::ServiceErrorView;
use crate::daemon::request::RouteView;

verus! {

/// A question for a path finds nothing just where nothing is committed there and nothing is under
/// way; a read is then refused with the same code, and where something is under way but nothing
/// committed, as a conflict.
pub proof fn law_when_a_path_is_found(
    path: Seq<char>,
    committed: Option<StatView>,
    in_flight: Option<Flight>,
)
    ensures
        ({
            let stat = http::stat_doc(path, committed, in_flight);
            let read = http::unreadable(path, committed, in_flight);
            &&& stat.code == 404 <==> committed is None && in_flight is None
            &&& stat.code == 200 <==> committed is Some || in_flight is Some
            &&& read is None <==> committed is Some
            &&& committed is None && in_flight is None ==> read->0.code == 404
            &&& committed is None && in_flight is Some ==> read->0.code == 409
        }),
{
}

/// What a refusal is coded as follows from what it is: what a later try may bring is unavailable,
/// what has no room is a lack of storage, what is missing is not found, what is in the way is a
/// conflict or a failed precondition.
pub proof fn law_codes_of_refusals(e: ServiceErrorView, leader: u64, addrs: Map<u64, Seq<char>>)
    ensures
        ({
            let code = http::refused(e, leader, addrs).code;
            &&& code == 503 <==> e is NotServing || e is SwitchingTape || e is NotWritable
            &&& code == 507 <==> e is NoTape || e is TooLarge || e is InsufficientCapacity
                || e is AttributeTooLarge
            &&& code == 404 <==> e is NotFound || e is NoAttribute
            &&& code == 412 <==> e is Exists
            &&& code == 400 <==> e is BadPath
            &&& code == 500 <==> e is Io
            &&& code == 409 <==> e is PathBusy || e is IsDirectory || e is NotDirectory
                || e is NotEmpty || e is CrossDevice || e is ProtectedAttribute
        }),
{
}

/// A file that was read is sent whole where no range is asked for; a part is never more than what
/// was read; what was not read is never sent.
pub proof fn law_read_is_sent(range: Option<Seq<char>>, o: ReadOutcome, r: ReadAnswer)
    requires
        http::read_result(range, o, r),
    ensures
        !(r is Refused) ==> o is Bytes,
        range is None && o is Bytes ==> r is Whole,
        r is Part ==> range is Some,
        o is Gone || (o matches ReadOutcome::Failed(e) && e is Busy) ==> r->Refused_0@.code == 503,
        o is Late ==> r->Refused_0@.code == 504,
        o is Failed && !(o->Failed_0 is Busy) ==> r->Refused_0@.code == 404,
        o is Bytes && r is Refused ==> r->Refused_0@.code == 416,
{
}

/// An upload is received just where its length is told, with that length; a file is read just where
/// a version is committed; a task is asked for by its number; and commands are handed on.
pub proof fn law_requests_are_carried_out(
    path: Seq<char>,
    id: u64,
    length: Option<u64>,
    svc: ServiceView,
    f: Facts,
)
    ensures
        ({
            let put = http::plan_of(RouteView::Put { path }, length, svc, f);
            let read = http::plan_of(RouteView::Read { path }, length, svc, f);
            let task = http::plan_of(RouteView::Task { id }, length, svc, f);
            &&& length matches Some(len) ==> put == (PlanView::Receive { path, len })
            &&& length is None ==> put is Send && put->Send_0.code == 411
            &&& read == (PlanView::Read { path }) <==> (svc.stat(
                path,
                files::stat_view(f.row),
            ) matches Ok(st) && st is Some)
            &&& task == PlanView::Task { id }
        }),
{
}

/// A question for a path is answered from the version that is committed there and from the change
/// under way at the same place.
pub proof fn law_stat_is_answered_for_the_path(path: Seq<char>, svc: ServiceView, f: Facts)
    ensures
        ({
            let plan = http::plan_of(RouteView::Stat { path }, None, svc, f);
            &&& plan is Send
            &&& svc.stat(path, files::stat_view(f.row)) matches Ok(st) ==> (plan->Send_0.code
                == 404 <==> st is None && svc.in_flight(paths::normal(path)) is None)
            &&& svc.stat(path, files::stat_view(f.row)) is Err ==> plan->Send_0.code >= 400
        }),
{
}

} // verus!

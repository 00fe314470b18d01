//! The coordinator's control surface, one function per route.
//!
//! Each function takes the registry plus the request's parsed ingredients
//! (the `uuid` header text, the current time, the answer of the disk
//! check) and produces the exact plain-text response body. `None` stands
//! for a malformed `uuid` value, which the server answers with a 400-class
//! status; everything else is a 200 with the body stated here.

use vstd::prelude::*;

verus! {

use vstd::string::StringExecFns;
use crate::registry::{Registry, register_spec, ping_spec, complete_spec, fail_spec, pull_rel,
    CompleteOutcome};
use crate::ids::{urn_text_of, parsed_uuid, mint_worker_id, worker_id_urn, parse_worker_id};
use crate::text::{lines_of, join_lines};

/// The body a pull answers with: the handed path, or the empty string both
/// for "no work" and for "unknown worker" — clients treat the two alike.
pub open spec fn pull_body_of(r: Option<Seq<char>>) -> Seq<char> {
    match r {
        Some(p) => p,
        None => Seq::empty(),
    }
}

/// The four configuration lines of the info sheet.
pub open spec fn info_body_of(
    ffmpeg: Seq<char>,
    ext: Seq<char>,
    completed: Seq<char>,
    user: Seq<char>,
) -> Seq<char> {
    "ffmpeg: "@ + ffmpeg + "\n"@ + "file_extension: "@ + ext + "\n"@ + "completed: "@ + completed
        + "\n"@ + "rsync_user: "@ + user + "\n"@
}

/// `/register`: mint a fresh id, check the worker in, and answer with the
/// id's URN text — which parses back to the very worker now checked in.
pub fn register(reg: &mut Registry, now: u64) -> (r: String)
    requires
        old(reg).wf(),
    ensures
        final(reg).wf(),
        exists|id: u128|
            {
                &&& final(reg)@ == #[trigger] register_spec(old(reg)@, id, now)
                &&& r@ == urn_text_of(id)
                &&& parsed_uuid(r@) == Some(id)
                &&& final(reg)@.check_ins.contains_key(id)
            },
{
    let id = mint_worker_id();
    reg.register(id, now);
    worker_id_urn(id)
}

/// `/ping`: refresh the sender's heartbeat — a well-formed unknown uuid is
/// still answered `Ok` with nothing changed, as the ping route does not
/// authenticate.
pub fn ping(reg: &mut Registry, uuid_header: &str, now: u64) -> (r: Option<String>)
    requires
        old(reg).wf(),
    ensures
        final(reg).wf(),
        parsed_uuid(uuid_header@) is None ==> r is None && final(reg)@ == old(reg)@,
        forall|id: u128|
            parsed_uuid(uuid_header@) == Some(id) ==> final(reg)@ == ping_spec(old(reg)@, id, now),
        parsed_uuid(uuid_header@) is Some ==> (r matches Some(body) && body@ == "Ok"@),
{
    match parse_worker_id(uuid_header) {
        None => None,
        Some(id) => {
            reg.ping(id, now);
            Some(String::from_str("Ok"))
        },
    }
}

/// `/pull`: hand the sender a path as [`pull_rel`] allows — a reclaimed
/// one when some assignment is stale, the pending head otherwise. The
/// body conflates "no work" and "unknown worker" as the empty string.
pub fn pull(reg: &mut Registry, uuid_header: &str, now: u64) -> (r: Option<String>)
    requires
        old(reg).wf(),
    ensures
        final(reg).wf(),
        parsed_uuid(uuid_header@) is None ==> r is None && final(reg)@ == old(reg)@,
        forall|id: u128|
            parsed_uuid(uuid_header@) == Some(id) ==> exists|pr: Option<Seq<char>>|
                {
                    &&& #[trigger] pull_rel(old(reg)@, id, now, final(reg)@, pr)
                    &&& (r matches Some(body) && body@ == pull_body_of(pr))
                },
{
    match parse_worker_id(uuid_header) {
        None => None,
        Some(id) => {
            match reg.pull_for(id, now) {
                Some(path) => Some(path),
                None => Some(String::new()),
            }
        },
    }
}

/// `/push`: a completion report. The caller has already checked the disk
/// for the expected output file (see `paths::expected_output_path`) and
/// passes the answer; the body thanks the worker, or names the failure.
pub fn push(reg: &mut Registry, uuid_header: &str, output_exists: bool) -> (r: Option<
    Result<String, String>,
>)
    requires
        old(reg).wf(),
    ensures
        final(reg).wf(),
        parsed_uuid(uuid_header@) is None ==> r is None && final(reg)@ == old(reg)@,
        forall|id: u128|
            parsed_uuid(uuid_header@) == Some(id) ==> {
                let (post, outcome) = complete_spec(old(reg)@, id, output_exists);
                &&& final(reg)@ == post
                &&& (outcome == CompleteOutcome::Completed ==> (r matches Some(res)
                    && res matches Ok(body) && body@ == "Thanks!"@))
                &&& (outcome == CompleteOutcome::NotYet ==> (r matches Some(res)
                    && res matches Err(body) && body@ == "Failure, file not submitted"@))
                &&& (outcome == CompleteOutcome::Missing ==> (r matches Some(res)
                    && res matches Err(body) && body@ == "No work found."@))
            },
{
    match parse_worker_id(uuid_header) {
        None => None,
        Some(id) => {
            match reg.complete_for(id, output_exists) {
                CompleteOutcome::Completed => Some(Ok(String::from_str("Thanks!"))),
                CompleteOutcome::NotYet => Some(
                    Err(String::from_str("Failure, file not submitted")),
                ),
                CompleteOutcome::Missing => Some(Err(String::from_str("No work found."))),
            }
        },
    }
}

/// `/failure`: the uuid carried in the report's JSON body. A known worker
/// is forgotten, its assignment recycled, and answered `Ok`; an unknown
/// one gets the empty body. `None` stands for a malformed uuid string.
pub fn failure(reg: &mut Registry, uuid_text: &str) -> (r: Option<String>)
    requires
        old(reg).wf(),
    ensures
        final(reg).wf(),
        parsed_uuid(uuid_text@) is None ==> r is None && final(reg)@ == old(reg)@,
        forall|id: u128|
            parsed_uuid(uuid_text@) == Some(id) ==> {
                let (post, known) = fail_spec(old(reg)@, id);
                &&& final(reg)@ == post
                &&& (r matches Some(body) && body@ == (if known {
                    "Ok"@
                } else {
                    Seq::<char>::empty()
                }))
            },
{
    match parse_worker_id(uuid_text) {
        None => None,
        Some(id) => {
            if reg.fail_for(id) {
                Some(String::from_str("Ok"))
            } else {
                Some(String::new())
            }
        },
    }
}

/// `/info`: the four configuration lines, given the four values read from
/// the environment.
pub fn info(ffmpeg: &str, ext: &str, completed: &str, user: &str) -> (r: String)
    ensures
        r@ == info_body_of(ffmpeg@, ext@, completed@, user@),
{
    let mut out = String::from_str("ffmpeg: ");
    out.append(ffmpeg);
    out.append("\n");
    out.append("file_extension: ");
    out.append(ext);
    out.append("\n");
    out.append("completed: ");
    out.append(completed);
    out.append("\n");
    out.append("rsync_user: ");
    out.append(user);
    out.append("\n");
    proof {
        assert(out@ =~= info_body_of(ffmpeg@, ext@, completed@, user@));
    }
    out
}

/// The default converter template, used when `FFMPEG_COMMAND` is unset.
pub fn default_ffmpeg_command() -> (r: String)
    ensures
        r@ == "ffmpeg -i [input] -f webm [output].webm"@,
{
    String::from_str("ffmpeg -i [input] -f webm [output].webm")
}

/// `/`: the pending paths, one per line, head first.
pub fn index(reg: &Registry) -> (r: String)
    ensures
        r@ == lines_of(reg@.pending),
{
    let rows = reg.snapshot_pending();
    join_lines(&rows)
}

} // verus!

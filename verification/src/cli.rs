//! What the command line decides around a deploy: where the spec comes from,
//! who runs the deploy, and whether it was a success.

use crate::model::DeployOutcome;
use crate::spec::{slug, slug_of, Route, RouteView, WorkloadSpec, WorkloadSpecView};
use crate::text::{decimal, decimal_of, joined};
use vstd::prelude::*;
use vstd::string::*;

verus! {

/// The spec that is deployed, where there is one: the one in the repository
/// comes before the one that the last deploy of the app stored. The name of the
/// app is the one that was asked for, and a route that was asked for replaces
/// the one in the spec.
pub open spec fn resolved(
    app: Seq<char>,
    in_repo: Option<WorkloadSpecView>,
    stored: Option<WorkloadSpecView>,
    route: Option<RouteView>,
) -> Option<WorkloadSpecView> {
    let found = if in_repo is Some {
        in_repo
    } else {
        stored
    };
    match found {
        Some(spec) => Some(
            WorkloadSpecView {
                name: app,
                route: if route is Some {
                    route
                } else {
                    spec.route
                },
                ..spec
            },
        ),
        None => None,
    }
}

/// The spec to deploy as `app`, from the one in the repository or the one that
/// is stored, and with the route that was asked for. There is none where there
/// is neither.
pub fn resolve_spec(
    app: &str,
    in_repo: Option<WorkloadSpec>,
    stored: Option<WorkloadSpec>,
    route: Option<Route>,
) -> (spec: Option<WorkloadSpec>)
    ensures
        spec.deep_view() == resolved(
            app@,
            in_repo.deep_view(),
            stored.deep_view(),
            route.deep_view(),
        ),
{
    let found = match in_repo {
        Some(spec) => Some(spec),
        None => stored,
    };
    match found {
        None => None,
        Some(spec) => {
            let mut spec = spec;
            spec.name = app.to_string();
            if route.is_some() {
                spec.route = route;
            }
            Some(spec)
        },
    }
}

/// Whether an app can have the name: something of it has to be left in its slug,
/// which the image and the unit are named after.
pub fn names_an_app(name: &str) -> (yes: bool)
    ensures
        yes == (slug_of(name@).len() > 0),
{
    slug(name).as_str().unicode_len() > 0
}

/// Why a route that was asked for cannot be read.
#[derive(Debug, Clone, Copy, PartialEq, Eq, Structural)]
pub enum RouteError {
    /// There is no colon to part the domain from the port.
    NoPort,
    /// Nothing stands before the port.
    NoDomain,
    /// A scheme stands before the domain.
    Scheme,
    /// What stands behind the colon is not a port.
    BadPort,
}

impl RouteError {
    /// What the error says.
    pub open spec fn text(self) -> Seq<char> {
        match self {
            RouteError::NoPort => "a route is domain:port"@,
            RouteError::NoDomain => "a route needs a domain before the port"@,
            RouteError::Scheme => "a route takes a bare domain, without a scheme"@,
            RouteError::BadPort => "a route needs a port from 1 to 65535"@,
        }
    }

    /// What the error says.
    pub fn message(self) -> (message: String)
        ensures
            message@ == self.text(),
    {
        match self {
            RouteError::NoPort => "a route is domain:port".to_string(),
            RouteError::NoDomain => "a route needs a domain before the port".to_string(),
            RouteError::Scheme => "a route takes a bare domain, without a scheme".to_string(),
            RouteError::BadPort => "a route needs a port from 1 to 65535".to_string(),
        }
    }
}

/// Where the last colon of a text is, or -1.
pub open spec fn last_colon(text: Seq<char>) -> int
    decreases text.len(),
{
    if text.len() == 0 {
        -1
    } else if text.last() == ':' {
        text.len() - 1
    } else {
        last_colon(text.drop_last())
    }
}

/// Whether `://` stands somewhere in a text.
pub open spec fn has_scheme(text: Seq<char>) -> bool {
    exists|i: int|
        0 <= i < text.len() - 2 && #[trigger] text[i] == ':' && text[i + 1] == '/' && text[i + 2]
            == '/'
}

/// The value of decimal digits, if there is at least one and nothing else.
pub open spec fn number(text: Seq<char>) -> Option<nat>
    decreases text.len(),
{
    if text.len() == 0 || !('0' <= text.last() <= '9') {
        None
    } else {
        let low = (text.last() as u32 - '0' as u32) as nat;
        if text.len() == 1 {
            Some(low)
        } else {
            match number(text.drop_last()) {
                Some(high) => Some(10 * high + low),
                None => None,
            }
        }
    }
}

/// The route that a text of the form `domain:port` means.
pub open spec fn route_of(text: Seq<char>) -> Result<RouteView, RouteError> {
    let colon = last_colon(text);
    let domain = text.take(colon);
    let port = number(text.skip(colon + 1));
    if colon < 0 {
        Err(RouteError::NoPort)
    } else if colon == 0 {
        Err(RouteError::NoDomain)
    } else if has_scheme(domain) {
        Err(RouteError::Scheme)
    } else if port is Some && 1 <= port->0 <= 65535 {
        Ok(RouteView { domain, port: port->0 as u16 })
    } else {
        Err(RouteError::BadPort)
    }
}

/// The value of the decimal digits from `start` on, if there is at least one,
/// nothing else, and the value is a port or zero.
fn port_from(text: &str, start: usize) -> (port: Option<u16>)
    requires
        start <= text@.len(),
    ensures
        ({
            let value = number(text@.skip(start as int));
            port == (if value is Some && value->0 <= 65535 {
                Some(value->0 as u16)
            } else {
                None
            })
        }),
{
    let count: usize = text.unicode_len();
    let ghost rest = text@.skip(start as int);
    if start >= count {
        return None;
    }
    let mut value: u32 = 0;
    let mut i: usize = start;
    while i < count
        invariant
            count == text@.len(),
            start <= i <= count,
            start < count,
            rest == text@.skip(start as int),
            i == start ==> value == 0,
            i > start ==> number(rest.take(i - start)) == Some(value as nat),
            value <= 65535,
        decreases count - i,
    {
        let c = text.get_char(i);
        let ghost now = rest.take(i + 1 - start);
        assert(now.drop_last() =~= rest.take(i - start));
        assert(now.last() == c);
        if c < '0' || c > '9' {
            proof {
                lemma_not_a_number(rest, i + 1 - start);
            }
            return None;
        }
        let low: u32 = c as u32 - 48;
        value = 10 * value + low;
        assert(number(now) == Some(value as nat));
        if value > 65535 {
            proof {
                lemma_number_grows(rest, i + 1 - start);
            }
            return None;
        }
        i = i + 1;
    }
    assert(rest.take(count - start) =~= rest);
    Some(value as u16)
}

/// A text is no number where a part of it that it starts with is none.
proof fn lemma_not_a_number(text: Seq<char>, count: int)
    requires
        0 < count <= text.len(),
        number(text.take(count)) is None,
    ensures
        number(text) is None,
    decreases text.len(),
{
    if count < text.len() {
        assert(text.drop_last().take(count) =~= text.take(count));
        lemma_not_a_number(text.drop_last(), count);
    } else {
        assert(text.take(count) =~= text);
    }
}

/// A number is not smaller than a number that it starts with.
proof fn lemma_number_grows(text: Seq<char>, count: int)
    requires
        0 < count <= text.len(),
        number(text.take(count)) is Some,
    ensures
        number(text) is Some ==> number(text)->0 >= number(text.take(count))->0,
    decreases text.len(),
{
    if count < text.len() {
        assert(text.drop_last().take(count) =~= text.take(count));
        lemma_number_grows(text.drop_last(), count);
    } else {
        assert(text.take(count) =~= text);
    }
}

/// Reads a route of the form `domain:port`. The last colon parts the two. A
/// domain that is empty or carries a scheme is refused, and so is a port that
/// is not between 1 and 65535.
pub fn parse_route(text: &str) -> (route: Result<Route, RouteError>)
    ensures
        (match route {
            Ok(route) => Ok(route@),
            Err(error) => Err(error),
        }) == route_of(text@),
{
    let count: usize = text.unicode_len();
    let mut colon: usize = count;
    let ghost all = text@;
    assert(all.take(count as int) =~= all);
    while colon > 0 && text.get_char(colon - 1) != ':'
        invariant
            count == text@.len(),
            all == text@,
            colon <= count,
            last_colon(all) == last_colon(all.take(colon as int)),
        decreases colon,
    {
        assert(all.take(colon as int).drop_last() =~= all.take(colon - 1));
        colon = colon - 1;
    }
    if colon == 0 {
        return Err(RouteError::NoPort);
    }
    let colon: usize = colon - 1;
    assert(last_colon(all) == colon);
    if colon == 0 {
        return Err(RouteError::NoDomain);
    }
    let mut domain = String::new();
    let mut scheme = false;
    for i in 0..colon
        invariant
            count == text@.len(),
            colon < count,
            domain@ == text@.take(i as int),
            scheme == has_scheme(text@.take(i as int)),
    {
        let c = text.get_char(i);
        domain.push(c);
        let ghost now = text@.take(i + 1);
        assert(domain@ =~= now);
        let ends = c == '/' && i >= 2 && text.get_char(i - 1) == '/' && text.get_char(i - 2) == ':';
        proof {
            let before = text@.take(i as int);
            assert(forall|j: int| 0 <= j < i ==> now[j] == before[j]);
            if ends {
                assert(now[i - 2] == ':');
            }
            if has_scheme(before) {
                let j = choose|j: int|
                    0 <= j < before.len() - 2 && #[trigger] before[j] == ':' && before[j + 1] == '/'
                        && before[j + 2] == '/';
                assert(now[j] == ':');
            }
            if has_scheme(now) && !ends {
                let j = choose|j: int|
                    0 <= j < now.len() - 2 && #[trigger] now[j] == ':' && now[j + 1] == '/'
                        && now[j + 2] == '/';
                assert(before[j] == ':');
            }
        }
        if ends {
            scheme = true;
        }
    }
    if scheme {
        return Err(RouteError::Scheme);
    }
    match port_from(text, colon + 1) {
        Some(port) => {
            if port == 0 {
                Err(RouteError::BadPort)
            } else {
                Ok(Route { domain, port })
            }
        },
        None => Err(RouteError::BadPort),
    }
}

/// What a running daemon said when it was asked to run a deploy.
#[derive(Debug, PartialEq, Eq)]
pub enum Handoff {
    /// It queued the deploy.
    Accepted { deploy_id: i64 },
    /// It answered, and will not run it.
    Refused { status: Option<String>, message: String },
    /// There was no answer.
    Unreachable,
}

/// The exit status of `curl` where nobody listens.
pub const NOT_CONNECTED: i32 = 7;

/// Whether a request that `curl` made got through, from the exit status of
/// `curl`, if it could be run at all.
pub open spec fn got_through(exit: Option<i32>) -> bool {
    exit is Some && exit->0 != NOT_CONNECTED
}

/// What a daemon said, from what became of the request to it: the exit status of
/// the `curl` that made it, if that could be run, and of the answer the status,
/// the id of the deploy in it, and the text. Only an answer that carries a
/// success and an id is an acceptance.
pub fn handoff(
    exit: Option<i32>,
    status: Option<u16>,
    deploy_id: Option<i64>,
    message: String,
) -> (handoff: Handoff)
    ensures
        match handoff {
            Handoff::Unreachable => !got_through(exit),
            Handoff::Accepted { deploy_id: id } => {
                &&& got_through(exit)
                &&& status is Some && 200 <= status->0 < 300
                &&& deploy_id == Some(id)
            },
            Handoff::Refused { status: text, message: why } => {
                &&& got_through(exit)
                &&& !(status is Some && 200 <= status->0 < 300 && deploy_id is Some)
                &&& text.deep_view() == (match status {
                    Some(status) => Some(decimal_of(status as int)),
                    None => None,
                })
                &&& why == message
            },
        },
{
    match exit {
        Some(exit) if exit != NOT_CONNECTED => {},
        _ => return Handoff::Unreachable,
    }
    let success = match status {
        Some(status) => 200 <= status && status < 300,
        None => false,
    };
    match deploy_id {
        Some(deploy_id) if success => Handoff::Accepted { deploy_id },
        _ => {
            let status = match status {
                Some(status) => Some(decimal(status as i64)),
                None => None,
            };
            Handoff::Refused { status, message }
        },
    }
}

/// What comes after a daemon was asked.
#[derive(Debug, Clone, Copy, PartialEq, Eq, Structural)]
pub enum Next {
    /// The command is over.
    Leave { success: bool },
    /// The deploy runs in this process.
    DeployHere,
}

/// Decides who runs the deploy, from what the daemon that listens at `listen`
/// said; there is nothing that it said where paths are rooted elsewhere, for
/// then it is not asked. Only where no daemon answers does the deploy run in
/// this process: a refusal is an answer, and is never tried again here. The
/// lines are for the standard output, or for the standard error where the
/// command fails.
pub fn after_handoff(handoff: Option<Handoff>, listen: &str) -> (decision: (Next, Vec<String>))
    ensures
        (decision.0, decision.1.deep_view()) == (match handoff {
            None => (
                Next::DeployHere,
                seq!["--root is set; deploying locally instead of handing off to a daemon"@],
            ),
            Some(Handoff::Unreachable) => (
                Next::DeployHere,
                seq!["no daemon running; deploying locally"@],
            ),
            Some(Handoff::Accepted { deploy_id }) => (
                Next::Leave { success: true },
                seq![
                    "queued as deploy "@ + decimal_of(deploy_id as int) + " on the running daemon"@,
                    "http://"@ + listen@ + "/deploy/"@ + decimal_of(deploy_id as int),
                ],
            ),
            Some(Handoff::Refused { status, message }) => (
                Next::Leave { success: false },
                seq![
                    "daemon refused the deploy ("@ + (match status {
                        Some(status) => status@,
                        None => "status unknown"@,
                    }) + "): "@ + message@,
                ],
            ),
        }),
{
    let mut lines: Vec<String> = Vec::new();
    let next = match handoff {
        None => {
            lines.push(
                "--root is set; deploying locally instead of handing off to a daemon".to_string(),
            );
            assert(lines.deep_view() =~= seq![
                "--root is set; deploying locally instead of handing off to a daemon"@,
            ]);
            Next::DeployHere
        },
        Some(Handoff::Unreachable) => {
            lines.push("no daemon running; deploying locally".to_string());
            assert(lines.deep_view() =~= seq!["no daemon running; deploying locally"@]);
            Next::DeployHere
        },
        Some(Handoff::Accepted { deploy_id }) => {
            let id = decimal(deploy_id);
            lines.push(joined("queued as deploy ", id.as_str()).concat(" on the running daemon"));
            lines.push(joined("http://", listen).concat("/deploy/").concat(id.as_str()));
            assert(lines.deep_view() =~= seq![
                "queued as deploy "@ + decimal_of(deploy_id as int) + " on the running daemon"@,
                "http://"@ + listen@ + "/deploy/"@ + decimal_of(deploy_id as int),
            ]);
            Next::Leave { success: true }
        },
        Some(Handoff::Refused { status, message }) => {
            let status = match status {
                Some(status) => status,
                None => "status unknown".to_string(),
            };
            lines.push(
                joined("daemon refused the deploy (", status.as_str()).concat("): ").concat(
                    message.as_str(),
                ),
            );
            assert(lines.deep_view() =~= seq![
                "daemon refused the deploy ("@ + status@ + "): "@ + message@,
            ]);
            Next::Leave { success: false }
        },
    };
    (next, lines)
}

/// Whether the command succeeded: a deploy that was rolled back or failed did
/// not.
pub fn succeeded(outcome: &DeployOutcome) -> (yes: bool)
    ensures
        yes == (outcome@ is Done),
{
    matches!(outcome, DeployOutcome::Done { .. })
}

} // verus!

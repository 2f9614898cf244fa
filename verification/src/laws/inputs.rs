//! What holds of what a deploy is asked for: the spec, where it comes from, and
//! the route on the command line.

use crate::cli::{got_through, has_scheme, last_colon, number, resolved, route_of, RouteError};
use crate::laws::words::law_written_number_reads_back;
use crate::spec::{
    breaks_line, slug_of, some_breaks_line, RouteView, SpecError, WorkloadSpecView,
};
use crate::text::decimal_of;
use vstd::prelude::*;

verus! {

/// Whether a text has no line feed and no carriage return.
pub open spec fn one_liner(text: Seq<char>) -> bool {
    forall|i: int| 0 <= i < text.len() ==> #[trigger] text[i] != '\n' && text[i] != '\r'
}

/// Whether none of the texts has a line feed or a carriage return.
pub open spec fn one_liners(texts: Seq<Seq<char>>) -> bool {
    forall|i: int| 0 <= i < texts.len() ==> one_liner(#[trigger] texts[i])
}

/// Whether no field of a spec has a line feed or a carriage return.
pub open spec fn written_on_one_line(spec: WorkloadSpecView) -> bool {
    &&& one_liner(spec.name)
    &&& one_liner(spec.image)
    &&& spec.command matches Some(command) ==> one_liners(command)
    &&& forall|i: int|
        0 <= i < spec.env.len() ==> one_liner((#[trigger] spec.env[i]).0) && one_liner(
            spec.env[i].1,
        )
    &&& one_liners(spec.ports)
    &&& one_liners(spec.volumes)
    &&& one_liners(spec.secrets)
    &&& spec.memory_max matches Some(limit) ==> one_liner(limit)
    &&& spec.health_cmd matches Some(command) ==> one_liner(command)
    &&& spec.route matches Some(route) ==> one_liner(route.domain)
    &&& forall|i: int|
        0 <= i < spec.tasks.len() ==> one_liner((#[trigger] spec.tasks[i]).name) && one_liner(
            spec.tasks[i].schedule,
        ) && one_liners(spec.tasks[i].command)
}

/// Whether an ASCII letter or a digit stands in a text.
pub open spec fn has_letter_or_digit(text: Seq<char>) -> bool {
    exists|i: int|
        0 <= i < text.len() && ('a' <= #[trigger] text[i] <= 'z' || 'A' <= text[i] <= 'Z' || '0'
            <= text[i] <= '9')
}

/// A name has a slug exactly where it has an ASCII letter or a digit.
pub proof fn law_who_has_a_slug(name: Seq<char>)
    ensures
        slug_of(name).len() > 0 <==> has_letter_or_digit(name),
    decreases name.len(),
{
    if name.len() > 0 {
        let before = name.drop_last();
        law_who_has_a_slug(before);
        assert(name.last() == name[name.len() - 1]);
        assert(forall|i: int| 0 <= i < before.len() ==> before[i] == name[i]);
        if has_letter_or_digit(before) {
            let i = choose|i: int|
                0 <= i < before.len() && ('a' <= #[trigger] before[i] <= 'z' || 'A' <= before[i]
                    <= 'Z' || '0' <= before[i] <= '9');
            assert('a' <= name[i] <= 'z' || 'A' <= name[i] <= 'Z' || '0' <= name[i] <= '9');
        }
        if has_letter_or_digit(name) && slug_of(before).len() == 0 {
            let i = choose|i: int|
                0 <= i < name.len() && ('a' <= #[trigger] name[i] <= 'z' || 'A' <= name[i] <= 'Z'
                    || '0' <= name[i] <= '9');
            if i < before.len() {
                assert('a' <= before[i] <= 'z' || 'A' <= before[i] <= 'Z' || '0' <= before[i]
                    <= '9');
            }
        }
    }
}

/// A text that is no one-liner breaks a line.
proof fn lemma_breaks(text: Seq<char>)
    ensures
        breaks_line(text) == !one_liner(text),
{
    if breaks_line(text) {
        let i = choose|i: int| 0 <= i < text.len() && (text[i] == '\n' || text[i] == '\r');
        assert(text[i] == '\n' || text[i] == '\r');
    }
    if !one_liner(text) {
        let i = choose|i: int|
            0 <= i < text.len() && (#[trigger] text[i] == '\n' || text[i] == '\r');
        assert(text.contains(text[i]));
    }
}

/// Texts of which one is no one-liner break a line.
proof fn lemma_some_break(texts: Seq<Seq<char>>)
    ensures
        some_breaks_line(texts) == !one_liners(texts),
{
    assert forall|i: int| 0 <= i < texts.len() implies breaks_line(#[trigger] texts[i])
        == !one_liner(texts[i]) by {
        lemma_breaks(texts[i]);
    }
}

/// A spec breaks a line where one of its fields does.
proof fn lemma_spec_breaks(spec: WorkloadSpecView)
    ensures
        spec.breaks_line() == !written_on_one_line(spec),
{
    lemma_breaks(spec.name);
    lemma_breaks(spec.image);
    if let Some(command) = spec.command {
        lemma_some_break(command);
    }
    assert forall|i: int| 0 <= i < spec.env.len() implies {
        &&& breaks_line((#[trigger] spec.env[i]).0) == !one_liner(spec.env[i].0)
        &&& breaks_line(spec.env[i].1) == !one_liner(spec.env[i].1)
    } by {
        lemma_breaks(spec.env[i].0);
        lemma_breaks(spec.env[i].1);
    }
    lemma_some_break(spec.ports);
    lemma_some_break(spec.volumes);
    lemma_some_break(spec.secrets);
    if let Some(limit) = spec.memory_max {
        lemma_breaks(limit);
    }
    if let Some(command) = spec.health_cmd {
        lemma_breaks(command);
    }
    if let Some(route) = spec.route {
        lemma_breaks(route.domain);
    }
    assert forall|i: int| 0 <= i < spec.tasks.len() implies (#[trigger] spec.tasks[i]).breaks_line()
        == !(one_liner(spec.tasks[i].name) && one_liner(spec.tasks[i].schedule) && one_liners(
        spec.tasks[i].command,
    )) by {
        lemma_breaks(spec.tasks[i].name);
        lemma_breaks(spec.tasks[i].schedule);
        lemma_some_break(spec.tasks[i].command);
    }
}

/// A spec can be deployed exactly where its name has an ASCII letter or a digit,
/// no field of it has a line break, and a route comes with a health command.
/// What is missing is named in this order.
pub proof fn law_what_can_be_deployed(spec: WorkloadSpecView)
    ensures
        spec.verdict() is Ok <==> {
            &&& has_letter_or_digit(spec.name)
            &&& written_on_one_line(spec)
            &&& spec.route is Some ==> spec.health_cmd is Some
        },
        spec.verdict() == Err::<(), _>(SpecError::EmptySlug) <==> !has_letter_or_digit(spec.name),
        spec.verdict() == Err::<(), _>(SpecError::LineBreak) <==> {
            &&& has_letter_or_digit(spec.name)
            &&& !written_on_one_line(spec)
        },
        spec.verdict() == Err::<(), _>(SpecError::RouteWithoutHealthCheck) <==> {
            &&& has_letter_or_digit(spec.name)
            &&& written_on_one_line(spec)
            &&& spec.route is Some
            &&& spec.health_cmd is None
        },
{
    law_who_has_a_slug(spec.name);
    lemma_spec_breaks(spec);
}

/// The spec that is deployed is the one in the repository, or else the stored
/// one, in every field but two: its name is the app that was asked for, and its
/// route the one that was asked for, if one was.
pub proof fn law_where_the_spec_comes_from(
    app: Seq<char>,
    in_repo: Option<WorkloadSpecView>,
    stored: Option<WorkloadSpecView>,
    route: Option<RouteView>,
)
    ensures
        resolved(app, in_repo, stored, route) is Some <==> in_repo is Some || stored is Some,
        resolved(app, in_repo, stored, route) matches Some(spec) ==> {
            let source = if in_repo is Some {
                in_repo->0
            } else {
                stored->0
            };
            &&& spec.name == app
            &&& spec.route == (match route {
                Some(route) => Some(route),
                None => source.route,
            })
            &&& spec.image == source.image
            &&& spec.command == source.command
            &&& spec.env == source.env
            &&& spec.ports == source.ports
            &&& spec.volumes == source.volumes
            &&& spec.secrets == source.secrets
            &&& spec.memory_max == source.memory_max
            &&& spec.health_cmd == source.health_cmd
            &&& spec.restart_policy == source.restart_policy
            &&& spec.tasks == source.tasks
        },
        // The stored spec does not matter where the repository has one.
        in_repo is Some ==> resolved(app, in_repo, stored, route) == resolved(
            app,
            in_repo,
            None,
            route,
        ),
        // What was resolved once stays as it is when it is resolved again.
        resolved(app, resolved(app, in_repo, stored, route), None, None) == resolved(
            app,
            in_repo,
            stored,
            route,
        ),
{
}

/// Whether a scheme is parted from what follows somewhere in a text.
pub open spec fn holds_a_scheme(text: Seq<char>) -> bool {
    exists|i: int|
        0 <= i && i + 3 <= text.len() && #[trigger] text.subrange(i, i + 3) == seq![':', '/', '/']
}

/// Where the last colon is in a text that ends in a part without one.
proof fn lemma_last_colon(domain: Seq<char>, rest: Seq<char>)
    requires
        forall|i: int| 0 <= i < rest.len() ==> #[trigger] rest[i] != ':',
    ensures
        last_colon(domain + seq![':'] + rest) == domain.len(),
    decreases rest.len(),
{
    let text = domain + seq![':'] + rest;
    if rest.len() > 0 {
        let before = rest.drop_last();
        assert(text.drop_last() =~= domain + seq![':'] + before);
        assert(text.last() == rest[rest.len() - 1]);
        assert forall|i: int| 0 <= i < before.len() implies #[trigger] before[i] != ':' by {
            assert(before[i] == rest[i]);
        }
        lemma_last_colon(domain, before);
    } else {
        assert(text.last() == ':');
    }
}

/// There is no last colon where there is none.
proof fn lemma_no_colon(text: Seq<char>)
    requires
        forall|i: int| 0 <= i < text.len() ==> #[trigger] text[i] != ':',
    ensures
        last_colon(text) == -1,
    decreases text.len(),
{
    if text.len() > 0 {
        assert(text.last() == text[text.len() - 1]);
        assert forall|i: int| 0 <= i < text.drop_last().len() implies #[trigger] text.drop_last()[i]
            != ':' by {
            assert(text.drop_last()[i] == text[i]);
        }
        lemma_no_colon(text.drop_last());
    }
}

/// A scheme is where three characters in a row say so.
proof fn lemma_scheme(text: Seq<char>)
    ensures
        has_scheme(text) == holds_a_scheme(text),
{
    if has_scheme(text) {
        let i = choose|i: int|
            0 <= i < text.len() - 2 && #[trigger] text[i] == ':' && text[i + 1] == '/' && text[i
                + 2] == '/';
        assert(text.subrange(i, i + 3) =~= seq![':', '/', '/']);
    }
    if holds_a_scheme(text) {
        let i = choose|i: int|
            0 <= i && i + 3 <= text.len() && #[trigger] text.subrange(i, i + 3) == seq![
                ':',
                '/',
                '/',
            ];
        let part = text.subrange(i, i + 3);
        assert(part[0] == text[i] && part[1] == text[i + 1] && part[2] == text[i + 2]);
    }
}

/// A text without a colon is no route. Otherwise the last colon parts it in a
/// domain and a port: an empty domain, a domain with a scheme, and a port that
/// is no number between 1 and 65535 are refused, in this order, and all else is
/// the route of that domain and that port.
pub proof fn law_what_a_route_is(domain: Seq<char>, rest: Seq<char>)
    requires
        forall|i: int| 0 <= i < rest.len() ==> #[trigger] rest[i] != ':',
    ensures
        route_of(rest) == Err::<RouteView, _>(RouteError::NoPort),
        route_of(domain + seq![':'] + rest) == (if domain.len() == 0 {
            Err(RouteError::NoDomain)
        } else if holds_a_scheme(domain) {
            Err(RouteError::Scheme)
        } else {
            match number(rest) {
                Some(port) => if 1 <= port <= 65535 {
                    Ok(RouteView { domain, port: port as u16 })
                } else {
                    Err(RouteError::BadPort)
                },
                None => Err(RouteError::BadPort),
            }
        }),
{
    let text = domain + seq![':'] + rest;
    lemma_no_colon(rest);
    lemma_last_colon(domain, rest);
    lemma_scheme(domain);
    assert(text.take(domain.len() as int) =~= domain);
    assert(text.skip(domain.len() as int + 1) =~= rest);
}

/// Writing a route and reading it back gives the route, for every domain that is
/// not empty and has no scheme, and for every port.
pub proof fn law_written_route_reads_back(domain: Seq<char>, port: u16)
    requires
        domain.len() > 0,
        !holds_a_scheme(domain),
        1 <= port,
    ensures
        route_of(domain + seq![':'] + decimal_of(port as int)) == Ok::<_, RouteError>(
            RouteView { domain, port },
        ),
{
    let rest = decimal_of(port as int);
    law_written_number_reads_back(port as nat);
    assert forall|i: int| 0 <= i < rest.len() implies #[trigger] rest[i] != ':' by {
        assert('0' <= rest[i] <= '9');
    }
    law_what_a_route_is(domain, rest);
}

/// A request of `curl` got through unless `curl` could not be run or could not
/// connect.
pub proof fn law_who_got_through(exit: i32)
    ensures
        !got_through(None),
        got_through(Some(exit)) == (exit != 7),
{
}

} // verus!

//! What an app is: the workload spec, its short name on the host, and the
//! rules a spec has to meet before it can be deployed.

use vstd::prelude::*;
use vstd::string::*;

verus! {

/// When systemd starts the container again.
#[derive(Debug, Clone, Copy, PartialEq, Eq, Structural)]
pub enum RestartPolicy {
    Always,
    OnFailure,
    No,
}

/// A public domain that is proxied to a port of the container.
#[derive(Debug, PartialEq, Eq)]
pub struct Route {
    pub domain: String,
    pub port: u16,
}

pub struct RouteView {
    pub domain: Seq<char>,
    pub port: u16,
}

impl View for Route {
    type V = RouteView;

    open spec fn view(&self) -> RouteView {
        RouteView { domain: self.domain@, port: self.port }
    }
}

impl DeepView for Route {
    type V = RouteView;

    open spec fn deep_view(&self) -> RouteView {
        self.view()
    }
}

/// A command on a timer, run in a fresh container from the image of the app.
#[derive(Debug, PartialEq, Eq)]
pub struct Task {
    pub name: String,
    pub schedule: String,
    pub command: Vec<String>,
}

pub struct TaskView {
    pub name: Seq<char>,
    pub schedule: Seq<char>,
    pub command: Seq<Seq<char>>,
}

impl View for Task {
    type V = TaskView;

    open spec fn view(&self) -> TaskView {
        TaskView {
            name: self.name@,
            schedule: self.schedule@,
            command: self.command.deep_view(),
        }
    }
}

impl DeepView for Task {
    type V = TaskView;

    open spec fn deep_view(&self) -> TaskView {
        self.view()
    }
}

/// How an app is to run.
#[derive(Debug, PartialEq, Eq)]
pub struct WorkloadSpec {
    pub name: String,
    pub image: String,
    pub command: Option<Vec<String>>,
    pub env: Vec<(String, String)>,
    pub ports: Vec<String>,
    pub volumes: Vec<String>,
    /// Names of secrets, never their values.
    pub secrets: Vec<String>,
    pub memory_max: Option<String>,
    pub health_cmd: Option<String>,
    pub restart_policy: RestartPolicy,
    pub route: Option<Route>,
    pub tasks: Vec<Task>,
}

#[verifier::ext_equal]
pub struct WorkloadSpecView {
    pub name: Seq<char>,
    pub image: Seq<char>,
    pub command: Option<Seq<Seq<char>>>,
    pub env: Seq<(Seq<char>, Seq<char>)>,
    pub ports: Seq<Seq<char>>,
    pub volumes: Seq<Seq<char>>,
    pub secrets: Seq<Seq<char>>,
    pub memory_max: Option<Seq<char>>,
    pub health_cmd: Option<Seq<char>>,
    pub restart_policy: RestartPolicy,
    pub route: Option<RouteView>,
    pub tasks: Seq<TaskView>,
}

impl View for WorkloadSpec {
    type V = WorkloadSpecView;

    open spec fn view(&self) -> WorkloadSpecView {
        WorkloadSpecView {
            name: self.name@,
            image: self.image@,
            command: self.command.deep_view(),
            env: self.env.deep_view(),
            ports: self.ports.deep_view(),
            volumes: self.volumes.deep_view(),
            secrets: self.secrets.deep_view(),
            memory_max: self.memory_max.deep_view(),
            health_cmd: self.health_cmd.deep_view(),
            restart_policy: self.restart_policy,
            route: self.route.deep_view(),
            tasks: self.tasks.deep_view(),
        }
    }
}

impl DeepView for WorkloadSpec {
    type V = WorkloadSpecView;

    open spec fn deep_view(&self) -> WorkloadSpecView {
        self.view()
    }
}

/// Why a spec cannot be deployed.
#[derive(Debug, Clone, Copy, PartialEq, Eq, Structural)]
pub enum SpecError {
    /// Nothing of the name is left in its slug.
    EmptySlug,
    /// A field holds a line feed or a carriage return.
    LineBreak,
    /// The spec asks for a route without saying how readiness is told.
    RouteWithoutHealthCheck,
}

impl SpecError {
    /// What the error says.
    pub open spec fn text(self) -> Seq<char> {
        match self {
            SpecError::EmptySlug => "the name has no letter and no digit"@,
            SpecError::LineBreak => "a field holds a line break"@,
            SpecError::RouteWithoutHealthCheck => "a route needs a health_cmd"@,
        }
    }

    /// What the error says.
    pub fn message(self) -> (message: String)
        ensures
            message@ == self.text(),
    {
        match self {
            SpecError::EmptySlug => "the name has no letter and no digit".to_string(),
            SpecError::LineBreak => "a field holds a line break".to_string(),
            SpecError::RouteWithoutHealthCheck => "a route needs a health_cmd".to_string(),
        }
    }
}

/// Whether a character may stand in a slug, once in lower case.
pub open spec fn is_word(c: char) -> bool {
    ||| 'a' <= c <= 'z'
    ||| 'A' <= c <= 'Z'
    ||| '0' <= c <= '9'
}

/// The lower case of an ASCII letter; any other character as it is.
pub open spec fn lower(c: char) -> char {
    if 'A' <= c <= 'Z' {
        (c as u32 + 32) as char
    } else {
        c
    }
}

/// The slug of a name: its runs of ASCII letters and digits, in lower case,
/// with one hyphen between them.
pub open spec fn slug_of(name: Seq<char>) -> Seq<char>
    decreases name.len(),
{
    if name.len() == 0 {
        Seq::empty()
    } else {
        let before = name.drop_last();
        if !is_word(name.last()) {
            slug_of(before)
        } else if slug_of(before).len() > 0 && !is_word(before.last()) {
            slug_of(before).push('-').push(lower(name.last()))
        } else {
            slug_of(before).push(lower(name.last()))
        }
    }
}

/// The lower case of an ASCII letter; any other character as it is.
fn lowered(c: char) -> (low: char)
    ensures
        low == lower(c),
{
    if 'A' <= c && c <= 'Z' {
        let code: u8 = c as u8;
        (code + 32) as char
    } else {
        c
    }
}

/// Whether a character may stand in a slug, once in lower case.
fn word(c: char) -> (yes: bool)
    ensures
        yes == is_word(c),
{
    ('a' <= c && c <= 'z') || ('A' <= c && c <= 'Z') || ('0' <= c && c <= '9')
}

/// The short form of an app's name that its unit, its image and its route
/// carry.
pub fn slug(name: &str) -> (slug: String)
    ensures
        slug@ == slug_of(name@),
{
    let mut slug = String::new();
    let mut empty = true;
    let mut gap = false;
    let count: usize = name.unicode_len();
    for i in 0..count
        invariant
            count == name@.len(),
            slug@ == slug_of(name@.take(i as int)),
            empty == (slug@.len() == 0),
            gap == (i > 0 && !is_word(name@[i - 1])),
    {
        let c = name.get_char(i);
        let ghost now = name@.take(i + 1);
        assert(now.drop_last() =~= name@.take(i as int));
        if word(c) {
            if gap && !empty {
                slug.push('-');
            }
            slug.push(lowered(c));
            empty = false;
            gap = false;
        } else {
            gap = true;
        }
        assert(slug@ =~= slug_of(now));
    }
    assert(name@.take(count as int) =~= name@);
    slug
}

/// Whether a text reads like a slug from its start on: lower case letters,
/// digits, and hyphens one at a time, of which none comes first.
pub open spec fn slug_like(text: Seq<char>) -> bool {
    &&& forall|i: int|
        0 <= i < text.len() ==> {
            ||| 'a' <= #[trigger] text[i] <= 'z'
            ||| '0' <= text[i] <= '9'
            ||| text[i] == '-' && i > 0 && text[i - 1] != '-'
        }
}

/// A slug is made of lower case letters, digits, and single hyphens between
/// them.
pub proof fn law_slug_is_plain(name: Seq<char>)
    ensures
        slug_like(slug_of(name)),
        slug_of(name).len() > 0 ==> slug_of(name).last() != '-',
    decreases name.len(),
{
    if name.len() > 0 {
        law_slug_is_plain(name.drop_last());
    }
}

/// What reads like a slug is its own slug, but for a hyphen at its end.
proof fn lemma_slug_of_slug_like(text: Seq<char>)
    requires
        slug_like(text),
    ensures
        slug_of(text) == (if text.len() > 0 && text.last() == '-' {
            text.drop_last()
        } else {
            text
        }),
    decreases text.len(),
{
    if text.len() > 0 {
        let before = text.drop_last();
        assert forall|i: int| 0 <= i < before.len() implies {
            ||| 'a' <= #[trigger] before[i] <= 'z'
            ||| '0' <= before[i] <= '9'
            ||| before[i] == '-' && i > 0 && before[i - 1] != '-'
        } by {
            assert(before[i] == text[i]);
        }
        lemma_slug_of_slug_like(before);
        assert(text =~= before.push(text.last()));
        if before.len() > 0 {
            assert(before.last() == text[text.len() - 2]);
            if before.last() == '-' {
                assert(before =~= before.drop_last().push('-'));
            }
        }
    }
}

/// A slug is its own slug: naming an app by its slug does not move it.
pub proof fn law_slug_of_a_slug(name: Seq<char>)
    ensures
        slug_of(slug_of(name)) == slug_of(name),
{
    law_slug_is_plain(name);
    lemma_slug_of_slug_like(slug_of(name));
}

/// Whether a text holds a line feed or a carriage return.
pub open spec fn breaks_line(text: Seq<char>) -> bool {
    text.contains('\n') || text.contains('\r')
}

/// Whether one of the texts holds a line feed or a carriage return.
pub open spec fn some_breaks_line(texts: Seq<Seq<char>>) -> bool {
    exists|i: int| 0 <= i < texts.len() && breaks_line(#[trigger] texts[i])
}

impl TaskView {
    /// Whether a text of the task breaks a line.
    pub open spec fn breaks_line(self) -> bool {
        breaks_line(self.name) || breaks_line(self.schedule) || some_breaks_line(self.command)
    }
}

impl WorkloadSpecView {
    /// Whether any text of the spec breaks a line.
    pub open spec fn breaks_line(self) -> bool {
        ||| breaks_line(self.name)
        ||| breaks_line(self.image)
        ||| self.command is Some && some_breaks_line(self.command->0)
        ||| exists|i: int|
            0 <= i < self.env.len() && (breaks_line((#[trigger] self.env[i]).0) || breaks_line(
                self.env[i].1,
            ))
        ||| some_breaks_line(self.ports)
        ||| some_breaks_line(self.volumes)
        ||| some_breaks_line(self.secrets)
        ||| self.memory_max is Some && breaks_line(self.memory_max->0)
        ||| self.health_cmd is Some && breaks_line(self.health_cmd->0)
        ||| self.route is Some && breaks_line(self.route->0.domain)
        ||| exists|i: int| 0 <= i < self.tasks.len() && (#[trigger] self.tasks[i]).breaks_line()
    }

    /// Why the spec cannot be deployed, or that it can: a name without a slug
    /// is found first, then a line break in a text, then a route that nothing
    /// tells the readiness of.
    pub open spec fn verdict(self) -> Result<(), SpecError> {
        if slug_of(self.name).len() == 0 {
            Err(SpecError::EmptySlug)
        } else if self.breaks_line() {
            Err(SpecError::LineBreak)
        } else if self.route is Some && self.health_cmd is None {
            Err(SpecError::RouteWithoutHealthCheck)
        } else {
            Ok(())
        }
    }
}

/// Whether a text holds a line feed or a carriage return.
fn has_break(text: &str) -> (yes: bool)
    ensures
        yes == breaks_line(text@),
{
    let count: usize = text.unicode_len();
    for i in 0..count
        invariant
            count == text@.len(),
            forall|j: int| 0 <= j < i ==> text@[j] != '\n' && text@[j] != '\r',
    {
        let c = text.get_char(i);
        if c == '\n' || c == '\r' {
            assert(text@[i as int] == c);
            return true;
        }
    }
    false
}

/// Whether one of the texts holds a line feed or a carriage return.
fn some_have_break(texts: &Vec<String>) -> (yes: bool)
    ensures
        yes == some_breaks_line(texts.deep_view()),
{
    for i in 0..texts.len()
        invariant
            forall|j: int| 0 <= j < i ==> !breaks_line(#[trigger] texts.deep_view()[j]),
    {
        if has_break(texts[i].as_str()) {
            assert(breaks_line(texts.deep_view()[i as int]));
            return true;
        }
    }
    false
}

/// Whether an optional text holds a line feed or a carriage return.
fn optional_has_break(text: &Option<String>) -> (yes: bool)
    ensures
        yes == (text.deep_view() is Some && breaks_line(text.deep_view()->0)),
{
    match text {
        Some(t) => has_break(t.as_str()),
        None => false,
    }
}

impl Task {
    /// Whether a text of the task breaks a line.
    fn has_break(&self) -> (yes: bool)
        ensures
            yes == self@.breaks_line(),
    {
        has_break(self.name.as_str()) || has_break(self.schedule.as_str()) || some_have_break(
            &self.command,
        )
    }
}

impl WorkloadSpec {
    /// A spec with a name and an image, and nothing else asked for.
    pub fn new(name: &str, image: &str) -> (spec: WorkloadSpec)
        ensures
            spec@ == (WorkloadSpecView {
                name: name@,
                image: image@,
                command: None,
                env: Seq::empty(),
                ports: Seq::empty(),
                volumes: Seq::empty(),
                secrets: Seq::empty(),
                memory_max: None,
                health_cmd: None,
                restart_policy: RestartPolicy::Always,
                route: None,
                tasks: Seq::empty(),
            }),
    {
        WorkloadSpec {
            name: name.to_string(),
            image: image.to_string(),
            command: None,
            env: Vec::new(),
            ports: Vec::new(),
            volumes: Vec::new(),
            secrets: Vec::new(),
            memory_max: None,
            health_cmd: None,
            restart_policy: RestartPolicy::Always,
            route: None,
            tasks: Vec::new(),
        }
    }

    /// The short form of the app's name.
    pub fn slug(&self) -> (text: String)
        ensures
            text@ == slug_of(self@.name),
    {
        slug(self.name.as_str())
    }

    /// Whether a variable of the environment breaks a line.
    fn env_has_break(&self) -> (yes: bool)
        ensures
            yes == exists|i: int|
                0 <= i < self@.env.len() && (breaks_line((#[trigger] self@.env[i]).0)
                    || breaks_line(self@.env[i].1)),
    {
        for i in 0..self.env.len()
            invariant
                forall|j: int|
                    0 <= j < i ==> !breaks_line((#[trigger] self@.env[j]).0) && !breaks_line(
                        self@.env[j].1,
                    ),
        {
            let ghost pair = self@.env[i as int];
            if has_break(self.env[i].0.as_str()) || has_break(self.env[i].1.as_str()) {
                assert(breaks_line(pair.0) || breaks_line(pair.1));
                return true;
            }
        }
        false
    }

    /// Whether a task breaks a line.
    fn tasks_have_break(&self) -> (yes: bool)
        ensures
            yes == exists|i: int|
                0 <= i < self@.tasks.len() && (#[trigger] self@.tasks[i]).breaks_line(),
    {
        for i in 0..self.tasks.len()
            invariant
                forall|j: int| 0 <= j < i ==> !(#[trigger] self@.tasks[j]).breaks_line(),
        {
            if self.tasks[i].has_break() {
                assert(self@.tasks[i as int].breaks_line());
                return true;
            }
        }
        false
    }

    /// Whether any text of the spec breaks a line: one that did could write
    /// lines of its own into the unit that is made from the spec.
    fn has_break(&self) -> (yes: bool)
        ensures
            yes == self@.breaks_line(),
    {
        let command = match &self.command {
            Some(words) => some_have_break(words),
            None => false,
        };
        let domain = match &self.route {
            Some(route) => has_break(route.domain.as_str()),
            None => false,
        };
        has_break(self.name.as_str()) || has_break(self.image.as_str()) || command
            || self.env_has_break() || some_have_break(&self.ports) || some_have_break(
            &self.volumes,
        ) || some_have_break(&self.secrets) || optional_has_break(&self.memory_max)
            || optional_has_break(&self.health_cmd) || domain || self.tasks_have_break()
    }

    /// Whether the spec can be deployed. Public traffic must not reach an app
    /// that has no readiness signal, so a route needs a health command.
    pub fn validate(&self) -> (verdict: Result<(), SpecError>)
        ensures
            verdict == self@.verdict(),
    {
        if self.slug().as_str().is_empty() {
            return Err(SpecError::EmptySlug);
        }
        if self.has_break() {
            return Err(SpecError::LineBreak);
        }
        if self.route.is_some() && self.health_cmd.is_none() {
            return Err(SpecError::RouteWithoutHealthCheck);
        }
        Ok(())
    }
}

} // verus!

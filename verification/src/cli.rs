use vstd::prelude::*;
use crate::analyzer::object_literal::{join_texts, seq_join, texts_of};
use crate::analyzer::text::{decimal, starts_with, text_eq, u64_to_text};

verus! {

// ---------------------------------------------------------------------
// Metrics settings.
// ---------------------------------------------------------------------

/// How much usage data is sent.
#[derive(PartialEq, Eq, Structural, Debug, Clone, Copy)]
pub enum MetricsLevel {
    Full,
    Basic,
    Off,
}

/// The stored metrics settings.
#[derive(Debug)]
pub struct MetricsConfig {
    pub level: MetricsLevel,
    pub user_id: Option<String>,
    pub email: Option<String>,
    /// Seconds since the Unix epoch at the last change.
    pub last_updated: u64,
}

/// What the metrics command was asked to do.
#[derive(PartialEq, Eq, Structural, Debug, Clone, Copy)]
pub enum MetricsAction {
    Full,
    Basic,
    Off,
    Status,
}

/// What the metrics command does: save new settings, or show these fields.
#[derive(Debug)]
pub enum MetricsOutcome {
    Save(MetricsConfig),
    Show(Vec<(String, String)>),
}

/// Full metrics, with the user's email, as of `now`.
pub fn enable_full_metrics(config: MetricsConfig, email: String, now: u64) -> (r: MetricsConfig)
    ensures
        r.level == MetricsLevel::Full,
        r.email == Some(email),
        r.user_id == config.user_id,
        r.last_updated == now,
{
    MetricsConfig { level: MetricsLevel::Full, email: Some(email), last_updated: now, ..config }
}

/// Basic metrics as of `now`; the email and user id stay.
pub fn enable_basic_metrics(config: MetricsConfig, now: u64) -> (r: MetricsConfig)
    ensures
        r.level == MetricsLevel::Basic,
        r.email == config.email,
        r.user_id == config.user_id,
        r.last_updated == now,
{
    MetricsConfig { level: MetricsLevel::Basic, last_updated: now, ..config }
}

/// No metrics as of `now`; the email and user id stay.
pub fn disable_metrics(config: MetricsConfig, now: u64) -> (r: MetricsConfig)
    ensures
        r.level == MetricsLevel::Off,
        r.email == config.email,
        r.user_id == config.user_id,
        r.last_updated == now,
{
    MetricsConfig { level: MetricsLevel::Off, last_updated: now, ..config }
}

/// The name a level is shown by.
pub open spec fn level_name(level: MetricsLevel) -> Seq<char> {
    match level {
        MetricsLevel::Full => "Full"@,
        MetricsLevel::Basic => "Basic"@,
        MetricsLevel::Off => "Off"@,
    }
}

fn level_text(level: MetricsLevel) -> (r: &'static str)
    ensures
        r@ == level_name(level),
{
    match level {
        MetricsLevel::Full => "Full",
        MetricsLevel::Basic => "Basic",
        MetricsLevel::Off => "Off",
    }
}

/// The status names each level by its own name (`Full`, `Basic`, `Off`),
/// so distinct levels show distinct names, and the level comes first.
pub proof fn lemma_status_names_each_level(config: MetricsConfig, other: MetricsLevel)
    ensures
        level_name(MetricsLevel::Full) == "Full"@,
        level_name(MetricsLevel::Basic) == "Basic"@,
        level_name(MetricsLevel::Off) == "Off"@,
        config.level != other ==> level_name(config.level) != level_name(other),
        status_fields(config)[0] == ("Metrics Level"@, level_name(config.level)),
{
    reveal_strlit("Full");
    reveal_strlit("Basic");
    reveal_strlit("Off");
    assert(("Full"@)[0] != ("Basic"@)[0]);
    assert(("Full"@)[0] != ("Off"@)[0]);
    assert(("Basic"@)[0] != ("Off"@)[0]);
}

/// The fields the status shows: the level, the user id where there is
/// one, and the time of the last change.
pub open spec fn status_fields(config: MetricsConfig) -> Seq<(Seq<char>, Seq<char>)> {
    let level = seq![("Metrics Level"@, level_name(config.level))];
    let user = match config.user_id {
        Some(id) => seq![("User ID"@, id@)],
        None => Seq::empty(),
    };
    level + user + seq![("Last updated"@, decimal(config.last_updated as nat) + " seconds ago"@)]
}

pub open spec fn pairs_view(v: Seq<(String, String)>) -> Seq<(Seq<char>, Seq<char>)> {
    v.map_values(|p: (String, String)| (p.0@, p.1@))
}

/// The fields of the metrics status.
pub fn show_metrics_status(config: &MetricsConfig) -> (fields: Vec<(String, String)>)
    ensures
        pairs_view(fields@) == status_fields(*config),
{
    let mut fields: Vec<(String, String)> = Vec::new();
    fields.push((String::from_str("Metrics Level"), String::from_str(level_text(config.level))));
    if let Some(id) = &config.user_id {
        fields.push((String::from_str("User ID"), id.clone()));
    }
    let mut ago = u64_to_text(config.last_updated);
    ago.append(" seconds ago");
    fields.push((String::from_str("Last updated"), ago));
    assert(pairs_view(fields@) =~= status_fields(*config));
    fields
}

/// Carries out a metrics action on the loaded settings at time `now`;
/// full metrics need the user's email.
pub fn run(action: MetricsAction, config: MetricsConfig, email: Option<String>, now: u64) -> (r: MetricsOutcome)
    requires
        action == MetricsAction::Full ==> email is Some,
    ensures
        match action {
            MetricsAction::Full => r matches MetricsOutcome::Save(c) && c.level == MetricsLevel::Full
                && c.email == email && c.user_id == config.user_id && c.last_updated == now,
            MetricsAction::Basic => r matches MetricsOutcome::Save(c) && c.level == MetricsLevel::Basic
                && c.email == config.email && c.user_id == config.user_id && c.last_updated == now,
            MetricsAction::Off => r matches MetricsOutcome::Save(c) && c.level == MetricsLevel::Off
                && c.email == config.email && c.user_id == config.user_id && c.last_updated == now,
            MetricsAction::Status => r matches MetricsOutcome::Show(f) && pairs_view(f@) == status_fields(
                config,
            ),
        },
{
    match action {
        MetricsAction::Full => {
            let e = match email {
                Some(e) => e,
                None => String::new(),
            };
            MetricsOutcome::Save(enable_full_metrics(config, e, now))
        },
        MetricsAction::Basic => MetricsOutcome::Save(enable_basic_metrics(config, now)),
        MetricsAction::Off => MetricsOutcome::Save(disable_metrics(config, now)),
        MetricsAction::Status => MetricsOutcome::Show(show_metrics_status(&config)),
    }
}

// ---------------------------------------------------------------------
// The email asked for with full metrics.
// ---------------------------------------------------------------------

/// The pattern an email address must match.
pub const EMAIL_PATTERN: &'static str = "^[a-zA-Z0-9._%+-]+@[a-zA-Z0-9.-]+\\.[a-zA-Z]{2,}$";

#[verifier::external_type_specification]
#[verifier::external_body]
pub struct ExRegexError(regex::Error);

/// Whether `c` is white space in the sense of Unicode's White_Space
/// property, the characters that `str::trim` removes.
pub open spec fn is_white_space(c: char) -> bool {
    let u = c as u32;
    ||| 0x09 <= u <= 0x0D
    ||| u == 0x20
    ||| u == 0x85
    ||| u == 0xA0
    ||| u == 0x1680
    ||| 0x2000 <= u <= 0x200A
    ||| u == 0x2028
    ||| u == 0x2029
    ||| u == 0x202F
    ||| u == 0x205F
    ||| u == 0x3000
}

/// `s` without its leading white space.
pub open spec fn trim_front(s: Seq<char>) -> Seq<char>
    decreases s.len(),
{
    if s.len() > 0 && is_white_space(s[0]) {
        trim_front(s.drop_first())
    } else {
        s
    }
}

/// `s` without its trailing white space.
pub open spec fn trim_back(s: Seq<char>) -> Seq<char>
    decreases s.len(),
{
    if s.len() > 0 && is_white_space(s.last()) {
        trim_back(s.drop_last())
    } else {
        s
    }
}

/// `s` without its leading and trailing white space.
pub open spec fn trimmed(s: Seq<char>) -> Seq<char> {
    trim_back(trim_front(s))
}

/// Whether `c` is white space, as `is_white_space` says.
fn white_space(c: char) -> (r: bool)
    ensures
        r == is_white_space(c),
{
    let u = c as u32;
    (0x09 <= u && u <= 0x0D) || u == 0x20 || u == 0x85 || u == 0xA0 || u == 0x1680 || (0x2000 <= u
        && u <= 0x200A) || u == 0x2028 || u == 0x2029 || u == 0x202F || u == 0x205F || u == 0x3000
}

/// Leading white space can be skipped before trimming the front.
proof fn lemma_trim_front_skip(s: Seq<char>, a: int)
    requires
        0 <= a <= s.len(),
        forall|i: int| 0 <= i < a ==> is_white_space(#[trigger] s[i]),
    ensures
        trim_front(s) == trim_front(s.subrange(a, s.len() as int)),
    decreases a,
{
    if a > 0 {
        assert forall|i: int| 0 <= i < a - 1 implies is_white_space(#[trigger] s.drop_first()[i]) by {
            assert(s.drop_first()[i] == s[i + 1]);
        }
        lemma_trim_front_skip(s.drop_first(), a - 1);
        assert(s.drop_first().subrange(a - 1, s.drop_first().len() as int) =~= s.subrange(a, s.len() as int));
    } else {
        assert(s.subrange(0, s.len() as int) =~= s);
    }
}

/// Trailing white space can be skipped before trimming the back.
proof fn lemma_trim_back_skip(s: Seq<char>, b: int)
    requires
        0 <= b <= s.len(),
        forall|i: int| b <= i < s.len() ==> is_white_space(#[trigger] s[i]),
    ensures
        trim_back(s) == trim_back(s.subrange(0, b)),
    decreases s.len() - b,
{
    if b < s.len() {
        assert(is_white_space(s[s.len() - 1]));
        assert forall|i: int| b <= i < s.drop_last().len() implies is_white_space(#[trigger] s.drop_last()[i]) by {
            assert(s.drop_last()[i] == s[i]);
        }
        lemma_trim_back_skip(s.drop_last(), b);
        assert(s.drop_last().subrange(0, b) =~= s.subrange(0, b));
    } else {
        assert(s.subrange(0, b) =~= s);
    }
}

/// `s` without its leading and trailing white space, as `str::trim`
/// gives it.
fn trim_text(s: &str) -> (r: &str)
    ensures
        r@ == trimmed(s@),
{
    let n = s.unicode_len();
    let mut a: usize = 0;
    while a < n && white_space(s.get_char(a))
        invariant
            a <= n,
            n == s@.len(),
            forall|i: int| 0 <= i < a ==> is_white_space(#[trigger] s@[i]),
        decreases n - a,
    {
        a = a + 1;
    }
    let ghost t = s@.subrange(a as int, n as int);
    proof {
        lemma_trim_front_skip(s@, a as int);
        if a < n {
            assert(t[0] == s@[a as int]);
        }
        assert(trim_front(t) == t);
    }
    let mut b: usize = n;
    while b > a && white_space(s.get_char(b - 1))
        invariant
            a <= b <= n,
            n == s@.len(),
            t == s@.subrange(a as int, n as int),
            forall|i: int| b - a <= i < t.len() ==> is_white_space(#[trigger] t[i]),
        decreases b - a,
    {
        assert(t[b - 1 - a] == s@[b - 1]);
        b = b - 1;
    }
    proof {
        lemma_trim_back_skip(t, (b - a) as int);
        let u = t.subrange(0, (b - a) as int);
        if b > a {
            assert(u.last() == s@[b - 1]);
        }
        assert(trim_back(u) == u);
        assert(u =~= s@.subrange(a as int, b as int));
    }
    s.substring_char(a, b)
}

/// Whether the regex crate compiles `pattern`.
pub uninterp spec fn spec_regex_compiles(pattern: Seq<char>) -> bool;

/// Whether the regex compiled from `pattern` matches somewhere in `text`.
pub uninterp spec fn spec_regex_matches(pattern: Seq<char>, text: Seq<char>) -> bool;

/// Compiles `pattern` with `regex::Regex::new` and asks `Regex::is_match`
/// whether it matches `text`. Both results depend on the two texts alone;
/// the contract names them and does not state the regex language.
#[verifier::external_body]
fn regex_matches(pattern: &str, text: &str) -> (r: Result<bool, regex::Error>)
    ensures
        r is Ok <==> spec_regex_compiles(pattern@),
        r matches Ok(m) ==> m == spec_regex_matches(pattern@, text@),
{
    match regex::Regex::new(pattern) {
        Ok(re) => Ok(re.is_match(text)),
        Err(e) => Err(e),
    }
}

/// Whether `text` is accepted as an email address: `EMAIL_PATTERN`
/// compiles and matches it.
pub open spec fn is_email(text: Seq<char>) -> bool {
    spec_regex_compiles(EMAIL_PATTERN@) && spec_regex_matches(EMAIL_PATTERN@, text)
}

/// The email to keep: the trimmed input when it matched the pattern.
pub fn accept_email(candidate: &str, matched: bool) -> (r: Option<String>)
    ensures
        matched ==> (r matches Some(e) && e@ == candidate@),
        !matched ==> r is None,
{
    if matched {
        Some(candidate.to_owned())
    } else {
        None
    }
}

/// Checks one line of input as an email address: it is trimmed and tested
/// against `EMAIL_PATTERN`; `None` asks for another line.
pub fn ask_for_email(line: &str) -> (r: Option<String>)
    ensures
        r is Some <==> is_email(trimmed(line@)),
        r matches Some(e) ==> e@ == trimmed(line@),
{
    let email = trim_text(line);
    let matched = match regex_matches(EMAIL_PATTERN, email) {
        Ok(m) => m,
        Err(_) => false,
    };
    accept_email(email, matched)
}

// ---------------------------------------------------------------------
// Choosing and stopping an instance.
// ---------------------------------------------------------------------

/// How the instance to act on is chosen.
#[derive(Debug)]
pub enum InstanceChoice {
    /// The instance the user named.
    Named(String),
    /// Ask the user to pick one.
    Prompt,
    /// None was named and none can be asked for: fail with this message.
    Missing(String),
}

/// The message when no instance is named and none can be asked for.
pub open spec fn no_instance_text(instances: Seq<Seq<char>>) -> Seq<char> {
    "No instance specified. Available instances: "@ + seq_join(instances, ", "@)
}

/// The named instance; without one, a prompt where the terminal is
/// interactive, and otherwise an error that lists the instances.
pub fn choose_instance(given: Option<String>, interactive: bool, instances: &Vec<String>) -> (r:
    InstanceChoice)
    ensures
        match given {
            Some(name) => r == InstanceChoice::Named(name),
            None => if interactive {
                r == InstanceChoice::Prompt
            } else {
                r matches InstanceChoice::Missing(m) && m@ == no_instance_text(texts_of(instances@))
            },
        },
{
    match given {
        Some(name) => InstanceChoice::Named(name),
        None => {
            if interactive {
                InstanceChoice::Prompt
            } else {
                let mut msg = String::from_str("No instance specified. Available instances: ");
                let list = join_texts(instances, ", ");
                msg.append(list.as_str());
                InstanceChoice::Missing(msg)
            }
        },
    }
}

/// The kind of a cloud deployment.
#[derive(PartialEq, Eq, Structural, Debug, Clone, Copy)]
pub enum CloudKind {
    FlyIo,
    Helix,
    Ecr,
}

/// Where an instance runs.
#[derive(Debug)]
pub enum InstanceTarget {
    Local,
    Cloud { kind: CloudKind, cluster_id: Option<String> },
}

/// How an instance is stopped.
#[derive(Debug)]
pub enum StopAction {
    /// Stop the local container.
    StopLocal,
    /// Stop the Fly.io machine.
    StopFly,
    /// Fail with this message.
    Fail(String),
}

/// The message for a cloud instance without a cluster id; the text keeps
/// its braces as written.
pub open spec fn missing_cluster_text() -> Seq<char> {
    "Cloud instance '{instance_name}' must have a cluster_id"@
}

/// How a cloud instance is stopped: it needs a cluster id, and only Fly.io
/// deployments can be stopped.
pub fn stop_cloud_instance(kind: CloudKind, cluster_id: &Option<String>) -> (r: StopAction)
    requires
        cluster_id is Some ==> kind == CloudKind::FlyIo,
    ensures
        cluster_id is None ==> (r matches StopAction::Fail(m) && m@ == missing_cluster_text()),
        cluster_id is Some ==> r == StopAction::StopFly,
{
    match cluster_id {
        None => StopAction::Fail(String::from_str("Cloud instance '{instance_name}' must have a cluster_id")),
        Some(_) => StopAction::StopFly,
    }
}

/// How the chosen instance is stopped.
pub fn stop_plan(target: &InstanceTarget) -> (r: StopAction)
    requires
        target matches InstanceTarget::Cloud { kind, cluster_id } ==> (cluster_id is Some ==> kind
            == CloudKind::FlyIo),
    ensures
        match target {
            InstanceTarget::Local => r == StopAction::StopLocal,
            InstanceTarget::Cloud { kind, cluster_id } => match cluster_id {
                None => r matches StopAction::Fail(m) && m@ == missing_cluster_text(),
                Some(_) => r == StopAction::StopFly,
            },
        },
{
    match target {
        InstanceTarget::Local => StopAction::StopLocal,
        InstanceTarget::Cloud { kind, cluster_id } => stop_cloud_instance(*kind, cluster_id),
    }
}

// ---------------------------------------------------------------------
// Rebuilding secondary indices.
// ---------------------------------------------------------------------

/// The message when an index rebuild is asked of a cloud instance.
pub open spec fn local_only_text() -> Seq<char> {
    "Index rebuild is only supported for local instances."@
}

/// An index rebuild runs only on a local instance.
pub fn require_local(is_local: bool) -> (r: Result<(), String>)
    ensures
        is_local ==> r is Ok,
        !is_local ==> (r matches Err(m) && m@ == local_only_text()),
{
    if is_local {
        Ok(())
    } else {
        Err(String::from_str("Index rebuild is only supported for local instances."))
    }
}

/// The state a container runtime reports of one instance.
#[derive(Debug)]
pub struct InstanceStatus {
    pub instance_name: String,
    pub status: String,
}

/// Whether the first status reported for `name` says it is up.
pub open spec fn running(statuses: Seq<(Seq<char>, Seq<char>)>, name: Seq<char>) -> bool
    decreases statuses.len(),
{
    if statuses.len() == 0 {
        false
    } else if statuses[0].0 == name {
        "Up"@.is_prefix_of(statuses[0].1)
    } else {
        running(statuses.drop_first(), name)
    }
}

pub open spec fn statuses_view(v: Seq<InstanceStatus>) -> Seq<(Seq<char>, Seq<char>)> {
    v.map_values(|s: InstanceStatus| (s.instance_name@, s.status@))
}

/// Whether the instance appears to be running.
pub fn instance_running(statuses: &Vec<InstanceStatus>, name: &str) -> (r: bool)
    ensures
        r == running(statuses_view(statuses@), name@),
{
    let ghost sv = statuses_view(statuses@);
    assert(sv.subrange(0, sv.len() as int) =~= sv);
    let mut i: usize = 0;
    while i < statuses.len()
        invariant
            i <= statuses@.len(),
            sv == statuses_view(statuses@),
            running(sv, name@) == running(sv.subrange(i as int, sv.len() as int), name@),
        decreases statuses@.len() - i,
    {
        let ghost rest = sv.subrange(i as int, sv.len() as int);
        assert(rest[0] == (statuses@[i as int].instance_name@, statuses@[i as int].status@));
        if text_eq(statuses[i].instance_name.as_str(), name) {
            return starts_with(statuses[i].status.as_str(), "Up");
        }
        assert(rest.drop_first() =~= sv.subrange(i as int + 1, sv.len() as int));
        i = i + 1;
    }
    false
}

/// A list of index names, or `none` when it is empty.
pub open spec fn names_or_none(names: Seq<Seq<char>>) -> Seq<char> {
    if names.len() == 0 {
        "none"@
    } else {
        seq_join(names, ", "@)
    }
}

/// The line announcing which indices are rebuilt.
pub open spec fn rebuild_text(node_indices: Seq<Seq<char>>, edge_indices: Seq<Seq<char>>) -> Seq<char> {
    "Rebuilding node indices ["@ + names_or_none(node_indices) + "] and edge indices ["@
        + names_or_none(edge_indices) + "]"@
}

fn list_or_none(names: &Vec<String>) -> (r: String)
    ensures
        r@ == names_or_none(texts_of(names@)),
{
    if names.len() == 0 {
        String::from_str("none")
    } else {
        join_texts(names, ", ")
    }
}

/// The line announcing which indices are rebuilt.
pub fn rebuild_summary(node_indices: &Vec<String>, edge_indices: &Vec<String>) -> (r: String)
    ensures
        r@ == rebuild_text(texts_of(node_indices@), texts_of(edge_indices@)),
{
    let mut r = String::from_str("Rebuilding node indices [");
    r.append(list_or_none(node_indices).as_str());
    r.append("] and edge indices [");
    r.append(list_or_none(edge_indices).as_str());
    r.append("]");
    r
}

} // verus!

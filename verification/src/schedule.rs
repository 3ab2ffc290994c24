//! Cron triggers: when a workflow's schedule is due, and remembering which scheduled
//! minutes have already fired.
use vstd::prelude::*;
use std::str::FromStr;
use crate::clock::{minute_stamp, minute_stamp_text};
use crate::config::{TriggerConfig, WorkflowConfig};

verus! {

/// A parsed cron schedule.
#[verifier::external_type_specification]
#[verifier::external_body]
pub struct ExSchedule(cron::Schedule);

/// Whether `cron::Schedule::from_str` accepts the expression `s` (a function of the text alone).
pub uninterp spec fn cron_expression_valid(s: Seq<char>) -> bool;

/// Calls `cron::Schedule::from_str`: `Some` exactly when the expression parses.
#[verifier::external_body]
fn parse_schedule(s: &str) -> (r: Option<cron::Schedule>)
    ensures
        r is Some <==> cron_expression_valid(s@),
{
    match cron::Schedule::from_str(s) {
        Ok(schedule) => Some(schedule),
        Err(_) => None,
    }
}

/// The first time, in nanoseconds since the epoch, at which the cron expression `schedule`
/// fires after the instant `after`: what `cron::Schedule::from_str` and then
/// `Schedule::after` give (a function of the two alone). `None` when the expression does not
/// parse, when the schedule has no later time, or when that time does not fit an `i64`.
pub uninterp spec fn next_fire_after(schedule: Seq<char>, after: i64) -> Option<i64>;

/// Calls `cron::Schedule::from_str(schedule)`, then `Schedule::after` at the instant `after`
/// (`chrono::DateTime::from_timestamp_nanos`) and takes the first time of the iterator, in
/// nanoseconds (`timestamp_nanos_opt`); the result is named `next_fire_after`. (The cron
/// crate's `upcoming` is this at the clock's current time.)
#[verifier::external_body]
fn next_fire_time_after(schedule: &str, after: i64) -> (r: Option<i64>)
    ensures
        r == next_fire_after(schedule@, after),
{
    match cron::Schedule::from_str(schedule) {
        Ok(s) => match s.after(&chrono::DateTime::from_timestamp_nanos(after)).next() {
            Some(t) => t.timestamp_nanos_opt(),
            None => None,
        },
        Err(_) => None,
    }
}

/// What a cron trigger calls for at a given moment.
#[derive(Debug)]
pub enum CronCheck {
    /// Nothing to do now.
    NotDue,
    /// Due now: run, unless this key has fired already.
    Due { key: String, fire_at: i64 },
}

/// The key of a firing: the workflow's name, `_`, the minute it was scheduled for.
pub open spec fn firing_key(name: Seq<char>, fire_at: i64) -> Seq<char> {
    name + seq!['_'] + minute_stamp(fire_at)
}

/// Decides a cron trigger of the workflow `name` at `now`, given the first time `next` at
/// which its schedule fires after the scheduler's previous look (nanoseconds): due exactly
/// when that time has come, that is, it is not after `now`.
pub fn due_at(name: &str, next: Option<i64>, now: i64) -> (r: CronCheck)
    ensures
        match next {
            Some(t) => if t <= now {
                r matches CronCheck::Due { key, fire_at } && key@ == firing_key(name@, t) && fire_at == t
            } else {
                r is NotDue
            },
            None => r is NotDue,
        },
{
    match next {
        None => CronCheck::NotDue,
        Some(t) => {
            if t <= now {
                let mut key = name.to_string();
                key.push('_');
                let stamp = minute_stamp_text(t);
                key.append(stamp.as_str());
                CronCheck::Due { key, fire_at: t }
            } else {
                CronCheck::NotDue
            }
        },
    }
}

/// The trigger is a cron trigger whose expression parses.
pub open spec fn valid_cron(t: TriggerConfig) -> bool {
    t matches TriggerConfig::Cron { schedule } && cron_expression_valid(schedule@)
}

/// The first time present in `times`, if any.
pub open spec fn first_some(times: Seq<Option<i64>>) -> Option<i64>
    decreases times.len(),
{
    if times.len() == 0 {
        None
    } else if times[0] is Some {
        times[0]
    } else {
        first_some(times.drop_first())
    }
}

/// The first time present in `times`: `None` when there is none.
pub fn first_time(times: &[Option<i64>]) -> (r: Option<i64>)
    ensures
        r == first_some(times@),
{
    let mut i: usize = 0;
    assert(times@.skip(0) == times@);
    while i < times.len()
        invariant
            i <= times@.len(),
            first_some(times@) == first_some(times@.skip(i as int)),
        decreases times@.len() - i,
    {
        assert(times@.skip(i as int)[0] == times@[i as int]);
        if times[i].is_some() {
            return times[i];
        }
        assert(times@.skip(i as int).drop_first() == times@.skip(i + 1));
        i += 1;
    }
    None
}

/// The next fire time after the instant `after` of each of the triggers, in order: for a cron
/// trigger whose expression parses, the first time its schedule fires after `after`; `None`
/// for a manual trigger and for an expression that does not parse.
pub open spec fn trigger_readings(triggers: Seq<TriggerConfig>, after: i64) -> Seq<Option<i64>> {
    Seq::new(
        triggers.len(),
        |k: int|
            if valid_cron(triggers[k]) {
                next_fire_after(cron_text(triggers[k]), after)
            } else {
                None
            },
    )
}

/// The next fire time after the instant `after` of each of the workflow's triggers, in
/// order (see `trigger_readings`).
pub fn trigger_next_times(workflow: &WorkflowConfig, after: i64) -> (r: Vec<Option<i64>>)
    ensures
        r@ == trigger_readings(workflow.triggers@, after),
{
    let ts = &workflow.triggers;
    let mut r: Vec<Option<i64>> = Vec::new();
    let mut i: usize = 0;
    while i < ts.len()
        invariant
            ts@ == workflow.triggers@,
            i <= ts@.len(),
            r@.len() == i,
            forall|k: int| 0 <= k < i ==> r@[k] == #[trigger] trigger_readings(ts@, after)[k],
        decreases ts@.len() - i,
    {
        let t: Option<i64> = match &ts[i] {
            TriggerConfig::Cron { schedule } => match parse_schedule(schedule.as_str()) {
                Some(_) => next_fire_time_after(schedule.as_str(), after),
                None => None,
            },
            TriggerConfig::Manual => None,
        };
        r.push(t);
        i += 1;
    }
    assert(r@ =~= trigger_readings(workflow.triggers@, after));
    r
}

/// The next time (nanoseconds) after `now` at which one of the workflow's cron triggers
/// fires: that of the first trigger whose expression parses and has a later time; `None` when
/// none does.
pub fn next_scheduled_run(workflow: &WorkflowConfig, now: i64) -> (r: Option<i64>)
    ensures
        r == first_some(trigger_readings(workflow.triggers@, now)),
{
    let times = trigger_next_times(workflow, now);
    first_time(times.as_slice())
}

/// Whether the scheduler looks at a workflow at all: it is enabled and has nodes.
pub fn is_schedulable(workflow: &WorkflowConfig) -> (b: bool)
    ensures
        b == (workflow.enabled && workflow.nodes@.len() > 0),
{
    workflow.enabled && workflow.nodes.len() > 0
}

/// The cron expressions of a workflow's triggers, in order.
pub open spec fn cron_schedules(triggers: Seq<TriggerConfig>) -> Seq<Seq<char>>
    decreases triggers.len(),
{
    if triggers.len() == 0 {
        seq![]
    } else {
        let rest = cron_schedules(triggers.drop_last());
        match triggers.last() {
            TriggerConfig::Cron { schedule } => rest.push(schedule@),
            TriggerConfig::Manual => rest,
        }
    }
}

/// The cron expressions of a workflow's triggers, in order.
pub fn cron_schedules_of(workflow: &WorkflowConfig) -> (r: Vec<String>)
    ensures
        r@.len() == cron_schedules(workflow.triggers@).len(),
        forall|k: int| 0 <= k < r@.len() ==> #[trigger] r@[k]@ == cron_schedules(workflow.triggers@)[k],
{
    let ts = &workflow.triggers;
    let mut r: Vec<String> = Vec::new();
    let mut i: usize = 0;
    while i < ts.len()
        invariant
            ts@ == workflow.triggers@,
            i <= ts@.len(),
            r@.len() == cron_schedules(ts@.take(i as int)).len(),
            forall|k: int| 0 <= k < r@.len() ==> #[trigger] r@[k]@ == cron_schedules(ts@.take(i as int))[k],
        decreases ts@.len() - i,
    {
        assert(ts@.take(i + 1).drop_last() == ts@.take(i as int));
        match &ts[i] {
            TriggerConfig::Cron { schedule } => {
                r.push(schedule.clone());
            },
            TriggerConfig::Manual => {},
        }
        i += 1;
    }
    assert(ts@.take(i as int) == ts@);
    r
}

/// Whether a workflow has a manual trigger.
pub fn has_manual_trigger(workflow: &WorkflowConfig) -> (b: bool)
    ensures
        b == exists|k: int| 0 <= k < workflow.triggers@.len() && #[trigger] workflow.triggers@[k] is Manual,
{
    let mut i: usize = 0;
    while i < workflow.triggers.len()
        invariant
            i <= workflow.triggers@.len(),
            forall|k: int| 0 <= k < i ==> !(#[trigger] workflow.triggers@[k] is Manual),
        decreases workflow.triggers@.len() - i,
    {
        match &workflow.triggers[i] {
            TriggerConfig::Manual => {
                return true;
            },
            _ => {},
        }
        i += 1;
    }
    false
}

/// The scheduler's memory: the scheduled minutes that have fired recently, by key, with the
/// time each was due, and when it last looked at the workflows.
pub struct FiredSchedule {
    pub entries: Vec<(String, i64)>,
    pub last_look: Option<i64>,
}

/// Two minutes, in nanoseconds.
pub open spec fn keep_window() -> int {
    120_000_000_000
}

/// Some entry has key `key`.
pub open spec fn has_key(entries: Seq<(String, i64)>, key: Seq<char>) -> bool {
    exists|k: int| 0 <= k < entries.len() && #[trigger] entries[k].0@ == key
}

/// The entries still kept at `now`: those due after `now` less two minutes.
pub open spec fn kept(entries: Seq<(String, i64)>, now: i64) -> Seq<(String, i64)> {
    entries.filter(|e: (String, i64)| e.1 > now - keep_window())
}

/// A firing claimed at `now` for a time less than two minutes before `now` is remembered:
/// its key is among the entries kept, so claiming the same key again finds it and does not
/// run the workflow a second time.
pub proof fn lemma_claimed_firing_remembered(entries: Seq<(String, i64)>, key: String, fire_at: i64, now: i64)
    requires
        fire_at > now - keep_window(),
    ensures
        has_key(kept(entries.push((key, fire_at)), now), key@),
{
    let pushed = entries.push((key, fire_at));
    let f = |e: (String, i64)| e.1 > now - keep_window();
    assert(pushed.drop_last() == entries);
    assert(pushed.last() == (key, fire_at));
    reveal_with_fuel(Seq::filter, 1);
    assert(pushed.filter(f) == entries.filter(f).push((key, fire_at)));
    let k = pushed.filter(f);
    assert(k[k.len() - 1].0@ == key@);
}

impl FiredSchedule {
    /// Nothing fired yet.
    pub fn new() -> (f: Self)
        ensures
            f.entries@.len() == 0,
            f.last_look is None,
    {
        FiredSchedule { entries: Vec::new(), last_look: None }
    }

    /// Records the firing `key`, due at `fire_at`, unless it fired already; then forgets
    /// firings due two minutes or more before `now`. `true` when the workflow should run.
    pub fn claim(&mut self, key: String, fire_at: i64, now: i64) -> (run: bool)
        ensures
            run == !has_key(old(self).entries@, key@),
            run ==> final(self).entries@ == kept(old(self).entries@.push((key, fire_at)), now),
            !run ==> final(self).entries@ == old(self).entries@,
            final(self).last_look == old(self).last_look,
    {
        let mut i: usize = 0;
        while i < self.entries.len()
            invariant
                i <= self.entries@.len(),
                forall|k: int| 0 <= k < i ==> #[trigger] self.entries@[k].0@ != key@,
            decreases self.entries@.len() - i,
        {
            if self.entries[i].0 == key {
                return false;
            }
            i += 1;
        }
        let ghost pushed = self.entries@.push((key, fire_at));
        let cutoff: i128 = now as i128 - 120_000_000_000;
        let mut all: Vec<(String, i64)> = Vec::new();
        std::mem::swap(&mut all, &mut self.entries);
        all.push((key, fire_at));
        assert(all@ == pushed);
        let mut keep: Vec<(String, i64)> = Vec::new();
        let mut rest = all;
        let mut j: usize = 0;
        assert(rest@ == pushed.skip(0));
        assert(pushed.take(0).filter(|e: (String, i64)| e.1 > now - keep_window()) =~= Seq::<(String, i64)>::empty());
        assert(pushed.len() <= usize::MAX) by {
            assert(pushed.len() == rest.len());
        }
        while rest.len() > 0
            invariant
                rest@ == pushed.skip(j as int),
                j <= pushed.len(),
                pushed.len() <= usize::MAX,
                cutoff == now - keep_window(),
                keep@ == pushed.take(j as int).filter(|e: (String, i64)| e.1 > now - keep_window()),
            decreases rest@.len(),
        {
            let e = rest.remove(0);
            proof {
                assert(e == pushed[j as int]);
                assert(rest@ == pushed.skip(j + 1));
                assert(pushed.take(j + 1).drop_last() == pushed.take(j as int));
                assert(pushed.take(j + 1).last() == e);
                reveal_with_fuel(Seq::filter, 1);
            }
            if (e.1 as i128) > cutoff {
                keep.push(e);
            }
            j += 1;
        }
        assert(pushed.take(j as int) == pushed);
        self.entries = keep;
        true
    }
}

/// What the scheduler does after one look at the workflows.
#[derive(Debug)]
pub enum CronEvent {
    /// Run the workflow at `index`, logging `message`.
    Start { index: usize, message: String },
    /// Log `message` about a cron expression of the workflow at `index` that does not parse.
    Invalid { index: usize, message: String },
}

/// `Cron triggered workflow: <name>`
pub open spec fn started_message(name: Seq<char>) -> Seq<char> {
    "Cron triggered workflow: "@ + name
}

/// `Invalid cron schedule: <schedule> for workflow: <name>`
pub open spec fn invalid_message(schedule: Seq<char>, name: Seq<char>) -> Seq<char> {
    "Invalid cron schedule: "@ + schedule + " for workflow: "@ + name
}

/// An event the scheduler may report for `workflows`: a start of a schedulable workflow
/// with a cron expression that parses, or a report of one of its expressions that does not.
pub open spec fn sound_event(workflows: Seq<WorkflowConfig>, e: CronEvent) -> bool {
    match e {
        CronEvent::Start { index, message } => {
            &&& (index as int) < workflows.len()
            &&& workflows[index as int].enabled && workflows[index as int].nodes@.len() > 0
            &&& message@ == started_message(workflows[index as int].name@)
            &&& exists|k: int| 0 <= k < workflows[index as int].triggers@.len()
                && (#[trigger] workflows[index as int].triggers@[k] matches TriggerConfig::Cron { schedule }
                && cron_expression_valid(schedule@))
        },
        CronEvent::Invalid { index, message } => {
            &&& (index as int) < workflows.len()
            &&& workflows[index as int].enabled && workflows[index as int].nodes@.len() > 0
            &&& exists|k: int| 0 <= k < workflows[index as int].triggers@.len()
                && (#[trigger] workflows[index as int].triggers@[k] matches TriggerConfig::Cron { schedule }
                && !cron_expression_valid(schedule@)
                && message@ == invalid_message(schedule@, workflows[index as int].name@))
        },
    }
}

/// The trigger is a cron trigger whose expression does not parse.
pub open spec fn bad_cron(t: TriggerConfig) -> bool {
    t matches TriggerConfig::Cron { schedule } && !cron_expression_valid(schedule@)
}

/// The expression of a cron trigger (empty for a manual one).
pub open spec fn cron_text(t: TriggerConfig) -> Seq<char> {
    match t {
        TriggerConfig::Cron { schedule } => schedule@,
        TriggerConfig::Manual => seq![],
    }
}

/// The report of the cron expression `schedule` of workflow `i` is among `events`.
pub open spec fn reported(events: Seq<CronEvent>, i: int, schedule: Seq<char>, name: Seq<char>) -> bool {
    exists|m: int| 0 <= m < events.len() && (#[trigger] events[m] matches CronEvent::Invalid { index, message }
        && index == i && message@ == invalid_message(schedule, name))
}

/// Every cron expression of a schedulable workflow before `upto` that does not parse is
/// reported among `events`.
pub open spec fn all_reported(workflows: Seq<WorkflowConfig>, upto: int, events: Seq<CronEvent>) -> bool {
    forall|a: int, k: int|
        0 <= a < upto && workflows[a].enabled && workflows[a].nodes@.len() > 0 && 0 <= k
            < workflows[a].triggers@.len() && bad_cron(#[trigger] workflows[a].triggers@[k]) ==> reported(
            events,
            a,
            cron_text(workflows[a].triggers@[k]),
            workflows[a].name@,
        )
}

proof fn lemma_reported_grows(events: Seq<CronEvent>, more: Seq<CronEvent>, i: int, schedule: Seq<char>, name: Seq<char>)
    requires
        reported(events, i, schedule, name),
        more.len() >= events.len(),
        forall|m: int| 0 <= m < events.len() ==> more[m] == events[m],
    ensures
        reported(more, i, schedule, name),
{
    let m = choose|m: int| 0 <= m < events.len() && (#[trigger] events[m] matches CronEvent::Invalid { index, message }
        && index == i && message@ == invalid_message(schedule, name));
    assert(more[m] == events[m]);
}

/// The view of a list of fired entries: each key as text, with the time it was due.
pub open spec fn fired_view(entries: Seq<(String, i64)>) -> Seq<(Seq<char>, i64)> {
    entries.map_values(|e: (String, i64)| (e.0@, e.1))
}

/// The viewed entries still kept at `now`: those due after `now` less two minutes.
pub open spec fn kept_view(v: Seq<(Seq<char>, i64)>, now: i64) -> Seq<(Seq<char>, i64)> {
    v.filter(|e: (Seq<char>, i64)| e.1 > now - keep_window())
}

/// Some viewed entry has key `key`.
pub open spec fn holds_key(v: Seq<(Seq<char>, i64)>, key: Seq<char>) -> bool {
    exists|k: int| 0 <= k < v.len() && #[trigger] v[k].0 == key
}

proof fn lemma_view_push(s: Seq<(String, i64)>, e: (String, i64))
    ensures
        fired_view(s.push(e)) == fired_view(s).push((e.0@, e.1)),
{
    assert(fired_view(s.push(e)) =~= fired_view(s).push((e.0@, e.1)));
}

proof fn lemma_view_kept(s: Seq<(String, i64)>, now: i64)
    ensures
        fired_view(kept(s, now)) == kept_view(fired_view(s), now),
    decreases s.len(),
{
    reveal_with_fuel(Seq::filter, 1);
    if s.len() == 0 {
        assert(fired_view(s) =~= Seq::<(Seq<char>, i64)>::empty());
        assert(kept(s, now) =~= s);
    } else {
        let init = s.drop_last();
        lemma_view_kept(init, now);
        assert(s == init.push(s.last()));
        lemma_view_push(init, s.last());
        assert(fired_view(s).drop_last() =~= fired_view(init));
        assert(fired_view(s).last() == (s.last().0@, s.last().1));
        if s.last().1 > now - keep_window() {
            lemma_view_push(kept(init, now), s.last());
        }
    }
}

proof fn lemma_has_key_view(s: Seq<(String, i64)>, key: Seq<char>)
    ensures
        has_key(s, key) == holds_key(fired_view(s), key),
{
    if has_key(s, key) {
        let k = choose|k: int| 0 <= k < s.len() && #[trigger] s[k].0@ == key;
        assert(fired_view(s)[k].0 == key);
    }
    if holds_key(fired_view(s), key) {
        let k = choose|k: int| 0 <= k < fired_view(s).len() && #[trigger] fired_view(s)[k].0 == key;
        assert(s[k].0@ == key);
    }
}

/// An event as plain values: whether it is a start, the workflow's index, the message.
pub open spec fn event_view(e: CronEvent) -> (bool, usize, Seq<char>) {
    match e {
        CronEvent::Start { index, message } => (true, index, message@),
        CronEvent::Invalid { index, message } => (false, index, message@),
    }
}

/// The events as plain values, in order.
pub open spec fn events_view(events: Seq<CronEvent>) -> Seq<(bool, usize, Seq<char>)> {
    events.map_values(|e: CronEvent| event_view(e))
}

/// The readings given for each workflow, as sequences.
pub open spec fn next_view(next: Seq<Vec<Option<i64>>>) -> Seq<Seq<Option<i64>>> {
    next.map_values(|v: Vec<Option<i64>>| v@)
}

/// The next fire time read for trigger `k` of workflow `i` (`None` where none was given).
pub open spec fn reading(next: Seq<Seq<Option<i64>>>, i: int, k: int) -> Option<i64> {
    if 0 <= i < next.len() && 0 <= k < next[i].len() {
        next[i][k]
    } else {
        None
    }
}

/// What the scheduler does with one trigger `t` of the schedulable workflow `name` at index
/// `i`, its next fire time (after the previous look) being `r` and the fired entries `v`: a
/// cron expression that does not parse is reported; one that parses is started when that
/// time has come (it is not after `now`) and that firing's key is not held yet, and the
/// firing is then claimed (its entry added, old entries dropped). The events it gives, and
/// the entries after it.
pub open spec fn trigger_step(
    name: Seq<char>,
    i: usize,
    t: TriggerConfig,
    r: Option<i64>,
    v: Seq<(Seq<char>, i64)>,
    now: i64,
) -> (Seq<(bool, usize, Seq<char>)>, Seq<(Seq<char>, i64)>) {
    match t {
        TriggerConfig::Manual => (seq![], v),
        TriggerConfig::Cron { schedule } => if !cron_expression_valid(schedule@) {
            (seq![(false, i, invalid_message(schedule@, name))], v)
        } else {
            match r {
                Some(fire_at) => if fire_at <= now && !holds_key(v, firing_key(name, fire_at)) {
                    (seq![(true, i, started_message(name))], kept_view(v.push((firing_key(name, fire_at), fire_at)), now))
                } else {
                    (seq![], v)
                },
                None => (seq![], v),
            }
        },
    }
}

/// The first `j` triggers of workflow `w` (at index `i`) taken in order from the entries `v`.
pub open spec fn workflow_steps(
    w: WorkflowConfig,
    i: usize,
    next: Seq<Seq<Option<i64>>>,
    v: Seq<(Seq<char>, i64)>,
    now: i64,
    j: nat,
) -> (Seq<(bool, usize, Seq<char>)>, Seq<(Seq<char>, i64)>)
    decreases j,
{
    if j == 0 {
        (seq![], v)
    } else {
        let before = workflow_steps(w, i, next, v, now, (j - 1) as nat);
        let step = trigger_step(w.name@, i, w.triggers@[j - 1], reading(next, i as int, j - 1), before.1, now);
        (before.0 + step.0, step.1)
    }
}

/// One workflow in a tick: all its triggers when it is enabled and has nodes, else nothing.
pub open spec fn workflow_tick(
    w: WorkflowConfig,
    i: usize,
    next: Seq<Seq<Option<i64>>>,
    v: Seq<(Seq<char>, i64)>,
    now: i64,
) -> (Seq<(bool, usize, Seq<char>)>, Seq<(Seq<char>, i64)>) {
    if w.enabled && w.nodes@.len() > 0 {
        workflow_steps(w, i, next, v, now, w.triggers@.len())
    } else {
        (seq![], v)
    }
}

/// The first `n` workflows of a tick at `now`, in order, from the fired entries `v`, with
/// the next fire times `next`: the events and the entries after them.
pub open spec fn tick_model(
    workflows: Seq<WorkflowConfig>,
    next: Seq<Seq<Option<i64>>>,
    v: Seq<(Seq<char>, i64)>,
    now: i64,
    n: nat,
) -> (Seq<(bool, usize, Seq<char>)>, Seq<(Seq<char>, i64)>)
    decreases n,
{
    if n == 0 {
        (seq![], v)
    } else {
        let before = tick_model(workflows, next, v, now, (n - 1) as nat);
        let w = workflow_tick(workflows[n - 1], (n - 1) as usize, next, before.1, now);
        (before.0 + w.0, w.1)
    }
}

/// A start is owed to a due trigger: the workflow has a cron trigger that parses whose next
/// fire time has come by `now`.
pub open spec fn start_due(workflows: Seq<WorkflowConfig>, next: Seq<Seq<Option<i64>>>, now: i64, e: CronEvent) -> bool {
    e matches CronEvent::Start { index, .. } ==> exists|k: int|
        0 <= k < workflows[index as int].triggers@.len() && valid_cron(workflows[index as int].triggers@[k])
            && (#[trigger] reading(next, index as int, k) matches Some(t) && t <= now)
}

/// One look of the scheduler at `workflows` at `now` (nanoseconds), given the next fire time
/// of each trigger (`next[i][k]` for trigger `k` of workflow `i`; a missing one counts as
/// `None`): for every enabled workflow with nodes, in order, each cron trigger whose
/// expression does not parse is reported, and each whose next time has come by `now` is
/// started unless its firing is held already, claiming it (see `tick_model`).
pub fn cron_tick_at(
    workflows: &[WorkflowConfig],
    next: &[Vec<Option<i64>>],
    fired: &mut FiredSchedule,
    now: i64,
) -> (events: Vec<CronEvent>)
    ensures
        events_view(events@) == tick_model(workflows@, next_view(next@), fired_view(old(fired).entries@), now, workflows@.len() as nat).0,
        fired_view(final(fired).entries@) == tick_model(workflows@, next_view(next@), fired_view(old(fired).entries@), now, workflows@.len() as nat).1,
        final(fired).last_look == old(fired).last_look,
        forall|m: int| 0 <= m < events@.len() ==> sound_event(workflows@, #[trigger] events@[m]),
        forall|m: int| 0 <= m < events@.len() ==> start_due(workflows@, next_view(next@), now, #[trigger] events@[m]),
        all_reported(workflows@, workflows@.len() as int, events@),
{
    let ghost nv = next_view(next@);
    let ghost v0 = fired_view(fired.entries@);
    let ghost l0 = fired.last_look;
    let mut events: Vec<CronEvent> = Vec::new();
    let mut i: usize = 0;
    assert(events_view(events@) =~= Seq::<(bool, usize, Seq<char>)>::empty());
    while i < workflows.len()
        invariant
            i <= workflows@.len(),
            nv == next_view(next@),
            fired.last_look == l0,
            events_view(events@) == tick_model(workflows@, nv, v0, now, i as nat).0,
            fired_view(fired.entries@) == tick_model(workflows@, nv, v0, now, i as nat).1,
            forall|m: int| 0 <= m < events@.len() ==> sound_event(workflows@, #[trigger] events@[m]),
            forall|m: int| 0 <= m < events@.len() ==> start_due(workflows@, nv, now, #[trigger] events@[m]),
            all_reported(workflows@, i as int, events@),
        decreases workflows@.len() - i,
    {
        let w = &workflows[i];
        let ghost at_start = events@;
        let ghost pre = tick_model(workflows@, nv, v0, now, i as nat);
        if is_schedulable(w) {
            let ts = &w.triggers;
            let mut j: usize = 0;
            assert(pre.0 + workflow_steps(*w, i, nv, pre.1, now, 0).0 =~= pre.0);
            while j < ts.len()
                invariant
                    i < workflows@.len(),
                    *w == workflows@[i as int],
                    ts@ == w.triggers@,
                    w.enabled && w.nodes@.len() > 0,
                    j <= ts@.len(),
                    nv == next_view(next@),
                    fired.last_look == l0,
                    pre == tick_model(workflows@, nv, v0, now, i as nat),
                    events_view(events@) == pre.0 + workflow_steps(*w, i, nv, pre.1, now, j as nat).0,
                    fired_view(fired.entries@) == workflow_steps(*w, i, nv, pre.1, now, j as nat).1,
                    at_start.len() <= events@.len(),
                    forall|m: int| 0 <= m < at_start.len() ==> events@[m] == at_start[m],
                    forall|m: int| 0 <= m < events@.len() ==> sound_event(workflows@, #[trigger] events@[m]),
                    forall|m: int| 0 <= m < events@.len() ==> start_due(workflows@, nv, now, #[trigger] events@[m]),
                    forall|k: int| 0 <= k < j && bad_cron(#[trigger] ts@[k]) ==> reported(
                        events@,
                        i as int,
                        cron_text(ts@[k]),
                        w.name@,
                    ),
                decreases ts@.len() - j,
            {
                let ghost before = events@;
                let ghost ws = workflow_steps(*w, i, nv, pre.1, now, j as nat);
                let ghost step = trigger_step(w.name@, i, ts@[j as int], reading(nv, i as int, j as int), ws.1, now);
                assert(workflow_steps(*w, i, nv, pre.1, now, (j + 1) as nat) == (ws.0 + step.0, step.1));
                match &ts[j] {
                    TriggerConfig::Cron { schedule } => {
                        if parse_schedule(schedule.as_str()).is_none() {
                            let a = cat("Invalid cron schedule: ", schedule.as_str());
                            let b = cat(a.as_str(), " for workflow: ");
                            let message = cat(b.as_str(), w.name.as_str());
                            events.push(CronEvent::Invalid { index: i, message });
                            assert(events@[events@.len() - 1] == events@.last());
                            assert(sound_event(workflows@, events@.last())) by {
                                assert(bad_cron(workflows@[i as int].triggers@[j as int]));
                            }
                            assert(reported(events@, i as int, schedule@, w.name@));
                            assert(events_view(events@) =~= events_view(before).push(event_view(events@.last())));
                            assert(events_view(events@) =~= pre.0 + (ws.0 + step.0));
                        } else {
                            let r: Option<i64> = if i < next.len() && j < next[i].len() {
                                next[i][j]
                            } else {
                                None
                            };
                            assert(r == reading(nv, i as int, j as int));
                            match due_at(w.name.as_str(), r, now) {
                                CronCheck::Due { key, fire_at } => {
                                    let ghost kg = key;
                                    let ghost fb = fired.entries@;
                                    proof {
                                        lemma_has_key_view(fb, kg@);
                                        lemma_view_push(fb, (kg, fire_at));
                                        lemma_view_kept(fb.push((kg, fire_at)), now);
                                    }
                                    if fired.claim(key, fire_at, now) {
                                        let message = cat("Cron triggered workflow: ", w.name.as_str());
                                        events.push(CronEvent::Start { index: i, message });
                                        assert(events@[events@.len() - 1] == events@.last());
                                        assert(sound_event(workflows@, events@.last())) by {
                                            assert(workflows@[i as int].triggers@[j as int] matches TriggerConfig::Cron { schedule }
                                                && cron_expression_valid(schedule@));
                                        }
                                        assert(start_due(workflows@, nv, now, events@.last())) by {
                                            assert(valid_cron(workflows@[i as int].triggers@[j as int]));
                                            assert(reading(nv, i as int, j as int) == Some(fire_at));
                                        }
                                        assert(events_view(events@) =~= events_view(before).push(event_view(events@.last())));
                                        assert(events_view(events@) =~= pre.0 + (ws.0 + step.0));
                                    } else {
                                        assert(step.0 =~= Seq::<(bool, usize, Seq<char>)>::empty());
                                        assert(events_view(events@) =~= pre.0 + (ws.0 + step.0));
                                    }
                                },
                                _ => {
                                    assert(step.0 =~= Seq::<(bool, usize, Seq<char>)>::empty());
                                    assert(events_view(events@) =~= pre.0 + (ws.0 + step.0));
                                },
                            }
                        }
                    },
                    TriggerConfig::Manual => {
                        assert(events_view(events@) =~= pre.0 + (ws.0 + step.0));
                    },
                }
                assert forall|m: int| 0 <= m < events@.len() implies sound_event(workflows@, #[trigger] events@[m])
                    && start_due(workflows@, nv, now, events@[m]) by {
                    if m < before.len() {
                        assert(events@[m] == before[m]);
                    }
                }
                assert forall|k: int| 0 <= k < j + 1 && bad_cron(#[trigger] ts@[k]) implies reported(
                    events@,
                    i as int,
                    cron_text(ts@[k]),
                    w.name@,
                ) by {
                    if k < j {
                        lemma_reported_grows(before, events@, i as int, cron_text(ts@[k]), w.name@);
                    }
                }
                j += 1;
            }
        } else {
            assert(pre.0 + workflow_tick(*w, i, nv, pre.1, now).0 =~= pre.0);
        }
        assert(all_reported(workflows@, i + 1, events@)) by {
            assert forall|a: int, k: int|
                0 <= a < i + 1 && workflows@[a].enabled && workflows@[a].nodes@.len() > 0 && 0 <= k
                    < workflows@[a].triggers@.len() && bad_cron(#[trigger] workflows@[a].triggers@[k]) implies reported(
                events@,
                a,
                cron_text(workflows@[a].triggers@[k]),
                workflows@[a].name@,
            ) by {
                if a < i {
                    lemma_reported_grows(at_start, events@, a, cron_text(workflows@[a].triggers@[k]), workflows@[a].name@);
                }
            }
        }
        i += 1;
    }
    events
}

/// Where the scheduler's look at `now` starts: just after its previous look, or a second
/// before `now` at the first look (or when the clock went back).
pub open spec fn window_start(last_look: Option<i64>, now: i64) -> i64 {
    match last_look {
        Some(p) if p < now => p,
        _ => if now >= i64::MIN + 1_000_000_000 {
            (now - 1_000_000_000) as i64
        } else {
            i64::MIN
        },
    }
}

/// The readings of a look that starts at `after`: for each enabled workflow with nodes, the
/// next fire time after `after` of each of its triggers; none for the others.
pub open spec fn tick_readings(workflows: Seq<WorkflowConfig>, after: i64) -> Seq<Seq<Option<i64>>> {
    Seq::new(
        workflows.len(),
        |i: int|
            if workflows[i].enabled && workflows[i].nodes@.len() > 0 {
                trigger_readings(workflows[i].triggers@, after)
            } else {
                seq![]
            },
    )
}

/// One look of the scheduler at `workflows` at `now` (nanoseconds). For each enabled workflow
/// with nodes, in order: each cron trigger whose expression does not parse is reported; each
/// whose schedule fires after the previous look (see `window_start`) and by `now` is started,
/// unless that firing is held already, and the firing is claimed (see `tick_model`, over the
/// next fire time of each trigger after the previous look). Then `now` becomes the last look.
pub fn cron_tick(workflows: &[WorkflowConfig], fired: &mut FiredSchedule, now: i64) -> (events: Vec<CronEvent>)
    ensures
        events_view(events@) == tick_model(
            workflows@,
            tick_readings(workflows@, window_start(old(fired).last_look, now)),
            fired_view(old(fired).entries@),
            now,
            workflows@.len() as nat,
        ).0,
        fired_view(final(fired).entries@) == tick_model(
            workflows@,
            tick_readings(workflows@, window_start(old(fired).last_look, now)),
            fired_view(old(fired).entries@),
            now,
            workflows@.len() as nat,
        ).1,
        final(fired).last_look == Some(now),
        forall|m: int| 0 <= m < events@.len() ==> sound_event(workflows@, #[trigger] events@[m]),
        forall|m: int| 0 <= m < events@.len() ==> start_due(
            workflows@,
            tick_readings(workflows@, window_start(old(fired).last_look, now)),
            now,
            #[trigger] events@[m],
        ),
        all_reported(workflows@, workflows@.len() as int, events@),
{
    let after: i64 = match fired.last_look {
        Some(p) if p < now => p,
        _ => if now >= i64::MIN + 1_000_000_000 {
            now - 1_000_000_000
        } else {
            i64::MIN
        },
    };
    assert(after == window_start(fired.last_look, now));
    let ghost expected = tick_readings(workflows@, after);
    let mut next: Vec<Vec<Option<i64>>> = Vec::new();
    let mut i: usize = 0;
    while i < workflows.len()
        invariant
            i <= workflows@.len(),
            next@.len() == i,
            expected == tick_readings(workflows@, after),
            forall|a: int| 0 <= a < i ==> #[trigger] next@[a]@ == expected[a],
        decreases workflows@.len() - i,
    {
        if is_schedulable(&workflows[i]) {
            next.push(trigger_next_times(&workflows[i], after));
        } else {
            next.push(Vec::new());
        }
        i += 1;
    }
    assert(next_view(next@) =~= expected);
    let events = cron_tick_at(workflows, next.as_slice(), fired, now);
    fired.last_look = Some(now);
    events
}

/// Some event among `evs` starts the workflow at index `i` with the message `msg`.
spec fn has_start(evs: Seq<(bool, usize, Seq<char>)>, i: usize, msg: Seq<char>) -> bool {
    exists|m: int| 0 <= m < evs.len() && #[trigger] evs[m] == (true, i, msg)
}

proof fn lemma_has_start_extends(evs: Seq<(bool, usize, Seq<char>)>, more: Seq<(bool, usize, Seq<char>)>, i: usize, msg: Seq<char>)
    requires
        has_start(evs, i, msg),
    ensures
        has_start(evs + more, i, msg),
{
    let m = choose|m: int| 0 <= m < evs.len() && #[trigger] evs[m] == (true, i, msg);
    assert((evs + more)[m] == evs[m]);
}

/// Keys held after a claim were held before, or are the claimed one.
proof fn lemma_kept_holds(v: Seq<(Seq<char>, i64)>, entry: (Seq<char>, i64), now: i64, key: Seq<char>)
    requires
        holds_key(kept_view(v.push(entry), now), key),
    ensures
        holds_key(v, key) || entry.0 == key,
{
    let f = kept_view(v.push(entry), now);
    let m = choose|m: int| 0 <= m < f.len() && #[trigger] f[m].0 == key;
    assert(f.contains(f[m]));
    v.push(entry).lemma_filter_contains_rev(|e: (Seq<char>, i64)| e.1 > now - keep_window(), f[m]);
    let q = choose|q: int| 0 <= q < v.push(entry).len() && v.push(entry)[q] == f[m];
    if q < v.len() {
        assert(v[q].0 == key);
    }
}

/// Two firings of workflows with different names never share a key (the minute part of a key
/// always has twelve characters).
proof fn lemma_firing_key_names(a: Seq<char>, x: i64, b: Seq<char>, y: i64)
    requires
        firing_key(a, x) == firing_key(b, y),
    ensures
        a == b,
{
    crate::clock::lemma_minute_stamp_len(x);
    crate::clock::lemma_minute_stamp_len(y);
    let fa = firing_key(a, x);
    assert(a =~= fa.subrange(0, a.len() as int));
    assert(b =~= fa.subrange(0, b.len() as int));
}

/// Within one workflow's triggers: a key held after them was held before, or is a firing of
/// this workflow that was claimed, and then it was started.
proof fn lemma_steps_keys(
    w: WorkflowConfig,
    i: usize,
    next: Seq<Seq<Option<i64>>>,
    s: Seq<(Seq<char>, i64)>,
    now: i64,
    j: nat,
)
    requires
        j <= w.triggers@.len(),
    ensures
        forall|key: Seq<char>|
            #[trigger] holds_key(workflow_steps(w, i, next, s, now, j).1, key) ==> holds_key(s, key) || (
            (exists|t: i64| key == #[trigger] firing_key(w.name@, t)) && has_start(
                workflow_steps(w, i, next, s, now, j).0,
                i,
                started_message(w.name@),
            )),
    decreases j,
{
    if j > 0 {
        lemma_steps_keys(w, i, next, s, now, (j - 1) as nat);
        let before = workflow_steps(w, i, next, s, now, (j - 1) as nat);
        let step = trigger_step(w.name@, i, w.triggers@[j - 1], reading(next, i as int, j - 1), before.1, now);
        let after = workflow_steps(w, i, next, s, now, j);
        assert(after == (before.0 + step.0, step.1));
        assert forall|key: Seq<char>| #[trigger] holds_key(after.1, key) implies holds_key(s, key) || (
            (exists|t: i64| key == #[trigger] firing_key(w.name@, t)) && has_start(after.0, i, started_message(w.name@))) by {
            let claimed = match w.triggers@[j - 1] {
                TriggerConfig::Cron { schedule } => cron_expression_valid(schedule@) && match reading(next, i as int, j - 1) {
                    Some(f) => f <= now && !holds_key(before.1, firing_key(w.name@, f)),
                    None => false,
                },
                TriggerConfig::Manual => false,
            };
            if claimed {
                let f = reading(next, i as int, j - 1)->0;
                let fk = firing_key(w.name@, f);
                assert(step.1 == kept_view(before.1.push((fk, f)), now));
                assert(step.0 == seq![(true, i, started_message(w.name@))]);
                assert(after.0[before.0.len() as int] == (true, i, started_message(w.name@)));
                lemma_kept_holds(before.1, (fk, f), now, key);
                if holds_key(before.1, key) && !holds_key(s, key) {
                    lemma_has_start_extends(before.0, step.0, i, started_message(w.name@));
                }
            } else {
                assert(step.1 == before.1);
                if !holds_key(s, key) {
                    lemma_has_start_extends(before.0, step.0, i, started_message(w.name@));
                }
            }
        }
    }
}

/// Within one workflow's triggers: a cron trigger whose expression parses, whose next fire
/// time has come and whose firing was not held starts the workflow.
proof fn lemma_steps_start(
    w: WorkflowConfig,
    i: usize,
    next: Seq<Seq<Option<i64>>>,
    s: Seq<(Seq<char>, i64)>,
    now: i64,
    j: nat,
    k: int,
    t: i64,
)
    requires
        j <= w.triggers@.len(),
        0 <= k < j,
        valid_cron(w.triggers@[k]),
        reading(next, i as int, k) == Some(t),
        t <= now,
        !holds_key(s, firing_key(w.name@, t)),
    ensures
        has_start(workflow_steps(w, i, next, s, now, j).0, i, started_message(w.name@)),
    decreases j,
{
    let before = workflow_steps(w, i, next, s, now, (j - 1) as nat);
    let step = trigger_step(w.name@, i, w.triggers@[j - 1], reading(next, i as int, j - 1), before.1, now);
    assert(workflow_steps(w, i, next, s, now, j) == (before.0 + step.0, step.1));
    if j > k + 1 {
        lemma_steps_start(w, i, next, s, now, (j - 1) as nat, k, t);
        lemma_has_start_extends(before.0, step.0, i, started_message(w.name@));
    } else {
        lemma_steps_keys(w, i, next, s, now, k as nat);
        let key = firing_key(w.name@, t);
        if holds_key(before.1, key) {
            lemma_has_start_extends(before.0, step.0, i, started_message(w.name@));
        } else {
            assert(step.0 == seq![(true, i, started_message(w.name@))]);
            assert((before.0 + step.0)[before.0.len() as int] == (true, i, started_message(w.name@)));
        }
    }
}

/// Over the first `n` workflows: a key held afterwards was held before, or is a firing of
/// one of those workflows.
proof fn lemma_tick_keys(
    workflows: Seq<WorkflowConfig>,
    next: Seq<Seq<Option<i64>>>,
    v0: Seq<(Seq<char>, i64)>,
    now: i64,
    n: nat,
)
    requires
        n <= workflows.len(),
    ensures
        forall|key: Seq<char>|
            #[trigger] holds_key(tick_model(workflows, next, v0, now, n).1, key) ==> holds_key(v0, key) || exists|a: int, t: i64|
                0 <= a < n && key == #[trigger] firing_key(workflows[a].name@, t),
    decreases n,
{
    if n > 0 {
        lemma_tick_keys(workflows, next, v0, now, (n - 1) as nat);
        let before = tick_model(workflows, next, v0, now, (n - 1) as nat);
        let w = workflows[n - 1];
        let wt = workflow_tick(w, (n - 1) as usize, next, before.1, now);
        assert(tick_model(workflows, next, v0, now, n) == (before.0 + wt.0, wt.1));
        if w.enabled && w.nodes@.len() > 0 {
            lemma_steps_keys(w, (n - 1) as usize, next, before.1, now, w.triggers@.len());
            assert forall|key: Seq<char>| #[trigger] holds_key(wt.1, key) implies holds_key(v0, key) || exists|a: int, t: i64|
                0 <= a < n && key == #[trigger] firing_key(workflows[a].name@, t) by {
                if !holds_key(before.1, key) {
                    let t = choose|t: i64| key == #[trigger] firing_key(w.name@, t);
                    assert(key == firing_key(workflows[n - 1].name@, t));
                }
            }
        }
    }
}

proof fn lemma_tick_start_stays(
    workflows: Seq<WorkflowConfig>,
    next: Seq<Seq<Option<i64>>>,
    v0: Seq<(Seq<char>, i64)>,
    now: i64,
    n: nat,
    m: nat,
    i: usize,
    msg: Seq<char>,
)
    requires
        n <= m <= workflows.len(),
        has_start(tick_model(workflows, next, v0, now, n).0, i, msg),
    ensures
        has_start(tick_model(workflows, next, v0, now, m).0, i, msg),
    decreases m - n,
{
    if m > n {
        lemma_tick_start_stays(workflows, next, v0, now, n, (m - 1) as nat, i, msg);
        let before = tick_model(workflows, next, v0, now, (m - 1) as nat);
        let wt = workflow_tick(workflows[m - 1], (m - 1) as usize, next, before.1, now);
        assert(tick_model(workflows, next, v0, now, m) == (before.0 + wt.0, wt.1));
        lemma_has_start_extends(before.0, wt.0, i, msg);
    }
}

/// Every due cron trigger starts its workflow: when an enabled workflow with nodes has a cron
/// trigger, at any position among its triggers, whose expression parses and whose next fire
/// time `t` has come by `now`, and that firing is not among the fired entries, the tick starts
/// the workflow, logging "Cron triggered workflow: <name>" (unless a workflow listed before it
/// has the same name and so the same firing keys). `cron_tick_at` gives exactly the events of
/// `tick_model`.
pub proof fn lemma_due_trigger_starts(
    workflows: Seq<WorkflowConfig>,
    next: Seq<Seq<Option<i64>>>,
    fired: Seq<(Seq<char>, i64)>,
    now: i64,
    i: int,
    k: int,
    t: i64,
)
    requires
        workflows.len() <= usize::MAX,
        0 <= i < workflows.len(),
        workflows[i].enabled && workflows[i].nodes@.len() > 0,
        0 <= k < workflows[i].triggers@.len(),
        workflows[i].triggers@[k] matches TriggerConfig::Cron { schedule } && cron_expression_valid(schedule@),
        i < next.len() && k < next[i].len() && next[i][k] == Some(t),
        t <= now,
        !exists|e: int| 0 <= e < fired.len() && #[trigger] fired[e].0 == firing_key(workflows[i].name@, t),
        forall|a: int| 0 <= a < i ==> #[trigger] workflows[a].name@ != workflows[i].name@,
    ensures
        exists|m: int|
            0 <= m < tick_model(workflows, next, fired, now, workflows.len() as nat).0.len() && #[trigger] tick_model(
                workflows,
                next,
                fired,
                now,
                workflows.len() as nat,
            ).0[m] == (true, i as usize, "Cron triggered workflow: "@ + workflows[i].name@),
{
    reveal_strlit("Cron triggered workflow: ");
    let w = workflows[i];
    let key = firing_key(w.name@, t);
    let before = tick_model(workflows, next, fired, now, i as nat);
    lemma_tick_keys(workflows, next, fired, now, i as nat);
    if holds_key(before.1, key) {
        if !holds_key(fired, key) {
            let (a, t2) = choose|a: int, t2: i64| 0 <= a < i && key == #[trigger] firing_key(workflows[a].name@, t2);
            lemma_firing_key_names(workflows[a].name@, t2, w.name@, t);
        }
    }
    assert(!holds_key(before.1, key));
    assert(reading(next, i, k) == Some(t));
    lemma_steps_start(w, i as usize, next, before.1, now, w.triggers@.len(), k, t);
    let wt = workflow_tick(w, i as usize, next, before.1, now);
    assert(tick_model(workflows, next, fired, now, (i + 1) as nat) == (before.0 + wt.0, wt.1));
    assert(before.0 + wt.0 == tick_model(workflows, next, fired, now, (i + 1) as nat).0);
    lemma_has_start_extends(wt.0, seq![], i as usize, started_message(w.name@));
    assert(wt.0 + seq![] == wt.0);
    let m0 = choose|m: int| 0 <= m < wt.0.len() && #[trigger] wt.0[m] == (true, i as usize, started_message(w.name@));
    assert((before.0 + wt.0)[before.0.len() + m0] == wt.0[m0]);
    assert(has_start(tick_model(workflows, next, fired, now, (i + 1) as nat).0, i as usize, started_message(w.name@)));
    lemma_tick_start_stays(workflows, next, fired, now, (i + 1) as nat, workflows.len() as nat, i as usize, started_message(w.name@));
}

/// A cron trigger whose schedule fires after the scheduler's previous look and by `now`
/// starts its workflow in `cron_tick` (enabled, with nodes, its firing not held, and no
/// workflow listed before it with the same name).
pub proof fn lemma_due_schedule_starts(
    workflows: Seq<WorkflowConfig>,
    fired: Seq<(Seq<char>, i64)>,
    last_look: Option<i64>,
    now: i64,
    i: int,
    k: int,
    t: i64,
)
    requires
        workflows.len() <= usize::MAX,
        0 <= i < workflows.len(),
        workflows[i].enabled && workflows[i].nodes@.len() > 0,
        0 <= k < workflows[i].triggers@.len(),
        workflows[i].triggers@[k] matches TriggerConfig::Cron { schedule } && cron_expression_valid(schedule@)
            && next_fire_after(schedule@, window_start(last_look, now)) == Some(t),
        t <= now,
        !exists|e: int| 0 <= e < fired.len() && #[trigger] fired[e].0 == firing_key(workflows[i].name@, t),
        forall|a: int| 0 <= a < i ==> #[trigger] workflows[a].name@ != workflows[i].name@,
    ensures
        exists|m: int|
            0 <= m < tick_model(workflows, tick_readings(workflows, window_start(last_look, now)), fired, now, workflows.len() as nat).0.len()
                && #[trigger] tick_model(
                workflows,
                tick_readings(workflows, window_start(last_look, now)),
                fired,
                now,
                workflows.len() as nat,
            ).0[m] == (true, i as usize, "Cron triggered workflow: "@ + workflows[i].name@),
{
    let next = tick_readings(workflows, window_start(last_look, now));
    assert(valid_cron(workflows[i].triggers@[k]));
    assert(next[i] == trigger_readings(workflows[i].triggers@, window_start(last_look, now)));
    assert(next[i][k] == Some(t));
    lemma_due_trigger_starts(workflows, next, fired, now, i, k, t);
}

fn cat(a: &str, b: &str) -> (r: String)
    ensures
        r@ == a@ + b@,
{
    let mut r = a.to_string();
    r.append(b);
    r
}

} // verus!

//! The workflow engine: run records, execution order and the decisions made while running.
use vstd::prelude::*;

pub mod commands;
pub mod expression;
pub mod order;
pub mod retry;
pub mod run;
pub mod template;

use crate::clock::utc_now;
use crate::config::NodeConfig;
use crate::json::{nested, nested_value, text_of_value, value_text, JsonValue};
use crate::text::{format_in_base, lower_hex};
use order::{execution_order, has_execution_order, is_execution_order, takes_first_ready};

verus! {

/// Where a node stands.
#[derive(Debug, Clone, PartialEq, Eq)]
pub enum NodeStatus {
    Pending,
    Running,
    Success,
    /// Failed, with the reason.
    Failed(String),
    Skipped,
}

/// The lower-case word for a status, as `when` conditions compare it.
pub open spec fn status_word(s: NodeStatus) -> Seq<char> {
    match s {
        NodeStatus::Success => seq!['s', 'u', 'c', 'c', 'e', 's', 's'],
        NodeStatus::Failed(_) => seq!['f', 'a', 'i', 'l', 'e', 'd'],
        NodeStatus::Skipped => seq!['s', 'k', 'i', 'p', 'p', 'e', 'd'],
        NodeStatus::Running => seq!['r', 'u', 'n', 'n', 'i', 'n', 'g'],
        NodeStatus::Pending => seq!['p', 'e', 'n', 'd', 'i', 'n', 'g'],
    }
}

/// The capitalised name of a status, as templates show it.
pub open spec fn status_name(s: NodeStatus) -> Seq<char> {
    match s {
        NodeStatus::Success => seq!['S', 'u', 'c', 'c', 'e', 's', 's'],
        NodeStatus::Failed(_) => seq!['F', 'a', 'i', 'l', 'e', 'd'],
        NodeStatus::Skipped => seq!['S', 'k', 'i', 'p', 'p', 'e', 'd'],
        NodeStatus::Running => seq!['R', 'u', 'n', 'n', 'i', 'n', 'g'],
        NodeStatus::Pending => seq!['P', 'e', 'n', 'd', 'i', 'n', 'g'],
    }
}

fn text_of(cs: &[char]) -> (s: String)
    ensures
        s@ == cs@,
{
    crate::text::string_of(cs)
}

impl NodeStatus {
    /// The lower-case word for this status (`success`, `failed`, ...).
    pub fn word(&self) -> (w: String)
        ensures
            w@ == status_word(*self),
    {
        match self {
            NodeStatus::Success => text_of(&['s', 'u', 'c', 'c', 'e', 's', 's']),
            NodeStatus::Failed(_) => text_of(&['f', 'a', 'i', 'l', 'e', 'd']),
            NodeStatus::Skipped => text_of(&['s', 'k', 'i', 'p', 'p', 'e', 'd']),
            NodeStatus::Running => text_of(&['r', 'u', 'n', 'n', 'i', 'n', 'g']),
            NodeStatus::Pending => text_of(&['p', 'e', 'n', 'd', 'i', 'n', 'g']),
        }
    }

    /// The capitalised name of this status (`Success`, `Failed`, ...).
    pub fn name(&self) -> (w: String)
        ensures
            w@ == status_name(*self),
    {
        match self {
            NodeStatus::Success => text_of(&['S', 'u', 'c', 'c', 'e', 's', 's']),
            NodeStatus::Failed(_) => text_of(&['F', 'a', 'i', 'l', 'e', 'd']),
            NodeStatus::Skipped => text_of(&['S', 'k', 'i', 'p', 'p', 'e', 'd']),
            NodeStatus::Running => text_of(&['R', 'u', 'n', 'n', 'i', 'n', 'g']),
            NodeStatus::Pending => text_of(&['P', 'e', 'n', 'd', 'i', 'n', 'g']),
        }
    }

    /// Whether the status is `Failed`.
    pub fn is_failed(&self) -> (b: bool)
        ensures
            b == (*self is Failed),
    {
        match self {
            NodeStatus::Failed(_) => true,
            _ => false,
        }
    }
}

/// What running one node gave. Times are nanoseconds since the Unix epoch.
#[derive(Debug)]
pub struct NodeResult {
    pub node_id: String,
    pub status: NodeStatus,
    pub output: String,
    /// The response body of an HTTP node, where it was JSON.
    pub response_data: Option<JsonValue>,
    pub started_at: i64,
    pub finished_at: Option<i64>,
}

/// Where a whole run stands.
#[derive(Debug, Clone, Copy, PartialEq, Eq, Structural)]
pub enum RunStatus {
    Running,
    Success,
    Failed,
}

/// One run of a workflow. Times are nanoseconds since the Unix epoch.
#[derive(Debug)]
pub struct WorkflowRun {
    pub id: String,
    pub workflow_name: String,
    pub status: RunStatus,
    pub started_at: i64,
    pub finished_at: Option<i64>,
    pub node_results: Vec<NodeResult>,
}

/// The id of a run that started at `millis` milliseconds since the epoch: the low 24 bits
/// of the time, in lower-case hexadecimal.
pub open spec fn run_id_for(millis: i64) -> Seq<char> {
    lower_hex(((millis as u64) % 0x1000000) as nat)
}

impl WorkflowRun {
    /// A run of `workflow_name` that has just started, as of the clock: its id comes from the
    /// clock's reading in milliseconds, the same reading as its start time (when that fits).
    pub fn new(workflow_name: &str) -> (run: Self)
        ensures
            run.workflow_name@ == workflow_name@,
            run.status == RunStatus::Running,
            run.finished_at is None,
            run.node_results@.len() == 0,
            run.id@.len() > 0,
            exists|millis: i64|
                run.id@ == #[trigger] run_id_for(millis) && (run.started_at != 0 ==> millis == run.started_at / 1_000_000),
    {
        let (millis, nanos) = utc_now();
        let started_at = match nanos {
            Some(n) => n,
            None => 0,
        };
        Self::new_at(workflow_name, millis, started_at)
    }

    /// A run of `workflow_name` started at `started_at`, whose id comes from `id_millis`.
    pub fn new_at(workflow_name: &str, id_millis: i64, started_at: i64) -> (run: Self)
        ensures
            run.id@ == run_id_for(id_millis),
            run.id@.len() > 0,
            run.workflow_name@ == workflow_name@,
            run.status == RunStatus::Running,
            run.started_at == started_at,
            run.finished_at is None,
            run.node_results@.len() == 0,
    {
        let wide = id_millis as u64;
        let low = wide & 0xFFFFFF;
        assert(wide & 0xFFFFFF == wide % 0x1000000) by (bit_vector);
        let id = format_in_base(low, 16);
        proof {
            lemma_digits_nonempty(low as nat, 16);
        }
        WorkflowRun {
            id,
            workflow_name: workflow_name.to_string(),
            status: RunStatus::Running,
            started_at,
            finished_at: None,
            node_results: Vec::new(),
        }
    }
}

proof fn lemma_digits_nonempty(n: nat, base: nat)
    requires
        2 <= base <= 16,
    ensures
        crate::text::digits_in_base(n, base).len() > 0,
    decreases n,
{
    if n >= base {
        assert(n / base < n) by (nonlinear_arith)
            requires
                n >= base,
                base >= 2,
        ;
        lemma_digits_nonempty(n / base, base);
    }
}

proof fn lemma_digits_injective(a: nat, b: nat, base: nat)
    requires
        2 <= base <= 16,
        crate::text::digits_in_base(a, base) == crate::text::digits_in_base(b, base),
    ensures
        a == b,
    decreases a + b,
{
    let da = crate::text::digits_in_base(a, base);
    let db = crate::text::digits_in_base(b, base);
    if a < base && b < base {
        assert(da[0] == db[0]);
    } else if a < base {
        assert(b / base < b) by (nonlinear_arith)
            requires
                b >= base,
                base >= 2,
        ;
        lemma_digits_nonempty(b / base, base);
        assert(db.len() >= 2);
    } else if b < base {
        assert(a / base < a) by (nonlinear_arith)
            requires
                a >= base,
                base >= 2,
        ;
        lemma_digits_nonempty(a / base, base);
        assert(da.len() >= 2);
    } else {
        assert(a / base < a && b / base < b) by (nonlinear_arith)
            requires
                a >= base,
                b >= base,
                base >= 2,
        ;
        let pa = crate::text::digits_in_base(a / base, base);
        let pb = crate::text::digits_in_base(b / base, base);
        assert(da == pa.push(crate::text::digit_char(a % base)));
        assert(db == pb.push(crate::text::digit_char(b % base)));
        assert(pa == da.drop_last());
        assert(pb == db.drop_last());
        lemma_digits_injective(a / base, b / base, base);
        assert(da.last() == db.last());
        vstd::arithmetic::div_mod::lemma_mod_bound(a as int, base as int);
        vstd::arithmetic::div_mod::lemma_mod_bound(b as int, base as int);
        assert(a % base == b % base);
        vstd::arithmetic::div_mod::lemma_fundamental_div_mod(a as int, base as int);
        vstd::arithmetic::div_mod::lemma_fundamental_div_mod(b as int, base as int);
    }
}

/// Runs whose id times differ in their low 24 bits (as milliseconds, runs started less than
/// about four and a half hours apart at different milliseconds) have different ids.
pub proof fn lemma_run_ids_distinct(a: i64, b: i64)
    requires
        (a as u64) % 0x1000000 != (b as u64) % 0x1000000,
    ensures
        run_id_for(a) != run_id_for(b),
{
    if run_id_for(a) == run_id_for(b) {
        lemma_digits_injective(((a as u64) % 0x1000000) as nat, ((b as u64) % 0x1000000) as nat, 16);
    }
}

/// Why the engine refused a workflow.
#[derive(Debug, Clone, PartialEq, Eq, Structural)]
pub enum EngineError {
    /// The nodes' dependencies form a cycle, so no node order satisfies them.
    CircularDependency,
}

impl EngineError {
    /// A sentence that describes the error.
    pub fn message(&self) -> (m: String)
        ensures
            m@ == circular_dependency_message(),
    {
        text_of(&['C', 'i', 'r', 'c', 'u', 'l', 'a', 'r', ' ', 'd', 'e', 'p', 'e', 'n', 'd', 'e', 'n', 'c', 'y', ' ', 'd', 'e', 't', 'e', 'c', 't', 'e', 'd', ' ', 'i', 'n', ' ', 'w', 'o', 'r', 'k', 'f', 'l', 'o', 'w', ' ', 'n', 'o', 'd', 'e', 's'])
    }
}

/// "Circular dependency detected in workflow nodes".
pub open spec fn circular_dependency_message() -> Seq<char> {
    seq!['C', 'i', 'r', 'c', 'u', 'l', 'a', 'r', ' ', 'd', 'e', 'p', 'e', 'n', 'd', 'e', 'n', 'c', 'y', ' ', 'd', 'e', 't', 'e', 'c', 't', 'e', 'd', ' ', 'i', 'n', ' ', 'w', 'o', 'r', 'k', 'f', 'l', 'o', 'w', ' ', 'n', 'o', 'd', 'e', 's']
}

/// The workflow engine's record of runs.
pub struct Engine {
    pub runs: Vec<WorkflowRun>,
}

impl Engine {
    /// An engine with no runs.
    pub fn new() -> (e: Self)
        ensures
            e.runs@.len() == 0,
    {
        Engine { runs: Vec::new() }
    }

    /// The node ids in an order in which each node comes after the nodes it depends on,
    /// taking at each step the first-listed node whose dependencies are all placed; an error
    /// when the dependencies form a cycle.
    pub fn topological_sort(&self, nodes: &[NodeConfig]) -> (r: Result<Vec<String>, EngineError>)
        ensures
            r is Ok <==> has_execution_order(nodes@),
            match r {
                Ok(ids) => exists|order: Seq<usize>| {
                    &&& is_execution_order(nodes@, order)
                    &&& takes_first_ready(nodes@, order)
                    &&& ids@.len() == order.len()
                    &&& forall|i: int| 0 <= i < order.len() ==> #[trigger] ids@[i]@ == nodes@[order[i] as int].id@
                },
                Err(e) => e == EngineError::CircularDependency,
            },
    {
        match execution_order(nodes) {
            None => Err(EngineError::CircularDependency),
            Some(order) => {
                let mut ids: Vec<String> = Vec::new();
                let mut i: usize = 0;
                while i < order.len()
                    invariant
                        is_execution_order(nodes@, order@),
                        takes_first_ready(nodes@, order@),
                        i <= order@.len(),
                        ids@.len() == i,
                        forall|k: int| 0 <= k < i ==> #[trigger] ids@[k]@ == nodes@[order@[k] as int].id@,
                    decreases order@.len() - i,
                {
                    let id = nodes[order[i]].id.clone();
                    ids.push(id);
                    i += 1;
                }
                Ok(ids)
            },
        }
    }

    /// The value found by following `path` down from `value`: object members by key,
    /// array items by decimal index.
    pub fn get_nested_value<'a>(&self, value: &'a JsonValue, path: &[&str]) -> (r: Option<&'a JsonValue>)
        ensures
            match nested(*value, path@.map_values(|p: &str| p@)) {
                Some(w) => r == Some(&w),
                None => r is None,
            },
    {
        let mut segments: Vec<Vec<char>> = Vec::new();
        let mut i: usize = 0;
        while i < path.len()
            invariant
                i <= path@.len(),
                segments@.len() == i,
                forall|k: int| 0 <= k < i ==> #[trigger] segments@[k]@ == path@[k]@,
            decreases path@.len() - i,
        {
            segments.push(crate::text::chars_of(path[i]));
            i += 1;
        }
        assert(segments@.map_values(|q: Vec<char>| q@) == path@.map_values(|p: &str| p@));
        nested_value(value, segments.as_slice())
    }

    /// The text of a value: a string's own characters, otherwise its compact JSON text.
    pub fn value_to_string(&self, value: &JsonValue) -> (s: String)
        ensures
            s@ == text_of_value(*value),
    {
        value_text(value)
    }

    /// Adds a run to the record.
    pub fn add_run(&mut self, run: WorkflowRun)
        ensures
            final(self).runs@ == old(self).runs@.push(run),
    {
        self.runs.push(run);
    }

    /// Replaces the held run with the same id as `run`; adds `run` when none has it.
    pub fn update_run(&mut self, run: WorkflowRun)
        ensures
            match first_run_with_id(old(self).runs@, run.id@) {
                Some(i) => final(self).runs@ == old(self).runs@.update(i, run),
                None => final(self).runs@ == old(self).runs@.push(run),
            },
    {
        match self.position_of(&run.id) {
            Some(i) => {
                let ghost r = run;
                self.runs.set(i, run);
                assert(self.runs@ == old(self).runs@.update(i as int, r));
            },
            None => {
                self.runs.push(run);
            },
        }
    }

    fn position_of(&self, id: &String) -> (r: Option<usize>)
        ensures
            match r {
                Some(i) => i < self.runs@.len() && first_run_with_id(self.runs@, id@) == Some(i as int),
                None => first_run_with_id(self.runs@, id@) is None,
            },
    {
        let mut i: usize = 0;
        assert(self.runs@.skip(0) == self.runs@);
        while i < self.runs.len()
            invariant
                i <= self.runs@.len(),
                first_run_with_id(self.runs@, id@) == match first_run_with_id(self.runs@.skip(i as int), id@) {
                    Some(k) => Some(k + i),
                    None => None::<int>,
                },
            decreases self.runs@.len() - i,
        {
            let ghost rest = self.runs@.skip(i as int);
            assert(rest[0] == self.runs@[i as int]);
            if self.runs[i].id == *id {
                assert(first_run_with_id(rest, id@) == Some(0int));
                return Some(i);
            }
            assert(rest.drop_first() == self.runs@.skip(i + 1));
            i += 1;
        }
        None
    }

    /// Takes runs read back from storage: each whose id the engine does not hold is added.
    pub fn load_history(&mut self, stored: Vec<WorkflowRun>)
        ensures
            final(self).runs@.len() >= old(self).runs@.len(),
            final(self).runs@.subrange(0, old(self).runs@.len() as int) == old(self).runs@,
            forall|k: int| 0 <= k < stored@.len() ==> first_run_with_id(final(self).runs@, #[trigger] stored@[k].id@) is Some,
            forall|k: int| old(self).runs@.len() <= k < final(self).runs@.len() ==> stored@.contains(#[trigger] final(self).runs@[k]),
    {
        let ghost original = self.runs@;
        let ghost all = stored@;
        let mut rest = stored;
        let mut i: usize = 0;
        assert(rest@ == all.skip(0));
        assert(all.len() <= usize::MAX) by {
            assert(all.len() == rest.len());
        }
        while rest.len() > 0
            invariant
                self.runs@.len() >= original.len(),
                self.runs@.subrange(0, original.len() as int) == original,
                rest@.len() + i == all.len(),
                rest@ == all.skip(i as int),
                all.len() <= usize::MAX,
                forall|k: int| 0 <= k < i ==> first_run_with_id(self.runs@, #[trigger] all[k].id@) is Some,
                forall|k: int| original.len() <= k < self.runs@.len() ==> all.contains(#[trigger] self.runs@[k]),
            decreases rest@.len(),
        {
            let run = rest.remove(0);
            proof {
                assert(run == all[i as int]);
                assert(rest@ == all.skip(i + 1));
            }
            let ghost before = self.runs@;
            if self.position_of(&run.id).is_none() {
                self.runs.push(run);
                proof {
                    lemma_first_run_push(before, run);
                    assert forall|k: int| 0 <= k < i implies first_run_with_id(self.runs@, #[trigger] all[k].id@) is Some by {
                        lemma_first_run_push_keeps(before, run, all[k].id@);
                    }
                    assert(self.runs@.subrange(0, original.len() as int) == original);
                    assert(self.runs@[before.len() as int] == all[i as int]);
                }
            }
            i += 1;
        }
    }
}

/// The index of the first run in `runs` with id `id`.
pub open spec fn first_run_with_id(runs: Seq<WorkflowRun>, id: Seq<char>) -> Option<int>
    decreases runs.len(),
{
    if runs.len() == 0 {
        None
    } else if runs[0].id@ == id {
        Some(0)
    } else {
        match first_run_with_id(runs.drop_first(), id) {
            Some(k) => Some(k + 1),
            None => None,
        }
    }
}

proof fn lemma_first_run_push(runs: Seq<WorkflowRun>, run: WorkflowRun)
    ensures
        first_run_with_id(runs.push(run), run.id@) is Some,
    decreases runs.len(),
{
    if runs.len() > 0 && runs[0].id@ != run.id@ {
        assert(runs.push(run).drop_first() == runs.drop_first().push(run));
        lemma_first_run_push(runs.drop_first(), run);
    }
}

proof fn lemma_first_run_push_keeps(runs: Seq<WorkflowRun>, run: WorkflowRun, id: Seq<char>)
    requires
        first_run_with_id(runs, id) is Some,
    ensures
        first_run_with_id(runs.push(run), id) is Some,
    decreases runs.len(),
{
    if runs[0].id@ != id {
        assert(runs.push(run).drop_first() == runs.drop_first().push(run));
        lemma_first_run_push_keeps(runs.drop_first(), run, id);
    }
}

proof fn lemma_first_run_facts(runs: Seq<WorkflowRun>, id: Seq<char>)
    ensures
        match first_run_with_id(runs, id) {
            Some(i) => 0 <= i < runs.len() && runs[i].id@ == id && forall|k: int| 0 <= k < i ==> #[trigger] runs[k].id@ != id,
            None => forall|k: int| 0 <= k < runs.len() ==> #[trigger] runs[k].id@ != id,
        },
    decreases runs.len(),
{
    if runs.len() > 0 && runs[0].id@ != id {
        let d = runs.drop_first();
        lemma_first_run_facts(d, id);
        match first_run_with_id(d, id) {
            Some(j) => {
                assert(runs[j + 1] == d[j]);
                assert forall|k: int| 0 <= k < j + 1 implies #[trigger] runs[k].id@ != id by {
                    if k > 0 {
                        assert(runs[k] == d[k - 1]);
                        assert(d[k - 1].id@ != id);
                    }
                }
            },
            None => {
                assert forall|k: int| 0 <= k < runs.len() implies #[trigger] runs[k].id@ != id by {
                    if k > 0 {
                        assert(runs[k] == d[k - 1]);
                        assert(d[k - 1].id@ != id);
                    }
                }
            },
        }
    }
}

proof fn lemma_first_run_is(runs: Seq<WorkflowRun>, id: Seq<char>, i: int)
    requires
        0 <= i < runs.len(),
        runs[i].id@ == id,
        forall|k: int| 0 <= k < i ==> #[trigger] runs[k].id@ != id,
    ensures
        first_run_with_id(runs, id) == Some(i),
    decreases i,
{
    if i > 0 {
        assert forall|k: int| 0 <= k < i - 1 implies #[trigger] runs.drop_first()[k].id@ != id by {
            assert(runs.drop_first()[k] == runs[k + 1]);
        }
        lemma_first_run_is(runs.drop_first(), id, i - 1);
    }
}

/// After a run is recorded with `update_run`, looking its id up finds that run: what the
/// engine's record gives back for an id is what was last written under it.
pub proof fn lemma_update_then_find(runs: Seq<WorkflowRun>, run: WorkflowRun)
    ensures
        ({
            let after = match first_run_with_id(runs, run.id@) {
                Some(i) => runs.update(i, run),
                None => runs.push(run),
            };
            &&& first_run_with_id(after, run.id@) matches Some(j) && after[j] == run
            &&& after.len() == runs.len() + if first_run_with_id(runs, run.id@) is Some { 0int } else { 1int }
        }),
{
    let id = run.id@;
    lemma_first_run_facts(runs, id);
    match first_run_with_id(runs, id) {
        Some(i) => {
            let after = runs.update(i, run);
            assert forall|k: int| 0 <= k < i implies #[trigger] after[k].id@ != id by {
                assert(after[k] == runs[k]);
            }
            lemma_first_run_is(after, id, i);
        },
        None => {
            let after = runs.push(run);
            assert forall|k: int| 0 <= k < runs.len() implies #[trigger] after[k].id@ != id by {
                assert(after[k] == runs[k]);
            }
            lemma_first_run_is(after, id, runs.len() as int);
        },
    }
}

} // verus!

//! Running a workflow: what to do with each node, in order, and how the run ends.
//! The engine decides; whoever holds the run performs shell and HTTP work and reports back.
use vstd::prelude::*;
use crate::config::{NodeConfig, NodeKind, StringMap, WorkflowConfig};
use crate::engine::expression::{
    holds, last_result_index, parsed, variable_step, Expression, Operator, Term,
};
use crate::engine::order::{depends_on_node, execution_order, has_execution_order, is_execution_order, takes_first_ready};
use crate::engine::template::interpolated;
use crate::engine::{Engine, EngineError, NodeResult, NodeStatus, RunStatus, WorkflowRun};
use crate::json::JsonValue;
use crate::text::{chars_of, string_of};

verus! {

/// What to do with a node.
#[derive(Debug)]
pub enum NodeAction {
    /// Do not run it; record it as skipped with this output.
    Skip { reason: String },
    /// Nothing to run: record this outcome.
    Complete { status: NodeStatus, output: String },
    /// Run this shell command with these extra environment variables.
    Shell { cmd: String, env: StringMap },
    /// Make this HTTP request.
    Http {
        url: String,
        method: String,
        headers: StringMap,
        body: Option<String>,
        expect_status: Option<u16>,
    },
}

/// Why a node is skipped, or that it runs.
pub enum Verdict {
    Run,
    SkipByCondition,
    SkipByDependencies,
}

/// Some dependency of `node` has a result that failed or was skipped.
pub open spec fn dependency_blocked(node: NodeConfig, ctx: Seq<NodeResult>) -> bool {
    exists|k: int|
        0 <= k < node.depends_on@.len() && match #[trigger] last_result_index(ctx, node.depends_on@[k]@) {
            Some(i) => ctx[i].status is Failed || ctx[i].status is Skipped,
            None => false,
        }
}

/// Whether the parsed condition `l op v` holds in `ctx`.
pub open spec fn condition_holds(l: Seq<char>, op: Operator, v: Seq<char>, ctx: Seq<NodeResult>) -> bool {
    match last_result_index(ctx, variable_step(l)) {
        Some(i) => match op {
            Operator::Equals => crate::text::eq_ignore_ascii_case(crate::engine::status_word(ctx[i].status), v),
            Operator::NotEquals => !crate::text::eq_ignore_ascii_case(crate::engine::status_word(ctx[i].status), v),
        },
        None => false,
    }
}

/// A node with a readable `when` condition runs exactly when the condition holds.
/// Otherwise it runs unless one of its dependencies failed or was skipped.
/// (A `when` text that is not a condition, such as `always`, counts as none.)
pub open spec fn verdict(node: NodeConfig, ctx: Seq<NodeResult>) -> Verdict {
    match node.when {
        Some(w) if parsed(w@) is Some => {
            let (l, op, v) = parsed(w@)->0;
            if condition_holds(l, op, v, ctx) {
                Verdict::Run
            } else {
                Verdict::SkipByCondition
            }
        },
        _ => if dependency_blocked(node, ctx) {
            Verdict::SkipByDependencies
        } else {
            Verdict::Run
        },
    }
}

/// "Skipped due to failed dependencies"
pub open spec fn dependencies_skip_message() -> Seq<char> {
    seq!['S', 'k', 'i', 'p', 'p', 'e', 'd', ' ', 'd', 'u', 'e', ' ', 't', 'o', ' ', 'f', 'a', 'i', 'l', 'e', 'd', ' ', 'd', 'e', 'p', 'e', 'n', 'd', 'e', 'n', 'c', 'i', 'e', 's']
}

/// "Skipped: condition not met"
pub open spec fn condition_skip_message() -> Seq<char> {
    seq!['S', 'k', 'i', 'p', 'p', 'e', 'd', ':', ' ', 'c', 'o', 'n', 'd', 'i', 't', 'i', 'o', 'n', ' ', 'n', 'o', 't', ' ', 'm', 'e', 't']
}

/// `m`'s values, each filled as a template.
pub open spec fn map_interpolated(r: StringMap, m: StringMap, ctx: Seq<NodeResult>, env: StringMap) -> bool {
    forall|k: Seq<char>| #[trigger] r.value_of(k) == match m.value_of(k) {
        Some(v) => Some(interpolated(v, ctx, env)),
        None => None,
    }
}

/// `a` is the action that running `node` calls for, with templates filled from `ctx` and `env`.
pub open spec fn run_action(node: NodeConfig, a: NodeAction, ctx: Seq<NodeResult>, env: StringMap) -> bool {
    match (node.kind, a) {
        (NodeKind::Log { message }, NodeAction::Complete { status, output }) => status == NodeStatus::Success
            && output@ == interpolated(message@, ctx, env),
        (NodeKind::Shell { cmd, env: vars }, NodeAction::Shell { cmd: c, env: e }) => c@ == interpolated(cmd@, ctx, env)
            && map_interpolated(e, vars, ctx, env),
        (
            NodeKind::Http { url, method, headers, body, expect_status },
            NodeAction::Http { url: u, method: m, headers: h, body: b, expect_status: x },
        ) => {
            &&& u@ == interpolated(url@, ctx, env)
            &&& m@ == method@
            &&& map_interpolated(h, headers, ctx, env)
            &&& match (body, b) {
                (Some(bt), Some(bb)) => bb@ == interpolated(bt@, ctx, env),
                (None, None) => true,
                _ => false,
            }
            &&& x == expect_status
        },
        _ => false,
    }
}

/// `a` is what the engine does with `node` given the results `ctx`.
pub open spec fn planned(node: NodeConfig, a: NodeAction, ctx: Seq<NodeResult>, env: StringMap) -> bool {
    match verdict(node, ctx) {
        Verdict::Run => run_action(node, a, ctx, env),
        Verdict::SkipByCondition => a matches NodeAction::Skip { reason } && reason@ == condition_skip_message(),
        Verdict::SkipByDependencies => a matches NodeAction::Skip { reason } && reason@
            == dependencies_skip_message(),
    }
}

/// A node without a readable `when` condition never runs after one of its dependencies
/// failed or was skipped: whatever its other dependencies did, the engine skips it with
/// "Skipped due to failed dependencies".
pub proof fn lemma_failed_dependency_skips(node: NodeConfig, a: NodeAction, ctx: Seq<NodeResult>, env: StringMap, k: int, i: int)
    requires
        node.when matches Some(w) ==> parsed(w@) is None,
        0 <= k < node.depends_on@.len(),
        0 <= i < ctx.len(),
        ctx[i].node_id@ == node.depends_on@[k]@,
        forall|j: int| i < j < ctx.len() ==> #[trigger] ctx[j].node_id@ != node.depends_on@[k]@,
        ctx[i].status is Failed || ctx[i].status is Skipped,
        planned(node, a, ctx, env),
    ensures
        a matches NodeAction::Skip { reason } && reason@ == "Skipped due to failed dependencies"@,
{
    crate::engine::expression::lemma_last_result_at(ctx, node.depends_on@[k]@, i);
    assert(dependency_blocked(node, ctx));
    reveal_strlit("Skipped due to failed dependencies");
    assert(dependencies_skip_message() == "Skipped due to failed dependencies"@);
}

/// A node without a readable `when` condition, none of whose dependencies has a failed or
/// skipped result, is run: the engine does not skip it.
pub proof fn lemma_unblocked_node_runs(node: NodeConfig, a: NodeAction, ctx: Seq<NodeResult>, env: StringMap)
    requires
        node.when matches Some(w) ==> parsed(w@) is None,
        forall|k: int, j: int|
            0 <= k < node.depends_on@.len() && 0 <= j < ctx.len() && #[trigger] ctx[j].node_id@
                == #[trigger] node.depends_on@[k]@ ==> !(ctx[j].status is Failed || ctx[j].status is Skipped),
        planned(node, a, ctx, env),
    ensures
        !(a is Skip),
{
    assert forall|k: int| 0 <= k < node.depends_on@.len() implies !match #[trigger] last_result_index(ctx, node.depends_on@[k]@) {
        Some(i) => ctx[i].status is Failed || ctx[i].status is Skipped,
        None => false,
    } by {
        crate::engine::expression::lemma_last_result_is_for(ctx, node.depends_on@[k]@);
    }
    assert(!dependency_blocked(node, ctx));
}

fn blocked(node: &NodeConfig, ctx: &[NodeResult]) -> (b: bool)
    ensures
        b == dependency_blocked(*node, ctx@),
{
    let deps = &node.depends_on;
    let mut k: usize = 0;
    while k < deps.len()
        invariant
            deps@ == node.depends_on@,
            k <= deps@.len(),
            forall|kk: int| 0 <= kk < k ==> match #[trigger] last_result_index(ctx@, deps@[kk]@) {
                Some(i) => !(ctx@[i].status is Failed || ctx@[i].status is Skipped),
                None => true,
            },
        decreases deps@.len() - k,
    {
        let id = chars_of(deps[k].as_str());
        match crate::engine::expression::find_result(ctx, id.as_slice()) {
            Some(r) => {
                match r.status {
                    NodeStatus::Failed(_) | NodeStatus::Skipped => {
                        assert(match last_result_index(ctx@, deps@[k as int]@) {
                            Some(i) => ctx@[i].status is Failed || ctx@[i].status is Skipped,
                            None => false,
                        });
                        return true;
                    },
                    _ => {},
                }
            },
            None => {},
        }
        k += 1;
    }
    false
}

fn interpolate_map(engine: &Engine, m: &StringMap, ctx: &[NodeResult], env: &StringMap) -> (r: StringMap)
    ensures
        map_interpolated(r, *m, ctx@, *env),
{
    let entries = m.entries();
    let mut r = StringMap::new();
    let mut i: usize = 0;
    while i < entries.len()
        invariant
            i <= entries@.len(),
            forall|k: Seq<char>| #[trigger] m.value_of(k) == crate::config::lookup_entries(entries@, k),
            forall|k: Seq<char>| #[trigger] r.value_of(k) == match crate::config::lookup_entries(entries@.take(i as int), k) {
                Some(v) => Some(interpolated(v, ctx@, *env)),
                None => None,
            },
        decreases entries@.len() - i,
    {
        let key = entries[i].0.clone();
        let value = engine.interpolate_template(entries[i].1.as_str(), ctx, env);
        proof {
            let e = entries@[i as int];
            assert(entries@.take(i + 1) == entries@.take(i as int).push(e));
            assert forall|k: Seq<char>| true implies crate::config::lookup_entries(entries@.take(i + 1), k) == if e.0@ == k {
                Some(e.1@)
            } else {
                crate::config::lookup_entries(entries@.take(i as int), k)
            } by {
                assert(entries@.take(i + 1).drop_last() == entries@.take(i as int));
            }
        }
        r.insert(key, value);
        i += 1;
    }
    assert(entries@.take(entries@.len() as int) == entries@);
    r
}

fn text(cs: &[char]) -> (s: String)
    ensures
        s@ == cs@,
{
    string_of(cs)
}

impl Engine {
    /// The interpolated copy of a header or environment map.
    pub fn interpolate_headers(&self, headers: &StringMap, context: &[NodeResult], env: &StringMap) -> (r: StringMap)
        ensures
            map_interpolated(r, *headers, context@, *env),
    {
        interpolate_map(self, headers, context, env)
    }

    /// The interpolated copy of a shell environment.
    pub fn interpolate_env(&self, vars: &StringMap, context: &[NodeResult], env: &StringMap) -> (r: StringMap)
        ensures
            map_interpolated(r, *vars, context@, *env),
    {
        interpolate_map(self, vars, context, env)
    }

    /// What to do with `node`, given the results `context` of the nodes run before it.
    pub fn plan_node(&self, node: &NodeConfig, context: &[NodeResult], env: &StringMap) -> (a: NodeAction)
        ensures
            planned(*node, a, context@, *env),
    {
        let condition = match &node.when {
            Some(w) => Expression::parse(w.as_str()),
            None => None,
        };
        match condition {
            Some(e) => {
                proof {
                    let w = node.when->0;
                    assert(parsed(w@) is Some);
                    let (l, op, v) = parsed(w@)->0;
                    assert(holds(e, context@) == condition_holds(l, op, v, context@));
                }
                if !e.evaluate(context) {
                    return NodeAction::Skip {
                        reason: text(&['S', 'k', 'i', 'p', 'p', 'e', 'd', ':', ' ', 'c', 'o', 'n', 'd', 'i', 't', 'i', 'o', 'n', ' ', 'n', 'o', 't', ' ', 'm', 'e', 't']),
                    };
                }
            },
            None => {
                if blocked(node, context) {
                    return NodeAction::Skip {
                        reason: text(&['S', 'k', 'i', 'p', 'p', 'e', 'd', ' ', 'd', 'u', 'e', ' ', 't', 'o', ' ', 'f', 'a', 'i', 'l', 'e', 'd', ' ', 'd', 'e', 'p', 'e', 'n', 'd', 'e', 'n', 'c', 'i', 'e', 's']),
                    };
                }
            },
        }
        match &node.kind {
            NodeKind::Log { message } => NodeAction::Complete {
                status: NodeStatus::Success,
                output: self.interpolate_template(message.as_str(), context, env),
            },
            NodeKind::Shell { cmd, env: vars } => NodeAction::Shell {
                cmd: self.interpolate_template(cmd.as_str(), context, env),
                env: self.interpolate_env(vars, context, env),
            },
            NodeKind::Http { url, method, headers, body, expect_status } => {
                let b = match body {
                    Some(t) => Some(self.interpolate_template(t.as_str(), context, env)),
                    None => None,
                };
                NodeAction::Http {
                    url: self.interpolate_template(url.as_str(), context, env),
                    method: method.clone(),
                    headers: self.interpolate_headers(headers, context, env),
                    body: b,
                    expect_status: *expect_status,
                }
            },
        }
    }
}

/// Some result in `results` failed.
pub open spec fn any_failed(results: Seq<NodeResult>) -> bool {
    exists|k: int| 0 <= k < results.len() && #[trigger] results[k].status is Failed
}

/// A run of a workflow in progress: the nodes are taken in an execution order, one at a time.
pub struct RunProgress {
    workflow: WorkflowConfig,
    run: WorkflowRun,
    order: Vec<usize>,
}

impl RunProgress {
    #[verifier::type_invariant]
    spec fn consistent(self) -> bool {
        &&& is_execution_order(self.workflow.nodes@, self.order@)
        &&& self.run.node_results@.len() <= self.order@.len()
        &&& forall|k: int| 0 <= k < self.run.node_results@.len()
            ==> #[trigger] self.run.node_results@[k].node_id@ == self.workflow.nodes@[self.order@[k] as int].id@
    }

    /// The workflow being run.
    pub closed spec fn nodes(&self) -> Seq<NodeConfig> {
        self.workflow.nodes@
    }

    /// The order the nodes are taken in.
    pub closed spec fn node_order(&self) -> Seq<usize> {
        self.order@
    }

    /// The run record so far.
    pub closed spec fn record(&self) -> WorkflowRun {
        self.run
    }

    /// The run record so far.
    pub fn current_run(&self) -> (r: &WorkflowRun)
        ensures
            *r == self.record(),
    {
        &self.run
    }

    /// The workflow being run.
    pub fn workflow(&self) -> (w: &WorkflowConfig)
        ensures
            w.nodes@ == self.nodes(),
    {
        &self.workflow
    }

    /// The index of the next node to take, if any. Every node it depends on has been taken.
    pub fn next_node(&self) -> (r: Option<usize>)
        ensures
            self.record().node_results@.len() < self.node_order().len() <==> r is Some,
            r matches Some(i) ==> {
                &&& i == self.node_order()[self.record().node_results@.len() as int]
                &&& i < self.nodes().len()
                &&& forall|j: int|
                    0 <= j < self.nodes().len() && #[trigger] depends_on_node(self.nodes(), i as int, j)
                        ==> exists|k: int|
                        0 <= k < self.record().node_results@.len() && #[trigger] self.node_order()[k]
                            == j as usize && self.record().node_results@[k].node_id@ == self.nodes()[j].id@
            },
    {
        proof {
            use_type_invariant(self);
        }
        let done = self.run.node_results.len();
        if done < self.order.len() {
            let i = self.order[done];
            proof {
                assert forall|j: int|
                    0 <= j < self.nodes().len() && #[trigger] depends_on_node(self.nodes(), i as int, j)
                        implies exists|k: int|
                        0 <= k < self.record().node_results@.len() && #[trigger] self.node_order()[k]
                            == j as usize && self.record().node_results@[k].node_id@ == self.nodes()[j].id@ by {
                    assert(depends_on_node(self.workflow.nodes@, self.order@[done as int] as int, j));
                    let p = choose|p: int| 0 <= p < done && #[trigger] self.order@[p] == j as usize;
                    assert(self.run.node_results@[p].node_id@ == self.workflow.nodes@[self.order@[p] as int].id@);
                    assert(self.node_order()[p] == j as usize);
                }
            }
            Some(i)
        } else {
            None
        }
    }

    /// What to do with the next node, if any, given the results so far.
    pub fn plan_next(&self, engine: &Engine, env: &StringMap) -> (r: Option<(usize, NodeAction)>)
        ensures
            self.record().node_results@.len() < self.node_order().len() <==> r is Some,
            r matches Some((i, a)) ==> {
                &&& i == self.node_order()[self.record().node_results@.len() as int]
                &&& planned(self.nodes()[i as int], a, self.record().node_results@, *env)
            },
    {
        match self.next_node() {
            Some(i) => {
                let a = engine.plan_node(&self.workflow.nodes[i], self.run.node_results.as_slice(), env);
                Some((i, a))
            },
            None => None,
        }
    }

    /// Records the outcome of the next node; `false` (and no change) when every node has one.
    pub fn record_outcome(
        &mut self,
        status: NodeStatus,
        output: String,
        response_data: Option<JsonValue>,
        started_at: i64,
        finished_at: i64,
    ) -> (recorded: bool)
        ensures
            recorded == (old(self).record().node_results@.len() < old(self).node_order().len()),
            final(self).nodes() == old(self).nodes(),
            final(self).node_order() == old(self).node_order(),
            final(self).record().id == old(self).record().id,
            final(self).record().workflow_name == old(self).record().workflow_name,
            final(self).record().status == old(self).record().status,
            final(self).record().started_at == old(self).record().started_at,
            final(self).record().finished_at == old(self).record().finished_at,
            recorded ==> {
                let n = old(self).record().node_results@.len();
                let r = final(self).record().node_results@[n as int];
                &&& final(self).record().node_results@.len() == n + 1
                &&& final(self).record().node_results@.subrange(0, n as int) == old(self).record().node_results@
                &&& r.node_id@ == old(self).nodes()[old(self).node_order()[n as int] as int].id@
                &&& r.status == status
                &&& r.output == output
                &&& r.response_data == response_data
                &&& r.started_at == started_at
                &&& r.finished_at == Some(finished_at)
            },
            !recorded ==> final(self).record().node_results == old(self).record().node_results,
    {
        proof {
            use_type_invariant(&*self);
        }
        let done = self.run.node_results.len();
        if done >= self.order.len() {
            return false;
        }
        let node_id = self.workflow.nodes[self.order[done]].id.clone();
        let result = NodeResult {
            node_id,
            status,
            output,
            response_data,
            started_at,
            finished_at: Some(finished_at),
        };
        let ghost old_results = self.run.node_results@;
        let mut results: Vec<NodeResult> = Vec::new();
        std::mem::swap(&mut results, &mut self.run.node_results);
        results.push(result);
        proof {
            assert(results@.subrange(0, done as int) == old_results);
            assert(results@[done as int].node_id@ == self.workflow.nodes@[self.order@[done as int] as int].id@);
        }
        std::mem::swap(&mut results, &mut self.run.node_results);
        true
    }

    /// Closes the run at `finished_at`: it failed when some node failed, else it succeeded.
    pub fn finish(self, finished_at: i64) -> (run: WorkflowRun)
        ensures
            run.status == (if any_failed(self.record().node_results@) {
                RunStatus::Failed
            } else {
                RunStatus::Success
            }),
            run.finished_at == Some(finished_at),
            run.id == self.record().id,
            run.workflow_name == self.record().workflow_name,
            run.started_at == self.record().started_at,
            run.node_results == self.record().node_results,
    {
        let RunProgress { workflow: _, run, order: _ } = self;
        let mut run = run;
        let failed = final_status(run.node_results.as_slice());
        run.status = failed;
        run.finished_at = Some(finished_at);
        run
    }
}

/// `Failed` when some result failed, else `Success`.
pub fn final_status(results: &[NodeResult]) -> (s: RunStatus)
    ensures
        s == (if any_failed(results@) {
            RunStatus::Failed
        } else {
            RunStatus::Success
        }),
{
    let mut i: usize = 0;
    while i < results.len()
        invariant
            i <= results@.len(),
            forall|k: int| 0 <= k < i ==> !(#[trigger] results@[k].status is Failed),
        decreases results@.len() - i,
    {
        if results[i].status.is_failed() {
            return RunStatus::Failed;
        }
        i += 1;
    }
    RunStatus::Success
}

impl Engine {
    /// Starts a run of `workflow`: its nodes are taken in an execution order, none yet done.
    /// An error when the dependencies form a cycle.
    pub fn begin_run(&self, workflow: WorkflowConfig) -> (r: Result<RunProgress, EngineError>)
        ensures
            r is Ok <==> has_execution_order(workflow.nodes@),
            match r {
                Ok(p) => {
                    &&& p.nodes() == workflow.nodes@
                    &&& is_execution_order(p.nodes(), p.node_order())
                    &&& takes_first_ready(p.nodes(), p.node_order())
                    &&& p.record().workflow_name@ == workflow.name@
                    &&& p.record().status == RunStatus::Running
                    &&& p.record().finished_at is None
                    &&& p.record().node_results@.len() == 0
                },
                Err(e) => e == EngineError::CircularDependency,
            },
    {
        match execution_order(workflow.nodes.as_slice()) {
            None => Err(EngineError::CircularDependency),
            Some(order) => {
                let run = WorkflowRun::new(workflow.name.as_str());
                Ok(RunProgress { workflow, run, order })
            },
        }
    }
}

} // verus!

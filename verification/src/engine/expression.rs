//! `when` conditions: `<step> == <word>` or `<step> != <word>`, compared with a step's status.
use vstd::prelude::*;
use crate::engine::{status_word, NodeResult, NodeStatus};
use crate::text::{
    ascii_lower_code, chars_equal, chars_of, eq_ignore_ascii_case, equals_ignore_ascii_case, split_chars, split_on,
    split_whitespace, words,
};

verus! {

/// A comparison operator.
#[derive(Debug, Clone, Copy, PartialEq, Eq, Structural)]
pub enum Operator {
    Equals,
    NotEquals,
}

/// One side of a comparison.
#[derive(Debug, Clone, PartialEq, Eq)]
pub enum Term {
    /// A reference to a step, such as `build` or `steps.build`.
    Variable(String),
    /// A literal word, such as `success`.
    Value(String),
}

/// A condition.
#[derive(Debug, Clone, PartialEq, Eq)]
pub struct Expression {
    pub left: Term,
    pub op: Operator,
    pub right: Term,
}

/// `==`
pub open spec fn equals_token() -> Seq<char> {
    seq!['=', '=']
}

/// `!=`
pub open spec fn not_equals_token() -> Seq<char> {
    seq!['!', '=']
}

/// `steps`
pub open spec fn steps_word() -> Seq<char> {
    seq!['s', 't', 'e', 'p', 's']
}

/// The expression that the text `s` denotes: exactly three whitespace-separated words,
/// the middle one `==` or `!=`; the first names a step, the last is a literal.
pub open spec fn parsed(s: Seq<char>) -> Option<(Seq<char>, Operator, Seq<char>)> {
    let w = words(s);
    if w.len() != 3 {
        None
    } else if w[1] == equals_token() {
        Some((w[0], Operator::Equals, w[2]))
    } else if w[1] == not_equals_token() {
        Some((w[0], Operator::NotEquals, w[2]))
    } else {
        None
    }
}

/// `e` compares the step named `l` by `op` with the literal `v`.
pub open spec fn denotes(e: Expression, l: Seq<char>, op: Operator, v: Seq<char>) -> bool {
    match (e.left, e.right) {
        (Term::Variable(x), Term::Value(y)) => x@ == l && e.op == op && y@ == v,
        _ => false,
    }
}

/// The step that a variable names: `steps.<id>` names `<id>`; otherwise the text before
/// the first `.` is the step id.
pub open spec fn variable_step(var: Seq<char>) -> Seq<char> {
    let parts = split_on(var, '.');
    if parts.len() == 2 && parts[0] == steps_word() {
        parts[1]
    } else {
        parts[0]
    }
}

/// The index of the last result for node `id`, if any.
pub open spec fn last_result_index(ctx: Seq<NodeResult>, id: Seq<char>) -> Option<int>
    decreases ctx.len(),
{
    if ctx.len() == 0 {
        None
    } else if ctx.last().node_id@ == id {
        Some(ctx.len() - 1)
    } else {
        last_result_index(ctx.drop_last(), id)
    }
}

/// When `ctx[i]` is a result for node `id` and no later result is, it is the last one.
pub proof fn lemma_last_result_at(ctx: Seq<NodeResult>, id: Seq<char>, i: int)
    requires
        0 <= i < ctx.len(),
        ctx[i].node_id@ == id,
        forall|j: int| i < j < ctx.len() ==> #[trigger] ctx[j].node_id@ != id,
    ensures
        last_result_index(ctx, id) == Some(i),
    decreases ctx.len(),
{
    if i < ctx.len() - 1 {
        assert(ctx.last().node_id@ != id);
        assert forall|j: int| i < j < ctx.drop_last().len() implies #[trigger] ctx.drop_last()[j].node_id@ != id by {
            assert(ctx.drop_last()[j] == ctx[j]);
        }
        lemma_last_result_at(ctx.drop_last(), id, i);
    }
}

/// The last result for a node is a result for that node.
pub proof fn lemma_last_result_is_for(ctx: Seq<NodeResult>, id: Seq<char>)
    ensures
        last_result_index(ctx, id) matches Some(i) ==> 0 <= i < ctx.len() && ctx[i].node_id@ == id,
    decreases ctx.len(),
{
    if ctx.len() > 0 && ctx.last().node_id@ != id {
        lemma_last_result_is_for(ctx.drop_last(), id);
    }
}

/// The value a term stands for in `ctx`: a step's status word, or the literal.
pub open spec fn term_value(t: Term, ctx: Seq<NodeResult>, is_left: bool) -> Option<Seq<char>> {
    match t {
        Term::Variable(v) => if is_left {
            match last_result_index(ctx, variable_step(v@)) {
                Some(i) => Some(status_word(ctx[i].status)),
                None => None,
            }
        } else {
            None
        },
        Term::Value(v) => Some(v@),
    }
}

/// Whether the condition holds in `ctx`. Words compare without regard to ASCII case;
/// a condition that names a step with no result is false.
pub open spec fn holds(e: Expression, ctx: Seq<NodeResult>) -> bool {
    match (term_value(e.left, ctx, true), term_value(e.right, ctx, false)) {
        (Some(l), Some(r)) => match e.op {
            Operator::Equals => eq_ignore_ascii_case(l, r),
            Operator::NotEquals => !eq_ignore_ascii_case(l, r),
        },
        _ => false,
    }
}

/// A condition `<step> == <word>` compares the step's last status as the word `success`,
/// `failed`, `skipped`, `running` or `pending` (case aside): it holds exactly when `<word>`
/// is that word. So a skipped step never passes `== success`, and passes `== skipped`.
pub proof fn lemma_condition_reads_status(e: Expression, x: String, v: String, ctx: Seq<NodeResult>, i: int)
    requires
        e.left == Term::Variable(x),
        e.right == Term::Value(v),
        e.op == Operator::Equals,
        0 <= i < ctx.len(),
        ctx[i].node_id@ == variable_step(x@),
        forall|j: int| i < j < ctx.len() ==> #[trigger] ctx[j].node_id@ != variable_step(x@),
    ensures
        ctx[i].status is Success ==> (holds(e, ctx) <==> eq_ignore_ascii_case(v@, "success"@)),
        ctx[i].status is Failed ==> (holds(e, ctx) <==> eq_ignore_ascii_case(v@, "failed"@)),
        ctx[i].status is Skipped ==> (holds(e, ctx) <==> eq_ignore_ascii_case(v@, "skipped"@)),
        ctx[i].status is Running ==> (holds(e, ctx) <==> eq_ignore_ascii_case(v@, "running"@)),
        ctx[i].status is Pending ==> (holds(e, ctx) <==> eq_ignore_ascii_case(v@, "pending"@)),
{
    lemma_last_result_at(ctx, variable_step(x@), i);
    reveal_strlit("success");
    reveal_strlit("failed");
    reveal_strlit("skipped");
    reveal_strlit("running");
    reveal_strlit("pending");
    let w = crate::engine::status_word(ctx[i].status);
    assert(holds(e, ctx) == eq_ignore_ascii_case(w, v@));
    lemma_eq_ignore_case_symmetric(w, v@);
}

/// For a step that has a result, `<step> != <word>` holds exactly when `<step> == <word>`
/// does not; for a step with no result neither holds.
pub proof fn lemma_not_equals_negates(x: String, v: String, ctx: Seq<NodeResult>)
    ensures
        ({
            let eq = Expression { left: Term::Variable(x), op: Operator::Equals, right: Term::Value(v) };
            let ne = Expression { left: Term::Variable(x), op: Operator::NotEquals, right: Term::Value(v) };
            &&& (exists|i: int| 0 <= i < ctx.len() && #[trigger] ctx[i].node_id@ == variable_step(x@))
                ==> (holds(ne, ctx) <==> !holds(eq, ctx))
            &&& (forall|i: int| 0 <= i < ctx.len() ==> #[trigger] ctx[i].node_id@ != variable_step(x@))
                ==> !holds(ne, ctx) && !holds(eq, ctx)
        }),
{
    let id = variable_step(x@);
    if exists|i: int| 0 <= i < ctx.len() && #[trigger] ctx[i].node_id@ == id {
        let i = choose|i: int| 0 <= i < ctx.len() && #[trigger] ctx[i].node_id@ == id;
        lemma_some_result_found(ctx, id, i);
    } else {
        lemma_last_result_is_for(ctx, id);
    }
}

proof fn lemma_some_result_found(ctx: Seq<NodeResult>, id: Seq<char>, i: int)
    requires
        0 <= i < ctx.len(),
        ctx[i].node_id@ == id,
    ensures
        last_result_index(ctx, id) is Some,
    decreases ctx.len(),
{
    if ctx.last().node_id@ != id {
        assert(i < ctx.len() - 1);
        assert(ctx.drop_last()[i] == ctx[i]);
        lemma_some_result_found(ctx.drop_last(), id, i);
    }
}

proof fn lemma_eq_ignore_case_symmetric(a: Seq<char>, b: Seq<char>)
    ensures
        eq_ignore_ascii_case(a, b) == eq_ignore_ascii_case(b, a),
{
}

proof fn lemma_eq_ignore_case_transitive(a: Seq<char>, b: Seq<char>, c: Seq<char>)
    requires
        eq_ignore_ascii_case(a, b),
        eq_ignore_ascii_case(b, c),
    ensures
        eq_ignore_ascii_case(a, c),
{
}

/// Steps whose last statuses are of different kinds never both pass the same condition
/// `<step> == <word>`: the condition tells a success from a failure, a skip, a running and
/// a pending step.
pub proof fn lemma_condition_tells_statuses_apart(
    e: Expression,
    x: String,
    v: String,
    ctx1: Seq<NodeResult>,
    i1: int,
    ctx2: Seq<NodeResult>,
    i2: int,
)
    requires
        e.left == Term::Variable(x),
        e.right == Term::Value(v),
        e.op == Operator::Equals,
        0 <= i1 < ctx1.len(),
        ctx1[i1].node_id@ == variable_step(x@),
        forall|j: int| i1 < j < ctx1.len() ==> #[trigger] ctx1[j].node_id@ != variable_step(x@),
        0 <= i2 < ctx2.len(),
        ctx2[i2].node_id@ == variable_step(x@),
        forall|j: int| i2 < j < ctx2.len() ==> #[trigger] ctx2[j].node_id@ != variable_step(x@),
        holds(e, ctx1),
        holds(e, ctx2),
    ensures
        ctx1[i1].status is Success <==> ctx2[i2].status is Success,
        ctx1[i1].status is Failed <==> ctx2[i2].status is Failed,
        ctx1[i1].status is Skipped <==> ctx2[i2].status is Skipped,
        ctx1[i1].status is Running <==> ctx2[i2].status is Running,
        ctx1[i1].status is Pending <==> ctx2[i2].status is Pending,
{
    lemma_condition_reads_status(e, x, v, ctx1, i1);
    lemma_condition_reads_status(e, x, v, ctx2, i2);
    reveal_strlit("success");
    reveal_strlit("failed");
    reveal_strlit("skipped");
    reveal_strlit("running");
    reveal_strlit("pending");
    let w1: Seq<char> = match ctx1[i1].status {
        NodeStatus::Success => "success"@,
        NodeStatus::Failed(_) => "failed"@,
        NodeStatus::Skipped => "skipped"@,
        NodeStatus::Running => "running"@,
        NodeStatus::Pending => "pending"@,
    };
    let w2: Seq<char> = match ctx2[i2].status {
        NodeStatus::Success => "success"@,
        NodeStatus::Failed(_) => "failed"@,
        NodeStatus::Skipped => "skipped"@,
        NodeStatus::Running => "running"@,
        NodeStatus::Pending => "pending"@,
    };
    assert(eq_ignore_ascii_case(v@, w1));
    assert(eq_ignore_ascii_case(v@, w2));
    lemma_eq_ignore_case_symmetric(v@, w1);
    lemma_eq_ignore_case_transitive(w1, v@, w2);
    assert(eq_ignore_ascii_case(w1, w2));
    // Different words differ in length or in their second letter.
    assert(w1.len() == w2.len());
    assert(ascii_lower_code(w1[1]) == ascii_lower_code(w2[1]));
    assert(ascii_lower_code(w1[0]) == ascii_lower_code(w2[0]));
}

/// The last result for node `id` in `ctx`.
pub fn find_result<'a>(ctx: &'a [NodeResult], id: &[char]) -> (r: Option<&'a NodeResult>)
    ensures
        match last_result_index(ctx@, id@) {
            Some(i) => r == Some(&ctx@[i]),
            None => r is None,
        },
{
    let mut i: usize = ctx.len();
    assert(ctx@.take(i as int) == ctx@);
    while i > 0
        invariant
            i <= ctx@.len(),
            last_result_index(ctx@, id@) == last_result_index(ctx@.take(i as int), id@),
        decreases i,
    {
        let ghost pre = ctx@.take(i as int);
        let node_id = chars_of(ctx[i - 1].node_id.as_str());
        if chars_equal(node_id.as_slice(), id) {
            assert(pre.last() == ctx@[i - 1]);
            return Some(&ctx[i - 1]);
        }
        assert(pre.drop_last() == ctx@.take(i - 1));
        i -= 1;
    }
    None
}

impl Expression {
    /// Reads a condition such as `build == success`.
    pub fn parse(input: &str) -> (r: Option<Self>)
        ensures
            match parsed(input@) {
                Some((l, op, v)) => r is Some && denotes(r->0, l, op, v),
                None => r is None,
            },
    {
        let mut parts = split_whitespace(input);
        if parts.len() != 3 {
            return None;
        }
        let mid = chars_of(parts[1].as_str());
        let op = if chars_equal(mid.as_slice(), &['=', '=']) {
            Operator::Equals
        } else if chars_equal(mid.as_slice(), &['!', '=']) {
            Operator::NotEquals
        } else {
            return None;
        };
        let right = parts.pop().unwrap();
        let _ = parts.pop();
        let left = parts.pop().unwrap();
        Some(Expression { left: Term::Variable(left), op, right: Term::Value(right) })
    }

    /// Whether the condition holds, given the results of the steps run so far.
    pub fn evaluate(&self, context: &[NodeResult]) -> (b: bool)
        ensures
            b == holds(*self, context@),
    {
        let left: Option<String> = match &self.left {
            Term::Variable(var) => {
                let cs = chars_of(var.as_str());
                let parts = split_chars(cs.as_slice(), '.');
                let step: &Vec<char> = if parts.len() == 2 && chars_equal(parts[0].as_slice(), &['s', 't', 'e', 'p', 's']) {
                    &parts[1]
                } else {
                    proof {
                        assert(split_on(cs@, '.').len() > 0) by {
                            crate::text::lemma_split_nonempty(cs@, '.');
                        }
                    }
                    &parts[0]
                };
                match find_result(context, step.as_slice()) {
                    Some(result) => Some(result.status.word()),
                    None => None,
                }
            },
            Term::Value(v) => Some(v.clone()),
        };
        let right: Option<String> = match &self.right {
            Term::Variable(_) => None,
            Term::Value(v) => Some(v.clone()),
        };
        match (left, right) {
            (Some(l), Some(r)) => {
                let lc = chars_of(l.as_str());
                let rc = chars_of(r.as_str());
                let same = equals_ignore_ascii_case(lc.as_slice(), rc.as_slice());
                match self.op {
                    Operator::Equals => same,
                    Operator::NotEquals => !same,
                }
            },
            _ => false,
        }
    }
}

} // verus!

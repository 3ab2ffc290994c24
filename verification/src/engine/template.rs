//! Templates: `${...}` placeholders filled from earlier steps' results and the environment.
use vstd::prelude::*;
use crate::config::StringMap;
use crate::engine::expression::{find_result, last_result_index, steps_word};
use crate::engine::{status_name, Engine, NodeResult};
use crate::json::{nested, nested_value, text_of_value, value_text, JsonValue};
use crate::text::{chars_equal, chars_of, split_chars, split_on, string_of};

verus! {

/// `output`
pub open spec fn output_word() -> Seq<char> {
    seq!['o', 'u', 't', 'p', 'u', 't']
}

/// `status`
pub open spec fn status_field() -> Seq<char> {
    seq!['s', 't', 'a', 't', 'u', 's']
}

/// `response`
pub open spec fn response_word() -> Seq<char> {
    seq!['r', 'e', 's', 'p', 'o', 'n', 's', 'e']
}

/// What the placeholder name `name` stands for, if anything:
/// `steps.<id>.output` is the step's output, `steps.<id>.status` its status name,
/// `steps.<id>.response.<path>` the text of the value at `<path>` in its JSON response;
/// any other name not starting with `steps` is an environment variable.
pub open spec fn resolve(name: Seq<char>, ctx: Seq<NodeResult>, env: StringMap) -> Option<Seq<char>> {
    let parts = split_on(name, '.');
    if parts[0] == steps_word() {
        if parts.len() >= 3 {
            match last_result_index(ctx, parts[1]) {
                Some(i) => {
                    let r = ctx[i];
                    if parts[2] == output_word() && parts.len() == 3 {
                        Some(r.output@)
                    } else if parts[2] == status_field() && parts.len() == 3 {
                        Some(status_name(r.status))
                    } else if parts[2] == response_word() {
                        match r.response_data {
                            Some(d) => match nested(d, parts.skip(3)) {
                                Some(x) => Some(text_of_value(x)),
                                None => None,
                            },
                            None => None,
                        }
                    } else {
                        None
                    }
                },
                None => None,
            }
        } else {
            None
        }
    } else {
        env.value_of(name)
    }
}

/// The placeholder `${name}` replaced by what it stands for, or kept as written.
pub open spec fn substitute(name: Seq<char>, ctx: Seq<NodeResult>, env: StringMap) -> Seq<char> {
    match resolve(name, ctx, env) {
        Some(v) => v,
        None => seq!['$', '{'] + name + seq!['}'],
    }
}

/// The index of the first `}` in `t` at or after `k`.
pub open spec fn brace_from(t: Seq<char>, k: int) -> Option<int>
    decreases t.len() - k,
{
    if k < 0 || k >= t.len() {
        None
    } else if t[k] == '}' {
        Some(k)
    } else {
        brace_from(t, k + 1)
    }
}

pub proof fn lemma_brace_from(t: Seq<char>, k: int)
    requires
        0 <= k,
    ensures
        brace_from(t, k) matches Some(q) ==> k <= q < t.len() && t[q] == '}',
    decreases t.len() - k,
{
    if k < t.len() && t[k] != '}' {
        lemma_brace_from(t, k + 1);
    }
}

/// `t` with every `${name}` that has a closing brace replaced (once; replacements are not
/// read again). A `${` with no `}` after it leaves the rest of `t` as written.
#[verifier::opaque]
pub open spec fn interpolated(t: Seq<char>, ctx: Seq<NodeResult>, env: StringMap) -> Seq<char>
    decreases t.len(),
{
    if t.len() == 0 {
        seq![]
    } else if t.len() >= 2 && t[0] == '$' && t[1] == '{' {
        match brace_from(t, 2) {
            Some(q) => {
                proof {
                    lemma_brace_from(t, 2);
                }
                substitute(t.subrange(2, q), ctx, env) + interpolated(t.skip(q + 1), ctx, env)
            },
            None => t,
        }
    } else {
        seq![t[0]] + interpolated(t.drop_first(), ctx, env)
    }
}

proof fn lemma_plain(t: Seq<char>, i: int, ctx: Seq<NodeResult>, env: StringMap)
    requires
        0 <= i < t.len(),
        !(i + 1 < t.len() && t[i] == '$' && t[i + 1] == '{'),
    ensures
        interpolated(t.skip(i), ctx, env) == seq![t[i]] + interpolated(t.skip(i + 1), ctx, env),
{
    reveal(interpolated);
    let rest = t.skip(i);
    assert(rest[0] == t[i]);
    if i + 1 < t.len() {
        assert(rest[1] == t[i + 1]);
    }
    assert(rest.drop_first() == t.skip(i + 1));
}

proof fn lemma_brace_scan(rest: Seq<char>, k: int, j: int)
    requires
        2 <= k <= j <= rest.len(),
        forall|m: int| k <= m < j ==> rest[m] != '}',
    ensures
        brace_from(rest, k) == brace_from(rest, j),
    decreases j - k,
{
    if k < j {
        lemma_brace_scan(rest, k + 1, j);
    }
}

proof fn lemma_unclosed(t: Seq<char>, i: int, ctx: Seq<NodeResult>, env: StringMap)
    requires
        0 <= i,
        i + 1 < t.len(),
        t[i] == '$',
        t[i + 1] == '{',
        forall|k: int| i + 2 <= k < t.len() ==> t[k] != '}',
    ensures
        interpolated(t.skip(i), ctx, env) == t.subrange(i, t.len() as int),
{
    reveal(interpolated);
    let rest = t.skip(i);
    assert(rest[0] == t[i] && rest[1] == t[i + 1]);
    assert forall|m: int| 2 <= m < rest.len() implies rest[m] != '}' by {
        assert(rest[m] == t[i + m]);
    }
    lemma_brace_scan(rest, 2, rest.len() as int);
    assert(rest == t.subrange(i, t.len() as int));
}

proof fn lemma_placeholder(t: Seq<char>, i: int, j: int, ctx: Seq<NodeResult>, env: StringMap)
    requires
        0 <= i,
        i + 2 <= j < t.len(),
        t[i] == '$',
        t[i + 1] == '{',
        t[j] == '}',
        forall|k: int| i + 2 <= k < j ==> t[k] != '}',
    ensures
        interpolated(t.skip(i), ctx, env) == substitute(t.subrange(i + 2, j), ctx, env)
            + interpolated(t.skip(j + 1), ctx, env),
{
    reveal(interpolated);
    let rest = t.skip(i);
    assert(rest[0] == t[i] && rest[1] == t[i + 1]);
    assert forall|m: int| 2 <= m < j - i implies rest[m] != '}' by {
        assert(rest[m] == t[i + m]);
    }
    lemma_brace_scan(rest, 2, j - i);
    assert(rest[j - i] == t[j]);
    assert(brace_from(rest, j - i) == Some(j - i));
    assert(rest.subrange(2, j - i) == t.subrange(i + 2, j));
    assert(rest.skip(j - i + 1) == t.skip(j + 1));
}

proof fn lemma_plain_suffix(t: Seq<char>, i: int, ctx: Seq<NodeResult>, env: StringMap)
    requires
        0 <= i <= t.len(),
        forall|k: int| 0 <= k < t.len() - 1 ==> !(#[trigger] t[k] == '$' && t[k + 1] == '{'),
    ensures
        interpolated(t.skip(i), ctx, env) == t.skip(i),
    decreases t.len() - i,
{
    if i == t.len() {
        assert(t.skip(i).len() == 0);
        reveal(interpolated);
    } else {
        lemma_plain(t, i, ctx, env);
        lemma_plain_suffix(t, i + 1, ctx, env);
        assert(seq![t[i]] + t.skip(i + 1) == t.skip(i));
    }
}

/// A text with no `${` in it comes out of interpolation unchanged.
pub proof fn lemma_plain_text_unchanged(t: Seq<char>, ctx: Seq<NodeResult>, env: StringMap)
    requires
        forall|k: int| 0 <= k < t.len() - 1 ==> !(#[trigger] t[k] == '$' && t[k + 1] == '{'),
    ensures
        interpolated(t, ctx, env) == t,
{
    lemma_plain_suffix(t, 0, ctx, env);
    assert(t.skip(0) == t);
}

/// A template that is a single placeholder `${name}` becomes what `name` stands for (a step's
/// output, status or response field, or an environment variable), and stays exactly as
/// written when `name` stands for nothing.
pub proof fn lemma_single_placeholder(name: Seq<char>, ctx: Seq<NodeResult>, env: StringMap)
    requires
        forall|k: int| 0 <= k < name.len() ==> #[trigger] name[k] != '}',
    ensures
        interpolated(seq!['$', '{'] + name + seq!['}'], ctx, env) == match resolve(name, ctx, env) {
            Some(v) => v,
            None => seq!['$', '{'] + name + seq!['}'],
        },
{
    let t = seq!['$', '{'] + name + seq!['}'];
    let j = t.len() - 1;
    assert forall|k: int| 2 <= k < j implies t[k] != '}' by {
        assert(t[k] == name[k - 2]);
    }
    lemma_placeholder(t, 0, j, ctx, env);
    assert(t.skip(0) == t);
    assert(t.subrange(2, j) == name);
    assert(t.skip(j + 1).len() == 0);
    assert(interpolated(t.skip(j + 1), ctx, env) == Seq::<char>::empty()) by {
        reveal(interpolated);
    }
}

proof fn lemma_step_field_name(id: Seq<char>, field: Seq<char>)
    requires
        forall|k: int| 0 <= k < id.len() ==> #[trigger] id[k] != '.' && id[k] != '}',
        forall|k: int| 0 <= k < field.len() ==> #[trigger] field[k] != '.' && field[k] != '}',
    ensures
        forall|k: int| 0 <= k < (steps_word() + seq!['.'] + id + seq!['.'] + field).len()
            ==> #[trigger] (steps_word() + seq!['.'] + id + seq!['.'] + field)[k] != '}',
        crate::text::split_on(steps_word() + seq!['.'] + id + seq!['.'] + field, '.') == seq![steps_word(), id, field],
{
    let name = steps_word() + seq!['.'] + id + seq!['.'] + field;
    let n = id.len() as int;
    assert forall|k: int| 0 <= k < name.len() implies #[trigger] name[k] != '}' by {
        if 6 <= k < 6 + n {
            assert(name[k] == id[k - 6]);
        } else if k >= 7 + n {
            assert(name[k] == field[k - 7 - n]);
        }
    }
    assert forall|k: int| 0 <= k < 5 implies name[k] != '.' by {}
    crate::text::lemma_split_at_separator(name, 0, 5, '.');
    assert forall|k: int| 6 <= k < 6 + n implies name[k] != '.' by {
        assert(name[k] == id[k - 6]);
    }
    crate::text::lemma_split_at_separator(name, 6, 6 + n, '.');
    assert forall|k: int| 7 + n <= k < name.len() implies name[k] != '.' by {
        assert(name[k] == field[k - 7 - n]);
    }
    crate::text::lemma_split_no_separator(name, 7 + n, '.');
    assert(name.skip(0) == name);
    assert(name.subrange(0, 5) == steps_word());
    assert(name.subrange(6, 6 + n) == id);
    assert(name.subrange(7 + n, name.len() as int) == field);
}

/// `${steps.<id>.output}` becomes the output of the last result of step `<id>`, as it is.
pub proof fn lemma_output_placeholder(id: Seq<char>, ctx: Seq<NodeResult>, env: StringMap, i: int)
    requires
        forall|k: int| 0 <= k < id.len() ==> #[trigger] id[k] != '.' && id[k] != '}',
        0 <= i < ctx.len(),
        ctx[i].node_id@ == id,
        forall|j: int| i < j < ctx.len() ==> #[trigger] ctx[j].node_id@ != id,
    ensures
        interpolated("${steps."@ + id + ".output}"@, ctx, env) == ctx[i].output@,
{
    reveal_strlit("${steps.");
    reveal_strlit(".output}");
    let name = steps_word() + seq!['.'] + id + seq!['.'] + output_word();
    assert("${steps."@ + id + ".output}"@ == seq!['$', '{'] + name + seq!['}']);
    lemma_step_field_name(id, output_word());
    lemma_single_placeholder(name, ctx, env);
    crate::engine::expression::lemma_last_result_at(ctx, id, i);
}

/// `${<name>}`, for a name with no `.` other than `steps`, becomes the value of the
/// environment variable `<name>`, and stays as written when there is no such variable.
pub proof fn lemma_env_placeholder(name: Seq<char>, ctx: Seq<NodeResult>, env: StringMap)
    requires
        forall|k: int| 0 <= k < name.len() ==> #[trigger] name[k] != '.' && name[k] != '}',
        name != "steps"@,
    ensures
        env.value_of(name) matches Some(v) ==> interpolated("${"@ + name + "}"@, ctx, env) == v,
        env.value_of(name) is None ==> interpolated("${"@ + name + "}"@, ctx, env) == "${"@ + name + "}"@,
{
    reveal_strlit("${");
    reveal_strlit("}");
    reveal_strlit("steps");
    assert("${"@ + name + "}"@ == seq!['$', '{'] + name + seq!['}']);
    lemma_single_placeholder(name, ctx, env);
    crate::text::lemma_split_no_separator(name, 0, '.');
    assert(name.skip(0) == name);
    assert(name.subrange(0, name.len() as int) == name);
    assert(crate::text::split_on(name, '.') == seq![name]);
    assert(steps_word() == "steps"@);
}

/// `${steps.<id>.status}` becomes the name of the last status of step `<id>`: `Success`,
/// `Failed`, `Skipped`, `Running` or `Pending`, each its own.
pub proof fn lemma_status_placeholder(id: Seq<char>, ctx: Seq<NodeResult>, env: StringMap, i: int)
    requires
        forall|k: int| 0 <= k < id.len() ==> #[trigger] id[k] != '.' && id[k] != '}',
        0 <= i < ctx.len(),
        ctx[i].node_id@ == id,
        forall|j: int| i < j < ctx.len() ==> #[trigger] ctx[j].node_id@ != id,
    ensures
        ctx[i].status is Success ==> interpolated("${steps."@ + id + ".status}"@, ctx, env) == "Success"@,
        ctx[i].status is Failed ==> interpolated("${steps."@ + id + ".status}"@, ctx, env) == "Failed"@,
        ctx[i].status is Skipped ==> interpolated("${steps."@ + id + ".status}"@, ctx, env) == "Skipped"@,
        ctx[i].status is Running ==> interpolated("${steps."@ + id + ".status}"@, ctx, env) == "Running"@,
        ctx[i].status is Pending ==> interpolated("${steps."@ + id + ".status}"@, ctx, env) == "Pending"@,
{
    reveal_strlit("${steps.");
    reveal_strlit(".status}");
    reveal_strlit("Success");
    reveal_strlit("Failed");
    reveal_strlit("Skipped");
    reveal_strlit("Running");
    reveal_strlit("Pending");
    let name = steps_word() + seq!['.'] + id + seq!['.'] + status_field();
    let n = id.len() as int;
    assert("${steps."@ + id + ".status}"@ == seq!['$', '{'] + name + seq!['}']);
    assert forall|k: int| 0 <= k < name.len() implies #[trigger] name[k] != '}' by {
        if 6 <= k < 6 + n {
            assert(name[k] == id[k - 6]);
        }
    }
    lemma_single_placeholder(name, ctx, env);
    // The name splits at its two dots into `steps`, the id and `status`.
    assert forall|k: int| 0 <= k < 5 implies name[k] != '.' by {}
    crate::text::lemma_split_at_separator(name, 0, 5, '.');
    assert forall|k: int| 6 <= k < 6 + n implies name[k] != '.' by {
        assert(name[k] == id[k - 6]);
    }
    crate::text::lemma_split_at_separator(name, 6, 6 + n, '.');
    crate::text::lemma_split_no_separator(name, 7 + n, '.');
    assert(name.skip(0) == name);
    assert(name.subrange(0, 5) == steps_word());
    assert(name.subrange(6, 6 + n) == id);
    assert(name.subrange(7 + n, name.len() as int) == status_field());
    let parts = crate::text::split_on(name, '.');
    assert(parts == seq![steps_word(), id, status_field()]);
    crate::engine::expression::lemma_last_result_at(ctx, id, i);
}

fn push_chars(out: &mut String, cs: &[char])
    ensures
        final(out)@ == old(out)@ + cs@,
{
    let mut i: usize = 0;
    while i < cs.len()
        invariant
            i <= cs@.len(),
            out@ == old(out)@ + cs@.take(i as int),
        decreases cs@.len() - i,
    {
        out.push(cs[i]);
        i += 1;
        assert(cs@.take(i as int) == cs@.take(i - 1).push(cs@[i - 1]));
    }
    assert(cs@.take(cs@.len() as int) == cs@);
}

fn is_word(cs: &[char], w: &[char]) -> (b: bool)
    ensures
        b == (cs@ == w@),
{
    chars_equal(cs, w)
}

/// What the placeholder `name` stands for.
fn resolve_name(name: &[char], ctx: &[NodeResult], env: &StringMap) -> (r: Option<String>)
    ensures
        match resolve(name@, ctx@, *env) {
            Some(v) => r is Some && r->0@ == v,
            None => r is None,
        },
{
    let parts = split_chars(name, '.');
    proof {
        crate::text::lemma_split_nonempty(name@, '.');
    }
    if is_word(parts[0].as_slice(), &['s', 't', 'e', 'p', 's']) {
        if parts.len() < 3 {
            return None;
        }
        match find_result(ctx, parts[1].as_slice()) {
            Some(r) => {
                let field = parts[2].as_slice();
                if is_word(field, &['o', 'u', 't', 'p', 'u', 't']) && parts.len() == 3 {
                    Some(r.output.clone())
                } else if is_word(field, &['s', 't', 'a', 't', 'u', 's']) && parts.len() == 3 {
                    Some(r.status.name())
                } else if is_word(field, &['r', 'e', 's', 'p', 'o', 'n', 's', 'e']) {
                    match &r.response_data {
                        Some(d) => {
                            let path = &parts.as_slice()[3..parts.len()];
                            proof {
                                assert(path@.map_values(|q: Vec<char>| q@) == split_on(name@, '.').skip(3));
                            }
                            match nested_value(d, path) {
                                Some(x) => Some(value_text(x)),
                                None => None,
                            }
                        },
                        None => None,
                    }
                } else {
                    None
                }
            },
            None => None,
        }
    } else {
        let key = string_of(name);
        match env.get(key.as_str()) {
            Some(v) => Some(v.clone()),
            None => None,
        }
    }
}

impl Engine {
    /// `template` with each `${...}` placeholder filled: `${steps.<id>.output}`,
    /// `${steps.<id>.status}`, `${steps.<id>.response.<path>}` from the results in `context`,
    /// any other `${NAME}` from `env`. A placeholder that names nothing stays as written.
    pub fn interpolate_template(&self, template: &str, context: &[NodeResult], env: &StringMap) -> (s: String)
        ensures
            s@ == interpolated(template@, context@, *env),
    {
        let t = chars_of(template);
        let n = t.len();
        let mut out = String::new();
        let mut i: usize = 0;
        assert(t@.skip(0) == t@);
        while i < n
            invariant
                n == t@.len(),
                i <= n,
                out@ + interpolated(t@.skip(i as int), context@, *env) == interpolated(t@, context@, *env),
            decreases n - i,
        {
            if i + 1 < n && t[i] == '$' && t[i + 1] == '{' {
                let mut j: usize = i + 2;
                while j < n && t[j] != '}'
                    invariant
                        n == t@.len(),
                        i + 2 <= j <= n,
                        forall|k: int| i + 2 <= k < j ==> t@[k] != '}',
                    decreases n - j,
                {
                    j += 1;
                }
                if j == n {
                    proof {
                        lemma_unclosed(t@, i as int, context@, *env);
                    }
                    push_chars(&mut out, &t.as_slice()[i..n]);
                    assert(t@.skip(n as int).len() == 0);
                    assert(interpolated(t@.skip(n as int), context@, *env).len() == 0) by {
                        reveal(interpolated);
                    }
                    i = n;
                } else {
                    proof {
                        lemma_placeholder(t@, i as int, j as int, context@, *env);
                    }
                    let name = &t.as_slice()[i + 2..j];
                    let ghost before = out@;
                    assert(name@ == t@.subrange(i + 2, j as int));
                    match resolve_name(name, context, env) {
                        Some(v) => {
                            out.append(v.as_str());
                        },
                        None => {
                            out.push('$');
                            out.push('{');
                            push_chars(&mut out, name);
                            out.push('}');
                            assert(out@ == before + (seq!['$', '{'] + name@ + seq!['}']));
                        },
                    }
                    assert(out@ == before + substitute(t@.subrange(i + 2, j as int), context@, *env));
                    i = j + 1;
                }
            } else {
                proof {
                    lemma_plain(t@, i as int, context@, *env);
                }
                out.push(t[i]);
                i += 1;
            }
        }
        assert(t@.skip(n as int).len() == 0);
        proof {
            reveal(interpolated);
        }
        out
    }
}

} // verus!

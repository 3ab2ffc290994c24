//! What the description screen says about the selected workflow: its triggers, its nodes
//! and its description, as lines of styled pieces.
use vstd::prelude::*;
use crate::config::{NodeConfig, NodeKind, StringMap, TriggerConfig, WorkflowConfig};
use crate::text::{decimal, format_u64, lines_of, string_of, text_lines};
use crate::view::{bold, line_view, lines_view, pc, Piece, Shown, Tone};

verus! {

/// The texts `parts` with `sep` between each two.
pub open spec fn joined(parts: Seq<Seq<char>>, sep: Seq<char>) -> Seq<char>
    decreases parts.len(),
{
    if parts.len() == 0 {
        seq![]
    } else if parts.len() == 1 {
        parts[0]
    } else {
        joined(parts.drop_last(), sep) + sep + parts.last()
    }
}

fn cat(a: &str, b: &str) -> (r: String)
    ensures
        r@ == a@ + b@,
{
    let mut r = a.to_string();
    r.append(b);
    r
}

fn lit(text: &str, tone: Tone) -> (p: Piece)
    ensures
        crate::view::piece_view(p) == pc(text@, tone),
{
    Piece { text: text.to_string(), tone, bold: false }
}

fn piece(text: String, tone: Tone) -> (p: Piece)
    ensures
        crate::view::piece_view(p) == pc(text@, tone),
{
    Piece { text, tone, bold: false }
}

fn strong(text: String, tone: Tone) -> (p: Piece)
    ensures
        crate::view::piece_view(p) == bold(text@, tone),
{
    Piece { text, tone, bold: true }
}

fn push_line(v: &mut Vec<Vec<Piece>>, l: Vec<Piece>)
    ensures
        lines_view(final(v)@) == lines_view(old(v)@).push(line_view(l@)),
{
    let ghost before = v@;
    let ghost lv = line_view(l@);
    v.push(l);
    assert(lines_view(v@) =~= lines_view(before).push(lv));
}

fn append_lines(v: &mut Vec<Vec<Piece>>, w: Vec<Vec<Piece>>)
    ensures
        lines_view(final(v)@) == lines_view(old(v)@) + lines_view(w@),
{
    let ghost before = v@;
    let ghost wv = w@;
    let mut w = w;
    v.append(&mut w);
    assert(v@ == before + wv);
    assert(lines_view(v@) =~= lines_view(before) + lines_view(wv));
}

/// The texts `parts` joined with `sep`.
pub fn join_texts(parts: &[String], sep: &str) -> (r: String)
    ensures
        r@ == joined(parts@.map_values(|s: String| s@), sep@),
{
    let ghost ps = parts@.map_values(|s: String| s@);
    let mut r = String::new();
    let mut i: usize = 0;
    while i < parts.len()
        invariant
            i <= parts@.len(),
            ps == parts@.map_values(|s: String| s@),
            r@ == joined(ps.take(i as int), sep@),
        decreases parts@.len() - i,
    {
        assert(ps.take(i + 1).drop_last() == ps.take(i as int));
        assert(ps.take(i + 1).last() == parts@[i as int]@);
        if i > 0 {
            r.append(sep);
        } else {
            assert(ps.take(0).len() == 0);
        }
        r.append(parts[i].as_str());
        i += 1;
    }
    assert(ps.take(i as int) == ps);
    r
}

/// How the description screen names a trigger.
pub open spec fn trigger_text(t: TriggerConfig) -> Seq<char> {
    match t {
        TriggerConfig::Manual => "Manual trigger"@,
        TriggerConfig::Cron { schedule } => "Cron: "@ + schedule@,
    }
}

/// A workflow's triggers, named and joined with `, `; or that it has none.
pub open spec fn triggers_text(ts: Seq<TriggerConfig>) -> Seq<char> {
    if ts.len() == 0 {
        "No triggers configured"@
    } else {
        joined(ts.map_values(|t: TriggerConfig| trigger_text(t)), ", "@)
    }
}

/// How many nodes a workflow has (`1 node`, `3 nodes`), or that it has none.
pub open spec fn nodes_text(n: nat) -> Seq<char> {
    if n == 0 {
        "No nodes configured"@
    } else {
        decimal(n) + " node"@ + if n == 1 { ""@ } else { "s"@ }
    }
}

/// The configuration line of a workflow: its triggers, ` | `, its node count.
pub open spec fn configuration_text(w: WorkflowConfig) -> Seq<char> {
    triggers_text(w.triggers@) + " | "@ + nodes_text(w.nodes@.len())
}

fn trigger_texts(ts: &Vec<TriggerConfig>) -> (r: Vec<String>)
    ensures
        r@.map_values(|s: String| s@) == ts@.map_values(|t: TriggerConfig| trigger_text(t)),
{
    let mut r: Vec<String> = Vec::new();
    let mut i: usize = 0;
    while i < ts.len()
        invariant
            i <= ts@.len(),
            r@.len() == i,
            forall|k: int| 0 <= k < i ==> #[trigger] r@[k]@ == trigger_text(ts@[k]),
        decreases ts@.len() - i,
    {
        let t = match &ts[i] {
            TriggerConfig::Manual => "Manual trigger".to_string(),
            TriggerConfig::Cron { schedule } => cat("Cron: ", schedule.as_str()),
        };
        r.push(t);
        i += 1;
    }
    assert(r@.map_values(|s: String| s@) =~= ts@.map_values(|t: TriggerConfig| trigger_text(t)));
    r
}

/// The configuration line of a workflow.
pub fn configuration_of(w: &WorkflowConfig) -> (r: String)
    ensures
        r@ == configuration_text(*w),
{
    let triggers = if w.triggers.len() == 0 {
        "No triggers configured".to_string()
    } else {
        let names = trigger_texts(&w.triggers);
        join_texts(names.as_slice(), ", ")
    };
    let n = w.nodes.len();
    let nodes = if n == 0 {
        "No nodes configured".to_string()
    } else {
        let d = format_u64(n as u64);
        let s = cat(d.as_str(), " node");
        if n == 1 {
            s
        } else {
            cat(s.as_str(), "s")
        }
    };
    assert(nodes@ == nodes_text(n as nat)) by {
        reveal_strlit("");
        if n > 0 && n == 1 {
            assert(nodes@ =~= decimal(n as nat) + " node"@ + ""@);
        }
    }
    let a = cat(triggers.as_str(), " | ");
    cat(a.as_str(), nodes.as_str())
}

/// The node kind's name on the description screen.
pub open spec fn kind_name(k: NodeKind) -> Seq<char> {
    match k {
        NodeKind::Http { .. } => "HTTP"@,
        NodeKind::Shell { .. } => "Shell"@,
        NodeKind::Log { .. } => "Log"@,
    }
}

/// The keys of a map's entries, in order.
pub open spec fn entry_keys(m: StringMap) -> Seq<Seq<char>> {
    m.entry_seq().map_values(|e: (String, String)| e.0@)
}

/// What a node does: the request (and the status it expects), the command (and the names of
/// its extra environment variables), or the message.
pub open spec fn kind_lines(k: NodeKind) -> Seq<Shown> {
    match k {
        NodeKind::Http { url, method, expect_status, .. } => seq![
            seq![
                pc("     Action: "@, Tone::DarkGray),
                pc(method@, Tone::Magenta),
                pc(" "@, Tone::Plain),
                pc(url@, Tone::Blue),
            ],
        ] + match expect_status {
            Some(st) => seq![seq![pc("     Expect: "@, Tone::DarkGray), pc("Status "@ + decimal(st as nat), Tone::Yellow)]],
            None => seq![],
        },
        NodeKind::Shell { cmd, env } => seq![seq![pc("     Command: "@, Tone::DarkGray), pc(cmd@, Tone::Blue)]]
            + if env.entry_seq().len() > 0 {
            seq![seq![pc("     Env vars: "@, Tone::DarkGray), pc(joined(entry_keys(env), ", "@), Tone::Yellow)]]
        } else {
            seq![]
        },
        NodeKind::Log { message } => seq![seq![pc("     Message: "@, Tone::DarkGray), pc(message@, Tone::Blue)]],
    }
}

/// A node's optional settings that are set: `retry: n`, `timeout: t`, `when: c`, in that order.
pub open spec fn node_options(n: NodeConfig) -> Seq<Seq<char>> {
    (match n.retry {
        Some(r) => seq!["retry: "@ + decimal(r as nat)],
        None => seq![],
    }) + (match n.timeout {
        Some(t) => seq!["timeout: "@ + t@],
        None => seq![],
    }) + (match n.when {
        Some(w) => seq!["when: "@ + w@],
        None => seq![],
    })
}

/// The lines describing the node `n`, the `i`-th of its workflow (from 0): its number, id and
/// kind; what it does; what it depends on; its options; a blank line.
pub open spec fn node_description(i: nat, n: NodeConfig) -> Seq<Shown> {
    seq![
        seq![
            pc("  "@ + decimal(i + 1) + ". "@, Tone::Yellow),
            bold(n.id@, Tone::Cyan),
            pc(" ("@, Tone::DarkGray),
            pc(kind_name(n.kind), Tone::Green),
            pc(")"@, Tone::DarkGray),
        ],
    ] + kind_lines(n.kind) + (if n.depends_on@.len() > 0 {
        seq![
            seq![
                pc("     Depends on: "@, Tone::DarkGray),
                pc(joined(n.depends_on@.map_values(|s: String| s@), ", "@), Tone::Red),
            ],
        ]
    } else {
        seq![]
    }) + (if node_options(n).len() > 0 {
        seq![seq![pc("     Options: "@, Tone::DarkGray), pc(joined(node_options(n), ", "@), Tone::Cyan)]]
    } else {
        seq![]
    }) + seq![seq![]]
}

fn kind_lines_of(k: &NodeKind) -> (v: Vec<Vec<Piece>>)
    ensures
        lines_view(v@) == kind_lines(*k),
{
    let mut v: Vec<Vec<Piece>> = Vec::new();
    assert(lines_view(v@) =~= Seq::<Shown>::empty());
    match k {
        NodeKind::Http { url, method, expect_status, .. } => {
            let a = vec![
                lit("     Action: ", Tone::DarkGray),
                piece(method.clone(), Tone::Magenta),
                lit(" ", Tone::Plain),
                piece(url.clone(), Tone::Blue),
            ];
            assert(line_view(a@) =~= kind_lines(*k)[0]);
            push_line(&mut v, a);
            match expect_status {
                Some(st) => {
                    let d = format_u64(*st as u64);
                    let t = cat("Status ", d.as_str());
                    let b = vec![lit("     Expect: ", Tone::DarkGray), piece(t, Tone::Yellow)];
                    assert(line_view(b@) =~= kind_lines(*k)[1]);
                    push_line(&mut v, b);
                },
                None => {},
            }
        },
        NodeKind::Shell { cmd, env } => {
            let a = vec![lit("     Command: ", Tone::DarkGray), piece(cmd.clone(), Tone::Blue)];
            assert(line_view(a@) =~= kind_lines(*k)[0]);
            push_line(&mut v, a);
            if env.len() > 0 {
                let entries = env.entries();
                let mut keys: Vec<String> = Vec::new();
                let mut i: usize = 0;
                while i < entries.len()
                    invariant
                        entries@ == env.entry_seq(),
                        i <= entries@.len(),
                        keys@.len() == i,
                        forall|j: int| 0 <= j < i ==> #[trigger] keys@[j]@ == entries@[j].0@,
                    decreases entries@.len() - i,
                {
                    keys.push(entries[i].0.clone());
                    i += 1;
                }
                assert(keys@.map_values(|s: String| s@) =~= entry_keys(*env));
                let joined_keys = join_texts(keys.as_slice(), ", ");
                let b = vec![lit("     Env vars: ", Tone::DarkGray), piece(joined_keys, Tone::Yellow)];
                assert(line_view(b@) =~= kind_lines(*k)[1]);
                push_line(&mut v, b);
            }
        },
        NodeKind::Log { message } => {
            let a = vec![lit("     Message: ", Tone::DarkGray), piece(message.clone(), Tone::Blue)];
            assert(line_view(a@) =~= kind_lines(*k)[0]);
            push_line(&mut v, a);
        },
    }
    assert(lines_view(v@) =~= kind_lines(*k));
    v
}

fn options_of(n: &NodeConfig) -> (r: Vec<String>)
    ensures
        r@.map_values(|s: String| s@) == node_options(*n),
{
    let mut r: Vec<String> = Vec::new();
    match n.retry {
        Some(x) => {
            let d = format_u64(x as u64);
            r.push(cat("retry: ", d.as_str()));
        },
        None => {},
    }
    match &n.timeout {
        Some(t) => {
            r.push(cat("timeout: ", t.as_str()));
        },
        None => {},
    }
    match &n.when {
        Some(w) => {
            r.push(cat("when: ", w.as_str()));
        },
        None => {},
    }
    assert(r@.map_values(|s: String| s@) =~= node_options(*n));
    r
}

fn node_description_lines(i: usize, n: &NodeConfig) -> (v: Vec<Vec<Piece>>)
    requires
        i < u64::MAX,
    ensures
        lines_view(v@) == node_description(i as nat, *n),
{
    let mut v: Vec<Vec<Piece>> = Vec::new();
    let num = format_u64(i as u64 + 1);
    let a = cat("  ", num.as_str());
    let b = cat(a.as_str(), ". ");
    let kind: &str = match &n.kind {
        NodeKind::Http { .. } => "HTTP",
        NodeKind::Shell { .. } => "Shell",
        NodeKind::Log { .. } => "Log",
    };
    let h = vec![
        piece(b, Tone::Yellow),
        strong(n.id.clone(), Tone::Cyan),
        lit(" (", Tone::DarkGray),
        lit(kind, Tone::Green),
        lit(")", Tone::DarkGray),
    ];
    let ghost want = node_description(i as nat, *n);
    assert(line_view(h@) =~= want[0]);
    push_line(&mut v, h);
    assert(lines_view(v@) =~= seq![want[0]]);
    let ghost s1 = lines_view(v@);
    let kl = kind_lines_of(&n.kind);
    append_lines(&mut v, kl);
    let ghost s2 = lines_view(v@);
    if n.depends_on.len() > 0 {
        let deps = join_texts(n.depends_on.as_slice(), ", ");
        let l = vec![lit("     Depends on: ", Tone::DarkGray), piece(deps, Tone::Red)];
        assert(line_view(l@) =~= seq![
            pc("     Depends on: "@, Tone::DarkGray),
            pc(joined(n.depends_on@.map_values(|s: String| s@), ", "@), Tone::Red),
        ]);
        push_line(&mut v, l);
    }
    let ghost dep_part: Seq<Shown> = if n.depends_on@.len() > 0 {
        seq![
            seq![
                pc("     Depends on: "@, Tone::DarkGray),
                pc(joined(n.depends_on@.map_values(|s: String| s@), ", "@), Tone::Red),
            ],
        ]
    } else {
        seq![]
    };
    assert(lines_view(v@) =~= s2 + dep_part);
    let ghost s3 = lines_view(v@);
    let opts = options_of(n);
    if opts.len() > 0 {
        let o = join_texts(opts.as_slice(), ", ");
        let l = vec![lit("     Options: ", Tone::DarkGray), piece(o, Tone::Cyan)];
        assert(line_view(l@) =~= seq![pc("     Options: "@, Tone::DarkGray), pc(joined(node_options(*n), ", "@), Tone::Cyan)]);
        push_line(&mut v, l);
    }
    let ghost opt_part: Seq<Shown> = if node_options(*n).len() > 0 {
        seq![seq![pc("     Options: "@, Tone::DarkGray), pc(joined(node_options(*n), ", "@), Tone::Cyan)]]
    } else {
        seq![]
    };
    assert(lines_view(v@) =~= s3 + opt_part);
    let ghost s4 = lines_view(v@);
    let e: Vec<Piece> = Vec::new();
    assert(line_view(e@) =~= Seq::<(Seq<char>, Tone, bool)>::empty());
    push_line(&mut v, e);
    assert(lines_view(v@) =~= s4 + seq![seq![]]);
    assert(want =~= seq![want[0]] + kind_lines(n.kind) + dep_part + opt_part + seq![seq![]]);
    v
}

/// The node section of the description screen: a heading, then each node described in
/// order, or a note that there are none.
pub open spec fn nodes_section(nodes: Seq<NodeConfig>) -> Seq<Shown> {
    seq![seq![], seq![bold("Nodes:"@, Tone::DarkGray)], seq![]] + if nodes.len() == 0 {
        seq![seq![pc("  No nodes configured"@, Tone::DarkGray)]]
    } else {
        node_descriptions(nodes)
    }
}

/// The descriptions of `nodes`, in order.
pub open spec fn node_descriptions(nodes: Seq<NodeConfig>) -> Seq<Shown>
    decreases nodes.len(),
{
    if nodes.len() == 0 {
        seq![]
    } else {
        node_descriptions(nodes.drop_last()) + node_description((nodes.len() - 1) as nat, nodes.last())
    }
}

/// The description screen for the workflow at `selected` in `workflows`: its name, its
/// configuration line, the lines of its description (or a note that it has none), then its
/// nodes. Without such a workflow, a note asking to select one.
pub open spec fn description_view(workflows: Seq<WorkflowConfig>, selected: int) -> Seq<Shown> {
    let valid = 0 <= selected < workflows.len();
    let w = workflows[selected];
    let name = if valid { w.name@ } else { "No workflow selected"@ };
    let desc = if !valid {
        "Please select a workflow first."@
    } else if w.description@.len() == 0 {
        "No description provided"@
    } else {
        w.description@
    };
    let config = if valid { configuration_text(w) } else { ""@ };
    seq![
        seq![],
        seq![pc("Workflow: "@, Tone::DarkGray), bold(name, Tone::White)],
        seq![],
        seq![pc("Configuration: "@, Tone::DarkGray), pc(config, Tone::Cyan)],
        seq![],
        seq![bold("Description:"@, Tone::DarkGray)],
        seq![],
    ] + text_lines(desc).map_values(|l: Seq<char>| seq![pc(l, Tone::Plain)]) + if valid {
        nodes_section(w.nodes@)
    } else {
        seq![]
    }
}

/// The description screen for the workflow at `selected`.
pub fn description_lines(workflows: &[WorkflowConfig], selected: usize) -> (v: Vec<Vec<Piece>>)
    requires
        forall|k: int| 0 <= k < workflows@.len() ==> (#[trigger] workflows@[k]).nodes@.len() < u64::MAX,
    ensures
        lines_view(v@) == description_view(workflows@, selected as int),
{
    let valid = selected < workflows.len();
    let ghost want = description_view(workflows@, selected as int);
    proof {
        reveal_strlit("");
    }
    let (name, desc, config) = if valid {
        let w = &workflows[selected];
        let d = if w.description.as_str().is_empty() {
            "No description provided".to_string()
        } else {
            w.description.clone()
        };
        (w.name.clone(), d, configuration_of(w))
    } else {
        ("No workflow selected".to_string(), "Please select a workflow first.".to_string(), String::new())
    };
    let mut v: Vec<Vec<Piece>> = Vec::new();
    let l0: Vec<Piece> = Vec::new();
    assert(line_view(l0@) =~= want[0]);
    push_line(&mut v, l0);
    let l1 = vec![lit("Workflow: ", Tone::DarkGray), strong(name, Tone::White)];
    assert(line_view(l1@) =~= want[1]);
    push_line(&mut v, l1);
    let l2: Vec<Piece> = Vec::new();
    assert(line_view(l2@) =~= want[2]);
    push_line(&mut v, l2);
    assert(config@ == (if valid { configuration_text(workflows@[selected as int]) } else { ""@ })) by {
        reveal_strlit("");
        if !valid {
            assert(config@ =~= ""@);
        }
    }
    let l3 = vec![lit("Configuration: ", Tone::DarkGray), piece(config, Tone::Cyan)];
    assert(line_view(l3@) =~= want[3]);
    push_line(&mut v, l3);
    let l4: Vec<Piece> = Vec::new();
    assert(line_view(l4@) =~= want[4]);
    push_line(&mut v, l4);
    let l5 = vec![strong("Description:".to_string(), Tone::DarkGray)];
    assert(line_view(l5@) =~= want[5]);
    push_line(&mut v, l5);
    let l6: Vec<Piece> = Vec::new();
    assert(line_view(l6@) =~= want[6]);
    push_line(&mut v, l6);
    let ghost head = lines_view(v@);
    let ghost dl = text_lines(desc@);
    let ls = lines_of(desc.as_str());
    let mut i: usize = 0;
    while i < ls.len()
        invariant
            i <= ls@.len(),
            ls@.len() == dl.len(),
            forall|k: int| 0 <= k < ls@.len() ==> #[trigger] ls@[k]@ == dl[k],
            lines_view(v@) == head + dl.take(i as int).map_values(|l: Seq<char>| seq![pc(l, Tone::Plain)]),
        decreases ls@.len() - i,
    {
        let text = string_of(ls[i].as_slice());
        let l = vec![piece(text, Tone::Plain)];
        assert(line_view(l@) =~= seq![pc(dl[i as int], Tone::Plain)]);
        push_line(&mut v, l);
        i += 1;
        assert(lines_view(v@) =~= head + dl.take(i as int).map_values(|l: Seq<char>| seq![pc(l, Tone::Plain)]));
    }
    assert(dl.take(i as int) == dl);
    let ghost s2 = lines_view(v@);
    if valid {
        let w = &workflows[selected];
        let mut sec: Vec<Vec<Piece>> = Vec::new();
        let e1: Vec<Piece> = Vec::new();
        assert(line_view(e1@) =~= Seq::<(Seq<char>, Tone, bool)>::empty());
        push_line(&mut sec, e1);
        let hd = vec![strong("Nodes:".to_string(), Tone::DarkGray)];
        assert(line_view(hd@) =~= seq![bold("Nodes:"@, Tone::DarkGray)]);
        push_line(&mut sec, hd);
        let e2: Vec<Piece> = Vec::new();
        assert(line_view(e2@) =~= Seq::<(Seq<char>, Tone, bool)>::empty());
        push_line(&mut sec, e2);
        assert(lines_view(Seq::<Vec<Piece>>::empty()) =~= Seq::<Shown>::empty());
        let ghost top: Seq<Shown> = seq![seq![], seq![bold("Nodes:"@, Tone::DarkGray)], seq![]];
        assert(lines_view(sec@) =~= top);
        if w.nodes.len() == 0 {
            let none = vec![lit("  No nodes configured", Tone::DarkGray)];
            assert(line_view(none@) =~= seq![pc("  No nodes configured"@, Tone::DarkGray)]);
            push_line(&mut sec, none);
            assert(lines_view(sec@) =~= nodes_section(w.nodes@));
        } else {
            let nodes = &w.nodes;
            let mut k: usize = 0;
            assert(nodes@.take(0) =~= Seq::<NodeConfig>::empty());
            while k < nodes.len()
                invariant
                    nodes@.len() < u64::MAX,
                    k <= nodes@.len(),
                    lines_view(sec@) == top + node_descriptions(nodes@.take(k as int)),
                decreases nodes@.len() - k,
            {
                let d = node_description_lines(k, &nodes[k]);
                append_lines(&mut sec, d);
                assert(nodes@.take(k + 1).drop_last() == nodes@.take(k as int));
                assert(nodes@.take(k + 1).last() == nodes@[k as int]);
                k += 1;
                assert(lines_view(sec@) =~= top + node_descriptions(nodes@.take(k as int)));
            }
            assert(nodes@.take(k as int) == nodes@);
            assert(lines_view(sec@) =~= nodes_section(w.nodes@));
        }
        append_lines(&mut v, sec);
    }
    assert(lines_view(v@) =~= want);
    v
}

/// The line of node `i` of `n` in a workflow listing: a branch (the last one closes), the
/// node's id, and what it depends on, or that it is an entry point.
pub open spec fn listing_node(i: int, n: int, node: NodeConfig) -> Seq<char> {
    "      "@ + (if i == n - 1 { "└─"@ } else { "├─"@ }) + " "@ + node.id@ + if node.depends_on@.len() == 0 {
        " (entry point)"@
    } else {
        " → depends on: "@ + joined(node.depends_on@.map_values(|s: String| s@), ", "@)
    }
}

/// A workflow in the `list` command's output: its name and node count, its description when
/// it has one, its execution graph node by node, and a blank line.
pub open spec fn listing(w: WorkflowConfig) -> Seq<Seq<char>> {
    let n = w.nodes@.len();
    seq!["  "@ + w.name@ + " — "@ + decimal(n) + " nodes"@] + (if w.description@.len() > 0 {
        seq!["    "@ + w.description@]
    } else {
        seq![]
    }) + seq!["    Execution graph:"@] + Seq::new(n, |i: int| listing_node(i, n as int, w.nodes@[i])) + seq![""@]
}

/// The lines the `list` command prints for a workflow.
pub fn workflow_listing(w: &WorkflowConfig) -> (r: Vec<String>)
    ensures
        r@.map_values(|s: String| s@) == listing(*w),
{
    let n = w.nodes.len();
    let mut r: Vec<String> = Vec::new();
    let count = format_u64(n as u64);
    let a = cat("  ", w.name.as_str());
    let b = cat(a.as_str(), " — ");
    let c = cat(b.as_str(), count.as_str());
    r.push(cat(c.as_str(), " nodes"));
    if !w.description.as_str().is_empty() {
        r.push(cat("    ", w.description.as_str()));
    }
    r.push("    Execution graph:".to_string());
    let ghost head = r@.map_values(|s: String| s@);
    let ghost want = listing(*w);
    assert(head =~= want.take(head.len() as int));
    let mut i: usize = 0;
    while i < n
        invariant
            n == w.nodes@.len(),
            i <= n,
            want == listing(*w),
            head.len() + n + 1 == want.len(),
            r@.len() == head.len() + i,
            forall|k: int| 0 <= k < head.len() + i ==> #[trigger] r@[k]@ == want[k],
        decreases n - i,
    {
        let node = &w.nodes[i];
        let branch = if i == n - 1 { "└─" } else { "├─" };
        let p1 = cat("      ", branch);
        let p2 = cat(p1.as_str(), " ");
        let p3 = cat(p2.as_str(), node.id.as_str());
        let line = if node.depends_on.len() == 0 {
            cat(p3.as_str(), " (entry point)")
        } else {
            let deps = join_texts(node.depends_on.as_slice(), ", ");
            let p4 = cat(p3.as_str(), " → depends on: ");
            cat(p4.as_str(), deps.as_str())
        };
        assert(line@ == listing_node(i as int, n as int, w.nodes@[i as int]));
        assert(want[head.len() + i] == listing_node(i as int, n as int, w.nodes@[i as int]));
        r.push(line);
        i += 1;
    }
    let ghost before = r@;
    r.push(String::new());
    proof {
        reveal_strlit("");
    }
    assert forall|k: int| 0 <= k < r@.len() implies #[trigger] r@[k]@ == want[k] by {
        if k < before.len() {
            assert(r@[k] == before[k]);
        } else {
            assert(r@[k]@ =~= ""@);
        }
    }
    assert(r@.map_values(|s: String| s@) =~= want);
    r
}

/// The workflows run on their own when the engine starts: the enabled ones with a manual
/// trigger, in order.
pub open spec fn starts_on_launch(w: WorkflowConfig) -> bool {
    w.enabled && exists|k: int| 0 <= k < w.triggers@.len() && #[trigger] w.triggers@[k] is Manual
}

/// The indices of the workflows run when the engine starts, in order.
pub fn launch_runs(workflows: &[WorkflowConfig]) -> (r: Vec<usize>)
    ensures
        forall|k: int| 0 <= k < r@.len() ==> (#[trigger] r@[k] as int) < workflows@.len() && starts_on_launch(workflows@[r@[k] as int]),
        forall|i: int| 0 <= i < workflows@.len() && starts_on_launch(#[trigger] workflows@[i]) ==> r@.contains(i as usize),
        forall|a: int, b: int| 0 <= a < b < r@.len() ==> r@[a] < r@[b],
{
    let mut r: Vec<usize> = Vec::new();
    let mut i: usize = 0;
    while i < workflows.len()
        invariant
            i <= workflows@.len(),
            forall|k: int| 0 <= k < r@.len() ==> (#[trigger] r@[k] as int) < i && starts_on_launch(workflows@[r@[k] as int]),
            forall|j: int| 0 <= j < i && starts_on_launch(#[trigger] workflows@[j]) ==> r@.contains(j as usize),
            forall|a: int, b: int| 0 <= a < b < r@.len() ==> r@[a] < r@[b],
        decreases workflows@.len() - i,
    {
        let w = &workflows[i];
        if w.enabled && crate::schedule::has_manual_trigger(w) {
            let ghost before = r@;
            r.push(i);
            assert forall|j: int| 0 <= j < i + 1 && starts_on_launch(#[trigger] workflows@[j]) implies r@.contains(j as usize) by {
                if j < i {
                    let k = choose|k: int| 0 <= k < before.len() && before[k] == j as usize;
                    assert(r@[k] == j as usize);
                } else {
                    assert(r@[before.len() as int] == i);
                }
            }
        }
        i += 1;
    }
    r
}

} // verus!

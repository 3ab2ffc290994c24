//! The text the dashboard shows, as lines of styled pieces: what each piece says, its
//! colour and whether it is bold. Drawing them is left to whoever owns the terminal.
use vstd::prelude::*;
use crate::config::{TriggerConfig, WorkflowConfig};
use crate::engine::{NodeStatus, RunStatus, WorkflowRun};
use crate::clock::{clock_text, clock_text_of};
use crate::engine::NodeResult;
use crate::text::{decimal, format_i64, format_u64, lines_of, signed_decimal, string_of, text_lines};
use crate::tui::{LogEntry, LogLevel, RunOrScheduled};

verus! {

/// The colour of a piece of text.
#[derive(Debug, Clone, Copy, PartialEq, Eq, Structural)]
pub enum Tone {
    Plain,
    DarkGray,
    White,
    Cyan,
    Yellow,
    Green,
    Red,
    Magenta,
    Blue,
}

/// A piece of a line: its text, colour and weight.
#[derive(Debug)]
pub struct Piece {
    pub text: String,
    pub tone: Tone,
    pub bold: bool,
}

/// What a piece shows.
pub open spec fn piece_view(p: Piece) -> (Seq<char>, Tone, bool) {
    (p.text@, p.tone, p.bold)
}

/// What a line shows, piece by piece.
pub open spec fn line_view(l: Seq<Piece>) -> Seq<(Seq<char>, Tone, bool)> {
    l.map_values(|p: Piece| piece_view(p))
}

/// What lines show.
pub open spec fn lines_view(ls: Seq<Vec<Piece>>) -> Seq<Seq<(Seq<char>, Tone, bool)>> {
    ls.map_values(|l: Vec<Piece>| line_view(l@))
}

/// A piece in normal weight.
pub open spec fn pc(text: Seq<char>, tone: Tone) -> (Seq<char>, Tone, bool) {
    (text, tone, false)
}

/// A bold piece.
pub open spec fn bold(text: Seq<char>, tone: Tone) -> (Seq<char>, Tone, bool) {
    (text, tone, true)
}

fn piece(text: String, tone: Tone) -> (p: Piece)
    ensures
        piece_view(p) == pc(text@, tone),
{
    Piece { text, tone, bold: false }
}

fn strong(text: String, tone: Tone) -> (p: Piece)
    ensures
        piece_view(p) == bold(text@, tone),
{
    Piece { text, tone, bold: true }
}

fn lit(text: &str, tone: Tone) -> (p: Piece)
    ensures
        piece_view(p) == pc(text@, tone),
{
    Piece { text: text.to_string(), tone, bold: false }
}

/// A time span of `total` whole seconds as the dashboard writes it: `overdue` when negative,
/// else days, hours and minutes (`1d 2h 3m`), hours and minutes (`2h 3m`), minutes and
/// seconds (`3m 4s`) or seconds (`4s`), by the largest unit that is not zero.
pub open spec fn duration_text(total: int) -> Seq<char> {
    if total < 0 {
        "overdue"@
    } else {
        let days = total / 86400;
        let hours = (total % 86400) / 3600;
        let minutes = (total % 3600) / 60;
        let seconds = total % 60;
        if days > 0 {
            decimal(days as nat) + "d "@ + decimal(hours as nat) + "h "@ + decimal(minutes as nat) + "m"@
        } else if hours > 0 {
            decimal(hours as nat) + "h "@ + decimal(minutes as nat) + "m"@
        } else if minutes > 0 {
            decimal(minutes as nat) + "m "@ + decimal(seconds as nat) + "s"@
        } else {
            decimal(seconds as nat) + "s"@
        }
    }
}

/// A time span of `total_seconds` whole seconds, written as `duration_text` says.
pub fn format_duration(total_seconds: i64) -> (s: String)
    ensures
        s@ == duration_text(total_seconds as int),
{
    if total_seconds < 0 {
        return "overdue".to_string();
    }
    let days: i64 = total_seconds / 86400;
    let hours: i64 = (total_seconds % 86400) / 3600;
    let minutes: i64 = (total_seconds % 3600) / 60;
    let seconds: i64 = total_seconds % 60;
    if days > 0 {
        let mut s = format_u64(days as u64);
        s.append("d ");
        let h = format_u64(hours as u64);
        s.append(h.as_str());
        s.append("h ");
        let m = format_u64(minutes as u64);
        s.append(m.as_str());
        s.append("m");
        s
    } else if hours > 0 {
        let mut s = format_u64(hours as u64);
        s.append("h ");
        let m = format_u64(minutes as u64);
        s.append(m.as_str());
        s.append("m");
        s
    } else if minutes > 0 {
        let mut s = format_u64(minutes as u64);
        s.append("m ");
        let x = format_u64(seconds as u64);
        s.append(x.as_str());
        s.append("s");
        s
    } else {
        let mut s = format_u64(seconds as u64);
        s.append("s");
        s
    }
}

/// The key hints under the workflows screen, fewer and shorter as the terminal narrows
/// (at 130, 120, 90 and 60 columns).
pub open spec fn workflows_help(width: u16) -> Seq<Seq<char>> {
    if width >= 130 {
        seq![" ↑/↓ navigate/scroll "@, "| Tab/←/→ switch panel "@, "| Space toggle enable "@,
            "| Enter details "@, "| r refresh "@, "| l logs "@, "| d describe "@, "| t trigger "@,
            "| ? help "@, "| q quit "@]
    } else if width >= 120 {
        seq![" ↑/↓ navigate/scroll "@, "| Tab/←/→ switch panel "@, "| Space toggle enable "@,
            "| r refresh "@, "| l logs "@, "| d describe "@, "| t trigger "@, "| ? help "@,
            "| q quit "@]
    } else if width >= 90 {
        seq![" ↑/↓ nav "@, "| Tab/←/→ panel "@, "| Space toggle "@, "| Enter details "@,
            "| r refresh "@, "| l logs "@, "| t trigger "@, "| ? help "@, "| q quit "@]
    } else if width >= 60 {
        seq![" ↑/↓ nav "@, "| ←/→ panel "@, "| Enter details "@, "| ? help "@, "| q quit "@]
    } else {
        seq![" ↑/↓ "@, "| ←/→ "@, "| ? help "@, "| q quit "@]
    }
}

/// The key hints under the node detail screen (at 140, 120 and 90 columns).
pub open spec fn node_detail_help(width: u16) -> Seq<Seq<char>> {
    if width >= 140 {
        seq![" ←/→ switch panel "@, "| ↑/↓ select node/scroll "@, "| PgUp/PgDn fast scroll "@,
            "| Home/End top/bottom "@, "| Esc back "@, "| w workflows "@, "| q quit "@]
    } else if width >= 120 {
        seq![" ←/→ panel "@, "| ↑/↓ select/scroll "@, "| PgUp/PgDn scroll "@, "| Home/End "@,
            "| Esc back "@, "| w workflows "@, "| q quit "@]
    } else if width >= 90 {
        seq![" ←/→ panel "@, "| ↑/↓ nav/scroll "@, "| PgUp/PgDn "@, "| Home/End "@, "| Esc back "@,
            "| q quit "@]
    } else {
        seq![" ←/→ "@, "| ↑/↓ "@, "| Esc back "@, "| q quit "@]
    }
}

/// The texts of some strings.
pub open spec fn texts(v: Seq<String>) -> Seq<Seq<char>> {
    v.map_values(|s: String| s@)
}

fn strings(items: &[&str]) -> (r: Vec<String>)
    ensures
        texts(r@) == items@.map_values(|s: &str| s@),
{
    let mut r: Vec<String> = Vec::new();
    let mut i: usize = 0;
    while i < items.len()
        invariant
            i <= items@.len(),
            r@.len() == i,
            texts(r@) == items@.take(i as int).map_values(|s: &str| s@),
        decreases items@.len() - i,
    {
        let ghost before = r@;
        r.push(items[i].to_string());
        i += 1;
        assert(texts(r@) =~= items@.take(i as int).map_values(|s: &str| s@)) by {
            assert forall|k: int| 0 <= k < i implies #[trigger] texts(r@)[k] == items@.take(i as int).map_values(|s: &str| s@)[k] by {
                if k < i - 1 {
                    assert(r@[k] == before[k]);
                    assert(texts(before)[k] == items@.take(i - 1).map_values(|s: &str| s@)[k]);
                }
            }
        }
    }
    assert(items@.take(i as int) == items@);
    r
}

/// The key hints under the workflows screen for a terminal `width` columns wide.
pub fn workflows_help_items(width: u16) -> (r: Vec<String>)
    ensures
        texts(r@) == workflows_help(width),
{
    let items: Vec<&str> = if width >= 130 {
        vec![" ↑/↓ navigate/scroll ", "| Tab/←/→ switch panel ", "| Space toggle enable ",
            "| Enter details ", "| r refresh ", "| l logs ", "| d describe ", "| t trigger ",
            "| ? help ", "| q quit "]
    } else if width >= 120 {
        vec![" ↑/↓ navigate/scroll ", "| Tab/←/→ switch panel ", "| Space toggle enable ",
            "| r refresh ", "| l logs ", "| d describe ", "| t trigger ", "| ? help ", "| q quit "]
    } else if width >= 90 {
        vec![" ↑/↓ nav ", "| Tab/←/→ panel ", "| Space toggle ", "| Enter details ",
            "| r refresh ", "| l logs ", "| t trigger ", "| ? help ", "| q quit "]
    } else if width >= 60 {
        vec![" ↑/↓ nav ", "| ←/→ panel ", "| Enter details ", "| ? help ", "| q quit "]
    } else {
        vec![" ↑/↓ ", "| ←/→ ", "| ? help ", "| q quit "]
    };
    let r = strings(items.as_slice());
    assert(items@.map_values(|s: &str| s@) == workflows_help(width));
    r
}

/// The key hints under the node detail screen for a terminal `width` columns wide.
pub fn node_detail_help_items(width: u16) -> (r: Vec<String>)
    ensures
        texts(r@) == node_detail_help(width),
{
    let items: Vec<&str> = if width >= 140 {
        vec![" ←/→ switch panel ", "| ↑/↓ select node/scroll ", "| PgUp/PgDn fast scroll ",
            "| Home/End top/bottom ", "| Esc back ", "| w workflows ", "| q quit "]
    } else if width >= 120 {
        vec![" ←/→ panel ", "| ↑/↓ select/scroll ", "| PgUp/PgDn scroll ", "| Home/End ",
            "| Esc back ", "| w workflows ", "| q quit "]
    } else if width >= 90 {
        vec![" ←/→ panel ", "| ↑/↓ nav/scroll ", "| PgUp/PgDn ", "| Home/End ", "| Esc back ",
            "| q quit "]
    } else {
        vec![" ←/→ ", "| ↑/↓ ", "| Esc back ", "| q quit "]
    };
    let r = strings(items.as_slice());
    assert(items@.map_values(|s: &str| s@) == node_detail_help(width));
    r
}

fn cat(a: &str, b: &str) -> (r: String)
    ensures
        r@ == a@ + b@,
{
    let mut r = a.to_string();
    r.append(b);
    r
}

/// The kind of a workflow's first trigger: `manual`, `cron`, or `none` without triggers.
pub open spec fn trigger_label(triggers: Seq<TriggerConfig>) -> Seq<char> {
    if triggers.len() == 0 {
        "none"@
    } else {
        match triggers[0] {
            TriggerConfig::Manual => "manual"@,
            TriggerConfig::Cron { .. } => "cron"@,
        }
    }
}

/// A workflow's entry in the workflows list: a filled dot when enabled (green) or a hollow
/// one (grey), its name, and the kind of its first trigger.
pub open spec fn workflow_item_view(w: WorkflowConfig) -> Seq<(Seq<char>, Tone, bool)> {
    seq![
        pc(if w.enabled { "● "@ } else { "○ "@ }, if w.enabled { Tone::Green } else { Tone::DarkGray }),
        pc(w.name@, Tone::White),
        pc(" ("@ + trigger_label(w.triggers@) + ")"@, Tone::DarkGray),
    ]
}

/// A workflow's entry in the workflows list.
pub fn workflow_item(w: &WorkflowConfig) -> (r: Vec<Piece>)
    ensures
        line_view(r@) == workflow_item_view(*w),
{
    let label: &str = if w.triggers.len() == 0 {
        "none"
    } else {
        match &w.triggers[0] {
            TriggerConfig::Manual => "manual",
            TriggerConfig::Cron { .. } => "cron",
        }
    };
    assert(label@ == trigger_label(w.triggers@));
    let dot = if w.enabled { lit("● ", Tone::Green) } else { lit("○ ", Tone::DarkGray) };
    let name = piece(w.name.clone(), Tone::White);
    let open = cat(" (", label);
    let kind = cat(open.as_str(), ")");
    let r = vec![dot, name, piece(kind, Tone::DarkGray)];
    assert(line_view(r@) =~= workflow_item_view(*w));
    r
}

/// The icon and colour of a node's status.
pub open spec fn node_icon(s: NodeStatus) -> (Seq<char>, Tone) {
    match s {
        NodeStatus::Pending => ("○"@, Tone::DarkGray),
        NodeStatus::Running => ("⟳"@, Tone::Yellow),
        NodeStatus::Success => ("✔"@, Tone::Green),
        NodeStatus::Failed(_) => ("✘"@, Tone::Red),
        NodeStatus::Skipped => ("-"@, Tone::DarkGray),
    }
}

fn node_icon_of(s: &NodeStatus) -> (r: (&'static str, Tone))
    ensures
        (r.0@, r.1) == node_icon(*s),
{
    match s {
        NodeStatus::Pending => ("○", Tone::DarkGray),
        NodeStatus::Running => ("⟳", Tone::Yellow),
        NodeStatus::Success => ("✔", Tone::Green),
        NodeStatus::Failed(_) => ("✘", Tone::Red),
        NodeStatus::Skipped => ("-", Tone::DarkGray),
    }
}

/// The icon and colour of a run's status.
pub open spec fn run_icon(s: RunStatus) -> (Seq<char>, Tone) {
    match s {
        RunStatus::Running => ("⟳"@, Tone::Yellow),
        RunStatus::Success => ("✔"@, Tone::Green),
        RunStatus::Failed => ("✘"@, Tone::Red),
    }
}

/// A run's entry in the runs list: its status icon, `#` and its id, and `started` (its start
/// time as the terminal's clock writes it).
pub open spec fn run_item_view(run: WorkflowRun, started: Seq<char>) -> Seq<(Seq<char>, Tone, bool)> {
    seq![
        pc(run_icon(run.status).0 + " "@, run_icon(run.status).1),
        pc("#"@ + run.id@ + " "@, Tone::White),
        pc(started, Tone::White),
    ]
}

/// A run's entry in the runs list.
pub fn run_item(run: &WorkflowRun, started: &str) -> (r: Vec<Piece>)
    ensures
        line_view(r@) == run_item_view(*run, started@),
{
    let (icon, tone): (&str, Tone) = match run.status {
        RunStatus::Running => ("⟳", Tone::Yellow),
        RunStatus::Success => ("✔", Tone::Green),
        RunStatus::Failed => ("✘", Tone::Red),
    };
    let a = cat(icon, " ");
    let b = cat("#", run.id.as_str());
    let c = cat(b.as_str(), " ");
    let r = vec![piece(a, tone), piece(c, Tone::White), lit(started, Tone::White)];
    assert(line_view(r@) =~= run_item_view(*run, started@));
    r
}

/// The entry of the next scheduled run: a clock, `next`, and the time.
pub open spec fn scheduled_item_view(at: Seq<char>) -> Seq<(Seq<char>, Tone, bool)> {
    seq![pc("🕐 "@, Tone::Cyan), pc("next "@, Tone::Cyan), pc(at, Tone::White)]
}

/// The entry of the next scheduled run.
pub fn scheduled_item(at: &str) -> (r: Vec<Piece>)
    ensures
        line_view(r@) == scheduled_item_view(at@),
{
    let r = vec![lit("🕐 ", Tone::Cyan), lit("next ", Tone::Cyan), lit(at, Tone::White)];
    assert(line_view(r@) =~= scheduled_item_view(at@));
    r
}

/// The number `n` right-aligned in two columns, then a dot (`" 7."`, `"12."`).
pub open spec fn order_label(n: nat) -> Seq<char> {
    (if n < 10 { " "@ + decimal(n) } else { decimal(n) }) + "."@
}

fn order_label_of(n: u64) -> (r: String)
    ensures
        r@ == order_label(n as nat),
{
    let d = format_u64(n);
    let mut r = if n < 10 { cat(" ", d.as_str()) } else { d };
    r.append(".");
    r
}

/// A node's entry in the node list of a run: its place in the run, its status icon, its id.
pub open spec fn node_item_view(index: nat, node_id: Seq<char>, status: NodeStatus) -> Seq<(Seq<char>, Tone, bool)> {
    seq![
        pc(order_label(index + 1) + " "@, Tone::Cyan),
        pc(node_icon(status).0 + " "@, node_icon(status).1),
        pc(node_id, Tone::White),
    ]
}

/// A node's entry in the node list of a run (`index` counts from 0).
pub fn node_item(index: usize, result: &crate::engine::NodeResult) -> (r: Vec<Piece>)
    requires
        index < u64::MAX,
    ensures
        line_view(r@) == node_item_view(index as nat, result.node_id@, result.status),
{
    let label = order_label_of(index as u64 + 1);
    let (icon, tone) = node_icon_of(&result.status);
    let a = cat(label.as_str(), " ");
    let b = cat(icon, " ");
    let r = vec![piece(a, Tone::Cyan), piece(b, tone), piece(result.node_id.clone(), Tone::White)];
    assert(line_view(r@) =~= node_item_view(index as nat, result.node_id@, result.status));
    r
}

/// The label and colour of a log level.
pub open spec fn level_label(l: LogLevel) -> (Seq<char>, Tone) {
    match l {
        LogLevel::Info => ("INFO"@, Tone::Blue),
        LogLevel::Warning => ("WARN"@, Tone::Yellow),
        LogLevel::Error => ("ERROR"@, Tone::Red),
    }
}

/// A log line: `at` (its time as the terminal's clock writes it), its level, its message.
pub open spec fn log_line_view(e: LogEntry, at: Seq<char>) -> Seq<(Seq<char>, Tone, bool)> {
    seq![
        pc(at + " "@, Tone::White),
        pc(level_label(e.level).0 + " "@, level_label(e.level).1),
        pc(e.message@, Tone::White),
    ]
}

/// A log line.
pub fn log_line(e: &LogEntry, at: &str) -> (r: Vec<Piece>)
    ensures
        line_view(r@) == log_line_view(*e, at@),
{
    let (label, tone): (&str, Tone) = match e.level {
        LogLevel::Info => ("INFO", Tone::Blue),
        LogLevel::Warning => ("WARN", Tone::Yellow),
        LogLevel::Error => ("ERROR", Tone::Red),
    };
    let a = cat(at, " ");
    let b = cat(label, " ");
    let r = vec![piece(a, Tone::White), piece(b, tone), piece(e.message.clone(), Tone::White)];
    assert(line_view(r@) =~= log_line_view(*e, at@));
    r
}

/// A shown line: its pieces' texts, colours and weights.
pub type Shown = Seq<(Seq<char>, Tone, bool)>;

fn push_line(v: &mut Vec<Vec<Piece>>, l: Vec<Piece>)
    ensures
        lines_view(final(v)@) == lines_view(old(v)@).push(line_view(l@)),
{
    let ghost before = v@;
    let ghost lv = line_view(l@);
    v.push(l);
    assert(lines_view(v@) =~= lines_view(before).push(lv));
}

fn append_lines(v: &mut Vec<Vec<Piece>>, w: Vec<Vec<Piece>>)
    ensures
        lines_view(final(v)@) == lines_view(old(v)@) + lines_view(w@),
{
    let ghost before = v@;
    let ghost wv = w@;
    let mut w = w;
    v.append(&mut w);
    assert(v@ == before + wv);
    assert(lines_view(v@) =~= lines_view(before) + lines_view(wv));
}

/// Whole milliseconds from `from` to `to` (nanoseconds), rounded toward zero, as chrono's
/// `num_milliseconds` counts them.
pub open spec fn whole_millis(from: i64, to: i64) -> int {
    let d = to - from;
    if d >= 0 {
        d / 1_000_000
    } else {
        -((-d) / 1_000_000)
    }
}

/// The `k`-th shown line of an output whose lines are `ls`: the line itself, or a `[...]`
/// mark in place of the second line when there are more than two.
pub open spec fn output_line(ls: Seq<Seq<char>>, k: int) -> Shown {
    if k == 1 && ls.len() > 2 {
        seq![pc(" │  │   └─ [...]"@, Tone::DarkGray)]
    } else {
        seq![pc(" │  │      "@ + ls[k], Tone::DarkGray)]
    }
}

/// The output section of a node in a run's details: a heading, then the output's first two
/// lines at most, the second replaced by a `[...]` mark when there are more than two.
pub open spec fn output_view(o: Seq<char>) -> Seq<Shown> {
    let ls = text_lines(o);
    let shown: nat = if ls.len() < 2 { ls.len() } else { 2 };
    seq![seq![pc(" │  ├─ "@, Tone::DarkGray), pc("Output:"@, Tone::DarkGray)]] + Seq::new(
        shown,
        |k: int| output_line(ls, k),
    )
}

fn output_lines(o: &str) -> (r: Vec<Vec<Piece>>)
    ensures
        lines_view(r@) == output_view(o@),
{
    let ls = lines_of(o);
    let ghost tl = text_lines(o@);
    let mut r: Vec<Vec<Piece>> = Vec::new();
    let h = vec![lit(" │  ├─ ", Tone::DarkGray), lit("Output:", Tone::DarkGray)];
    assert(line_view(h@) =~= seq![pc(" │  ├─ "@, Tone::DarkGray), pc("Output:"@, Tone::DarkGray)]);
    push_line(&mut r, h);
    let ghost head = lines_view(r@);
    assert(lines_view(Seq::<Vec<Piece>>::empty()) =~= Seq::<Shown>::empty());
    assert(head =~= seq![seq![pc(" │  ├─ "@, Tone::DarkGray), pc("Output:"@, Tone::DarkGray)]]);
    let shown: usize = if ls.len() < 2 { ls.len() } else { 2 };
    let many = ls.len() > 2;
    let mut k: usize = 0;
    assert(lines_view(r@) =~= head + Seq::new(0, |j: int| output_line(tl, j)));
    while k < shown
        invariant
            shown <= 2,
            shown == (if tl.len() < 2 { tl.len() } else { 2 }),
            many == (tl.len() > 2),
            ls@.len() == tl.len(),
            forall|i: int| 0 <= i < ls@.len() ==> #[trigger] ls@[i]@ == tl[i],
            k <= shown,
            head == seq![seq![pc(" │  ├─ "@, Tone::DarkGray), pc("Output:"@, Tone::DarkGray)]],
            lines_view(r@) == head + Seq::new(k as nat, |j: int| output_line(tl, j)),
        decreases shown - k,
    {
        let ghost prev = lines_view(r@);
        if k == 1 && many {
            let l = vec![lit(" │  │   └─ [...]", Tone::DarkGray)];
            assert(line_view(l@) =~= output_line(tl, k as int));
            push_line(&mut r, l);
        } else {
            let line = string_of(ls[k].as_slice());
            let text = cat(" │  │      ", line.as_str());
            let l = vec![piece(text, Tone::DarkGray)];
            assert(line_view(l@) =~= output_line(tl, k as int));
            push_line(&mut r, l);
        }
        assert(lines_view(r@) == prev.push(output_line(tl, k as int)));
        k += 1;
        assert(head + Seq::new(k as nat, |j: int| output_line(tl, j)) =~= prev.push(output_line(tl, k - 1)));
    }
    r
}

/// The arrow from the previous node to the node at `i` (none before the first).
pub open spec fn connector_lines(i: nat) -> Seq<Shown> {
    if i > 0 {
        seq![seq![pc("      │"@, Tone::DarkGray)], seq![pc("      ↓"@, Tone::DarkGray)]]
    } else {
        seq![]
    }
}

/// The heading of the node at `i`: its place in the run, its status icon and its id.
pub open spec fn node_heading(i: nat, r: NodeResult) -> Shown {
    seq![
        pc(" "@, Tone::Plain),
        pc("┌─"@, Tone::DarkGray),
        pc(order_label(i + 1), Tone::Cyan),
        pc(" "@, Tone::Plain),
        pc(node_icon(r.status).0 + " "@, node_icon(r.status).1),
        bold(r.node_id@, Tone::White),
    ]
}

/// How long a finished node took, in whole milliseconds.
pub open spec fn timing_lines(r: NodeResult) -> Seq<Shown> {
    match r.finished_at {
        Some(f) => seq![
            seq![
                pc(" │  ├─ "@, Tone::DarkGray),
                pc("Duration: "@ + signed_decimal(whole_millis(r.started_at, f)) + "ms"@, Tone::DarkGray),
            ],
        ],
        None => seq![],
    }
}

/// A note for a node still running or skipped.
pub open spec fn status_lines(r: NodeResult) -> Seq<Shown> {
    match r.status {
        NodeStatus::Running => seq![seq![pc(" │  ├─ "@, Tone::Yellow), pc("Status: Running..."@, Tone::Yellow)]],
        NodeStatus::Skipped => seq![
            seq![pc(" │  ├─ "@, Tone::DarkGray), pc("Skipped: Dependencies not met"@, Tone::DarkGray)],
        ],
        _ => seq![],
    }
}

/// The node's error when it failed, else a closing rule.
pub open spec fn closing_lines(r: NodeResult) -> Seq<Shown> {
    match r.status {
        NodeStatus::Failed(e) => seq![seq![pc(" │  └─ "@, Tone::Red), pc("Error: "@ + e@, Tone::Red)]],
        _ => seq![seq![pc(" │"@, Tone::DarkGray)]],
    }
}

/// The block of the node result `r`, the `i`-th of its run (from 0).
pub open spec fn node_block(i: nat, r: NodeResult) -> Seq<Shown> {
    connector_lines(i) + seq![node_heading(i, r)] + timing_lines(r) + status_lines(r) + (if r.output@.len()
        > 0 {
        output_view(r.output@)
    } else {
        seq![]
    }) + closing_lines(r)
}

fn node_block_lines(i: usize, r: &NodeResult) -> (v: Vec<Vec<Piece>>)
    requires
        i < u64::MAX,
    ensures
        lines_view(v@) == node_block(i as nat, *r),
{
    let mut v: Vec<Vec<Piece>> = Vec::new();
    assert(lines_view(v@) =~= Seq::<Shown>::empty());
    if i > 0 {
        let a = vec![lit("      │", Tone::DarkGray)];
        assert(line_view(a@) =~= seq![pc("      │"@, Tone::DarkGray)]);
        push_line(&mut v, a);
        let b = vec![lit("      ↓", Tone::DarkGray)];
        assert(line_view(b@) =~= seq![pc("      ↓"@, Tone::DarkGray)]);
        push_line(&mut v, b);
    }
    assert(lines_view(v@) =~= connector_lines(i as nat));
    let ghost s1 = lines_view(v@);
    let label = order_label_of(i as u64 + 1);
    let (icon, tone) = node_icon_of(&r.status);
    let icon_text = cat(icon, " ");
    let h = vec![
        lit(" ", Tone::Plain),
        lit("┌─", Tone::DarkGray),
        piece(label, Tone::Cyan),
        lit(" ", Tone::Plain),
        piece(icon_text, tone),
        strong(r.node_id.clone(), Tone::White),
    ];
    assert(line_view(h@) =~= node_heading(i as nat, *r));
    push_line(&mut v, h);
    let ghost s2 = lines_view(v@);
    assert(s2 == s1 + seq![node_heading(i as nat, *r)]);
    match r.finished_at {
        Some(f) => {
            let d: i128 = f as i128 - r.started_at as i128;
            let ms: i128 = if d >= 0 {
                d / 1_000_000
            } else {
                -((-d) / 1_000_000)
            };
            assert(ms == whole_millis(r.started_at, f));
            let digits = format_i64(ms as i64);
            let t1 = cat("Duration: ", digits.as_str());
            let t2 = cat(t1.as_str(), "ms");
            let l = vec![lit(" │  ├─ ", Tone::DarkGray), piece(t2, Tone::DarkGray)];
            assert(line_view(l@) =~= timing_lines(*r)[0]);
            push_line(&mut v, l);
        },
        None => {},
    }
    assert(lines_view(v@) =~= s2 + timing_lines(*r));
    let ghost s3 = lines_view(v@);
    match &r.status {
        NodeStatus::Running => {
            let l = vec![lit(" │  ├─ ", Tone::Yellow), lit("Status: Running...", Tone::Yellow)];
            assert(line_view(l@) =~= status_lines(*r)[0]);
            push_line(&mut v, l);
        },
        NodeStatus::Skipped => {
            let l = vec![lit(" │  ├─ ", Tone::DarkGray), lit("Skipped: Dependencies not met", Tone::DarkGray)];
            assert(line_view(l@) =~= status_lines(*r)[0]);
            push_line(&mut v, l);
        },
        _ => {},
    }
    assert(lines_view(v@) =~= s3 + status_lines(*r));
    let ghost s4 = lines_view(v@);
    let has_output = !r.output.as_str().is_empty();
    if has_output {
        let o = output_lines(r.output.as_str());
        append_lines(&mut v, o);
    }
    assert(lines_view(v@) =~= s4 + (if r.output@.len() > 0 { output_view(r.output@) } else { seq![] }));
    let ghost s5 = lines_view(v@);
    match &r.status {
        NodeStatus::Failed(e) => {
            let t = cat("Error: ", e.as_str());
            let l = vec![lit(" │  └─ ", Tone::Red), piece(t, Tone::Red)];
            assert(line_view(l@) =~= closing_lines(*r)[0]);
            push_line(&mut v, l);
        },
        _ => {
            let l = vec![lit(" │", Tone::DarkGray)];
            assert(line_view(l@) =~= closing_lines(*r)[0]);
            push_line(&mut v, l);
        },
    }
    assert(lines_view(v@) =~= s5 + closing_lines(*r));
    v
}

/// The blocks of the node results `rs`, in order.
pub open spec fn node_blocks(rs: Seq<NodeResult>) -> Seq<Shown>
    decreases rs.len(),
{
    if rs.len() == 0 {
        seq![]
    } else {
        node_blocks(rs.drop_last()) + node_block((rs.len() - 1) as nat, rs.last())
    }
}

/// How many of the results `rs` have a status that `p` holds of.
pub open spec fn count_status(rs: Seq<NodeResult>, p: spec_fn(NodeStatus) -> bool) -> nat
    decreases rs.len(),
{
    if rs.len() == 0 {
        0
    } else {
        count_status(rs.drop_last(), p) + if p(rs.last().status) { 1nat } else { 0nat }
    }
}

/// The node has finished: it is neither pending nor running.
pub open spec fn is_done(s: NodeStatus) -> bool {
    !(s is Pending || s is Running)
}

/// The summary under a run's nodes (none when it has no results): how many finished out of
/// all, and how many succeeded, failed and were skipped.
pub open spec fn summary_view(rs: Seq<NodeResult>) -> Seq<Shown> {
    if rs.len() == 0 {
        seq![]
    } else {
        let done = count_status(rs, |s: NodeStatus| is_done(s));
        let ok = count_status(rs, |s: NodeStatus| s is Success);
        let failed = count_status(rs, |s: NodeStatus| s is Failed);
        let skipped = count_status(rs, |s: NodeStatus| s is Skipped);
        seq![
            seq![],
            seq![pc(" └─ "@, Tone::DarkGray), pc("Graph Summary:"@, Tone::DarkGray)],
            seq![
                pc("    Progress: "@, Tone::DarkGray),
                pc(decimal(done) + "/"@ + decimal(rs.len()) + " nodes completed"@, Tone::White),
            ],
            seq![
                pc("    Results:  "@, Tone::DarkGray),
                pc(decimal(ok) + " ✔"@, Tone::Green),
                pc(" · "@ + decimal(failed) + " ✘"@, Tone::Red),
                pc(" · "@ + decimal(skipped) + " -"@, Tone::DarkGray),
            ],
        ]
    }
}

/// The head of a run's details: workflow, run id, start time (UTC, `%H:%M:%S`).
pub open spec fn details_head(run: WorkflowRun) -> Seq<Shown> {
    seq![
        seq![pc("Workflow: "@, Tone::DarkGray), bold(run.workflow_name@, Tone::White)],
        seq![pc("Run ID:   "@, Tone::DarkGray), pc("#"@ + run.id@, Tone::Cyan)],
        seq![pc("Started:  "@, Tone::DarkGray), pc(clock_text(run.started_at), Tone::White)],
        seq![],
        seq![pc("Execution Graph:"@, Tone::DarkGray)],
        seq![],
    ]
}

/// A run's details: its head, a block per node result in order, and the summary.
pub open spec fn run_details_view(run: WorkflowRun) -> Seq<Shown> {
    details_head(run) + node_blocks(run.node_results@) + summary_view(run.node_results@)
}

fn counts_of(rs: &[NodeResult]) -> (c: (u64, u64, u64, u64))
    requires
        rs@.len() < u64::MAX,
    ensures
        c.0 == count_status(rs@, |s: NodeStatus| is_done(s)),
        c.1 == count_status(rs@, |s: NodeStatus| s is Success),
        c.2 == count_status(rs@, |s: NodeStatus| s is Failed),
        c.3 == count_status(rs@, |s: NodeStatus| s is Skipped),
{
    let ghost pd = |s: NodeStatus| is_done(s);
    let ghost po = |s: NodeStatus| s is Success;
    let ghost pf = |s: NodeStatus| s is Failed;
    let ghost ps = |s: NodeStatus| s is Skipped;
    let mut done: u64 = 0;
    let mut ok: u64 = 0;
    let mut failed: u64 = 0;
    let mut skipped: u64 = 0;
    let mut i: usize = 0;
    assert(rs@.take(0) =~= Seq::<NodeResult>::empty());
    while i < rs.len()
        invariant
            rs@.len() < u64::MAX,
            i <= rs@.len(),
            pd == (|s: NodeStatus| is_done(s)),
            po == (|s: NodeStatus| s is Success),
            pf == (|s: NodeStatus| s is Failed),
            ps == (|s: NodeStatus| s is Skipped),
            done == count_status(rs@.take(i as int), pd),
            ok == count_status(rs@.take(i as int), po),
            failed == count_status(rs@.take(i as int), pf),
            skipped == count_status(rs@.take(i as int), ps),
            done <= i && ok <= i && failed <= i && skipped <= i,
        decreases rs@.len() - i,
    {
        assert(rs@.take(i + 1).drop_last() == rs@.take(i as int));
        assert(rs@.take(i + 1).last() == rs@[i as int]);
        match &rs[i].status {
            NodeStatus::Pending => {},
            NodeStatus::Running => {},
            NodeStatus::Success => {
                done += 1;
                ok += 1;
            },
            NodeStatus::Failed(_) => {
                done += 1;
                failed += 1;
            },
            NodeStatus::Skipped => {
                done += 1;
                skipped += 1;
            },
        }
        i += 1;
    }
    assert(rs@.take(i as int) == rs@);
    (done, ok, failed, skipped)
}

fn summary_lines(rs: &[NodeResult]) -> (v: Vec<Vec<Piece>>)
    requires
        rs@.len() < u64::MAX,
    ensures
        lines_view(v@) == summary_view(rs@),
{
    let mut v: Vec<Vec<Piece>> = Vec::new();
    if rs.len() == 0 {
        assert(lines_view(v@) =~= summary_view(rs@));
        return v;
    }
    let (done, ok, failed, skipped) = counts_of(rs);
    let ghost want = summary_view(rs@);
    let e: Vec<Piece> = Vec::new();
    assert(line_view(e@) =~= want[0]);
    push_line(&mut v, e);
    let a = vec![lit(" └─ ", Tone::DarkGray), lit("Graph Summary:", Tone::DarkGray)];
    assert(line_view(a@) =~= want[1]);
    push_line(&mut v, a);
    let d = format_u64(done);
    let t = format_u64(rs.len() as u64);
    let p1 = cat(d.as_str(), "/");
    let p2 = cat(p1.as_str(), t.as_str());
    let p3 = cat(p2.as_str(), " nodes completed");
    let b = vec![lit("    Progress: ", Tone::DarkGray), piece(p3, Tone::White)];
    assert(line_view(b@) =~= want[2]);
    push_line(&mut v, b);
    let o = format_u64(ok);
    let f = format_u64(failed);
    let k = format_u64(skipped);
    let q1 = cat(o.as_str(), " ✔");
    let q2a = cat(" · ", f.as_str());
    let q2 = cat(q2a.as_str(), " ✘");
    let q3a = cat(" · ", k.as_str());
    let q3 = cat(q3a.as_str(), " -");
    let c = vec![
        lit("    Results:  ", Tone::DarkGray),
        piece(q1, Tone::Green),
        piece(q2, Tone::Red),
        piece(q3, Tone::DarkGray),
    ];
    assert(line_view(c@) =~= want[3]);
    push_line(&mut v, c);
    assert(lines_view(v@) =~= want);
    v
}

/// A run's details, as `run_details_view` lays them out: what the results panel shows for a
/// selected run.
pub fn run_details(run: &WorkflowRun) -> (v: Vec<Vec<Piece>>)
    requires
        run.node_results@.len() < u64::MAX,
    ensures
        lines_view(v@) == run_details_view(*run),
{
    let rs = &run.node_results;
    let mut v: Vec<Vec<Piece>> = Vec::new();
    let ghost head = details_head(*run);
    let l0 = vec![lit("Workflow: ", Tone::DarkGray), strong(run.workflow_name.clone(), Tone::White)];
    assert(line_view(l0@) =~= head[0]);
    push_line(&mut v, l0);
    let id = cat("#", run.id.as_str());
    let l1 = vec![lit("Run ID:   ", Tone::DarkGray), piece(id, Tone::Cyan)];
    assert(line_view(l1@) =~= head[1]);
    push_line(&mut v, l1);
    let started = clock_text_of(run.started_at);
    let l2 = vec![lit("Started:  ", Tone::DarkGray), piece(started, Tone::White)];
    assert(line_view(l2@) =~= head[2]);
    push_line(&mut v, l2);
    let l3: Vec<Piece> = Vec::new();
    assert(line_view(l3@) =~= head[3]);
    push_line(&mut v, l3);
    let l4 = vec![lit("Execution Graph:", Tone::DarkGray)];
    assert(line_view(l4@) =~= head[4]);
    push_line(&mut v, l4);
    let l5: Vec<Piece> = Vec::new();
    assert(line_view(l5@) =~= head[5]);
    push_line(&mut v, l5);
    assert(lines_view(v@) =~= head);
    let mut i: usize = 0;
    assert(rs@.take(0) =~= Seq::<NodeResult>::empty());
    while i < rs.len()
        invariant
            rs@ == run.node_results@,
            rs@.len() < u64::MAX,
            i <= rs@.len(),
            lines_view(v@) == head + node_blocks(rs@.take(i as int)),
        decreases rs@.len() - i,
    {
        let block = node_block_lines(i, &rs[i]);
        append_lines(&mut v, block);
        assert(rs@.take(i + 1).drop_last() == rs@.take(i as int));
        assert(rs@.take(i + 1).last() == rs@[i as int]);
        i += 1;
        assert(lines_view(v@) =~= head + node_blocks(rs@.take(i as int)));
    }
    assert(rs@.take(i as int) == rs@);
    let tail = summary_lines(rs.as_slice());
    append_lines(&mut v, tail);
    v
}

/// Whole seconds from `from` to `to` (nanoseconds), rounded toward zero, as chrono's
/// `num_seconds` counts them.
pub open spec fn whole_seconds(from: i64, to: i64) -> int {
    let d = to - from;
    if d >= 0 {
        d / 1_000_000_000
    } else {
        -((-d) / 1_000_000_000)
    }
}

/// Lines of plain text.
pub open spec fn plain_lines(texts: Seq<Seq<char>>) -> Seq<Shown> {
    texts.map_values(|t: Seq<char>| if t.len() == 0 { seq![] } else { seq![pc(t, Tone::Plain)] })
}

/// The details of the next scheduled run of `name`, due at `next` (nanoseconds), at `now`:
/// `when` is that time as the terminal's clock writes it.
pub open spec fn scheduled_view(name: Seq<char>, next: i64, now: i64, when: Seq<char>) -> Seq<Shown> {
    seq![
        seq![],
        seq![pc("Workflow: "@, Tone::DarkGray), bold(name, Tone::White)],
        seq![],
        seq![pc("Status: "@, Tone::DarkGray), pc("Scheduled"@, Tone::Cyan)],
        seq![],
        seq![pc("Next Run: "@, Tone::DarkGray), pc(when, Tone::White)],
        seq![],
        seq![pc("In: "@, Tone::DarkGray), pc(duration_text(whole_seconds(now, next)), Tone::Cyan)],
        seq![],
        seq![pc("This run will be triggered automatically by the cron scheduler."@, Tone::Plain)],
    ]
}

/// What the results panel of the workflows screen shows: a note when there are no workflows
/// (naming the directory they are read from) or no runs, else the details of the selected
/// entry of the runs list (a run, or the next scheduled run), or nothing when no entry is
/// selected. `when` is the scheduled time as the terminal's clock writes it.
pub open spec fn results_view(
    dir: Seq<char>,
    workflow_count: nat,
    entries: Seq<RunOrScheduled>,
    runs: Seq<WorkflowRun>,
    selected: int,
    now: i64,
    when: Seq<char>,
) -> Seq<Shown> {
    if workflow_count == 0 {
        plain_lines(seq![""@, "No workflows found."@, ""@, "Create a workflow YAML file in the"@,
            dir + " directory."@, ""@, "Press 't' to refresh and trigger workflows."@])
    } else if entries.len() == 0 {
        plain_lines(seq![""@, "No runs for this workflow yet."@, ""@, "Press 't' to trigger the workflow."@])
    } else if 0 <= selected < entries.len() {
        match entries[selected] {
            RunOrScheduled::ActualRun(k) => if (k as int) < runs.len() {
                run_details_view(runs[k as int])
            } else {
                seq![]
            },
            RunOrScheduled::ScheduledRun { workflow_name, next_run } => scheduled_view(
                workflow_name@,
                next_run,
                now,
                when,
            ),
        }
    } else {
        seq![]
    }
}

fn plain_lines_of(texts: &[&str]) -> (v: Vec<Vec<Piece>>)
    ensures
        lines_view(v@) == plain_lines(texts@.map_values(|t: &str| t@)),
{
    let ghost want = plain_lines(texts@.map_values(|t: &str| t@));
    let mut v: Vec<Vec<Piece>> = Vec::new();
    let mut i: usize = 0;
    while i < texts.len()
        invariant
            i <= texts@.len(),
            want == plain_lines(texts@.map_values(|t: &str| t@)),
            lines_view(v@) == want.take(i as int),
        decreases texts@.len() - i,
    {
        let t = texts[i];
        let l: Vec<Piece> = if t.is_empty() { Vec::new() } else { vec![lit(t, Tone::Plain)] };
        assert(line_view(l@) =~= want[i as int]);
        push_line(&mut v, l);
        i += 1;
        assert(lines_view(v@) =~= want.take(i as int));
    }
    assert(want.take(i as int) == want);
    v
}

/// The results panel of the workflows screen, as `results_view` lays it out.
pub fn results_lines(
    dir: &str,
    workflow_count: usize,
    entries: &[RunOrScheduled],
    runs: &[WorkflowRun],
    selected: usize,
    now: i64,
    when: &str,
) -> (v: Vec<Vec<Piece>>)
    requires
        forall|k: int| 0 <= k < runs@.len() ==> (#[trigger] runs@[k]).node_results@.len() < u64::MAX,
    ensures
        lines_view(v@) == results_view(dir@, workflow_count as nat, entries@, runs@, selected as int, now, when@),
{
    let ghost want = results_view(dir@, workflow_count as nat, entries@, runs@, selected as int, now, when@);
    if workflow_count == 0 {
        let last = cat(dir, " directory.");
        let texts = [
            "",
            "No workflows found.",
            "",
            "Create a workflow YAML file in the",
            last.as_str(),
            "",
            "Press 't' to refresh and trigger workflows.",
        ];
        let v = plain_lines_of(&texts);
        assert(texts@.map_values(|t: &str| t@) =~= seq![""@, "No workflows found."@, ""@,
            "Create a workflow YAML file in the"@, dir@ + " directory."@, ""@,
            "Press 't' to refresh and trigger workflows."@]);
        return v;
    }
    if entries.len() == 0 {
        let texts = ["", "No runs for this workflow yet.", "", "Press 't' to trigger the workflow."];
        let v = plain_lines_of(&texts);
        assert(texts@.map_values(|t: &str| t@) =~= seq![""@, "No runs for this workflow yet."@, ""@,
            "Press 't' to trigger the workflow."@]);
        return v;
    }
    let mut v: Vec<Vec<Piece>> = Vec::new();
    if selected < entries.len() {
        match &entries[selected] {
            RunOrScheduled::ActualRun(k) => {
                if *k < runs.len() {
                    return run_details(&runs[*k]);
                }
            },
            RunOrScheduled::ScheduledRun { workflow_name, next_run } => {
                let d: i128 = *next_run as i128 - now as i128;
                let secs: i128 = if d >= 0 {
                    d / 1_000_000_000
                } else {
                    -((-d) / 1_000_000_000)
                };
                let within = format_duration(secs as i64);
                let e0: Vec<Piece> = Vec::new();
                let l1 = vec![lit("Workflow: ", Tone::DarkGray), strong(workflow_name.clone(), Tone::White)];
                let e2: Vec<Piece> = Vec::new();
                let l3 = vec![lit("Status: ", Tone::DarkGray), lit("Scheduled", Tone::Cyan)];
                let e4: Vec<Piece> = Vec::new();
                let l5 = vec![lit("Next Run: ", Tone::DarkGray), lit(when, Tone::White)];
                let e6: Vec<Piece> = Vec::new();
                let l7 = vec![lit("In: ", Tone::DarkGray), piece(within, Tone::Cyan)];
                let e8: Vec<Piece> = Vec::new();
                let l9 = vec![lit("This run will be triggered automatically by the cron scheduler.", Tone::Plain)];
                assert(line_view(e0@) =~= want[0]);
                assert(line_view(l1@) =~= want[1]);
                assert(line_view(e2@) =~= want[2]);
                assert(line_view(l3@) =~= want[3]);
                assert(line_view(e4@) =~= want[4]);
                assert(line_view(l5@) =~= want[5]);
                assert(line_view(e6@) =~= want[6]);
                assert(line_view(l7@) =~= want[7]);
                assert(line_view(e8@) =~= want[8]);
                assert(line_view(l9@) =~= want[9]);
                push_line(&mut v, e0);
                push_line(&mut v, l1);
                push_line(&mut v, e2);
                push_line(&mut v, l3);
                push_line(&mut v, e4);
                push_line(&mut v, l5);
                push_line(&mut v, e6);
                push_line(&mut v, l7);
                push_line(&mut v, e8);
                push_line(&mut v, l9);
                assert(lines_view(v@) =~= want);
                return v;
            },
        }
    }
    assert(lines_view(v@) =~= want);
    v
}

/// A node's line in the `run` command's report: an icon (`✔` success, `✘` failure, `-`
/// otherwise), its id in brackets, its output.
pub open spec fn report_line(r: NodeResult) -> Seq<char> {
    "  "@ + (match r.status {
        NodeStatus::Success => "✔"@,
        NodeStatus::Failed(_) => "✘"@,
        _ => "-"@,
    }) + " ["@ + r.node_id@ + "] "@ + r.output@
}

/// The report the `run` command prints for a finished run, a line per node.
pub fn run_report(run: &WorkflowRun) -> (r: Vec<String>)
    ensures
        r@.len() == run.node_results@.len(),
        forall|k: int| 0 <= k < r@.len() ==> #[trigger] r@[k]@ == report_line(run.node_results@[k]),
{
    let mut r: Vec<String> = Vec::new();
    let mut i: usize = 0;
    while i < run.node_results.len()
        invariant
            i <= run.node_results@.len(),
            r@.len() == i,
            forall|k: int| 0 <= k < i ==> #[trigger] r@[k]@ == report_line(run.node_results@[k]),
        decreases run.node_results@.len() - i,
    {
        let res = &run.node_results[i];
        let icon: &str = match &res.status {
            NodeStatus::Success => "✔",
            NodeStatus::Failed(_) => "✘",
            _ => "-",
        };
        let a = cat("  ", icon);
        let b = cat(a.as_str(), " [");
        let c = cat(b.as_str(), res.node_id.as_str());
        let d = cat(c.as_str(), "] ");
        r.push(cat(d.as_str(), res.output.as_str()));
        i += 1;
    }
    r
}

/// The colour code the service's console gives a log level: cyan, yellow or red.
pub open spec fn console_colour(l: LogLevel) -> Seq<char> {
    match l {
        LogLevel::Info => "\x1b[36m"@,
        LogLevel::Warning => "\x1b[33m"@,
        LogLevel::Error => "\x1b[31m"@,
    }
}

/// A log line on the service's console: the workflow in brackets in the level's colour, the
/// time (UTC, `%H:%M:%S`) in grey, the message.
pub open spec fn console_line(name: Seq<char>, e: LogEntry) -> Seq<char> {
    console_colour(e.level) + "["@ + name + "]\x1b[0m \x1b[90m"@ + clock_text(e.timestamp) + "\x1b[0m "@
        + e.message@
}

/// A log line as the service prints it.
pub fn console_log_line(name: &str, e: &LogEntry) -> (r: String)
    ensures
        r@ == console_line(name@, *e),
{
    let colour: &str = match e.level {
        LogLevel::Info => "\x1b[36m",
        LogLevel::Warning => "\x1b[33m",
        LogLevel::Error => "\x1b[31m",
    };
    let a = cat(colour, "[");
    let b = cat(a.as_str(), name);
    let c = cat(b.as_str(), "]\x1b[0m \x1b[90m");
    let t = clock_text_of(e.timestamp);
    let d = cat(c.as_str(), t.as_str());
    let f = cat(d.as_str(), "\x1b[0m ");
    cat(f.as_str(), e.message.as_str())
}

/// The name and colour of a node's status on the node detail screen.
pub open spec fn status_label(s: NodeStatus) -> (Seq<char>, Tone) {
    match s {
        NodeStatus::Pending => ("Pending"@, Tone::DarkGray),
        NodeStatus::Running => ("Running"@, Tone::Yellow),
        NodeStatus::Success => ("Success"@, Tone::Green),
        NodeStatus::Failed(_) => ("Failed"@, Tone::Red),
        NodeStatus::Skipped => ("Skipped"@, Tone::DarkGray),
    }
}

/// Each text line as a line of one piece.
pub open spec fn text_block(lines: Seq<Seq<char>>, prefix: Seq<char>, tone: Tone) -> Seq<Shown> {
    lines.map_values(|l: Seq<char>| seq![pc(prefix + l, tone)])
}

/// The rule under a section heading.
pub open spec fn rule() -> Seq<char> {
    "───────────────────"@
}

/// The head of the node detail account: id, status, start, and (when finished) end and
/// duration, then a blank line.
pub open spec fn detail_head(r: NodeResult, started: Seq<char>, finished: Seq<char>) -> Seq<Shown> {
    seq![
        seq![pc("Node: "@, Tone::DarkGray), bold(r.node_id@, Tone::White)],
        seq![pc("Status: "@, Tone::DarkGray), pc(status_label(r.status).0, status_label(r.status).1)],
        seq![pc("Started: "@, Tone::DarkGray), pc(started, Tone::White)],
    ] + (match r.finished_at {
        Some(f) => seq![
            seq![pc("Finished: "@, Tone::DarkGray), pc(finished, Tone::White)],
            seq![pc("Duration: "@, Tone::DarkGray), pc(signed_decimal(whole_millis(r.started_at, f)) + "ms"@, Tone::White)],
        ],
        None => seq![],
    }) + seq![seq![]]
}

/// The error of a failed node, line by line, then a blank line.
pub open spec fn error_section(r: NodeResult) -> Seq<Shown> {
    match r.status {
        NodeStatus::Failed(e) => seq![seq![pc("Error: "@, Tone::Red)]] + text_block(text_lines(e@), "  "@, Tone::Red) + seq![seq![]],
        _ => seq![],
    }
}

/// The node's output under a heading, then a blank line (nothing without output).
pub open spec fn output_section(r: NodeResult) -> Seq<Shown> {
    if r.output@.len() > 0 {
        seq![seq![bold("Shell Output:"@, Tone::Yellow)], seq![pc(rule(), Tone::Plain)]] + text_block(text_lines(r.output@), ""@, Tone::White)
            + seq![seq![]]
    } else {
        seq![]
    }
}

/// The node's response under a heading, as indented JSON (`pretty`) or a note that it could
/// not be written (nothing without a response).
pub open spec fn response_section(r: NodeResult, pretty: Option<Seq<char>>) -> Seq<Shown> {
    match r.response_data {
        Some(_) => seq![seq![bold("API Response:"@, Tone::Magenta)], seq![pc(rule(), Tone::Plain)]] + match pretty {
            Some(p) => text_block(text_lines(p), ""@, Tone::Magenta),
            None => seq![seq![pc("Failed to format JSON"@, Tone::Red)]],
        },
        None => seq![],
    }
}

/// The node detail screen's account of the node result `r`: its id, status, start (and,
/// when finished, end and duration), its error, its output, and its response. `started` and
/// `finished` are its times as the terminal's clock writes them; `pretty` is the response as
/// indented JSON, when it could be written.
pub open spec fn node_detail_view(r: NodeResult, started: Seq<char>, finished: Seq<char>, pretty: Option<Seq<char>>) -> Seq<Shown> {
    detail_head(r, started, finished) + error_section(r) + output_section(r) + response_section(r, pretty)
}

fn text_block_lines(text: &str, prefix: &str, tone: Tone) -> (v: Vec<Vec<Piece>>)
    ensures
        lines_view(v@) == text_block(text_lines(text@), prefix@, tone),
{
    let ls = lines_of(text);
    let ghost tl = text_lines(text@);
    let mut v: Vec<Vec<Piece>> = Vec::new();
    let mut i: usize = 0;
    while i < ls.len()
        invariant
            i <= ls@.len(),
            ls@.len() == tl.len(),
            forall|k: int| 0 <= k < ls@.len() ==> #[trigger] ls@[k]@ == tl[k],
            lines_view(v@) == text_block(tl.take(i as int), prefix@, tone),
        decreases ls@.len() - i,
    {
        let line = string_of(ls[i].as_slice());
        let l = vec![piece(cat(prefix, line.as_str()), tone)];
        assert(line_view(l@) =~= seq![pc(prefix@ + tl[i as int], tone)]);
        push_line(&mut v, l);
        i += 1;
        assert(lines_view(v@) =~= text_block(tl.take(i as int), prefix@, tone));
    }
    assert(tl.take(i as int) == tl);
    v
}

fn detail_head_lines(r: &NodeResult, started: &str, finished: &str) -> (v: Vec<Vec<Piece>>)
    ensures
        lines_view(v@) == detail_head(*r, started@, finished@),
{
    let mut v: Vec<Vec<Piece>> = Vec::new();
    let (label, tone): (&str, Tone) = match &r.status {
        NodeStatus::Pending => ("Pending", Tone::DarkGray),
        NodeStatus::Running => ("Running", Tone::Yellow),
        NodeStatus::Success => ("Success", Tone::Green),
        NodeStatus::Failed(_) => ("Failed", Tone::Red),
        NodeStatus::Skipped => ("Skipped", Tone::DarkGray),
    };
    let ghost want = detail_head(*r, started@, finished@);
    let a = vec![lit("Node: ", Tone::DarkGray), strong(r.node_id.clone(), Tone::White)];
    let b = vec![lit("Status: ", Tone::DarkGray), lit(label, tone)];
    let c = vec![lit("Started: ", Tone::DarkGray), lit(started, Tone::White)];
    assert(line_view(a@) =~= want[0]);
    assert(line_view(b@) =~= want[1]);
    assert(line_view(c@) =~= want[2]);
    push_line(&mut v, a);
    push_line(&mut v, b);
    push_line(&mut v, c);
    match r.finished_at {
        Some(f) => {
            let d = vec![lit("Finished: ", Tone::DarkGray), lit(finished, Tone::White)];
            assert(line_view(d@) =~= want[3]);
            push_line(&mut v, d);
            let diff: i128 = f as i128 - r.started_at as i128;
            let ms: i128 = if diff >= 0 {
                diff / 1_000_000
            } else {
                -((-diff) / 1_000_000)
            };
            assert(ms == whole_millis(r.started_at, f));
            let digits = format_i64(ms as i64);
            let e = vec![lit("Duration: ", Tone::DarkGray), piece(cat(digits.as_str(), "ms"), Tone::White)];
            assert(line_view(e@) =~= want[4]);
            push_line(&mut v, e);
        },
        None => {},
    }
    let blank: Vec<Piece> = Vec::new();
    assert(line_view(blank@) =~= want[want.len() - 1]);
    push_line(&mut v, blank);
    assert(lines_view(v@) =~= want);
    v
}

fn error_section_lines(r: &NodeResult) -> (v: Vec<Vec<Piece>>)
    ensures
        lines_view(v@) == error_section(*r),
{
    let mut v: Vec<Vec<Piece>> = Vec::new();
    match &r.status {
        NodeStatus::Failed(err) => {
            let h = vec![lit("Error: ", Tone::Red)];
            assert(line_view(h@) =~= seq![pc("Error: "@, Tone::Red)]);
            push_line(&mut v, h);
            let block = text_block_lines(err.as_str(), "  ", Tone::Red);
            append_lines(&mut v, block);
            let e2: Vec<Piece> = Vec::new();
            assert(line_view(e2@) =~= Seq::<(Seq<char>, Tone, bool)>::empty());
            push_line(&mut v, e2);
        },
        _ => {},
    }
    assert(lines_view(v@) =~= error_section(*r));
    v
}

fn output_section_lines(r: &NodeResult) -> (v: Vec<Vec<Piece>>)
    ensures
        lines_view(v@) == output_section(*r),
{
    let mut v: Vec<Vec<Piece>> = Vec::new();
    if !r.output.as_str().is_empty() {
        let h = vec![strong("Shell Output:".to_string(), Tone::Yellow)];
        assert(line_view(h@) =~= seq![bold("Shell Output:"@, Tone::Yellow)]);
        push_line(&mut v, h);
        let rl = vec![lit("───────────────────", Tone::Plain)];
        assert(line_view(rl@) =~= seq![pc(rule(), Tone::Plain)]);
        push_line(&mut v, rl);
        let block = text_block_lines(r.output.as_str(), "", Tone::White);
        proof {
            reveal_strlit("");
        }
        append_lines(&mut v, block);
        let e3: Vec<Piece> = Vec::new();
        assert(line_view(e3@) =~= Seq::<(Seq<char>, Tone, bool)>::empty());
        push_line(&mut v, e3);
    }
    assert(lines_view(v@) =~= output_section(*r));
    v
}

fn response_section_lines(r: &NodeResult, pretty: Option<&str>) -> (v: Vec<Vec<Piece>>)
    ensures
        lines_view(v@) == response_section(*r, match pretty {
            Some(p) => Some(p@),
            None => None,
        }),
{
    let mut v: Vec<Vec<Piece>> = Vec::new();
    match &r.response_data {
        Some(_) => {
            let h = vec![strong("API Response:".to_string(), Tone::Magenta)];
            assert(line_view(h@) =~= seq![bold("API Response:"@, Tone::Magenta)]);
            push_line(&mut v, h);
            let rl = vec![lit("───────────────────", Tone::Plain)];
            assert(line_view(rl@) =~= seq![pc(rule(), Tone::Plain)]);
            push_line(&mut v, rl);
            match pretty {
                Some(p) => {
                    let block = text_block_lines(p, "", Tone::Magenta);
                    append_lines(&mut v, block);
                },
                None => {
                    let l = vec![lit("Failed to format JSON", Tone::Red)];
                    assert(line_view(l@) =~= seq![pc("Failed to format JSON"@, Tone::Red)]);
                    push_line(&mut v, l);
                },
            }
        },
        None => {},
    }
    assert(lines_view(v@) =~= response_section(*r, match pretty {
        Some(p) => Some(p@),
        None => None,
    }));
    v
}

/// The node detail screen's account of a node result, as `node_detail_view` lays it out.
pub fn node_detail_lines(r: &NodeResult, started: &str, finished: &str, pretty: Option<&str>) -> (v: Vec<Vec<Piece>>)
    ensures
        lines_view(v@) == node_detail_view(*r, started@, finished@, match pretty {
            Some(p) => Some(p@),
            None => None,
        }),
{
    let mut v = detail_head_lines(r, started, finished);
    let e = error_section_lines(r);
    append_lines(&mut v, e);
    let o = output_section_lines(r);
    append_lines(&mut v, o);
    let p = response_section_lines(r, pretty);
    append_lines(&mut v, p);
    v
}

/// The header line: whether this dashboard is connected to a running service or runs the
/// engine itself.
pub open spec fn status_header_view(service_mode: bool) -> Shown {
    if service_mode {
        seq![
            pc("🔗 "@, Tone::Green),
            pc("Connected to Flowt service"@, Tone::Green),
            pc(" • Jobs running by other instances"@, Tone::DarkGray),
        ]
    } else {
        seq![
            pc("⚡ "@, Tone::Cyan),
            pc("TUI Engine Mode"@, Tone::Cyan),
            pc(" • Jobs active in this session"@, Tone::DarkGray),
        ]
    }
}

/// The header line of the dashboard.
pub fn status_header(service_mode: bool) -> (l: Vec<Piece>)
    ensures
        line_view(l@) == status_header_view(service_mode),
{
    let l = if service_mode {
        vec![
            lit("🔗 ", Tone::Green),
            lit("Connected to Flowt service", Tone::Green),
            lit(" • Jobs running by other instances", Tone::DarkGray),
        ]
    } else {
        vec![
            lit("⚡ ", Tone::Cyan),
            lit("TUI Engine Mode", Tone::Cyan),
            lit(" • Jobs active in this session", Tone::DarkGray),
        ]
    };
    assert(line_view(l@) =~= status_header_view(service_mode));
    l
}

} // verus!

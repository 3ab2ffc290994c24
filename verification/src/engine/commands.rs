//! The shell side of nodes: the `curl` command an HTTP node runs, and how a command's
//! exit and output become a node's outcome.
use vstd::prelude::*;
use crate::config::StringMap;
use crate::engine::NodeStatus;
use crate::text::{chars_of, decimal, format_u64, parse_unsigned, parse_unsigned_text, trim, trimmed};

verus! {

/// What `str::to_uppercase` gives for `s` (the Unicode upper-case mapping).
pub uninterp spec fn uppercase(s: Seq<char>) -> Seq<char>;

/// Calls `str::to_uppercase`; the result is named `uppercase(s)`.
#[verifier::external_body]
fn to_upper(s: &str) -> (r: String)
    ensures
        r@ == uppercase(s@),
{
    s.to_uppercase()
}

fn push_chars(out: &mut String, cs: &[char])
    ensures
        final(out)@ == old(out)@ + cs@,
{
    let mut i: usize = 0;
    while i < cs.len()
        invariant
            i <= cs@.len(),
            out@ == old(out)@ + cs@.take(i as int),
        decreases cs@.len() - i,
    {
        out.push(cs[i]);
        i += 1;
        assert(cs@.take(i as int) == cs@.take(i - 1).push(cs@[i - 1]));
    }
    assert(cs@.take(cs@.len() as int) == cs@);
}

fn push_str(out: &mut String, s: &str)
    ensures
        final(out)@ == old(out)@ + s@,
{
    out.append(s);
}

/// ` -H 'key: value'` for each header, in order.
pub open spec fn header_args(hs: Seq<(String, String)>) -> Seq<char>
    decreases hs.len(),
{
    if hs.len() == 0 {
        seq![]
    } else {
        header_args(hs.drop_last()) + seq![' ', '-', 'H', ' ', '\''] + hs.last().0@ + seq![':', ' ']
            + hs.last().1@ + seq!['\'']
    }
}

/// The shell command that makes an HTTP node's request with curl: the response body goes
/// to `<cache_dir>/flowt_<run_id>`, the status code to standard output.
pub open spec fn curl_command_text(
    cache_dir: Seq<char>,
    run_id: Seq<char>,
    method: Seq<char>,
    url: Seq<char>,
    headers: Seq<(String, String)>,
    body: Option<Seq<char>>,
) -> Seq<char> {
    seq!['c', 'u', 'r', 'l', ' ', '-', 's', ' ', '-', 'o', ' '] + cache_dir + seq!['/', 'f', 'l', 'o', 'w', 't', '_']
        + run_id + seq![' ', '-', 'w', ' ', '\'', '%', '{', 'h', 't', 't', 'p', '_', 'c', 'o', 'd', 'e', '}', '\'', ' ', '-', 'X', ' ']
        + uppercase(method) + header_args(headers) + match body {
        Some(b) => seq![' ', '-', 'd', ' ', '\''] + b + seq!['\''],
        None => seq![],
    } + seq![' ', '\''] + url + seq!['\'']
}

/// The curl argument that sends the header `key: value`: ` -H 'key: value'`.
pub open spec fn header_flag(key: Seq<char>, value: Seq<char>) -> Seq<char> {
    " -H '"@ + key + ": "@ + value + "'"@
}

proof fn lemma_header_args_step(hs: Seq<(String, String)>, m: int)
    requires
        0 <= m < hs.len(),
    ensures
        header_args(hs.take(m + 1)) == header_args(hs.take(m)) + header_flag(hs[m].0@, hs[m].1@),
{
    reveal_strlit(" -H '");
    reveal_strlit(": ");
    reveal_strlit("'");
    assert(hs.take(m + 1).drop_last() == hs.take(m));
    assert(hs.take(m + 1).last() == hs[m]);
    assert(header_args(hs.take(m + 1)) =~= header_args(hs.take(m)) + header_flag(hs[m].0@, hs[m].1@));
}

proof fn lemma_header_args_prefix(hs: Seq<(String, String)>, m: int)
    requires
        0 <= m <= hs.len(),
    ensures
        header_args(hs.take(m)).len() <= header_args(hs).len(),
        header_args(hs).subrange(0, header_args(hs.take(m)).len() as int) == header_args(hs.take(m)),
    decreases hs.len() - m,
{
    if m == hs.len() {
        assert(hs.take(m) == hs);
    } else {
        lemma_header_args_prefix(hs, m + 1);
        lemma_header_args_step(hs, m);
        let a = header_args(hs.take(m));
        let b = header_args(hs.take(m + 1));
        assert(header_args(hs).subrange(0, a.len() as int) == b.subrange(0, a.len() as int));
    }
}

/// Every header of an HTTP node is sent: the curl command holds ` -H 'key: value'` for each
/// header entry, one after another in the order of the entries, none overlapping another.
pub proof fn lemma_every_header_sent(
    cache_dir: Seq<char>,
    run_id: Seq<char>,
    method: Seq<char>,
    url: Seq<char>,
    headers: Seq<(String, String)>,
    body: Option<Seq<char>>,
)
    ensures
        exists|ps: Seq<int>|
            #![trigger ps.len()]
            {
                let cmd = curl_command_text(cache_dir, run_id, method, url, headers, body);
                &&& ps.len() == headers.len()
                &&& forall|k: int|
                    0 <= k < headers.len() ==> {
                        let f = header_flag(headers[k].0@, headers[k].1@);
                        &&& 0 <= #[trigger] ps[k]
                        &&& ps[k] + f.len() <= cmd.len()
                        &&& cmd.subrange(ps[k], ps[k] + f.len()) == f
                    }
                &&& forall|k: int|
                    0 <= k < headers.len() - 1 ==> #[trigger] ps[k] + header_flag(headers[k].0@, headers[k].1@).len()
                        <= ps[k + 1]
            },
{
    let cmd = curl_command_text(cache_dir, run_id, method, url, headers, body);
    let a = seq!['c', 'u', 'r', 'l', ' ', '-', 's', ' ', '-', 'o', ' '] + cache_dir + seq!['/', 'f', 'l', 'o', 'w', 't', '_']
        + run_id + seq![' ', '-', 'w', ' ', '\'', '%', '{', 'h', 't', 't', 'p', '_', 'c', 'o', 'd', 'e', '}', '\'', ' ', '-', 'X', ' ']
        + uppercase(method);
    let h = header_args(headers);
    let rest = match body {
        Some(b) => seq![' ', '-', 'd', ' ', '\''] + b + seq!['\''],
        None => seq![],
    } + seq![' ', '\''] + url + seq!['\''];
    assert(cmd =~= a + h + rest);
    let ps: Seq<int> = Seq::new(headers.len(), |k: int| (a.len() + header_args(headers.take(k)).len()) as int);
    assert forall|k: int| 0 <= k < headers.len() implies {
        let f = header_flag(headers[k].0@, headers[k].1@);
        &&& 0 <= #[trigger] ps[k]
        &&& ps[k] + f.len() <= cmd.len()
        &&& cmd.subrange(ps[k], ps[k] + f.len()) == f
    } by {
        let f = header_flag(headers[k].0@, headers[k].1@);
        lemma_header_args_step(headers, k);
        lemma_header_args_prefix(headers, k + 1);
        let before = header_args(headers.take(k));
        let upto = header_args(headers.take(k + 1));
        assert(upto.subrange(before.len() as int, upto.len() as int) == f);
        assert(h.subrange(before.len() as int, upto.len() as int) == f) by {
            assert(h.subrange(0, upto.len() as int) == upto);
            assert forall|q: int| 0 <= q < f.len() implies h.subrange(before.len() as int, upto.len() as int)[q] == f[q] by {
                assert(h.subrange(0, upto.len() as int)[before.len() + q] == upto[before.len() + q]);
            }
            assert(h.subrange(before.len() as int, upto.len() as int) =~= f);
        }
        assert(cmd.subrange(ps[k], ps[k] + f.len()) =~= f) by {
            assert forall|q: int| 0 <= q < f.len() implies cmd.subrange(ps[k], ps[k] + f.len())[q] == f[q] by {
                assert(cmd[a.len() + before.len() + q] == h[before.len() + q]);
                assert(h.subrange(before.len() as int, upto.len() as int)[q] == h[before.len() + q]);
            }
        }
    }
    assert forall|k: int| 0 <= k < headers.len() - 1 implies #[trigger] ps[k] + header_flag(headers[k].0@, headers[k].1@).len()
        <= ps[k + 1] by {
        lemma_header_args_step(headers, k);
    }
    assert(ps.len() == headers.len());
}

/// The curl command writes the response body to `<cache_dir>/flowt_<run_id>`, prints the
/// status code, uses the upper-cased method, and ends with the quoted URL, right after the
/// body sent with `-d` when there is one.
pub proof fn lemma_request_parts(
    cache_dir: Seq<char>,
    run_id: Seq<char>,
    method: Seq<char>,
    url: Seq<char>,
    headers: Seq<(String, String)>,
    body: Option<Seq<char>>,
)
    ensures
        ({
            let cmd = curl_command_text(cache_dir, run_id, method, url, headers, body);
            let start = "curl -s -o "@ + cache_dir + "/flowt_"@ + run_id + " -w '%{http_code}' -X "@ + uppercase(method);
            let end = " '"@ + url + "'"@;
            &&& start.len() + end.len() <= cmd.len()
            &&& cmd.subrange(0, start.len() as int) == start
            &&& cmd.subrange(cmd.len() - end.len(), cmd.len() as int) == end
            &&& body matches Some(b) ==> {
                let sent = " -d '"@ + b + "'"@;
                &&& sent.len() + end.len() <= cmd.len()
                &&& cmd.subrange(cmd.len() - end.len() - sent.len(), cmd.len() - end.len()) == sent
            }
        }),
{
    reveal_strlit("curl -s -o ");
    reveal_strlit("/flowt_");
    reveal_strlit(" -w '%{http_code}' -X ");
    reveal_strlit(" '");
    reveal_strlit("'");
    reveal_strlit(" -d '");
    let cmd = curl_command_text(cache_dir, run_id, method, url, headers, body);
    let start = "curl -s -o "@ + cache_dir + "/flowt_"@ + run_id + " -w '%{http_code}' -X "@ + uppercase(method);
    let end = " '"@ + url + "'"@;
    let h = header_args(headers);
    let d = match body {
        Some(b) => " -d '"@ + b + "'"@,
        None => seq![],
    };
    assert(cmd =~= start + h + d + end);
    assert(cmd.subrange(0, start.len() as int) =~= start);
    assert(cmd.subrange(cmd.len() - end.len(), cmd.len() as int) =~= end);
    assert(cmd.subrange(cmd.len() - end.len() - d.len(), cmd.len() - end.len()) =~= d);
}

/// The curl command for an HTTP request.
pub fn curl_command(
    cache_dir: &str,
    run_id: &str,
    method: &str,
    url: &str,
    headers: &StringMap,
    body: &Option<String>,
) -> (cmd: String)
    ensures
        cmd@ == curl_command_text(
            cache_dir@,
            run_id@,
            method@,
            url@,
            headers.entry_seq(),
            match body {
                Some(b) => Some(b@),
                None => None,
            },
        ),
{
    let mut out = String::new();
    push_chars(&mut out, &['c', 'u', 'r', 'l', ' ', '-', 's', ' ', '-', 'o', ' ']);
    push_str(&mut out, cache_dir);
    push_chars(&mut out, &['/', 'f', 'l', 'o', 'w', 't', '_']);
    push_str(&mut out, run_id);
    push_chars(&mut out, &[' ', '-', 'w', ' ', '\'', '%', '{', 'h', 't', 't', 'p', '_', 'c', 'o', 'd', 'e', '}', '\'', ' ', '-', 'X', ' ']);
    let upper = to_upper(method);
    push_str(&mut out, upper.as_str());
    let ghost before = out@;
    let hs = headers.entries();
    let mut i: usize = 0;
    while i < hs.len()
        invariant
            i <= hs@.len(),
            out@ == before + header_args(hs@.take(i as int)),
        decreases hs@.len() - i,
    {
        assert(hs@.take(i + 1).drop_last() == hs@.take(i as int));
        push_chars(&mut out, &[' ', '-', 'H', ' ', '\'']);
        push_str(&mut out, hs[i].0.as_str());
        push_chars(&mut out, &[':', ' ']);
        push_str(&mut out, hs[i].1.as_str());
        push_chars(&mut out, &['\'']);
        i += 1;
    }
    assert(hs@.take(hs@.len() as int) == hs@);
    match body {
        Some(b) => {
            push_chars(&mut out, &[' ', '-', 'd', ' ', '\'']);
            push_str(&mut out, b.as_str());
            push_chars(&mut out, &['\'']);
        },
        None => {},
    }
    push_chars(&mut out, &[' ', '\'']);
    push_str(&mut out, url);
    push_chars(&mut out, &['\'']);
    out
}

/// "Exit "
pub open spec fn exit_prefix() -> Seq<char> {
    seq!['E', 'x', 'i', 't', ' ']
}

/// The outcome of a shell command: its standard output then standard error, trimmed;
/// failed with `Exit <status>` when the command did not succeed.
pub fn shell_outcome(success: bool, stdout: &str, stderr: &str, exit_status: &str) -> (r: (NodeStatus, String))
    ensures
        r.1@ == trimmed(stdout@ + stderr@),
        success ==> r.0 == NodeStatus::Success,
        !success ==> (r.0 matches NodeStatus::Failed(m) && m@ == exit_prefix() + exit_status@),
{
    let mut all = chars_of(stdout);
    let err = chars_of(stderr);
    let mut i: usize = 0;
    let ghost start = all@;
    while i < err.len()
        invariant
            i <= err@.len(),
            all@ == start + err@.take(i as int),
        decreases err@.len() - i,
    {
        all.push(err[i]);
        i += 1;
        assert(err@.take(i as int) == err@.take(i - 1).push(err@[i - 1]));
    }
    assert(err@.take(err@.len() as int) == err@);
    let t = trim(all.as_slice());
    let output = crate::text::string_of(t.as_slice());
    if success {
        (NodeStatus::Success, output)
    } else {
        let mut m = String::new();
        push_chars(&mut m, &['E', 'x', 'i', 't', ' ']);
        push_str(&mut m, exit_status);
        (NodeStatus::Failed(m), output)
    }
}

/// The status code curl reported: its trimmed output read as a number, or 0.
pub open spec fn reported_code(output: Seq<char>) -> nat {
    match parse_unsigned(trimmed(output), 65535) {
        Some(c) => c,
        None => 0,
    }
}

/// "HTTP <code>"
pub open spec fn http_summary(code: nat) -> Seq<char> {
    seq!['H', 'T', 'T', 'P', ' '] + decimal(code)
}

/// "Expected <expected>, got <code>"
pub open spec fn http_mismatch(expected: nat, code: nat) -> Seq<char> {
    seq!['E', 'x', 'p', 'e', 'c', 't', 'e', 'd', ' '] + decimal(expected) + seq![',', ' ', 'g', 'o', 't', ' ']
        + decimal(code)
}

/// The outcome of an HTTP node from the outcome of its curl command: when curl succeeded,
/// the reported status code is compared with the expected one (200 unless given).
pub fn http_outcome(shell_status: NodeStatus, shell_output: String, expect_status: Option<u16>) -> (r: (
    NodeStatus,
    String,
))
    ensures
        !(shell_status is Success) ==> r.0 == shell_status && r.1 == shell_output,
        shell_status is Success ==> {
            let code = reported_code(shell_output@);
            let expected: nat = match expect_status {
                Some(e) => e as nat,
                None => 200,
            };
            &&& r.1@ == http_summary(code)
            &&& code == expected ==> r.0 == NodeStatus::Success
            &&& code != expected ==> (r.0 matches NodeStatus::Failed(m) && m@ == http_mismatch(expected, code))
        },
{
    match shell_status {
        NodeStatus::Success => {
            let cs = chars_of(shell_output.as_str());
            let t = trim(cs.as_slice());
            let code: u64 = match parse_unsigned_text(t.as_slice(), 65535) {
                Some(c) => c,
                None => 0,
            };
            let expected: u64 = match expect_status {
                Some(e) => e as u64,
                None => 200,
            };
            let mut out = String::new();
            push_chars(&mut out, &['H', 'T', 'T', 'P', ' ']);
            let code_text = format_u64(code);
            push_str(&mut out, code_text.as_str());
            if code == expected {
                (NodeStatus::Success, out)
            } else {
                let mut m = String::new();
                push_chars(&mut m, &['E', 'x', 'p', 'e', 'c', 't', 'e', 'd', ' ']);
                let e_text = format_u64(expected);
                push_str(&mut m, e_text.as_str());
                push_chars(&mut m, &[',', ' ', 'g', 'o', 't', ' ']);
                push_str(&mut m, code_text.as_str());
                (NodeStatus::Failed(m), out)
            }
        },
        other => (other, shell_output),
    }
}

} // verus!

//! Where Flowt keeps its files: the base directory, the lock file, the store, the cache and
//! the workflows.
use vstd::prelude::*;
use crate::text::{chars_of, parse_unsigned, parse_unsigned_text, trim, trimmed};

verus! {

/// Calls `dirs::home_dir` and gives the path as text (non-UTF-8 parts replaced, as
/// `to_string_lossy` does). Which directory that is depends on the environment and the
/// user database, so the contract says nothing of it.
#[verifier::external_body]
fn home_dir() -> (r: Option<String>) {
    match dirs::home_dir() {
        Some(p) => Some(p.to_string_lossy().into_owned()),
        None => None,
    }
}

/// `name` appended to `base` as `PathBuf::join` does for a relative `name`: with a `/`
/// between them unless `base` is empty or already ends with one.
pub open spec fn joined(base: Seq<char>, name: Seq<char>) -> Seq<char> {
    if name.len() > 0 && name[0] == '/' {
        name
    } else if base.len() == 0 {
        name
    } else if base.last() == '/' {
        base + name
    } else {
        base + seq!['/'] + name
    }
}

/// `base` joined with `name`.
pub fn join_path(base: &str, name: &str) -> (r: String)
    ensures
        r@ == joined(base@, name@),
{
    let b = chars_of(base);
    let n = chars_of(name);
    if n.len() > 0 && n[0] == '/' {
        return name.to_string();
    }
    if b.len() == 0 {
        return name.to_string();
    }
    let mut r = base.to_string();
    if b[b.len() - 1] != '/' {
        r.push('/');
    }
    r.append(name);
    r
}

/// Flowt's base directory given `FLOWT_DIR` and the home directory: `FLOWT_DIR` when set,
/// else `.flowt` in the home directory, else `.`.
pub open spec fn base_of(flowt_dir: Option<Seq<char>>, home: Option<Seq<char>>) -> Seq<char> {
    match flowt_dir {
        Some(d) => d,
        None => match home {
            Some(h) => joined(h, ".flowt"@),
            None => "."@,
        },
    }
}

/// The text of an optional text.
pub open spec fn opt_view(t: Option<&str>) -> Option<Seq<char>> {
    match t {
        Some(s) => Some(s@),
        None => None,
    }
}

/// Flowt's base directory given `FLOWT_DIR` and the home directory.
pub fn base_dir_in(flowt_dir: Option<&str>, home: Option<&str>) -> (r: String)
    ensures
        r@ == base_of(opt_view(flowt_dir), opt_view(home)),
{
    match flowt_dir {
        Some(d) => d.to_string(),
        None => match home {
            Some(h) => join_path(h, ".flowt"),
            None => ".".to_string(),
        },
    }
}

/// Flowt's base directory: `FLOWT_DIR` when set, else `.flowt` in the home directory that
/// `dirs` finds, else `.`.
pub fn base_dir(flowt_dir: Option<&str>) -> (r: String)
    ensures
        flowt_dir matches Some(d) ==> r@ == d@,
        flowt_dir is None ==> exists|home: Option<Seq<char>>| r@ == base_of(None, home),
{
    let home = home_dir();
    let r = match &home {
        Some(h) => base_dir_in(flowt_dir, Some(h.as_str())),
        None => base_dir_in(flowt_dir, None),
    };
    proof {
        let hv: Option<Seq<char>> = match home {
            Some(h) => Some(h@),
            None => None,
        };
        assert(r@ == base_of(opt_view(flowt_dir), hv));
    }
    r
}

/// The lock file that marks a running engine: `service.lock` in the base directory.
pub fn lock_file_path(flowt_dir: Option<&str>) -> (r: String)
    ensures
        flowt_dir matches Some(d) ==> r@ == joined(d@, seq!['s', 'e', 'r', 'v', 'i', 'c', 'e', '.', 'l', 'o', 'c', 'k']),
        exists|home: Option<Seq<char>>| r@ == joined(base_of(opt_view(flowt_dir), home), "service.lock"@),
{
    let base = base_dir(flowt_dir);
    proof {
        if flowt_dir is Some {
            assert(base@ == base_of(opt_view(flowt_dir), None));
        }
    }
    proof {
        reveal_strlit("service.lock");
    }
    join_path(base.as_str(), "service.lock")
}

/// The store's file: `flowt_storage.db` in the base directory.
pub fn db_path(flowt_dir: Option<&str>) -> (r: String)
    ensures
        flowt_dir matches Some(d) ==> r@ == joined(d@, seq!['f', 'l', 'o', 'w', 't', '_', 's', 't', 'o', 'r', 'a', 'g', 'e', '.', 'd', 'b']),
        exists|home: Option<Seq<char>>| r@ == joined(base_of(opt_view(flowt_dir), home), "flowt_storage.db"@),
{
    let base = base_dir(flowt_dir);
    proof {
        if flowt_dir is Some {
            assert(base@ == base_of(opt_view(flowt_dir), None));
        }
    }
    proof {
        reveal_strlit("flowt_storage.db");
    }
    join_path(base.as_str(), "flowt_storage.db")
}

/// `<FLOWT_DIR>/<sub>` when `FLOWT_DIR` is set, else `<HOME>/.flowt/<sub>`, with `.` for
/// a missing `HOME`.
pub open spec fn dir_under(flowt_dir: Option<Seq<char>>, home: Option<Seq<char>>, sub: Seq<char>) -> Seq<char> {
    match flowt_dir {
        Some(d) => d + seq!['/'] + sub,
        None => match home {
            Some(h) => h + seq!['/', '.', 'f', 'l', 'o', 'w', 't', '/'] + sub,
            None => seq!['.', '/', '.', 'f', 'l', 'o', 'w', 't', '/'] + sub,
        },
    }
}

fn under(flowt_dir: Option<&str>, home: Option<&str>, sub: &str) -> (r: String)
    ensures
        r@ == dir_under(
            match flowt_dir {
                Some(d) => Some(d@),
                None => None,
            },
            match home {
                Some(h) => Some(h@),
                None => None,
            },
            sub@,
        ),
{
    let mut r = String::new();
    match flowt_dir {
        Some(d) => {
            r.append(d);
            r.push('/');
        },
        None => {
            match home {
                Some(h) => r.append(h),
                None => r.push('.'),
            }
            r.push('/');
            r.push('.');
            r.push('f');
            r.push('l');
            r.push('o');
            r.push('w');
            r.push('t');
            r.push('/');
        },
    }
    r.append(sub);
    r
}

/// Where workflow files are looked for unless told otherwise.
pub fn default_workflows_dir(flowt_dir: Option<&str>, home: Option<&str>) -> (r: String)
    ensures
        r@ == dir_under(
            match flowt_dir {
                Some(d) => Some(d@),
                None => None,
            },
            match home {
                Some(h) => Some(h@),
                None => None,
            },
            seq!['w', 'o', 'r', 'k', 'f', 'l', 'o', 'w', 's'],
        ),
{
    proof {
        reveal_strlit("workflows");
    }
    under(flowt_dir, home, "workflows")
}

/// Where HTTP responses are kept.
pub fn default_cache_dir(flowt_dir: Option<&str>, home: Option<&str>) -> (r: String)
    ensures
        r@ == dir_under(
            match flowt_dir {
                Some(d) => Some(d@),
                None => None,
            },
            match home {
                Some(h) => Some(h@),
                None => None,
            },
            seq!['c', 'a', 'c', 'h', 'e'],
        ),
{
    proof {
        reveal_strlit("cache");
    }
    under(flowt_dir, home, "cache")
}

/// The process id written in a lock file, if its trimmed content is a `u32`.
pub fn parse_pid(content: &str) -> (r: Option<u32>)
    ensures
        match parse_unsigned(trimmed(content@), u32::MAX as nat) {
            Some(v) => r == Some(v as u32),
            None => r is None,
        },
{
    let cs = chars_of(content);
    let t = trim(cs.as_slice());
    match parse_unsigned_text(t.as_slice(), u32::MAX as u64) {
        Some(v) => Some(v as u32),
        None => None,
    }
}

} // verus!

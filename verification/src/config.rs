//! Workflow configuration: the shape of a workflow file and the rules the
//! library applies to it (defaults, enabling, ordering, file selection).
use vstd::prelude::*;
use crate::sort::{insert_by, lemma_insert_at, lemma_sorted_by_perm, lemma_sorted_by_sorted, sorted_by, total_preorder};
use crate::text::{chars_of, lemma_lex_total, lemma_lex_transitive, lex_le, same_text, text_le};

verus! {

/// A map from text keys to text values (used for HTTP headers and shell environments).
/// No key occurs twice.
#[derive(Debug, Clone)]
pub struct StringMap {
    entries: Vec<(String, String)>,
}

/// The value that the last entry with key `k` gives, if any.
pub open spec fn lookup_entries(entries: Seq<(String, String)>, k: Seq<char>) -> Option<Seq<char>>
    decreases entries.len(),
{
    if entries.len() == 0 {
        None
    } else if entries.last().0@ == k {
        Some(entries.last().1@)
    } else {
        lookup_entries(entries.drop_last(), k)
    }
}

/// The value of the last entry with key `k`, found at index `i`.
proof fn lemma_lookup_last(entries: Seq<(String, String)>, i: int, k: Seq<char>)
    requires
        0 <= i < entries.len(),
        entries[i].0@ == k,
        forall|j: int| i < j < entries.len() ==> #[trigger] entries[j].0@ != k,
    ensures
        lookup_entries(entries, k) == Some(entries[i].1@),
    decreases entries.len(),
{
    if i != entries.len() - 1 {
        assert(entries.last().0@ != k);
        assert forall|j: int| i < j < entries.drop_last().len() implies #[trigger] entries.drop_last()[j].0@ != k by {
            assert(entries.drop_last()[j] == entries[j]);
        }
        assert(entries.drop_last()[i] == entries[i]);
        lemma_lookup_last(entries.drop_last(), i, k);
    }
}

proof fn lemma_lookup_absent(entries: Seq<(String, String)>, k: Seq<char>)
    requires
        forall|i: int| 0 <= i < entries.len() ==> #[trigger] entries[i].0@ != k,
    ensures
        lookup_entries(entries, k) is None,
    decreases entries.len(),
{
    if entries.len() > 0 {
        assert(entries.last().0@ != k);
        assert forall|i: int| 0 <= i < entries.drop_last().len() implies #[trigger] entries.drop_last()[i].0@ != k by {
            assert(entries.drop_last()[i] == entries[i]);
        }
        lemma_lookup_absent(entries.drop_last(), k);
    }
}

/// Replacing an entry whose key differs from `k`, before and after, leaves the value of `k` alone.
proof fn lemma_lookup_update_other(entries: Seq<(String, String)>, i: int, e: (String, String), k: Seq<char>)
    requires
        0 <= i < entries.len(),
        entries[i].0@ != k,
        e.0@ != k,
    ensures
        lookup_entries(entries.update(i, e), k) == lookup_entries(entries, k),
    decreases entries.len(),
{
    let u = entries.update(i, e);
    if i == entries.len() - 1 {
        assert(u.drop_last() == entries.drop_last());
    } else {
        assert(u.drop_last() == entries.drop_last().update(i, e));
        lemma_lookup_update_other(entries.drop_last(), i, e, k);
    }
}

proof fn lemma_lookup_push(entries: Seq<(String, String)>, e: (String, String), k: Seq<char>)
    ensures
        lookup_entries(entries.push(e), k) == if e.0@ == k {
            Some(e.1@)
        } else {
            lookup_entries(entries, k)
        },
{
    assert(entries.push(e).drop_last() == entries);
}

/// No two entries share a key.
pub open spec fn distinct_keys(entries: Seq<(String, String)>) -> bool {
    forall|i: int, j: int| 0 <= i < j < entries.len() ==> #[trigger] entries[i].0@ != #[trigger] entries[j].0@
}

/// With distinct keys, each entry gives the value of its key, and each value found is an
/// entry's.
pub proof fn lemma_distinct_lookup(entries: Seq<(String, String)>)
    requires
        distinct_keys(entries),
    ensures
        forall|i: int| 0 <= i < entries.len() ==> lookup_entries(entries, #[trigger] entries[i].0@) == Some(entries[i].1@),
        forall|k: Seq<char>| #[trigger] lookup_entries(entries, k) is Some ==> exists|i: int|
            0 <= i < entries.len() && entries[i].0@ == k && entries[i].1@ == lookup_entries(entries, k)->0,
{
    assert forall|i: int| 0 <= i < entries.len() implies lookup_entries(entries, #[trigger] entries[i].0@) == Some(entries[i].1@) by {
        lemma_lookup_last(entries, i, entries[i].0@);
    }
    assert forall|k: Seq<char>| #[trigger] lookup_entries(entries, k) is Some implies exists|i: int|
        0 <= i < entries.len() && entries[i].0@ == k && entries[i].1@ == lookup_entries(entries, k)->0 by {
        if forall|i: int| 0 <= i < entries.len() ==> #[trigger] entries[i].0@ != k {
            lemma_lookup_absent(entries, k);
        } else {
            let i = choose|i: int| 0 <= i < entries.len() && #[trigger] entries[i].0@ == k;
            lemma_lookup_last(entries, i, k);
        }
    }
}

impl StringMap {
    /// No key occurs twice among the entries.
    pub closed spec fn well_formed(&self) -> bool {
        distinct_keys(self.entries@)
    }

    /// What the entries say: the value of a key is that of its last entry, and a well-formed
    /// map has no key twice.
    pub proof fn lemma_entries(&self)
        ensures
            self.well_formed() == distinct_keys(self.entry_seq()),
            forall|k: Seq<char>| #[trigger] self.value_of(k) == lookup_entries(self.entry_seq(), k),
    {
    }

    /// The entries, in insertion order.
    pub closed spec fn entry_seq(&self) -> Seq<(String, String)> {
        self.entries@
    }

    /// The value stored under `k`, if any.
    pub closed spec fn value_of(&self, k: Seq<char>) -> Option<Seq<char>> {
        lookup_entries(self.entries@, k)
    }

    /// An empty map.
    pub fn new() -> (m: Self)
        ensures
            m.well_formed(),
            m.entry_seq().len() == 0,
            forall|k: Seq<char>| #[trigger] m.value_of(k) is None,
    {
        StringMap { entries: Vec::new() }
    }

    /// The number of entries.
    pub fn len(&self) -> (n: usize)
        ensures
            n == self.entry_seq().len(),
    {
        self.entries.len()
    }

    /// The entries, in the order their keys were first inserted.
    pub fn entries(&self) -> (r: &Vec<(String, String)>)
        ensures
            r@ == self.entry_seq(),
            forall|k: Seq<char>| #[trigger] self.value_of(k) == lookup_entries(r@, k),
    {
        &self.entries
    }

    /// The index of the last entry with key `key`.
    fn last_position(&self, key: &str) -> (r: Option<usize>)
        ensures
            match r {
                Some(i) => {
                    &&& i < self.entries@.len()
                    &&& self.entries@[i as int].0@ == key@
                    &&& forall|j: int| i < j < self.entries@.len() ==> #[trigger] self.entries@[j].0@ != key@
                },
                None => forall|i: int| 0 <= i < self.entries@.len() ==> #[trigger] self.entries@[i].0@ != key@,
            },
    {
        let mut i: usize = self.entries.len();
        while i > 0
            invariant
                i <= self.entries@.len(),
                forall|j: int| i <= j < self.entries@.len() ==> #[trigger] self.entries@[j].0@ != key@,
            decreases i,
        {
            if same_text(self.entries[i - 1].0.as_str(), key) {
                return Some(i - 1);
            }
            i -= 1;
        }
        None
    }

    /// The value stored under `key`, if any.
    pub fn get(&self, key: &str) -> (r: Option<&String>)
        ensures
            match r {
                Some(v) => self.value_of(key@) == Some(v@),
                None => self.value_of(key@) is None,
            },
    {
        match self.last_position(key) {
            Some(i) => {
                proof {
                    lemma_lookup_last(self.entries@, i as int, key@);
                }
                Some(&self.entries[i].1)
            },
            None => {
                proof {
                    lemma_lookup_absent(self.entries@, key@);
                }
                None
            },
        }
    }

    /// Stores `value` under `key`, replacing any value stored there before.
    pub fn insert(&mut self, key: String, value: String)
        ensures
            old(self).well_formed() ==> final(self).well_formed(),
            final(self).value_of(key@) == Some(value@),
            forall|k: Seq<char>| k != key@ ==> #[trigger] final(self).value_of(k) == old(self).value_of(k),
    {
        let ghost old_entries = self.entries@;
        match self.last_position(key.as_str()) {
            Some(i) => {
                let ghost e = (key, value);
                self.entries.set(i, (key, value));
                proof {
                    let ne = self.entries@;
                    assert(ne == old_entries.update(i as int, e));
                    assert forall|j: int| i < j < ne.len() implies #[trigger] ne[j].0@ != e.0@ by {
                        assert(ne[j] == old_entries[j]);
                    }
                    lemma_lookup_last(ne, i as int, e.0@);
                    assert(distinct_keys(old_entries) ==> distinct_keys(ne)) by {
                        if distinct_keys(old_entries) {
                            assert forall|a: int, b: int| 0 <= a < b < ne.len() implies #[trigger] ne[a].0@ != #[trigger] ne[b].0@ by {
                                assert(old_entries[a].0@ != old_entries[b].0@);
                            }
                        }
                    }
                    assert forall|k: Seq<char>| k != e.0@ implies lookup_entries(ne, k)
                        == lookup_entries(old_entries, k) by {
                        lemma_lookup_update_other(old_entries, i as int, e, k);
                    }
                }
            },
            None => {
                let ghost e = (key, value);
                self.entries.push((key, value));
                proof {
                    let ne = self.entries@;
                    assert(distinct_keys(old_entries) ==> distinct_keys(ne)) by {
                        if distinct_keys(old_entries) {
                            assert forall|a: int, b: int| 0 <= a < b < ne.len() implies #[trigger] ne[a].0@ != #[trigger] ne[b].0@ by {
                                if b < old_entries.len() {
                                    assert(old_entries[a].0@ != old_entries[b].0@);
                                } else {
                                    assert(ne[a] == old_entries[a]);
                                }
                            }
                        }
                    }
                    assert forall|k: Seq<char>| true implies lookup_entries(self.entries@, k) == if e.0@ == k {
                        Some(e.1@)
                    } else {
                        lookup_entries(old_entries, k)
                    } by {
                        lemma_lookup_push(old_entries, e, k);
                    }
                }
            },
        }
    }

    /// A map holding the given pairs; where a key occurs twice the later value is kept.
    pub fn from_pairs(pairs: Vec<(String, String)>) -> (m: Self)
        ensures
            m.well_formed(),
            forall|k: Seq<char>| #[trigger] m.value_of(k) == lookup_entries(pairs@, k),
    {
        let mut m = StringMap::new();
        let mut i: usize = 0;
        let n = pairs.len();
        while i < n
            invariant
                n == pairs@.len(),
                i <= n,
                m.well_formed(),
                forall|k: Seq<char>| #[trigger] m.value_of(k) == lookup_entries(pairs@.take(i as int), k),
            decreases n - i,
        {
            let key = pairs[i].0.clone();
            let value = pairs[i].1.clone();
            proof {
                let pair = pairs@[i as int];
                assert(pairs@.take(i + 1) == pairs@.take(i as int).push(pair));
                assert forall|k: Seq<char>| true implies lookup_entries(pairs@.take(i + 1), k) == if pair.0@ == k {
                    Some(pair.1@)
                } else {
                    lookup_entries(pairs@.take(i as int), k)
                } by {
                    lemma_lookup_push(pairs@.take(i as int), pair, k);
                }
            }
            m.insert(key, value);
            i += 1;
        }
        assert(pairs@.take(n as int) == pairs@);
        m
    }
}

/// What starts a workflow.
#[derive(Debug, Clone)]
pub enum TriggerConfig {
    /// On a cron schedule.
    Cron { schedule: String },
    /// By hand.
    Manual,
}

/// What a node does.
#[derive(Debug, Clone)]
pub enum NodeKind {
    /// An HTTP request.
    Http {
        url: String,
        method: String,
        headers: StringMap,
        body: Option<String>,
        expect_status: Option<u16>,
    },
    /// A shell command.
    Shell { cmd: String, env: StringMap },
    /// A log message.
    Log { message: String },
}

/// One step of a workflow.
#[derive(Debug, Clone)]
pub struct NodeConfig {
    pub id: String,
    pub kind: NodeKind,
    /// A condition such as `build == success` that decides whether the node runs.
    pub when: Option<String>,
    pub retry: Option<u32>,
    pub timeout: Option<String>,
    /// Ids of the nodes this node depends on.
    pub depends_on: Vec<String>,
}

/// A workflow as its file describes it.
#[derive(Debug, Clone)]
pub struct WorkflowConfig {
    pub name: String,
    pub description: String,
    pub enabled: bool,
    pub triggers: Vec<TriggerConfig>,
    pub nodes: Vec<NodeConfig>,
}

/// The HTTP method a node uses when its file names none.
pub fn default_method() -> (m: String)
    ensures
        m@ == seq!['G', 'E', 'T'],
{
    let mut m = String::new();
    m.push('G');
    m.push('E');
    m.push('T');
    m
}

/// Whether a workflow is enabled when its file does not say.
pub fn default_enabled() -> (b: bool)
    ensures
        b,
{
    true
}

impl WorkflowConfig {
    /// Switches the workflow between enabled and disabled.
    pub fn toggle_enabled(&mut self)
        ensures
            final(self).enabled == !old(self).enabled,
            final(self).name == old(self).name,
            final(self).description == old(self).description,
            final(self).triggers == old(self).triggers,
            final(self).nodes == old(self).nodes,
    {
        self.enabled = !self.enabled;
    }
}

/// Workflows ordered by name.
pub open spec fn name_le() -> spec_fn(WorkflowConfig, WorkflowConfig) -> bool {
    |a: WorkflowConfig, b: WorkflowConfig| lex_le(a.name@, b.name@)
}

/// Ordering by name is a total preorder.
proof fn lemma_name_order()
    ensures
        total_preorder(name_le()),
{
    assert forall|a: WorkflowConfig, b: WorkflowConfig| #[trigger] name_le()(a, b) || name_le()(b, a) by {
        lemma_lex_total(a.name@, b.name@);
    }
    assert forall|a: WorkflowConfig, b: WorkflowConfig, c: WorkflowConfig|
        #[trigger] name_le()(a, b) && #[trigger] name_le()(b, c) implies name_le()(a, c) by {
        lemma_lex_transitive(a.name@, b.name@, c.name@);
    }
}

/// The workflows listed by name are the same workflows, in alphabetical order of their names.
pub proof fn lemma_workflows_by_name(workflows: Seq<WorkflowConfig>)
    ensures
        sorted_by(workflows, name_le()).to_multiset() == workflows.to_multiset(),
        forall|i: int, j: int| 0 <= i < j < sorted_by(workflows, name_le()).len() ==> lex_le(
            #[trigger] sorted_by(workflows, name_le())[i].name@,
            #[trigger] sorted_by(workflows, name_le())[j].name@,
        ),
{
    lemma_name_order();
    lemma_sorted_by_sorted(workflows, name_le());
    lemma_sorted_by_perm(workflows, name_le());
    let s = sorted_by(workflows, name_le());
    assert forall|i: int, j: int| 0 <= i < j < s.len() implies lex_le(#[trigger] s[i].name@, #[trigger] s[j].name@) by {
        assert(name_le()(s[i], s[j]));
    }
}

/// The workflows sorted by name; workflows with the same name keep their order.
pub fn sort_by_name(workflows: Vec<WorkflowConfig>) -> (r: Vec<WorkflowConfig>)
    ensures
        r@ == sorted_by(workflows@, name_le()),
{
    let ghost all = workflows@;
    let mut rest = workflows;
    let mut out: Vec<WorkflowConfig> = Vec::new();
    let mut i: usize = 0;
    assert(rest@ == all.skip(0));
    assert(all.take(0) =~= Seq::<WorkflowConfig>::empty());
    assert(all.len() <= usize::MAX) by {
        assert(all.len() == rest.len());
    }
    while rest.len() > 0
        invariant
            rest@ == all.skip(i as int),
            i <= all.len(),
            all.len() <= usize::MAX,
            out@ == sorted_by(all.take(i as int), name_le()),
        decreases rest@.len(),
    {
        let x = rest.remove(0);
        assert(x == all[i as int]);
        assert(rest@ == all.skip(i + 1));
        let mut j: usize = out.len();
        while j > 0 && !text_le(out[j - 1].name.as_str(), x.name.as_str())
            invariant
                j <= out@.len(),
                forall|k: int| j <= k < out@.len() ==> !name_le()(#[trigger] out@[k], x),
            decreases j,
        {
            j -= 1;
        }
        proof {
            lemma_insert_at(out@, x, name_le(), j as int);
            assert(all.take(i + 1).drop_last() == all.take(i as int));
            assert(all.take(i + 1).last() == x);
        }
        out.insert(j, x);
        i += 1;
    }
    assert(all.take(i as int) == all);
    out
}

/// The extension of a file name, as `Path::extension` sees it: the text after the last `.`,
/// where that `.` is not the first character.
pub open spec fn extension_of(name: Seq<char>) -> Option<Seq<char>> {
    if exists|k: int| 0 < k < name.len() && name[k] == '.' {
        let k = choose|k: int|
            0 < k < name.len() && name[k] == '.' && forall|m: int| k < m < name.len() ==> name[m] != '.';
        Some(name.skip(k + 1))
    } else {
        None
    }
}

/// Whether a file with this name holds a workflow: its extension is `yaml` or `yml`.
pub open spec fn is_workflow_file_name(name: Seq<char>) -> bool {
    extension_of(name) == Some(seq!['y', 'a', 'm', 'l']) || extension_of(name) == Some(seq!['y', 'm', 'l'])
}

/// Whether the file named `file_name` holds a workflow (its extension is `yaml` or `yml`).
pub fn is_workflow_file(file_name: &str) -> (b: bool)
    ensures
        b == is_workflow_file_name(file_name@),
{
    let cs = chars_of(file_name);
    let n = cs.len();
    let mut k: usize = n;
    while k > 0 && cs[k - 1] != '.'
        invariant
            k <= n == cs@.len(),
            forall|m: int| k <= m < n ==> cs@[m] != '.',
        decreases k,
    {
        k -= 1;
    }
    // k - 1 is the last '.', if k > 0
    if k <= 1 {
        proof {
            if exists|j: int| 0 < j < n && cs@[j] == '.' {
                let j = choose|j: int| 0 < j < n && cs@[j] == '.';
                assert(false);
            }
        }
        return false;
    }
    let dot = k - 1;
    proof {
        let w = choose|w: int|
            0 < w < cs@.len() && cs@[w] == '.' && forall|m: int| w < m < cs@.len() ==> cs@[m] != '.';
        assert(w == dot as int) by {
            if w < dot {
                assert(cs@[dot as int] == '.');
            }
            if w > dot {
                assert(cs@[w] != '.');
            }
        }
    }
    let ext = &cs.as_slice()[k..n];
    assert(ext@ == cs@.skip(k as int));
    crate::text::chars_equal(ext, &['y', 'a', 'm', 'l']) || crate::text::chars_equal(ext, &['y', 'm', 'l'])
}

} // verus!

//! Lock-driven operations: building the tool set an `install --locked` run
//! must install, and the single-entry lock update.
use vstd::prelude::*;

use crate::config::{Tool, TlkConfig};
use crate::lock::{LockedEntry, LockFile};
use crate::text;
use crate::versioning::ResolutionError;

verus! {

/// The tool configured under a name, if any.
pub open spec fn cfg_find(tools: Seq<Tool>, name: Seq<char>) -> Option<Tool>
    decreases tools.len(),
{
    if tools.len() == 0 {
        Option::None
    } else if tools[0].name@ == name {
        Option::Some(tools[0])
    } else {
        cfg_find(tools.skip(1), name)
    }
}

/// The URL recorded for a platform key in a lock entry's matrix, if any.
pub open spec fn sources_find(m: Seq<(String, String)>, key: Seq<char>) -> Option<String>
    decreases m.len(),
{
    if m.len() == 0 {
        Option::None
    } else if m[0].0@ == key {
        Option::Some(m[0].1)
    } else {
        sources_find(m.skip(1), key)
    }
}

/// Find a configured tool by name.
#[verifier::loop_isolation(false)]
pub fn find_tool<'a>(cfg: &'a TlkConfig, name: &str) -> (r: Option<&'a Tool>)
    ensures
        match r {
            Some(t) => cfg_find(cfg.tools@, name@) == Option::Some(*t),
            None => cfg_find(cfg.tools@, name@) is None,
        },
{
    let ghost dv = cfg.tools@;
    let n = cfg.tools.len();
    let mut i: usize = 0;
    proof {
        assert(dv.skip(0) =~= dv);
    }
    while i < n
        invariant
            n == cfg.tools.len(),
            i <= n,
            cfg_find(dv, name@) == cfg_find(dv.skip(i as int), name@),
        decreases n - i,
    {
        proof {
            assert(dv.skip(i as int)[0] == dv[i as int]);
            assert(dv.skip(i as int).skip(1) =~= dv.skip(i + 1));
        }
        if text::str_eq(cfg.tools[i].name.as_str(), name) {
            return Some(&cfg.tools[i]);
        }
        i += 1;
    }
    proof {
        assert(dv.skip(n as int) =~= Seq::<Tool>::empty());
    }
    None
}

/// The tool an `install --locked` run installs for one lock entry: the
/// locked version; the locked source for this host (from the platform
/// matrix when the host's key is present, else the recorded source); and
/// every other field from the configured tool under the entry's name, or
/// from the catalog recipe when none is configured.
pub open spec fn locked_tool_ok(
    cfg_tools: Seq<Tool>,
    name: Seq<char>,
    lt: LockedEntry,
    os: Seq<char>,
    arch: Seq<char>,
    t: Tool,
) -> bool {
    &&& t.version@ == lt.version@
    &&& (match lt.sources {
        Option::Some(m) => (match sources_find(m@, os + "-"@ + arch) {
            Option::Some(u) => t.source@ == u@,
            Option::None => t.source@ == lt.source@,
        }),
        Option::None => t.source@ == lt.source@,
    })
    &&& (match cfg_find(cfg_tools, name) {
        Option::Some(c) => {
            &&& t.name == c.name
            &&& t.kind == c.kind
            &&& t.binary == c.binary
            &&& t.sha256 == c.sha256
            &&& t.install_dir == c.install_dir
            &&& t.per_os == c.per_os
            &&& t.per_os_arch == c.per_os_arch
        },
        Option::None => crate::known_tools::known_tool_view(name) matches Option::Some(d) && {
            &&& t.name@ == name
            &&& t.kind == d.kind
            &&& (match t.binary {
                Option::Some(b) => d.binary_rel == Option::Some(b@),
                Option::None => d.binary_rel is None,
            })
            &&& t.sha256 is None
            &&& t.install_dir is None
            &&& t.per_os is None
            &&& t.per_os_arch is None
        },
    })
}

/// Build the tool one lock entry installs.
pub fn locked_tool(
    cfg: &TlkConfig,
    name: &str,
    lt: &LockedEntry,
    os: &str,
    arch: &str,
    libc: &str,
) -> (r: Result<Tool, ResolutionError>)
    ensures
        match r {
            Ok(t) => locked_tool_ok(cfg.tools@, name@, *lt, os@, arch@, t),
            Err(e) => cfg_find(cfg.tools@, name@) is None
                && crate::known_tools::known_tool_view(name@) is None && (e matches
            ResolutionError::UnknownTool { name: n } && n@ == name@),
        },
{
    let mut tool: Tool = match find_tool(cfg, name) {
        Some(t) => {
            let mut c = t.duplicate();
            c.version = lt.version.clone();
            c
        },
        None => {
            match crate::known_tools::build_known_tool(name, lt.version.as_str(), os, arch, libc) {
                Ok(t) => {
                    proof {
                        assert(t.version@ == text::strip_leading(lt.version@, 'v'));
                    }
                    let mut t2 = t;
                    t2.version = lt.version.clone();
                    t2
                },
                Err(e) => {
                    return Err(e);
                },
            }
        },
    };
    let mut key = os.to_owned();
    key.append("-");
    key.append(arch);
    proof {
        assert(key@ == os@ + "-"@ + arch@);
    }
    let url: String = match &lt.sources {
        Some(m) => {
            match find_source(m, key.as_str()) {
                Some(u) => u,
                None => lt.source.clone(),
            }
        },
        None => lt.source.clone(),
    };
    tool.source = url;
    Ok(tool)
}

/// Find a platform key in a source matrix.
#[verifier::loop_isolation(false)]
fn find_source(m: &Vec<(String, String)>, key: &str) -> (r: Option<String>)
    ensures
        match r {
            Some(u) => sources_find(m@, key@) matches Option::Some(w) && w@ == u@,
            None => sources_find(m@, key@) is None,
        },
{
    let ghost dv = m@;
    let n = m.len();
    let mut i: usize = 0;
    proof {
        assert(dv.skip(0) =~= dv);
    }
    while i < n
        invariant
            n == m.len(),
            i <= n,
            sources_find(dv, key@) == sources_find(dv.skip(i as int), key@),
        decreases n - i,
    {
        proof {
            assert(dv.skip(i as int)[0] == dv[i as int]);
            assert(dv.skip(i as int).skip(1) =~= dv.skip(i + 1));
        }
        if text::str_eq(m[i].0.as_str(), key) {
            return Some(m[i].1.clone());
        }
        i += 1;
    }
    proof {
        assert(dv.skip(n as int) =~= Seq::<(String, String)>::empty());
    }
    None
}

/// The tools an `install --locked` run installs, one per lock entry, in the
/// lock's order: each entry's tool per `locked_tool_ok`, and an error
/// exactly when some lock name is neither configured nor in the catalog.
#[verifier::loop_isolation(false)]
pub fn install_locked(
    lock: &LockFile,
    cfg: &TlkConfig,
    os: &str,
    arch: &str,
    libc: &str,
) -> (r: Result<Vec<Tool>, ResolutionError>)
    ensures
        match r {
            Ok(tools) => tools.len() == lock.tools.len() && (forall|i: int|
                0 <= i < tools@.len() ==> locked_tool_ok(
                    cfg.tools@,
                    lock.tools@[i].0@,
                    lock.tools@[i].1,
                    os@,
                    arch@,
                    #[trigger] tools@[i],
                )),
            Err(e) => (exists|i: int|
                0 <= i < lock.tools@.len() && cfg_find(
                    cfg.tools@,
                    (#[trigger] lock.tools@[i]).0@,
                ) is None && crate::known_tools::known_tool_view(lock.tools@[i].0@) is None && (
                e matches ResolutionError::UnknownTool { name: n } && n@ == lock.tools@[i].0@)),
        },
{
    let mut out: Vec<Tool> = Vec::new();
    let n = lock.tools.len();
    let mut i: usize = 0;
    while i < n
        invariant
            n == lock.tools.len(),
            i <= n,
            out.len() == i,
            forall|j: int|
                0 <= j < i ==> locked_tool_ok(
                    cfg.tools@,
                    lock.tools@[j].0@,
                    lock.tools@[j].1,
                    os@,
                    arch@,
                    #[trigger] out@[j],
                ),
        decreases n - i,
    {
        match locked_tool(cfg, lock.tools[i].0.as_str(), &lock.tools[i].1, os, arch, libc) {
            Ok(t) => {
                out.push(t);
            },
            Err(e) => {
                return Err(e);
            },
        }
        i += 1;
    }
    Ok(out)
}

/// The first index of a name in a lock map, or -1.
pub open spec fn entry_index(tools: Seq<(String, LockedEntry)>, name: Seq<char>) -> int
    decreases tools.len(),
{
    if tools.len() == 0 {
        -1
    } else if tools[0].0@ == name {
        0
    } else {
        let r = entry_index(tools.skip(1), name);
        if r < 0 {
            -1
        } else {
            1 + r
        }
    }
}

/// A scan that misses the name up to `i` pins `entry_index`: the match at
/// `i` is the first, and a full scan without one means absence.
proof fn lemma_entry_index_at(tools: Seq<(String, LockedEntry)>, name: Seq<char>, i: int)
    requires
        0 <= i <= tools.len(),
        forall|j: int| 0 <= j < i ==> (#[trigger] tools[j]).0@ != name,
        i < tools.len() ==> tools[i].0@ == name,
    ensures
        i < tools.len() ==> entry_index(tools, name) == i,
        i == tools.len() ==> entry_index(tools, name) == -1,
    decreases tools.len(),
{
    if tools.len() > 0 && i > 0 {
        assert(forall|j: int|
            0 <= j < i - 1 ==> (#[trigger] tools.skip(1)[j]).0 == tools[j + 1].0);
        assert(i - 1 < tools.skip(1).len() ==> tools.skip(1)[i - 1].0@ == name);
        lemma_entry_index_at(tools.skip(1), name, i - 1);
    }
}

/// Replace the entry of a lock map under a tool name, or append one when
/// the name is absent, keeping every other entry in place: the single-spec
/// install path's lock update.
#[verifier::loop_isolation(false)]
pub fn write_single_lock(
    tools: &mut Vec<(String, LockedEntry)>,
    name: String,
    entry: LockedEntry,
)
    ensures
        entry_index(old(tools)@, name@) < 0 ==> final(tools)@ == old(tools)@.push((name, entry)),
        entry_index(old(tools)@, name@) >= 0 ==> final(tools)@ == old(tools)@.update(
            entry_index(old(tools)@, name@),
            (name, entry),
        ),
{
    let n = tools.len();
    let mut i: usize = 0;
    while i < n
        invariant
            n == tools.len(),
            old(tools) == tools,
            i <= n,
            forall|j: int| 0 <= j < i ==> (#[trigger] tools@[j]).0@ != name@,
        decreases n - i,
    {
        if text::str_eq(tools[i].0.as_str(), name.as_str()) {
            proof {
                lemma_entry_index_at(tools@, name@, i as int);
            }
            tools.set(i, (name, entry));
            return ;
        }
        i += 1;
    }
    proof {
        lemma_entry_index_at(tools@, name@, n as int);
    }
    tools.push((name, entry));
}

} // verus!

use vstd::string::StringExecFns;

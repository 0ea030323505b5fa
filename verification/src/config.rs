//! The manifest model: tools with version specifications, source templates
//! and per-OS / per-OS-arch overrides.
use vstd::prelude::*;

use crate::text;

verus! {

/// How an artifact is installed.
#[derive(PartialEq, Eq, Structural, Clone, Copy, Debug)]
pub enum ToolKind {
    /// The download is an archive holding the binary.
    Archive,
    /// The download is the binary itself.
    Direct,
}

/// Per-OS source templates (placeholders `{version}` and `{arch}`).
#[derive(Debug)]
pub struct PerOsSources {
    pub linux: Option<String>,
    pub mac: Option<String>,
    pub windows: Option<String>,
}

/// Per-arch source templates (placeholder `{version}`).
#[derive(Debug)]
pub struct ArchSources {
    pub amd64: Option<String>,
    pub arm64: Option<String>,
    pub x86_64: Option<String>,
    pub aarch64: Option<String>,
}

/// Per-OS, per-arch source templates.
#[derive(Debug)]
pub struct PerOsArchSources {
    pub linux: Option<ArchSources>,
    pub mac: Option<ArchSources>,
    pub windows: Option<ArchSources>,
}

/// One declared tool.
#[derive(Debug)]
pub struct Tool {
    pub name: String,
    pub version: String,
    pub kind: ToolKind,
    pub source: String,
    pub sha256: Option<String>,
    pub binary: Option<String>,
    pub install_dir: Option<String>,
    pub per_os: Option<PerOsSources>,
    pub per_os_arch: Option<PerOsArchSources>,
}

/// The loaded manifest.
#[derive(Debug)]
pub struct TlkConfig {
    pub tools: Vec<Tool>,
}

/// The per-arch template chosen for an architecture name, accepting the
/// `x86_64`/`aarch64` synonyms as fallback spellings.
pub open spec fn arch_entry_spec(a: ArchSources, arch: Seq<char>) -> Option<String> {
    if arch == "amd64"@ || arch == "x86_64"@ {
        if a.amd64 is Some {
            a.amd64
        } else {
            a.x86_64
        }
    } else if arch == "arm64"@ || arch == "aarch64"@ {
        if a.arm64 is Some {
            a.arm64
        } else {
            a.aarch64
        }
    } else {
        Option::None
    }
}

/// The per-OS-arch table chosen for an operating system name.
pub open spec fn os_arch_entry_spec(p: PerOsArchSources, os: Seq<char>) -> Option<ArchSources> {
    if os == "linux"@ {
        p.linux
    } else if os == "darwin"@ || os == "macos"@ {
        p.mac
    } else if os == "windows"@ {
        p.windows
    } else {
        Option::None
    }
}

/// The per-OS template chosen for an operating system name.
pub open spec fn per_os_entry_spec(p: PerOsSources, os: Seq<char>) -> Option<String> {
    if os == "linux"@ {
        p.linux
    } else if os == "darwin"@ || os == "macos"@ {
        p.mac
    } else if os == "windows"@ {
        p.windows
    } else {
        Option::None
    }
}

/// The per-OS-arch override for a host, if any.
pub open spec fn per_os_arch_override(t: Tool, os: Seq<char>, arch: Seq<char>) -> Option<String> {
    match t.per_os_arch {
        Option::Some(p) => match os_arch_entry_spec(p, os) {
            Option::Some(a) => arch_entry_spec(a, arch),
            Option::None => Option::None,
        },
        Option::None => Option::None,
    }
}

/// The per-OS override for a host, if any.
pub open spec fn per_os_override(t: Tool, os: Seq<char>) -> Option<String> {
    match t.per_os {
        Option::Some(p) => per_os_entry_spec(p, os),
        Option::None => Option::None,
    }
}

/// The effective source template for a host: the per-OS-arch override wins
/// over the per-OS override, which wins over the base template.
pub open spec fn effective_template_spec(t: Tool, os: Seq<char>, arch: Seq<char>) -> Seq<char> {
    match per_os_arch_override(t, os, arch) {
        Option::Some(s) => s@,
        Option::None => match per_os_override(t, os) {
            Option::Some(s) => s@,
            Option::None => t.source@,
        },
    }
}

fn arch_entry_exec<'a>(a: &'a ArchSources, arch: &str) -> (r: Option<&'a String>)
    ensures
        match r {
            Some(s) => arch_entry_spec(*a, arch@) == Option::Some(*s),
            None => arch_entry_spec(*a, arch@) is None,
        },
{
    if text::str_eq(arch, "amd64") || text::str_eq(arch, "x86_64") {
        match &a.amd64 {
            Some(s) => Some(s),
            None => match &a.x86_64 {
                Some(s) => Some(s),
                None => None,
            },
        }
    } else if text::str_eq(arch, "arm64") || text::str_eq(arch, "aarch64") {
        match &a.arm64 {
            Some(s) => Some(s),
            None => match &a.aarch64 {
                Some(s) => Some(s),
                None => None,
            },
        }
    } else {
        None
    }
}

impl Tool {
    /// The concrete source template for this host, after applying the
    /// per-OS and per-OS-arch overrides; placeholders may remain in it.
    pub fn effective_source_template(&self, os: &str, arch: &str) -> (r: String)
        ensures
            r@ == effective_template_spec(*self, os@, arch@),
    {
        match &self.per_os_arch {
            Some(p) => {
                let entry: Option<&ArchSources> = if text::str_eq(os, "linux") {
                    p.linux.as_ref()
                } else if text::str_eq(os, "darwin") || text::str_eq(os, "macos") {
                    p.mac.as_ref()
                } else if text::str_eq(os, "windows") {
                    p.windows.as_ref()
                } else {
                    None
                };
                match entry {
                    Some(a) => {
                        match arch_entry_exec(a, arch) {
                            Some(s) => {
                                return s.clone();
                            },
                            None => {},
                        }
                    },
                    None => {},
                }
            },
            None => {},
        }
        match &self.per_os {
            Some(p) => {
                let entry: Option<&String> = if text::str_eq(os, "linux") {
                    p.linux.as_ref()
                } else if text::str_eq(os, "darwin") || text::str_eq(os, "macos") {
                    p.mac.as_ref()
                } else if text::str_eq(os, "windows") {
                    p.windows.as_ref()
                } else {
                    None
                };
                match entry {
                    Some(s) => {
                        return s.clone();
                    },
                    None => {},
                }
            },
            None => {},
        }
        self.source.clone()
    }

    /// Duplicate a tool value.
    pub fn duplicate(&self) -> (r: Tool)
        ensures
            r == *self,
    {
        Tool {
            name: self.name.clone(),
            version: self.version.clone(),
            kind: self.kind,
            source: self.source.clone(),
            sha256: duplicate_opt_string(&self.sha256),
            binary: duplicate_opt_string(&self.binary),
            install_dir: duplicate_opt_string(&self.install_dir),
            per_os: match &self.per_os {
                Some(p) => Some(
                    PerOsSources {
                        linux: duplicate_opt_string(&p.linux),
                        mac: duplicate_opt_string(&p.mac),
                        windows: duplicate_opt_string(&p.windows),
                    },
                ),
                None => None,
            },
            per_os_arch: match &self.per_os_arch {
                Some(p) => Some(
                    PerOsArchSources {
                        linux: duplicate_opt_arch(&p.linux),
                        mac: duplicate_opt_arch(&p.mac),
                        windows: duplicate_opt_arch(&p.windows),
                    },
                ),
                None => None,
            },
        }
    }
}

/// Duplicate an optional string.
pub fn duplicate_opt_string(o: &Option<String>) -> (r: Option<String>)
    ensures
        r == *o,
{
    match o {
        Some(s) => Some(s.clone()),
        None => None,
    }
}

fn duplicate_opt_arch(o: &Option<ArchSources>) -> (r: Option<ArchSources>)
    ensures
        r == *o,
{
    match o {
        Some(a) => Some(
            ArchSources {
                amd64: duplicate_opt_string(&a.amd64),
                arm64: duplicate_opt_string(&a.arm64),
                x86_64: duplicate_opt_string(&a.x86_64),
                aarch64: duplicate_opt_string(&a.aarch64),
            },
        ),
        None => None,
    }
}

// ---------------------------------------------------------------------------
// Inline-root repair
// ---------------------------------------------------------------------------
/// Scanner state for splitting comma-separated entries while honoring
/// quoted strings and nested `{}` / `[]` depth.
pub struct ScanState {
    pub parts: Seq<Seq<char>>,
    pub cur: Seq<char>,
    pub brace: int,
    pub bracket: int,
    pub in_str: bool,
    pub prev: char,
}

/// The scanner state at the start.
pub open spec fn scan_init() -> ScanState {
    ScanState {
        parts: Seq::empty(),
        cur: Seq::empty(),
        brace: 0,
        bracket: 0,
        in_str: false,
        prev: '\0',
    }
}

/// One step of the top-level splitter.
pub open spec fn stl_step(st: ScanState, c: char) -> ScanState {
    if st.in_str {
        ScanState {
            cur: st.cur.push(c),
            in_str: !(c == '"' && st.prev != '\\'),
            prev: c,
            ..st
        }
    } else if c == '"' {
        ScanState { cur: st.cur.push(c), in_str: true, prev: c, ..st }
    } else if c == '{' {
        ScanState { cur: st.cur.push(c), brace: st.brace + 1, prev: c, ..st }
    } else if c == '}' {
        ScanState {
            cur: st.cur.push(c),
            brace: if st.brace > 0 {
                st.brace - 1
            } else {
                0
            },
            prev: c,
            ..st
        }
    } else if c == '[' {
        ScanState { cur: st.cur.push(c), bracket: st.bracket + 1, prev: c, ..st }
    } else if c == ']' {
        ScanState {
            cur: st.cur.push(c),
            bracket: if st.bracket > 0 {
                st.bracket - 1
            } else {
                0
            },
            prev: c,
            ..st
        }
    } else if c == ',' && st.brace == 0 && st.bracket == 0 {
        ScanState {
            parts: st.parts.push(text::trim_spec(st.cur)),
            cur: Seq::empty(),
            prev: c,
            ..st
        }
    } else {
        ScanState { cur: st.cur.push(c), prev: c, ..st }
    }
}

/// The top-level splitter run over a text.
pub open spec fn stl_run(s: Seq<char>, st: ScanState) -> ScanState
    decreases s.len(),
{
    if s.len() == 0 {
        st
    } else {
        stl_run(s.skip(1), stl_step(st, s[0]))
    }
}

proof fn lemma_stl_run_snoc(s: Seq<char>, c: char, st: ScanState)
    ensures
        stl_run(s.push(c), st) == stl_step(stl_run(s, st), c),
    decreases s.len(),
{
    if s.len() == 0 {
        assert(s.push(c)[0] == c);
        assert(s.push(c).skip(1) =~= Seq::<char>::empty());
        assert(stl_run(Seq::<char>::empty(), stl_step(st, c)) == stl_step(st, c));
        assert(stl_run(s.push(c), st) == stl_run(s.push(c).skip(1), stl_step(st, s.push(c)[0])));
    } else {
        assert(s.push(c)[0] == s[0]);
        assert(s.push(c).skip(1) =~= s.skip(1).push(c));
        lemma_stl_run_snoc(s.skip(1), c, stl_step(st, s[0]));
        assert(stl_run(s.push(c), st) == stl_run(s.push(c).skip(1), stl_step(st, s.push(c)[0])));
        assert(stl_run(s, st) == stl_run(s.skip(1), stl_step(st, s[0])));
    }
}

/// The comma-separated top-level entries of `s`: commas inside quoted
/// strings or nested `{}` / `[]` do not split; every entry is trimmed, and a
/// trailing entry is kept only when it is non-empty.
pub open spec fn split_top_level_spec(s: Seq<char>) -> Seq<Seq<char>> {
    let fin = stl_run(s, scan_init());
    if text::trim_spec(fin.cur).len() > 0 {
        fin.parts.push(text::trim_spec(fin.cur))
    } else {
        fin.parts
    }
}

/// Split a text into its comma-separated top-level entries.
#[verifier::loop_isolation(false)]
pub fn split_top_level(s: &str) -> (r: Vec<String>)
    ensures
        r.deep_view() == split_top_level_spec(s@),
{
    let n = s.unicode_len();
    let mut parts: Vec<String> = Vec::new();
    let mut cur = String::new();
    let mut brace: usize = 0;
    let mut bracket: usize = 0;
    let mut in_str = false;
    let mut prev: char = '\0';
    let mut i: usize = 0;
    proof {
        assert(s@.take(0) =~= Seq::<char>::empty());
        assert(parts.deep_view() =~= Seq::<Seq<char>>::empty());
    }
    while i < n
        invariant
            n == s@.len(),
            i <= n,
            brace <= i,
            bracket <= i,
            stl_run(s@.take(i as int), scan_init()) == (ScanState {
                parts: parts.deep_view(),
                cur: cur@,
                brace: brace as int,
                bracket: bracket as int,
                in_str: in_str,
                prev: prev,
            }),
        decreases n - i,
    {
        let ghost st = stl_run(s@.take(i as int), scan_init());
        let c = s.get_char(i);
        proof {
            assert(s@.take(i + 1) =~= s@.take(i as int).push(s@[i as int]));
            lemma_stl_run_snoc(s@.take(i as int), s@[i as int], scan_init());
        }
        let piece = s.substring_char(i, i + 1);
        proof {
            assert(piece@ =~= seq![s@[i as int]]);
            assert(cur@.push(c) =~= cur@ + piece@);
        }
        let ghost before_parts = parts.deep_view();
        if in_str {
            cur.append(piece);
            if c == '"' && prev != '\\' {
                in_str = false;
            }
        } else if c == '"' {
            in_str = true;
            cur.append(piece);
        } else if c == '{' {
            brace += 1;
            cur.append(piece);
        } else if c == '}' {
            if brace > 0 {
                brace -= 1;
            }
            cur.append(piece);
        } else if c == '[' {
            bracket += 1;
            cur.append(piece);
        } else if c == ']' {
            if bracket > 0 {
                bracket -= 1;
            }
            cur.append(piece);
        } else if c == ',' && brace == 0 && bracket == 0 {
            let part = text::trim(cur.as_str());
            parts.push(part);
            cur = String::new();
            proof {
                assert(parts.deep_view() =~~= before_parts.push(text::trim_spec(st.cur)));
            }
        } else {
            cur.append(piece);
        }
        prev = c;
        i += 1;
    }
    proof {
        assert(s@.take(n as int) =~= s@);
    }
    let tail = text::trim(cur.as_str());
    if tail.as_str().unicode_len() > 0 {
        let ghost before_parts = parts.deep_view();
        parts.push(tail);
        proof {
            assert(parts.deep_view() =~~= before_parts.push(
                text::trim_spec(stl_run(s@, scan_init()).cur),
            ));
        }
    }
    parts
}

/// One step of the inline-table splitter.
pub open spec fn sit_step(st: ScanState, c: char) -> ScanState {
    if st.in_str {
        ScanState {
            cur: st.cur.push(c),
            in_str: !(c == '"' && st.prev != '\\'),
            prev: c,
            ..st
        }
    } else if c == '"' {
        ScanState { cur: st.cur.push(c), in_str: true, prev: c, ..st }
    } else if c == '{' {
        ScanState { cur: st.cur.push(c), brace: st.brace + 1, prev: c, ..st }
    } else if c == '}' {
        let d = if st.brace > 0 {
            st.brace - 1
        } else {
            0
        };
        if d == 0 {
            ScanState {
                parts: st.parts.push(table_body_spec(st.cur.push(c))),
                cur: Seq::empty(),
                brace: d,
                prev: c,
                ..st
            }
        } else {
            ScanState { cur: st.cur.push(c), brace: d, prev: c, ..st }
        }
    } else if st.brace == 0 && c == ',' {
        ScanState { prev: c, ..st }
    } else {
        ScanState { cur: st.cur.push(c), prev: c, ..st }
    }
}

/// The text of one inline table with its surrounding braces and space
/// removed.
pub open spec fn table_body_spec(cur: Seq<char>) -> Seq<char> {
    text::trim_spec(
        text::strip_trailing(text::strip_leading(text::trim_spec(cur), '{'), '}'),
    )
}

/// The inline-table splitter run over a text.
pub open spec fn sit_run(s: Seq<char>, st: ScanState) -> ScanState
    decreases s.len(),
{
    if s.len() == 0 {
        st
    } else {
        sit_run(s.skip(1), sit_step(st, s[0]))
    }
}

proof fn lemma_sit_run_snoc(s: Seq<char>, c: char, st: ScanState)
    ensures
        sit_run(s.push(c), st) == sit_step(sit_run(s, st), c),
    decreases s.len(),
{
    if s.len() == 0 {
        assert(s.push(c)[0] == c);
        assert(s.push(c).skip(1) =~= Seq::<char>::empty());
        assert(sit_run(Seq::<char>::empty(), sit_step(st, c)) == sit_step(st, c));
        assert(sit_run(s.push(c), st) == sit_run(s.push(c).skip(1), sit_step(st, s.push(c)[0])));
    } else {
        assert(s.push(c)[0] == s[0]);
        assert(s.push(c).skip(1) =~= s.skip(1).push(c));
        lemma_sit_run_snoc(s.skip(1), c, sit_step(st, s[0]));
        assert(sit_run(s.push(c), st) == sit_run(s.push(c).skip(1), sit_step(st, s.push(c)[0])));
        assert(sit_run(s, st) == sit_run(s.skip(1), sit_step(st, s[0])));
    }
}

/// The inline tables of a sequence such as `{ a = "b" }, { c = "d" }`, each
/// reduced to its body text.
pub open spec fn split_inline_tables_spec(s: Seq<char>) -> Seq<Seq<char>> {
    sit_run(s, scan_init()).parts
}

/// Split a sequence of inline tables into their body texts.
#[verifier::loop_isolation(false)]
pub fn split_inline_tables(s: &str) -> (r: Vec<String>)
    ensures
        r.deep_view() == split_inline_tables_spec(s@),
{
    let n = s.unicode_len();
    let mut parts: Vec<String> = Vec::new();
    let mut cur = String::new();
    let mut brace: usize = 0;
    let mut in_str = false;
    let mut prev: char = '\0';
    let mut i: usize = 0;
    proof {
        assert(s@.take(0) =~= Seq::<char>::empty());
        assert(parts.deep_view() =~= Seq::<Seq<char>>::empty());
    }
    while i < n
        invariant
            n == s@.len(),
            i <= n,
            brace <= i,
            sit_run(s@.take(i as int), scan_init()) == (ScanState {
                parts: parts.deep_view(),
                cur: cur@,
                brace: brace as int,
                bracket: 0,
                in_str: in_str,
                prev: prev,
            }),
        decreases n - i,
    {
        let ghost st = sit_run(s@.take(i as int), scan_init());
        let c = s.get_char(i);
        proof {
            assert(s@.take(i + 1) =~= s@.take(i as int).push(s@[i as int]));
            lemma_sit_run_snoc(s@.take(i as int), s@[i as int], scan_init());
        }
        let piece = s.substring_char(i, i + 1);
        proof {
            assert(piece@ =~= seq![s@[i as int]]);
            assert(cur@.push(c) =~= cur@ + piece@);
        }
        let ghost before_parts = parts.deep_view();
        if in_str {
            cur.append(piece);
            if c == '"' && prev != '\\' {
                in_str = false;
            }
        } else if c == '"' {
            in_str = true;
            cur.append(piece);
        } else if c == '{' {
            brace += 1;
            cur.append(piece);
        } else if c == '}' {
            if brace > 0 {
                brace -= 1;
            }
            cur.append(piece);
            if brace == 0 {
                let trimmed = text::trim(cur.as_str());
                let unbraced = text::strip_trailing_exec(
                    text::strip_leading_exec(trimmed.as_str(), '{').as_str(),
                    '}',
                );
                let body = text::trim(unbraced.as_str());
                parts.push(body);
                cur = String::new();
                proof {
                    assert(parts.deep_view() =~~= before_parts.push(
                        table_body_spec(st.cur.push(c)),
                    ));
                }
            }
        } else if brace == 0 && c == ',' {
        } else {
            cur.append(piece);
        }
        prev = c;
        i += 1;
    }
    proof {
        assert(s@.take(n as int) =~= s@);
    }
    parts
}

/// Errors of manifest loading and repair.
#[derive(Debug)]
pub enum ManifestError {
    /// The text is not a single inline table at the root.
    NotInlineRoot,
    /// A tool entry could not be read as a table of the expected shape.
    BadToolEntry { name: String },
    /// A tool without a usable version.
    MissingVersion { name: String },
    /// A tool without a usable source.
    MissingSource { name: String },
}

/// The entry starts the `tools` assignment.
pub open spec fn starts_tools(p: Seq<char>) -> bool {
    "tools"@.len() <= p.len() && p.subrange(0, "tools"@.len() as int) == "tools"@
}

/// The non-`tools` entries among the top-level parts, trimmed, empties
/// dropped.
pub open spec fn shorthand_of(parts: Seq<Seq<char>>) -> Seq<Seq<char>>
    decreases parts.len(),
{
    if parts.len() == 0 {
        Seq::empty()
    } else {
        let rest = shorthand_of(parts.skip(1));
        let p = text::trim_spec(parts[0]);
        if starts_tools(p) {
            rest
        } else if p.len() > 0 {
            seq![p] + rest
        } else {
            rest
        }
    }
}

/// The last `tools = [...]` entry among the top-level parts, if any.
pub open spec fn tools_seg_of(parts: Seq<Seq<char>>) -> Option<Seq<char>>
    decreases parts.len(),
{
    if parts.len() == 0 {
        Option::None
    } else {
        let rest = tools_seg_of(parts.skip(1));
        if rest is Some {
            rest
        } else {
            let p = text::trim_spec(parts[0]);
            if starts_tools(p) {
                Option::Some(p)
            } else {
                Option::None
            }
        }
    }
}

/// Each entry on its own line.
pub open spec fn lines_of(parts: Seq<Seq<char>>) -> Seq<char>
    decreases parts.len(),
{
    if parts.len() == 0 {
        Seq::empty()
    } else {
        parts[0] + seq!['\n'] + lines_of(parts.skip(1))
    }
}

/// Each trimmed non-empty entry on its own line.
pub open spec fn trimmed_lines_of(parts: Seq<Seq<char>>) -> Seq<char>
    decreases parts.len(),
{
    if parts.len() == 0 {
        Seq::empty()
    } else {
        let p = text::trim_spec(parts[0]);
        let rest = trimmed_lines_of(parts.skip(1));
        if p.len() > 0 {
            p + seq!['\n'] + rest
        } else {
            rest
        }
    }
}

/// One `[[tools]]` stanza per inline table.
pub open spec fn stanzas_of(tables: Seq<Seq<char>>) -> Seq<char>
    decreases tables.len(),
{
    if tables.len() == 0 {
        Seq::empty()
    } else {
        seq!['\n'] + "[[tools]]"@ + seq!['\n'] + trimmed_lines_of(
            split_top_level_spec(tables[0]),
        ) + stanzas_of(tables.skip(1))
    }
}

/// The repaired multi-line text for the `tools = [...]` segment.
pub open spec fn tools_out_of(seg: Seq<char>) -> Seq<char> {
    let ai = text::first_match(seg, seq!['[']);
    if ai < 0 {
        Seq::empty()
    } else {
        let arr = text::trim_spec(seg.skip(ai));
        if arr.len() >= 1 && arr[0] == '[' && arr[arr.len() - 1] == ']' && arr.len() >= 2 {
            stanzas_of(split_inline_tables_spec(arr.subrange(1, arr.len() - 1)))
        } else {
            Seq::empty()
        }
    }
}

/// The repaired text for a manifest written as one inline table at the
/// root, or `None` when the text has no such shape.
pub open spec fn repair_spec(src: Seq<char>) -> Option<Seq<char>> {
    let s = text::trim_spec(src);
    if s.len() >= 2 && s[0] == '{' && s[s.len() - 1] == '}' {
        let parts = split_top_level_spec(s.subrange(1, s.len() - 1));
        Option::Some(lines_of(shorthand_of(parts)) + (match tools_seg_of(parts) {
            Option::Some(seg) => tools_out_of(seg),
            Option::None => Seq::empty(),
        }))
    } else {
        Option::None
    }
}

/// Rewrite a manifest dumped as one inline table at the root into standard
/// multi-line form: scalar entries each on a line, and every element of a
/// `tools = [...]` array as its own `[[tools]]` stanza.
#[verifier::loop_isolation(false)]
#[verifier::rlimit(80)]
pub fn repair_inline_root(src: &str) -> (r: Result<String, ManifestError>)
    ensures
        match r {
            Ok(t) => repair_spec(src@) == Option::Some(t@),
            Err(e) => repair_spec(src@) is None && e matches ManifestError::NotInlineRoot,
        },
{
    proof {
        reveal_strlit("\n");
        reveal_strlit("[");
        assert("\n"@ =~= seq!['\n']);
        assert("["@ =~= seq!['[']);
    }
    let s = text::trim(src);
    let sn = s.as_str().unicode_len();
    if !(sn >= 2 && s.as_str().get_char(0) == '{' && s.as_str().get_char(sn - 1) == '}') {
        return Err(ManifestError::NotInlineRoot);
    }
    let inner = s.as_str().substring_char(1, sn - 1);
    let parts = split_top_level(inner);
    let ghost pv = parts.deep_view();
    let mut out = String::new();
    // shorthand lines and the tools segment, scanned in one pass
    let mut seg: Option<String> = None;
    let n = parts.len();
    let mut i: usize = 0;
    proof {
        assert(pv.skip(0) =~= pv);
    }
    while i < n
        invariant
            n == parts.len(),
            i <= n,
            pv == parts.deep_view(),
            lines_of(shorthand_of(pv)) == out@ + lines_of(shorthand_of(pv.skip(i as int))),
            tools_seg_of(pv) == (match tools_seg_of(pv.skip(i as int)) {
                Option::Some(g) => Option::Some(g),
                Option::None => match seg {
                    Some(g) => Option::Some(g@),
                    None => Option::None,
                },
            }),
        decreases n - i,
    {
        proof {
            assert(pv.skip(i as int)[0] == pv[i as int]);
            assert(parts[i as int]@ == pv[i as int]);
            assert(pv.skip(i as int).skip(1) =~= pv.skip(i + 1));
        }
        let ghost sh_rem = shorthand_of(pv.skip(i as int));
        let ghost sh_next = shorthand_of(pv.skip(i + 1));
        let p = text::trim(parts[i].as_str());
        if text::starts_with(p.as_str(), "tools") {
            seg = Some(p);
        } else if p.as_str().unicode_len() > 0 {
            proof {
                assert(sh_rem == seq![p@] + sh_next);
                assert((seq![p@] + sh_next)[0] == p@);
                assert((seq![p@] + sh_next).skip(1) =~= sh_next);
                assert(lines_of(sh_rem) == p@ + seq!['\n'] + lines_of(sh_next));
            }
            out.append(p.as_str());
            out.append("\n");
        }
        i += 1;
    }
    proof {
        assert(pv.skip(n as int) =~= Seq::<Seq<char>>::empty());
        assert(out@ =~= lines_of(shorthand_of(pv)));
    }
    let ghost out_lines = out@;
    proof {
        assert(s@ == text::trim_spec(src@));
        assert(inner@ =~= text::trim_spec(src@).subrange(1, text::trim_spec(src@).len() - 1));
        assert(pv == split_top_level_spec(inner@));
    }
    // the tools array, one stanza per element
    match &seg {
        Some(g) => {
            proof {
                assert(tools_seg_of(pv) == Option::Some(g@));
            }
            match text::find_str(g.as_str(), "[") {
                Some(ai) => {
                    proof {
                        text::lemma_first_match(g@, seq!['[']);
                        let fm = text::first_match(g@, seq!['[']);
                        assert(text::match_at(g@, seq!['['], fm));
                        if fm < ai {
                            assert(!text::match_at(g@, seq!['['], fm));
                        }
                        if ai < fm {
                            assert(!text::match_at(g@, seq!['['], ai as int));
                        }
                        assert(fm == ai as int);
                        assert(g@.skip(ai as int) =~= g@.subrange(ai as int, g@.len() as int));
                    }
                    let gn = g.as_str().unicode_len();
                    let arr = text::trim(g.as_str().substring_char(ai, gn));
                    let an = arr.as_str().unicode_len();
                    if an >= 2 && arr.as_str().get_char(0) == '[' && arr.as_str().get_char(an - 1)
                        == ']' {
                        let arr_inner = arr.as_str().substring_char(1, an - 1);
                        let tables = split_inline_tables(arr_inner);
                        let ghost tv = tables.deep_view();
                        let m = tables.len();
                        let mut j: usize = 0;
                        let ghost out_before = out@;
                        proof {
                            assert(tv.skip(0) =~= tv);
                        }
                        while j < m
                            invariant
                                m == tables.len(),
                                j <= m,
                                tv == tables.deep_view(),
                                out@ + stanzas_of(tv.skip(j as int)) == out_before + stanzas_of(
                                    tv,
                                ),
                            decreases m - j,
                        {
                            proof {
                                assert(tv.skip(j as int)[0] == tv[j as int]);
                                assert(tables[j as int]@ == tv[j as int]);
                                assert(tv.skip(j as int).skip(1) =~= tv.skip(j + 1));
                            }
                            let ghost st_rem = stanzas_of(tv.skip(j as int));
                            let ghost st_next = stanzas_of(tv.skip(j + 1));
                            out.append("\n");
                            out.append("[[tools]]");
                            out.append("\n");
                            let kvs = split_top_level(tables[j].as_str());
                            let ghost kv = kvs.deep_view();
                            proof {
                                assert(kv == split_top_level_spec(tv[j as int]));
                                assert(st_rem == seq!['\n'] + "[[tools]]"@ + seq!['\n']
                                    + trimmed_lines_of(kv) + st_next);
                            }
                            let kn = kvs.len();
                            let mut k: usize = 0;
                            let ghost out_b = out@;
                            proof {
                                assert(kv.skip(0) =~= kv);
                                assert(kv.take(0) =~= Seq::<Seq<char>>::empty());
                                assert(out_b + trimmed_lines_of(kv.take(0)) =~= out_b);
                            }
                            while k < kn
                                invariant
                                    kn == kvs.len(),
                                    k <= kn,
                                    kv == kvs.deep_view(),
                                    out@ == out_b + trimmed_lines_of(kv.take(k as int)),
                                decreases kn - k,
                            {
                                proof {
                                    assert(kvs[k as int]@ == kv[k as int]);
                                }
                                let kvp = text::trim(kvs[k].as_str());
                                if kvp.as_str().unicode_len() > 0 {
                                    out.append(kvp.as_str());
                                    out.append("\n");
                                }
                                proof {
                                    assert(kv.take(k + 1) =~= kv.take(k as int).push(
                                        kv[k as int],
                                    ));
                                    lemma_trimmed_lines_snoc(kv.take(k as int), kv[k as int]);
                                    assert(out@ =~= out_b + trimmed_lines_of(kv.take(k + 1)));
                                }
                                k += 1;
                            }
                            proof {
                                assert(kv.take(kn as int) =~= kv);
                                assert(out@ =~= out_b + trimmed_lines_of(kv));
                            }
                            j += 1;
                        }
                        proof {
                            assert(tv.skip(m as int) =~= Seq::<Seq<char>>::empty());
                            assert(out@ + Seq::<char>::empty() =~= out@);
                            assert(out@ == out_before + stanzas_of(tv));
                            let sarr = text::trim_spec(g@.skip(ai as int));
                            assert(arr@ == sarr);
                            assert(arr_inner@ =~= sarr.subrange(1, sarr.len() - 1));
                            assert(tv == split_inline_tables_spec(sarr.subrange(
                                1,
                                sarr.len() - 1,
                            )));
                            assert(tools_out_of(g@) == stanzas_of(tv));
                            assert(out@ =~= out_lines + tools_out_of(g@));
                        }
                        return Ok(out);
                    }
                    proof {
                        let sarr = text::trim_spec(g@.skip(ai as int));
                        assert(arr@ == sarr);
                        assert(an == sarr.len());
                        if sarr.len() >= 2 {
                            assert(arr@[0] == sarr[0]);
                            assert(arr@[an - 1] == sarr[sarr.len() - 1]);
                        }
                        assert(tools_out_of(g@) == Seq::<char>::empty());
                        assert(out@ =~= out_lines + tools_out_of(g@));
                    }
                    return Ok(out);
                },
                None => {
                    proof {
                        text::lemma_first_match(g@, seq!['[']);
                        assert(text::first_match(g@, seq!['[']) == -1);
                        assert(tools_out_of(g@) == Seq::<char>::empty());
                        assert(out@ =~= out_lines + tools_out_of(g@));
                    }
                    return Ok(out);
                },
            }
        },
        None => {
            proof {
                assert(tools_seg_of(pv) is None);
                assert(out@ =~= out_lines + Seq::<char>::empty());
            }
            return Ok(out);
        },
    }
}

/// Appending one more entry extends the trimmed lines accordingly.
proof fn lemma_trimmed_lines_snoc(parts: Seq<Seq<char>>, p: Seq<char>)
    ensures
        trimmed_lines_of(parts.push(p)) == trimmed_lines_of(parts) + (if text::trim_spec(
            p,
        ).len() > 0 {
            text::trim_spec(p) + seq!['\n']
        } else {
            Seq::<char>::empty()
        }),
    decreases parts.len(),
{
    if parts.len() == 0 {
        assert(parts.push(p)[0] == p);
        assert(parts.push(p).skip(1) =~= Seq::<Seq<char>>::empty());
        assert(trimmed_lines_of(Seq::<Seq<char>>::empty()) == Seq::<char>::empty());
        if text::trim_spec(p).len() > 0 {
            assert(trimmed_lines_of(parts.push(p)) =~= text::trim_spec(p) + seq!['\n']);
            assert(trimmed_lines_of(parts) + (text::trim_spec(p) + seq!['\n']) =~= text::trim_spec(
                p,
            ) + seq!['\n']);
        } else {
            assert(trimmed_lines_of(parts) + Seq::<char>::empty() =~= trimmed_lines_of(parts));
        }
    } else {
        assert(parts.push(p)[0] == parts[0]);
        assert(parts.push(p).skip(1) =~= parts.skip(1).push(p));
        lemma_trimmed_lines_snoc(parts.skip(1), p);
        assert(trimmed_lines_of(parts.push(p)) =~= trimmed_lines_of(parts) + (if text::trim_spec(
            p,
        ).len() > 0 {
            text::trim_spec(p) + seq!['\n']
        } else {
            Seq::<char>::empty()
        }));
    }
}

/// Trimmed lines split at any point.
proof fn lemma_trimmed_lines_split(parts: Seq<Seq<char>>, k: int)
    requires
        0 <= k <= parts.len(),
    ensures
        trimmed_lines_of(parts.take(k)) + trimmed_lines_of(parts.skip(k)) == trimmed_lines_of(
            parts,
        ),
    decreases k,
{
    if k == 0 {
        assert(parts.take(0) =~= Seq::<Seq<char>>::empty());
        assert(parts.skip(0) =~= parts);
        assert(Seq::<char>::empty() + trimmed_lines_of(parts) =~= trimmed_lines_of(parts));
    } else {
        assert(parts.take(k)[0] == parts[0]);
        assert(parts.take(k).skip(1) =~= parts.skip(1).take(k - 1));
        assert(parts.skip(k) =~= parts.skip(1).skip(k - 1));
        lemma_trimmed_lines_split(parts.skip(1), k - 1);
        assert((text::trim_spec(parts[0]).len() > 0 ==> trimmed_lines_of(parts.take(k))
            == text::trim_spec(parts[0]) + seq!['\n'] + trimmed_lines_of(parts.skip(1).take(k - 1))));
        assert(trimmed_lines_of(parts.take(k)) + trimmed_lines_of(parts.skip(k))
            =~= trimmed_lines_of(parts));
    }
}

/// When a per-OS-arch override is set for a host, the per-OS table and the
/// base template play no part: two tools agreeing on `per_os_arch` render
/// the same effective template there, whatever their other sources say.
pub proof fn lemma_per_os_arch_overrides(t1: Tool, t2: Tool, os: Seq<char>, arch: Seq<char>)
    requires
        t1.per_os_arch == t2.per_os_arch,
        per_os_arch_override(t1, os, arch) is Some,
    ensures
        effective_template_spec(t1, os, arch) == effective_template_spec(t2, os, arch),
{
}

/// When only a per-OS override is set for a host, the base template plays no
/// part: two tools agreeing on `per_os` and without a per-OS-arch override
/// render the same effective template for that OS, whatever their base
/// `source` says.
pub proof fn lemma_per_os_overrides(t1: Tool, t2: Tool, os: Seq<char>, arch: Seq<char>)
    requires
        t1.per_os == t2.per_os,
        t1.per_os_arch is None,
        t2.per_os_arch is None,
        per_os_override(t1, os) is Some,
    ensures
        effective_template_spec(t1, os, arch) == effective_template_spec(t2, os, arch),
{
}

} // verus!

verus! {

/// One tool after binary-path augmentation: every field kept, the binary
/// filled in for the known archive layouts.
pub open spec fn augmented_rel(t0: Tool, t1: Tool, os: Seq<char>, arch: Seq<char>) -> bool {
    &&& t1.name == t0.name
    &&& t1.version == t0.version
    &&& t1.kind == t0.kind
    &&& t1.source == t0.source
    &&& t1.sha256 == t0.sha256
    &&& t1.install_dir == t0.install_dir
    &&& t1.per_os == t0.per_os
    &&& t1.per_os_arch == t0.per_os_arch
    &&& (match t1.binary {
        Option::Some(b) => crate::unknown_tools::augmented_binary(t0, os, arch) == Option::Some(
            b@,
        ),
        Option::None => crate::unknown_tools::augmented_binary(t0, os, arch) is None,
    })
}

/// The names of a tool list.
pub open spec fn names_of(ts: Seq<Tool>) -> Seq<Seq<char>> {
    Seq::new(ts.len(), |i: int| ts[i].name@)
}

impl TlkConfig {
    /// Assemble the manifest from its parsed tree for a host: the declared
    /// tools first, then the known-tool shorthand entries they do not
    /// shadow, with the implicit binary paths of known archive layouts
    /// filled in.
    #[verifier::loop_isolation(false)]
    pub fn load(root: &crate::toml_model::TomlValue, os: &str, arch: &str, libc: &str) -> (r:
        Result<TlkConfig, ManifestError>)
        ensures
            match r {
                Ok(cfg) => crate::unknown_tools::unknown_tools_ok(*root) && (exists|
                    base: Seq<Tool>,
                    sh: Seq<Tool>,
                |
                    #![trigger base + sh]
                    {
                        &&& crate::unknown_tools::unknown_tools_match(*root, base)
                        &&& (match *root {
                            crate::toml_model::TomlValue::Table(es) =>
                                crate::known_tools::shorthand_match(
                                es@,
                                names_of(base),
                                sh,
                                os@,
                                arch@,
                                libc@,
                            ),
                            _ => sh.len() == 0,
                        })
                        &&& cfg.tools@.len() == base.len() + sh.len()
                        &&& (forall|i: int|
                            0 <= i < cfg.tools@.len() ==> augmented_rel(
                                (base + sh)[i],
                                #[trigger] cfg.tools@[i],
                                os@,
                                arch@,
                            ))
                    }),
                Err(_) => !crate::unknown_tools::unknown_tools_ok(*root),
            },
    {
        let mut tools = match crate::unknown_tools::parse_unknown(root) {
            Ok(ts) => ts,
            Err(e) => {
                return Err(e);
            },
        };
        let ghost base = tools@;
        let mut explicit_names: Vec<String> = Vec::new();
        let n = tools.len();
        let mut i: usize = 0;
        while i < n
            invariant
                n == tools.len(),
                i <= n,
                explicit_names.len() == i,
                forall|j: int| 0 <= j < i ==> explicit_names.deep_view()[j] == tools@[j].name@,
            decreases n - i,
        {
            let ghost before = explicit_names.deep_view();
            explicit_names.push(tools[i].name.clone());
            proof {
                assert(explicit_names.deep_view() =~~= before.push(tools@[i as int].name@));
            }
            i += 1;
        }
        proof {
            assert(explicit_names.deep_view() =~= names_of(base));
        }
        let mut shorthand = crate::known_tools::extract_shorthand(
            root,
            &explicit_names,
            os,
            arch,
            libc,
        );
        let ghost sh = shorthand@;
        tools.append(&mut shorthand);
        proof {
            assert(tools@ == base + sh);
        }
        crate::unknown_tools::augment_binary_fields(&mut tools, os, arch);
        let cfg = TlkConfig { tools };
        proof {
            assert(crate::unknown_tools::unknown_tools_match(*root, base));
            assert(match *root {
                crate::toml_model::TomlValue::Table(es) => crate::known_tools::shorthand_match(
                    es@,
                    names_of(base),
                    sh,
                    os@,
                    arch@,
                    libc@,
                ),
                _ => sh.len() == 0,
            });
        }
        Ok(cfg)
    }
}

} // verus!

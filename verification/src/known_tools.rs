//! The built-in catalog of known tools: for each supported name, the tool
//! kind, its source rule (a literal URL template, or a rule computed from
//! the cleaned version and the host), and the relative binary path inside
//! the archive when one is needed.
use vstd::prelude::*;

use crate::config::{Tool, ToolKind};
use crate::text;

verus! {

/// A source rule computed from version and host, where upstream naming
/// deviates from a plain template.
#[derive(PartialEq, Eq, Structural, Clone, Copy, Debug)]
pub enum CustomSource {
    Node,
    Pnpm,
    Just,
    Jq,
    Cosign,
    Age,
    Moon,
}

/// How a known tool's download URL is obtained.
pub enum SourceSpec {
    /// A URL template with `{version}`, `{os}`, `{arch}` placeholders.
    Template(String),
    /// A computed rule.
    Custom(CustomSource),
}

/// One catalog entry.
pub struct KnownToolDef {
    pub kind: ToolKind,
    pub source: SourceSpec,
    pub binary_rel: Option<String>,
}

/// The model of a source rule.
pub enum SourceSpecView {
    Template(Seq<char>),
    Custom(CustomSource),
}

/// The model of a catalog entry.
pub struct KnownToolDefView {
    pub kind: ToolKind,
    pub source: SourceSpecView,
    pub binary_rel: Option<Seq<char>>,
}

impl DeepView for KnownToolDef {
    type V = KnownToolDefView;

    open spec fn deep_view(&self) -> KnownToolDefView {
        KnownToolDefView {
            kind: self.kind,
            source: match self.source {
                SourceSpec::Template(t) => SourceSpecView::Template(t@),
                SourceSpec::Custom(c) => SourceSpecView::Custom(c),
            },
            binary_rel: match self.binary_rel {
                Option::Some(b) => Option::Some(b@),
                Option::None => Option::None,
            },
        }
    }
}

/// The catalog entry for a name, if the name is known.
pub open spec fn known_tool_view(name: Seq<char>) -> Option<KnownToolDefView> {
    if name == "terraform"@ {
        Option::Some(
            KnownToolDefView {
                kind: ToolKind::Archive,
                source: SourceSpecView::Template(
                    "https://releases.hashicorp.com/terraform/{version}/terraform_{version}_{os}_{arch}.zip"@,
                ),
                binary_rel: Option::Some("terraform"@),
            },
        )
    } else if name == "kubectl"@ {
        Option::Some(
            KnownToolDefView {
                kind: ToolKind::Direct,
                source: SourceSpecView::Template(
                    "https://dl.k8s.io/release/v{version}/bin/{os}/{arch}/kubectl"@,
                ),
                binary_rel: Option::None,
            },
        )
    } else if name == "helm"@ {
        Option::Some(
            KnownToolDefView {
                kind: ToolKind::Archive,
                source: SourceSpecView::Template(
                    "https://get.helm.sh/helm-v{version}-{os}-{arch}.tar.gz"@,
                ),
                binary_rel: Option::None,
            },
        )
    } else if name == "gh"@ {
        Option::Some(
            KnownToolDefView {
                kind: ToolKind::Archive,
                source: SourceSpecView::Template(
                    "https://github.com/cli/cli/releases/download/v{version}/gh_{version}_{os}_{arch}.tar.gz"@,
                ),
                binary_rel: Option::None,
            },
        )
    } else if name == "buf"@ {
        Option::Some(
            KnownToolDefView {
                kind: ToolKind::Direct,
                source: SourceSpecView::Template(
                    "https://github.com/bufbuild/buf/releases/download/v{version}/buf-{os}-{arch}"@,
                ),
                binary_rel: Option::None,
            },
        )
    } else if name == "node"@ {
        Option::Some(
            KnownToolDefView {
                kind: ToolKind::Archive,
                source: SourceSpecView::Custom(CustomSource::Node),
                binary_rel: Option::Some("bin/node"@),
            },
        )
    } else if name == "pnpm"@ {
        Option::Some(
            KnownToolDefView {
                kind: ToolKind::Direct,
                source: SourceSpecView::Custom(CustomSource::Pnpm),
                binary_rel: Option::None,
            },
        )
    } else if name == "yarn"@ {
        Option::Some(
            KnownToolDefView {
                kind: ToolKind::Archive,
                source: SourceSpecView::Template(
                    "https://github.com/yarnpkg/yarn/releases/download/v{version}/yarn-v{version}.tar.gz"@,
                ),
                binary_rel: Option::Some("bin/yarn"@),
            },
        )
    } else if name == "just"@ {
        Option::Some(
            KnownToolDefView {
                kind: ToolKind::Archive,
                source: SourceSpecView::Custom(CustomSource::Just),
                binary_rel: Option::Some("just"@),
            },
        )
    } else if name == "jq"@ {
        Option::Some(
            KnownToolDefView {
                kind: ToolKind::Direct,
                source: SourceSpecView::Custom(CustomSource::Jq),
                binary_rel: Option::None,
            },
        )
    } else if name == "cosign"@ {
        Option::Some(
            KnownToolDefView {
                kind: ToolKind::Direct,
                source: SourceSpecView::Custom(CustomSource::Cosign),
                binary_rel: Option::None,
            },
        )
    } else if name == "age"@ {
        Option::Some(
            KnownToolDefView {
                kind: ToolKind::Archive,
                source: SourceSpecView::Custom(CustomSource::Age),
                binary_rel: Option::Some("age"@),
            },
        )
    } else if name == "moon"@ {
        Option::Some(
            KnownToolDefView {
                kind: ToolKind::Direct,
                source: SourceSpecView::Custom(CustomSource::Moon),
                binary_rel: Option::Some("moon"@),
            },
        )
    } else {
        Option::None
    }
}

/// Look one name up in the catalog.
pub fn known_tool_lookup(name: &str) -> (r: Option<KnownToolDef>)
    ensures
        match r {
            Some(d) => known_tool_view(name@) == Option::Some(d.deep_view()),
            None => known_tool_view(name@) is None,
        },
{
    if text::str_eq(name, "terraform") {
        Some(
            KnownToolDef {
                kind: ToolKind::Archive,
                source: SourceSpec::Template(
                    "https://releases.hashicorp.com/terraform/{version}/terraform_{version}_{os}_{arch}.zip".to_owned(),
                ),
                binary_rel: Some("terraform".to_owned()),
            },
        )
    } else if text::str_eq(name, "kubectl") {
        Some(
            KnownToolDef {
                kind: ToolKind::Direct,
                source: SourceSpec::Template(
                    "https://dl.k8s.io/release/v{version}/bin/{os}/{arch}/kubectl".to_owned(),
                ),
                binary_rel: None,
            },
        )
    } else if text::str_eq(name, "helm") {
        Some(
            KnownToolDef {
                kind: ToolKind::Archive,
                source: SourceSpec::Template(
                    "https://get.helm.sh/helm-v{version}-{os}-{arch}.tar.gz".to_owned(),
                ),
                binary_rel: None,
            },
        )
    } else if text::str_eq(name, "gh") {
        Some(
            KnownToolDef {
                kind: ToolKind::Archive,
                source: SourceSpec::Template(
                    "https://github.com/cli/cli/releases/download/v{version}/gh_{version}_{os}_{arch}.tar.gz".to_owned(),
                ),
                binary_rel: None,
            },
        )
    } else if text::str_eq(name, "buf") {
        Some(
            KnownToolDef {
                kind: ToolKind::Direct,
                source: SourceSpec::Template(
                    "https://github.com/bufbuild/buf/releases/download/v{version}/buf-{os}-{arch}".to_owned(),
                ),
                binary_rel: None,
            },
        )
    } else if text::str_eq(name, "node") {
        Some(
            KnownToolDef {
                kind: ToolKind::Archive,
                source: SourceSpec::Custom(CustomSource::Node),
                binary_rel: Some("bin/node".to_owned()),
            },
        )
    } else if text::str_eq(name, "pnpm") {
        Some(
            KnownToolDef {
                kind: ToolKind::Direct,
                source: SourceSpec::Custom(CustomSource::Pnpm),
                binary_rel: None,
            },
        )
    } else if text::str_eq(name, "yarn") {
        Some(
            KnownToolDef {
                kind: ToolKind::Archive,
                source: SourceSpec::Template(
                    "https://github.com/yarnpkg/yarn/releases/download/v{version}/yarn-v{version}.tar.gz".to_owned(),
                ),
                binary_rel: Some("bin/yarn".to_owned()),
            },
        )
    } else if text::str_eq(name, "just") {
        Some(
            KnownToolDef {
                kind: ToolKind::Archive,
                source: SourceSpec::Custom(CustomSource::Just),
                binary_rel: Some("just".to_owned()),
            },
        )
    } else if text::str_eq(name, "jq") {
        Some(
            KnownToolDef {
                kind: ToolKind::Direct,
                source: SourceSpec::Custom(CustomSource::Jq),
                binary_rel: None,
            },
        )
    } else if text::str_eq(name, "cosign") {
        Some(
            KnownToolDef {
                kind: ToolKind::Direct,
                source: SourceSpec::Custom(CustomSource::Cosign),
                binary_rel: None,
            },
        )
    } else if text::str_eq(name, "age") {
        Some(
            KnownToolDef {
                kind: ToolKind::Archive,
                source: SourceSpec::Custom(CustomSource::Age),
                binary_rel: Some("age".to_owned()),
            },
        )
    } else if text::str_eq(name, "moon") {
        Some(
            KnownToolDef {
                kind: ToolKind::Direct,
                source: SourceSpec::Custom(CustomSource::Moon),
                binary_rel: Some("moon".to_owned()),
            },
        )
    } else {
        None
    }
}

/// Add one known name with its catalog entry.
fn push_known(out: &mut Vec<(String, KnownToolDef)>, name: &str)
    requires
        known_tool_view(name@) is Some,
    ensures
        final(out).len() == old(out).len() + 1,
        forall|j: int| 0 <= j < old(out).len() ==> final(out)[j] == old(out)[j],
        final(out)[old(out).len() as int].0@ == name@,
        known_tool_view(final(out)[old(out).len() as int].0@) == Option::Some(
            final(out)[old(out).len() as int].1.deep_view(),
        ),
{
    match known_tool_lookup(name) {
        Some(d) => {
            out.push((name.to_owned(), d));
        },
        None => {
            proof {
                assert(false);
            }
        },
    }
}

/// The catalog as a list of `(name, entry)` pairs.
pub fn known_tools_map() -> (r: Vec<(String, KnownToolDef)>)
    ensures
        r.len() == 13,
        forall|i: int|
            0 <= i < r.len() ==> known_tool_view((#[trigger] r[i]).0@) == Option::Some(
                r[i].1.deep_view(),
            ),
        r@[0].0@ == "terraform"@,
        r@[1].0@ == "kubectl"@,
        r@[2].0@ == "helm"@,
        r@[3].0@ == "gh"@,
        r@[4].0@ == "buf"@,
        r@[5].0@ == "node"@,
        r@[6].0@ == "pnpm"@,
        r@[7].0@ == "yarn"@,
        r@[8].0@ == "just"@,
        r@[9].0@ == "jq"@,
        r@[10].0@ == "cosign"@,
        r@[11].0@ == "age"@,
        r@[12].0@ == "moon"@,
{
    let mut out: Vec<(String, KnownToolDef)> = Vec::new();
    push_known(&mut out, "terraform");
    push_known(&mut out, "kubectl");
    push_known(&mut out, "helm");
    push_known(&mut out, "gh");
    push_known(&mut out, "buf");
    push_known(&mut out, "node");
    push_known(&mut out, "pnpm");
    push_known(&mut out, "yarn");
    push_known(&mut out, "just");
    push_known(&mut out, "jq");
    push_known(&mut out, "cosign");
    push_known(&mut out, "age");
    push_known(&mut out, "moon");
    out
}

/// The computed source URL for a tool whose upstream naming deviates from a
/// plain template, as a function of cleaned version and host.
pub open spec fn custom_source_spec(
    c: CustomSource,
    v: Seq<char>,
    os: Seq<char>,
    arch: Seq<char>,
    libc: Seq<char>,
) -> Seq<char> {
    match c {
        CustomSource::Node => {
            let na = if arch == "amd64"@ {
                "x64"@
            } else {
                arch
            };
            if os == "windows"@ {
                "https://nodejs.org/dist/v"@ + v + "/node-v"@ + v + "-win-"@ + na + ".zip"@
            } else {
                "https://nodejs.org/dist/v"@ + v + "/node-v"@ + v + "-"@ + os + "-"@ + na
                    + ".tar.gz"@
            }
        },
        CustomSource::Pnpm => {
            let na = if arch == "amd64"@ {
                "x64"@
            } else {
                arch
            };
            let osp = if os == "darwin"@ {
                "macos"@
            } else if os == "windows"@ {
                "win"@
            } else {
                os
            };
            let ext = if osp == "win"@ {
                ".exe"@
            } else {
                ""@
            };
            let seg = if osp == "linux"@ {
                "linuxstatic"@
            } else {
                osp
            };
            "https://github.com/pnpm/pnpm/releases/download/v"@ + v + "/pnpm-"@ + seg + "-"@ + na
                + ext
        },
        CustomSource::Just => {
            if os == "darwin"@ && arch == "amd64"@ {
                "https://github.com/casey/just/releases/download/"@ + v + "/just-"@ + v
                    + "-x86_64-apple-darwin.tar.gz"@
            } else if os == "darwin"@ && arch == "arm64"@ {
                "https://github.com/casey/just/releases/download/"@ + v + "/just-"@ + v
                    + "-aarch64-apple-darwin.tar.gz"@
            } else if os == "linux"@ && arch == "amd64"@ {
                "https://github.com/casey/just/releases/download/"@ + v + "/just-"@ + v
                    + "-x86_64-unknown-linux-musl.tar.gz"@
            } else if os == "linux"@ && arch == "arm64"@ {
                "https://github.com/casey/just/releases/download/"@ + v + "/just-"@ + v
                    + "-aarch64-unknown-linux-musl.tar.gz"@
            } else if os == "windows"@ && arch == "amd64"@ {
                "https://github.com/casey/just/releases/download/"@ + v + "/just-"@ + v
                    + "-x86_64-pc-windows-msvc.zip"@
            } else {
                "https://github.com/casey/just/releases/download/"@ + v + "/just-"@ + v + "-"@
                    + arch + "-"@ + os + ".tar.gz"@
            }
        },
        CustomSource::Jq => {
            let osp = if os == "darwin"@ {
                "macos"@
            } else {
                os
            };
            let ext = if os == "windows"@ {
                ".exe"@
            } else {
                ""@
            };
            "https://github.com/jqlang/jq/releases/download/jq-"@ + v + "/jq-"@ + osp + "-"@ + arch
                + ext
        },
        CustomSource::Cosign => {
            let ext = if os == "windows"@ {
                ".exe"@
            } else {
                ""@
            };
            "https://github.com/sigstore/cosign/releases/download/v"@ + v + "/cosign-"@ + os + "-"@
                + arch + ext
        },
        CustomSource::Age => {
            let ext = if os == "windows"@ {
                "zip"@
            } else {
                "tar.gz"@
            };
            "https://github.com/FiloSottile/age/releases/download/v"@ + v + "/age-v"@ + v + "-"@
                + os + "-"@ + arch + "."@ + ext
        },
        CustomSource::Moon => {
            let ma = if arch == "amd64"@ {
                "x86_64"@
            } else {
                arch
            };
            let triple = if os == "darwin"@ {
                ma + "-apple-darwin"@
            } else if os == "linux"@ {
                ma + "-unknown-linux-"@ + libc
            } else if os == "windows"@ {
                ma + "-pc-windows-msvc"@
            } else {
                ma + "-"@ + os
            };
            let ext = if os == "windows"@ {
                ".exe"@
            } else {
                ""@
            };
            "https://github.com/moonrepo/moon/releases/download/v"@ + v + "/moon-"@ + triple + ext
        },
    }
}

/// Compute the source URL of a custom rule for a host.
pub fn custom_source(c: CustomSource, v: &str, os: &str, arch: &str, libc: &str) -> (r: String)
    ensures
        r@ == custom_source_spec(c, v@, os@, arch@, libc@),
{
    let mut out = String::new();
    proof {
        reveal_strlit("");
        assert(""@ =~= Seq::<char>::empty());
    }
    match c {
        CustomSource::Node => {
            let na: &str = if text::str_eq(arch, "amd64") {
                "x64"
            } else {
                arch
            };
            out.append("https://nodejs.org/dist/v");
            out.append(v);
            out.append("/node-v");
            out.append(v);
            if text::str_eq(os, "windows") {
                out.append("-win-");
                out.append(na);
                out.append(".zip");
            } else {
                out.append("-");
                out.append(os);
                out.append("-");
                out.append(na);
                out.append(".tar.gz");
            }
        },
        CustomSource::Pnpm => {
            let na: &str = if text::str_eq(arch, "amd64") {
                "x64"
            } else {
                arch
            };
            let osp: &str = if text::str_eq(os, "darwin") {
                "macos"
            } else if text::str_eq(os, "windows") {
                "win"
            } else {
                os
            };
            let seg: &str = if text::str_eq(osp, "linux") {
                "linuxstatic"
            } else {
                osp
            };
            out.append("https://github.com/pnpm/pnpm/releases/download/v");
            out.append(v);
            out.append("/pnpm-");
            out.append(seg);
            out.append("-");
            out.append(na);
            if text::str_eq(osp, "win") {
                out.append(".exe");
            } else {
                out.append("");
            }
        },
        CustomSource::Just => {
            out.append("https://github.com/casey/just/releases/download/");
            out.append(v);
            out.append("/just-");
            out.append(v);
            if text::str_eq(os, "darwin") && text::str_eq(arch, "amd64") {
                out.append("-x86_64-apple-darwin.tar.gz");
            } else if text::str_eq(os, "darwin") && text::str_eq(arch, "arm64") {
                out.append("-aarch64-apple-darwin.tar.gz");
            } else if text::str_eq(os, "linux") && text::str_eq(arch, "amd64") {
                out.append("-x86_64-unknown-linux-musl.tar.gz");
            } else if text::str_eq(os, "linux") && text::str_eq(arch, "arm64") {
                out.append("-aarch64-unknown-linux-musl.tar.gz");
            } else if text::str_eq(os, "windows") && text::str_eq(arch, "amd64") {
                out.append("-x86_64-pc-windows-msvc.zip");
            } else {
                out.append("-");
                out.append(arch);
                out.append("-");
                out.append(os);
                out.append(".tar.gz");
            }
        },
        CustomSource::Jq => {
            let osp: &str = if text::str_eq(os, "darwin") {
                "macos"
            } else {
                os
            };
            out.append("https://github.com/jqlang/jq/releases/download/jq-");
            out.append(v);
            out.append("/jq-");
            out.append(osp);
            out.append("-");
            out.append(arch);
            if text::str_eq(os, "windows") {
                out.append(".exe");
            } else {
                out.append("");
            }
        },
        CustomSource::Cosign => {
            out.append("https://github.com/sigstore/cosign/releases/download/v");
            out.append(v);
            out.append("/cosign-");
            out.append(os);
            out.append("-");
            out.append(arch);
            if text::str_eq(os, "windows") {
                out.append(".exe");
            } else {
                out.append("");
            }
        },
        CustomSource::Age => {
            out.append("https://github.com/FiloSottile/age/releases/download/v");
            out.append(v);
            out.append("/age-v");
            out.append(v);
            out.append("-");
            out.append(os);
            out.append("-");
            out.append(arch);
            out.append(".");
            if text::str_eq(os, "windows") {
                out.append("zip");
            } else {
                out.append("tar.gz");
            }
        },
        CustomSource::Moon => {
            let ma: &str = if text::str_eq(arch, "amd64") {
                "x86_64"
            } else {
                arch
            };
            out.append("https://github.com/moonrepo/moon/releases/download/v");
            out.append(v);
            out.append("/moon-");
            out.append(ma);
            if text::str_eq(os, "darwin") {
                out.append("-apple-darwin");
            } else if text::str_eq(os, "linux") {
                out.append("-unknown-linux-");
                out.append(libc);
            } else if text::str_eq(os, "windows") {
                out.append("-pc-windows-msvc");
            } else {
                out.append("-");
                out.append(os);
            }
            if text::str_eq(os, "windows") {
                out.append(".exe");
            } else {
                out.append("");
            }
        },
    }
    proof {
        assert(out@ =~= custom_source_spec(c, v@, os@, arch@, libc@));
    }
    out
}

impl KnownToolDef {
    /// Build a tool from this catalog entry: the version loses any leading
    /// `v`, and the source is the template or the computed URL for the host.
    pub fn build(&self, name: &str, version: &str, os: &str, arch: &str, libc: &str) -> (t: Tool)
        ensures
            t.name@ == name@,
            t.version@ == text::strip_leading(version@, 'v'),
            t.kind == self.kind,
            t.source@ == (match self.deep_view().source {
                SourceSpecView::Template(tpl) => tpl,
                SourceSpecView::Custom(c) => custom_source_spec(
                    c,
                    text::strip_leading(version@, 'v'),
                    os@,
                    arch@,
                    libc@,
                ),
            }),
            t.sha256 is None,
            (match t.binary {
                Option::Some(b) => self.deep_view().binary_rel == Option::Some(b@),
                Option::None => self.deep_view().binary_rel is None,
            }),
            t.install_dir is None,
            t.per_os is None,
            t.per_os_arch is None,
    {
        let clean = text::strip_leading_exec(version, 'v');
        let source: String = match &self.source {
            SourceSpec::Template(tpl) => tpl.clone(),
            SourceSpec::Custom(c) => custom_source(*c, clean.as_str(), os, arch, libc),
        };
        Tool {
            name: name.to_owned(),
            version: clean,
            kind: self.kind,
            source,
            sha256: None,
            binary: crate::config::duplicate_opt_string(&self.binary_rel),
            install_dir: None,
            per_os: None,
            per_os_arch: None,
        }
    }
}

/// Build a known tool by name, for a host.
pub fn build_known_tool(name: &str, version: &str, os: &str, arch: &str, libc: &str) -> (r: Result<
    Tool,
    crate::versioning::ResolutionError,
>)
    ensures
        match r {
            Ok(t) => known_tool_view(name@) matches Option::Some(d) && {
                &&& t.name@ == name@
                &&& t.version@ == text::strip_leading(version@, 'v')
                &&& t.kind == d.kind
                &&& t.source@ == (match d.source {
                    SourceSpecView::Template(tpl) => tpl,
                    SourceSpecView::Custom(c) => custom_source_spec(
                        c,
                        text::strip_leading(version@, 'v'),
                        os@,
                        arch@,
                        libc@,
                    ),
                })
                &&& t.sha256 is None
                &&& (match t.binary {
                    Option::Some(b) => d.binary_rel == Option::Some(b@),
                    Option::None => d.binary_rel is None,
                })
                &&& t.install_dir is None
                &&& t.per_os is None
                &&& t.per_os_arch is None
            },
            Err(e) => known_tool_view(name@) is None && (e matches
            crate::versioning::ResolutionError::UnknownTool { name: n } && n@ == name@),
        },
{
    match known_tool_lookup(name) {
        Some(d) => Ok(d.build(name, version, os, arch, libc)),
        None => Err(crate::versioning::ResolutionError::UnknownTool { name: name.to_owned() }),
    }
}

/// Canonical operating-system name for templates: `macos` is unified with
/// `darwin`; anything else passes through.
pub fn placeholder_os(raw: &str) -> (r: String)
    ensures
        raw@ == "macos"@ ==> r@ == "darwin"@,
        raw@ != "macos"@ ==> r@ == raw@,
{
    if text::str_eq(raw, "macos") {
        "darwin".to_owned()
    } else {
        raw.to_owned()
    }
}

/// Canonical architecture name for templates: `x86_64` is unified with
/// `amd64` and `aarch64` with `arm64`; anything else passes through.
pub fn placeholder_arch(raw: &str) -> (r: String)
    ensures
        raw@ == "x86_64"@ ==> r@ == "amd64"@,
        raw@ == "aarch64"@ ==> r@ == "arm64"@,
        (raw@ != "x86_64"@ && raw@ != "aarch64"@) ==> r@ == raw@,
{
    proof {
        reveal_strlit("x86_64");
        reveal_strlit("aarch64");
        assert("x86_64"@.len() != "aarch64"@.len());
    }
    if text::str_eq(raw, "x86_64") {
        "amd64".to_owned()
    } else if text::str_eq(raw, "aarch64") {
        "arm64".to_owned()
    } else {
        raw.to_owned()
    }
}

} // verus!

use vstd::string::StringExecFns;

verus! {

/// A name stands among the already-declared tool names.
pub open spec fn name_in(existing: Seq<Seq<char>>, k: Seq<char>) -> bool {
    exists|i: int| 0 <= i < existing.len() && existing[i] == k
}

/// A tool is the catalog's build for a name and version text on a host.
pub open spec fn built_known(
    t: Tool,
    name: Seq<char>,
    vtxt: Seq<char>,
    os: Seq<char>,
    arch: Seq<char>,
    libc: Seq<char>,
) -> bool {
    match known_tool_view(name) {
        Option::Some(d) => {
            &&& t.name@ == name
            &&& t.version@ == crate::text::strip_leading(vtxt, 'v')
            &&& t.kind == d.kind
            &&& t.source@ == (match d.source {
                SourceSpecView::Template(tpl) => tpl,
                SourceSpecView::Custom(c) => custom_source_spec(
                    c,
                    crate::text::strip_leading(vtxt, 'v'),
                    os,
                    arch,
                    libc,
                ),
            })
            &&& t.sha256 is None
            &&& (match t.binary {
                Option::Some(b) => d.binary_rel == Option::Some(b@),
                Option::None => d.binary_rel is None,
            })
            &&& t.install_dir is None
            &&& t.per_os is None
            &&& t.per_os_arch is None
        },
        Option::None => false,
    }
}

/// The shorthand tools of a root's entry list: every `name = "version"`
/// text entry whose key is a known tool not already declared, built from
/// the catalog, in entry order.
pub open spec fn shorthand_match(
    es: Seq<(String, crate::toml_model::TomlValue)>,
    existing: Seq<Seq<char>>,
    ts: Seq<Tool>,
    os: Seq<char>,
    arch: Seq<char>,
    libc: Seq<char>,
) -> bool
    decreases es.len(),
{
    if es.len() == 0 {
        ts.len() == 0
    } else {
        let k = es[0].0@;
        match es[0].1 {
            crate::toml_model::TomlValue::Text(v) => {
                if !name_in(existing, k) && known_tool_view(k) is Some {
                    ts.len() > 0 && built_known(ts[0], k, v@, os, arch, libc) && shorthand_match(
                        es.skip(1),
                        existing,
                        ts.skip(1),
                        os,
                        arch,
                        libc,
                    )
                } else {
                    shorthand_match(es.skip(1), existing, ts, os, arch, libc)
                }
            },
            _ => shorthand_match(es.skip(1), existing, ts, os, arch, libc),
        }
    }
}

/// Whether a name stands among the declared names.
#[verifier::loop_isolation(false)]
fn name_in_exec(existing: &Vec<String>, k: &str) -> (r: bool)
    ensures
        r == name_in(existing.deep_view(), k@),
{
    let n = existing.len();
    let mut i: usize = 0;
    while i < n
        invariant
            n == existing.len(),
            i <= n,
            forall|j: int| 0 <= j < i ==> existing.deep_view()[j] != k@,
        decreases n - i,
    {
        proof {
            assert(existing[i as int]@ == existing.deep_view()[i as int]);
        }
        if crate::text::str_eq(existing[i].as_str(), k) {
            proof {
                assert(name_in(existing.deep_view(), k@));
            }
            return true;
        }
        i += 1;
    }
    false
}

/// Collect the known-tool shorthand of a manifest tree: every root-level
/// `name = "version"` entry whose key the catalog knows and that no
/// declared tool already uses.
#[verifier::loop_isolation(false)]
pub fn extract_shorthand(
    root: &crate::toml_model::TomlValue,
    existing: &Vec<String>,
    os: &str,
    arch: &str,
    libc: &str,
) -> (r: Vec<Tool>)
    ensures
        (match *root {
            crate::toml_model::TomlValue::Table(es) => shorthand_match(
                es@,
                existing.deep_view(),
                r@,
                os@,
                arch@,
                libc@,
            ),
            _ => r@.len() == 0,
        }),
{
    let mut out: Vec<Tool> = Vec::new();
    let es = match root.as_table() {
        Some(es) => es,
        None => {
            proof {
                assert(out@ =~= Seq::<Tool>::empty());
            }
            return out;
        },
    };
    let ghost ev = es@;
    let ghost exv = existing.deep_view();
    let n = es.len();
    let mut i: usize = 0;
    proof {
        assert(ev.skip(0) =~= ev);
    }
    while i < n
        invariant
            n == es.len(),
            i <= n,
            ev == es@,
            exv == existing.deep_view(),
            forall|rest: Seq<Tool>|
                shorthand_match(ev.skip(i as int), exv, rest, os@, arch@, libc@)
                    ==> shorthand_match(ev, exv, out@ + rest, os@, arch@, libc@),
        decreases n - i,
    {
        proof {
            assert(ev.skip(i as int)[0] == ev[i as int]);
            assert(ev.skip(i as int).skip(1) =~= ev.skip(i + 1));
        }
        let ghost before = out@;
        let mut took = false;
        match es[i].1.as_text() {
            Some(vtxt) => {
                if !name_in_exec(existing, es[i].0.as_str()) {
                    match known_tool_lookup(es[i].0.as_str()) {
                        Some(d) => {
                            let t = d.build(es[i].0.as_str(), vtxt.as_str(), os, arch, libc);
                            let ghost tv = t;
                            out.push(t);
                            took = true;
                            proof {
                                assert(out@ =~= before.push(tv));
                                assert(built_known(tv, ev[i as int].0@, (match ev[i as int].1 {
                                    crate::toml_model::TomlValue::Text(v) => v@,
                                    _ => Seq::empty(),
                                }), os@, arch@, libc@));
                                assert forall|rest: Seq<Tool>|
                                    shorthand_match(ev.skip(i + 1), exv, rest, os@, arch@, libc@)
                                        implies shorthand_match(
                                        ev,
                                        exv,
                                        out@ + rest,
                                        os@,
                                        arch@,
                                        libc@,
                                    ) by {
                                    assert((seq![tv] + rest)[0] == tv);
                                    assert((seq![tv] + rest).skip(1) =~= rest);
                                    assert(shorthand_match(
                                        ev.skip(i as int),
                                        exv,
                                        seq![tv] + rest,
                                        os@,
                                        arch@,
                                        libc@,
                                    ));
                                    assert(before + (seq![tv] + rest) =~= out@ + rest);
                                }
                            }
                        },
                        None => {},
                    }
                }
            },
            None => {},
        }
        if !took {
            proof {
                assert forall|rest: Seq<Tool>|
                    shorthand_match(ev.skip(i + 1), exv, rest, os@, arch@, libc@) implies
                    shorthand_match(ev, exv, out@ + rest, os@, arch@, libc@) by {
                    assert(shorthand_match(ev.skip(i as int), exv, rest, os@, arch@, libc@));
                }
            }
        }
        i += 1;
    }
    proof {
        assert(ev.skip(n as int) =~= Seq::<(String, crate::toml_model::TomlValue)>::empty());
        assert(shorthand_match(
            ev.skip(n as int),
            exv,
            Seq::<Tool>::empty(),
            os@,
            arch@,
            libc@,
        ));
        assert(out@ + Seq::<Tool>::empty() =~= out@);
    }
    out
}

/// Where a known tool's version list comes from: a directory-index releases
/// page scraped for version links, a releases API under an owner and
/// repository, or the same API with a fixed tag prefix.
pub enum ReleaseIndex {
    Page { tool: String },
    Releases { owner: String, repo: String },
    PrefixedTags { owner: String, repo: String, prefix: String },
}

/// The model of a release index.
pub enum ReleaseIndexView {
    Page { tool: Seq<char> },
    Releases { owner: Seq<char>, repo: Seq<char> },
    PrefixedTags { owner: Seq<char>, repo: Seq<char>, prefix: Seq<char> },
}

impl DeepView for ReleaseIndex {
    type V = ReleaseIndexView;

    open spec fn deep_view(&self) -> ReleaseIndexView {
        match self {
            ReleaseIndex::Page { tool } => ReleaseIndexView::Page { tool: tool@ },
            ReleaseIndex::Releases { owner, repo } => ReleaseIndexView::Releases {
                owner: owner@,
                repo: repo@,
            },
            ReleaseIndex::PrefixedTags { owner, repo, prefix } => ReleaseIndexView::PrefixedTags {
                owner: owner@,
                repo: repo@,
                prefix: prefix@,
            },
        }
    }
}

/// The release index recorded for a name, if the catalog can list its
/// versions.
pub open spec fn release_index_view(name: Seq<char>) -> Option<ReleaseIndexView> {
    if name == "terraform"@ {
        Option::Some(ReleaseIndexView::Page { tool: "terraform"@ })
    } else if name == "helm"@ {
        Option::Some(ReleaseIndexView::Releases { owner: "helm"@, repo: "helm"@ })
    } else if name == "gh"@ {
        Option::Some(ReleaseIndexView::Releases { owner: "cli"@, repo: "cli"@ })
    } else if name == "buf"@ {
        Option::Some(ReleaseIndexView::Releases { owner: "bufbuild"@, repo: "buf"@ })
    } else if name == "kubectl"@ {
        Option::Some(ReleaseIndexView::Releases { owner: "kubernetes"@, repo: "kubernetes"@ })
    } else if name == "node"@ {
        Option::Some(ReleaseIndexView::Releases { owner: "nodejs"@, repo: "node"@ })
    } else if name == "pnpm"@ {
        Option::Some(ReleaseIndexView::Releases { owner: "pnpm"@, repo: "pnpm"@ })
    } else if name == "yarn"@ {
        Option::Some(ReleaseIndexView::Releases { owner: "yarnpkg"@, repo: "yarn"@ })
    } else if name == "just"@ {
        Option::Some(ReleaseIndexView::Releases { owner: "casey"@, repo: "just"@ })
    } else if name == "jq"@ {
        Option::Some(
            ReleaseIndexView::PrefixedTags { owner: "jqlang"@, repo: "jq"@, prefix: "jq-"@ },
        )
    } else if name == "cosign"@ {
        Option::Some(ReleaseIndexView::Releases { owner: "sigstore"@, repo: "cosign"@ })
    } else if name == "age"@ {
        Option::Some(ReleaseIndexView::Releases { owner: "FiloSottile"@, repo: "age"@ })
    } else if name == "moon"@ {
        Option::Some(ReleaseIndexView::Releases { owner: "moonrepo"@, repo: "moon"@ })
    } else {
        Option::None
    }
}

/// The release index for a name.
pub fn release_index(name: &str) -> (r: Option<ReleaseIndex>)
    ensures
        match r {
            Some(ix) => release_index_view(name@) == Option::Some(ix.deep_view()),
            None => release_index_view(name@) is None,
        },
{
    if text::str_eq(name, "terraform") {
        Some(ReleaseIndex::Page { tool: "terraform".to_owned() })
    } else if text::str_eq(name, "helm") {
        Some(ReleaseIndex::Releases { owner: "helm".to_owned(), repo: "helm".to_owned() })
    } else if text::str_eq(name, "gh") {
        Some(ReleaseIndex::Releases { owner: "cli".to_owned(), repo: "cli".to_owned() })
    } else if text::str_eq(name, "buf") {
        Some(ReleaseIndex::Releases { owner: "bufbuild".to_owned(), repo: "buf".to_owned() })
    } else if text::str_eq(name, "kubectl") {
        Some(
            ReleaseIndex::Releases {
                owner: "kubernetes".to_owned(),
                repo: "kubernetes".to_owned(),
            },
        )
    } else if text::str_eq(name, "node") {
        Some(ReleaseIndex::Releases { owner: "nodejs".to_owned(), repo: "node".to_owned() })
    } else if text::str_eq(name, "pnpm") {
        Some(ReleaseIndex::Releases { owner: "pnpm".to_owned(), repo: "pnpm".to_owned() })
    } else if text::str_eq(name, "yarn") {
        Some(ReleaseIndex::Releases { owner: "yarnpkg".to_owned(), repo: "yarn".to_owned() })
    } else if text::str_eq(name, "just") {
        Some(ReleaseIndex::Releases { owner: "casey".to_owned(), repo: "just".to_owned() })
    } else if text::str_eq(name, "jq") {
        Some(
            ReleaseIndex::PrefixedTags {
                owner: "jqlang".to_owned(),
                repo: "jq".to_owned(),
                prefix: "jq-".to_owned(),
            },
        )
    } else if text::str_eq(name, "cosign") {
        Some(ReleaseIndex::Releases { owner: "sigstore".to_owned(), repo: "cosign".to_owned() })
    } else if text::str_eq(name, "age") {
        Some(ReleaseIndex::Releases { owner: "FiloSottile".to_owned(), repo: "age".to_owned() })
    } else if text::str_eq(name, "moon") {
        Some(ReleaseIndex::Releases { owner: "moonrepo".to_owned(), repo: "moon".to_owned() })
    } else {
        None
    }
}

} // verus!

//! The manifest, catalog, lock and install pipeline on concrete values.
use std::io::Write;

use tlk::config::{TlkConfig, Tool, ToolKind};
use tlk::diagnose::list_missing;
use tlk::installer::{
    check_download_status, detect_format, digest_hex, find_archive_entry, prepare_artifact,
    render_source, should_skip_install, summarize_parallel, verify_lockfile, verify_sha256,
    write_lockfile, ArchiveFormat, InstallError, VerifyIssue,
};
use tlk::known_tools::{
    build_known_tool, extract_shorthand, known_tool_lookup, known_tools_map, placeholder_arch,
    placeholder_os, release_index, ReleaseIndex,
};
use tlk::lock::{to_locked_entry, LockFile};
use tlk::migrate::{migrate_config, remove_from_config, remove_from_lock};
use tlk::ops::{install_locked, locked_tool, write_single_lock};
use tlk::platform::{platform, Platform};
use tlk::toml_model::{table_lookup, value_lookup, TomlValue};
use tlk::unknown_tools::{augment_binary_fields, has_legacy_tools, parse_unknown};

fn text(s: &str) -> TomlValue {
    TomlValue::Text(s.to_string())
}

fn table(entries: Vec<(&str, TomlValue)>) -> TomlValue {
    TomlValue::Table(entries.into_iter().map(|(k, v)| (k.to_string(), v)).collect())
}

fn plain_tool(name: &str, version: &str, source: &str, kind: ToolKind) -> Tool {
    Tool {
        name: name.to_string(),
        version: version.to_string(),
        kind,
        source: source.to_string(),
        sha256: None,
        binary: None,
        install_dir: None,
        per_os: None,
        per_os_arch: None,
    }
}

#[test]
fn canonicalizes_host_names() {
    assert_eq!(placeholder_os("macos"), "darwin");
    assert_eq!(placeholder_os("linux"), "linux");
    assert_eq!(placeholder_arch("x86_64"), "amd64");
    assert_eq!(placeholder_arch("aarch64"), "arm64");
    assert_eq!(placeholder_arch("riscv64"), "riscv64");
}

#[test]
fn platform_shapes_names_and_urls() {
    let unix = platform("linux");
    assert!(matches!(unix, Platform::Unix(_)));
    assert_eq!(unix.final_binary_name("helm"), "helm");
    assert_eq!(unix.adjust_direct_url("https://x/y"), "https://x/y");
    let names = unix.candidate_archive_entry_names("helm", "linux", "amd64");
    assert_eq!(names, vec!["helm", "linux-amd64/helm", "linux_amd64/helm", "bin/helm"]);
    let win = platform("windows");
    assert_eq!(win.final_binary_name("kubectl"), "kubectl.exe");
    assert_eq!(win.adjust_direct_url("https://x/kubectl"), "https://x/kubectl.exe");
    assert_eq!(win.adjust_direct_url("https://x/a.zip"), "https://x/a.zip");
    assert_eq!(
        win.candidate_archive_entry_names("gh", "windows", "amd64"),
        vec!["gh", "gh.exe"]
    );
}

#[test]
fn template_precedence_prefers_specific_overrides() {
    let mut t = plain_tool("demo", "1.0.0", "https://base/{version}", ToolKind::Archive);
    t.per_os = Some(tlk::config::PerOsSources {
        linux: Some("https://per-os/{version}".to_string()),
        mac: None,
        windows: None,
    });
    t.per_os_arch = Some(tlk::config::PerOsArchSources {
        linux: Some(tlk::config::ArchSources {
            amd64: Some("https://per-os-arch/{version}".to_string()),
            arm64: None,
            x86_64: None,
            aarch64: None,
        }),
        mac: None,
        windows: None,
    });
    assert_eq!(t.effective_source_template("linux", "amd64"), "https://per-os-arch/{version}");
    assert_eq!(t.effective_source_template("linux", "arm64"), "https://per-os/{version}");
    assert_eq!(t.effective_source_template("darwin", "arm64"), "https://base/{version}");
}

#[test]
fn arch_synonyms_fall_back() {
    let mut t = plain_tool("demo", "1.0.0", "base", ToolKind::Archive);
    t.per_os_arch = Some(tlk::config::PerOsArchSources {
        linux: Some(tlk::config::ArchSources {
            amd64: None,
            arm64: None,
            x86_64: Some("https://legacy-spelling".to_string()),
            aarch64: None,
        }),
        mac: None,
        windows: None,
    });
    assert_eq!(t.effective_source_template("linux", "amd64"), "https://legacy-spelling");
}

#[test]
fn renders_terraform_source_for_linux() {
    let t = plain_tool(
        "terraform",
        "1.7.5",
        "https://releases.hashicorp.com/terraform/{version}/terraform_{version}_{os}_{arch}.zip",
        ToolKind::Archive,
    );
    assert_eq!(
        render_source(&t, "linux", "amd64"),
        "https://releases.hashicorp.com/terraform/1.7.5/terraform_1.7.5_linux_amd64.zip"
    );
}

#[test]
fn catalog_builds_known_tools() {
    assert_eq!(known_tools_map().len(), 13);
    assert!(known_tool_lookup("terraform").is_some());
    assert!(known_tool_lookup("unknown-tool").is_none());
    let t = build_known_tool("terraform", "v1.7.5", "linux", "amd64", "gnu").expect("known");
    assert_eq!(t.name, "terraform");
    assert_eq!(t.version, "1.7.5");
    assert_eq!(
        t.source,
        "https://releases.hashicorp.com/terraform/{version}/terraform_{version}_{os}_{arch}.zip"
    );
    let jq = build_known_tool("jq", "1.7.1", "darwin", "arm64", "gnu").expect("jq");
    assert_eq!(
        jq.source,
        "https://github.com/jqlang/jq/releases/download/jq-1.7.1/jq-macos-arm64"
    );
    let moon = build_known_tool("moon", "1.20.0", "linux", "amd64", "musl").expect("moon");
    assert_eq!(
        moon.source,
        "https://github.com/moonrepo/moon/releases/download/v1.20.0/moon-x86_64-unknown-linux-musl"
    );
    assert!(build_known_tool("nothere", "1.0.0", "linux", "amd64", "gnu").is_err());
}

#[test]
fn manifest_tables_and_legacy_arrays_decode() {
    let root = table(vec![
        (
            "tools",
            table(vec![(
                "mytool",
                table(vec![
                    ("version", text("1.2.3")),
                    ("source", text("https://x/{version}")),
                    ("kind", text("direct")),
                ]),
            )]),
        ),
    ]);
    let tools = parse_unknown(&root).expect("decodes");
    assert_eq!(tools.len(), 1);
    assert_eq!(tools[0].name, "mytool");
    assert_eq!(tools[0].version, "1.2.3");
    assert!(matches!(tools[0].kind, ToolKind::Direct));

    let legacy = table(vec![(
        "tools",
        TomlValue::List(vec![table(vec![
            ("name", text("gh")),
            ("version", text("2.40.0")),
            ("source", text("https://x/{version}")),
        ])]),
    )]);
    assert!(has_legacy_tools(&legacy));
    let tools2 = parse_unknown(&legacy).expect("legacy decodes");
    assert_eq!(tools2.len(), 1);
    assert_eq!(tools2[0].name, "gh");
}

#[test]
fn manifest_validation_refuses_blanks() {
    let root = table(vec![(
        "tools",
        table(vec![(
            "broken",
            table(vec![("version", text("  ")), ("source", text("https://x"))]),
        )]),
    )]);
    assert!(parse_unknown(&root).is_err());
    let root2 = table(vec![(
        "tools",
        table(vec![("broken", table(vec![("version", text("1.0.0")), ("source", text(""))]))]),
    )]);
    assert!(parse_unknown(&root2).is_err());
}

#[test]
fn shorthand_entries_come_from_the_catalog() {
    let root = table(vec![
        ("terraform", text("1.7.5")),
        ("unknown-thing", text("9.9.9")),
        ("helm", text("^3.14.0")),
    ]);
    let existing: Vec<String> = vec!["helm".to_string()];
    let tools = extract_shorthand(&root, &existing, "linux", "amd64", "gnu");
    assert_eq!(tools.len(), 1);
    assert_eq!(tools[0].name, "terraform");
    assert_eq!(tools[0].version, "1.7.5");
}

#[test]
fn load_combines_declared_and_shorthand_tools() {
    let root = table(vec![
        ("terraform", text("1.7.5")),
        (
            "tools",
            table(vec![(
                "mytool",
                table(vec![("version", text("1.0.0")), ("source", text("https://x"))]),
            )]),
        ),
    ]);
    let cfg = TlkConfig::load(&root, "linux", "amd64", "gnu").expect("loads");
    let names: Vec<String> = cfg.tools.iter().map(|t| t.name.clone()).collect();
    assert_eq!(names, vec!["mytool", "terraform"]);
}

#[test]
fn augments_helm_and_gh_binaries() {
    let mut tools = vec![
        plain_tool("helm", "3.14.3", "x", ToolKind::Archive),
        plain_tool("gh", "2.40.0", "x", ToolKind::Archive),
        plain_tool("other", "1.0.0", "x", ToolKind::Archive),
    ];
    augment_binary_fields(&mut tools, "linux", "amd64");
    assert_eq!(tools[0].binary.as_deref(), Some("linux-amd64/helm"));
    assert_eq!(tools[1].binary.as_deref(), Some("gh_2.40.0_linux_amd64/bin/gh"));
    assert!(tools[2].binary.is_none());
}

#[test]
fn lock_entry_has_full_platform_matrix() {
    let (name, entry) = to_locked_entry(
        "terraform",
        "1.7.5",
        None,
        "https://releases.hashicorp.com/terraform/1.7.5/terraform_1.7.5_linux_amd64.zip",
        "https://releases.hashicorp.com/terraform/{version}/terraform_{version}_{os}_{arch}.zip",
        &None,
        None,
        "linux",
        "amd64",
    );
    assert_eq!(name, "terraform");
    assert_eq!(entry.version, "1.7.5");
    assert_eq!(entry.platform.as_deref(), Some("linux-amd64"));
    assert!(entry.source_template.as_deref().unwrap().ends_with("terraform_{version}_{os}_{arch}.zip"));
    let sources = entry.sources.expect("matrix present");
    assert_eq!(sources.len(), 6);
    assert_eq!(
        sources[0],
        (
            "linux-amd64".to_string(),
            "https://releases.hashicorp.com/terraform/1.7.5/terraform_1.7.5_linux_amd64.zip"
                .to_string()
        )
    );
    assert!(sources.iter().any(|(k, v)| {
        k == "darwin-arm64" && v.ends_with("terraform_1.7.5_darwin_arm64.zip")
    }));
}

#[test]
fn lock_entry_without_placeholders_has_no_matrix() {
    let (_, entry) = to_locked_entry(
        "yarn",
        "1.22.0",
        Some("^1.22"),
        "https://x/yarn-v1.22.0.tar.gz",
        "https://x/yarn-v{version}.tar.gz",
        &None,
        Some("abc123".to_string()),
        "linux",
        "amd64",
    );
    assert!(entry.sources.is_none());
    assert_eq!(entry.requested_version.as_deref(), Some("^1.22"));
    assert_eq!(entry.digest.as_deref(), Some("abc123"));
}

fn sample_lock() -> LockFile {
    let (name, entry) = to_locked_entry(
        "helm",
        "3.14.3",
        Some("^3.14.0"),
        "https://get.helm.sh/helm-v3.14.3-linux-amd64.tar.gz",
        "https://get.helm.sh/helm-v{version}-{os}-{arch}.tar.gz",
        &Some("cafe".to_string()),
        Some("d1gest".to_string()),
        "linux",
        "amd64",
    );
    LockFile::new(vec![(name, entry)], "2024-01-01T00:00:00Z".to_string(), "0.1.0".to_string())
}

#[test]
fn lock_round_trips_through_its_tree() {
    let lf = sample_lock();
    let tree = lf.save("0.2.0");
    let loaded = LockFile::load(&tree).expect("loads back");
    assert_eq!(loaded.generated, lf.generated);
    assert_eq!(loaded.tlk_version.as_deref(), Some("0.2.0"));
    assert_eq!(loaded.schema, Some(3));
    assert_eq!(loaded.tools.len(), 1);
    assert_eq!(loaded.tools[0].0, "helm");
    let e = &loaded.tools[0].1;
    let o = &lf.tools[0].1;
    assert_eq!(e.version, o.version);
    assert_eq!(e.requested_version, o.requested_version);
    assert_eq!(e.source, o.source);
    assert_eq!(e.source_template, o.source_template);
    assert_eq!(e.platform, o.platform);
    assert_eq!(e.sha256, o.sha256);
    assert_eq!(e.digest, o.digest);
    assert_eq!(e.sources, o.sources);
}

#[test]
fn legacy_lock_upgrades_with_same_entries() {
    let tree = table(vec![
        ("generated", text("2023-01-01T00:00:00Z")),
        (
            "tools",
            TomlValue::List(vec![
                table(vec![
                    ("name", text("kubectl")),
                    ("version", text("1.30.2")),
                    ("source", text("https://dl.k8s.io/release/v1.30.2/bin/linux/amd64/kubectl")),
                ]),
                table(vec![
                    ("name", text("helm")),
                    ("version", text("3.14.3")),
                    ("source", text("https://get.helm.sh/helm-v3.14.3-linux-amd64.tar.gz")),
                ]),
            ]),
        ),
    ]);
    let lf = LockFile::load(&tree).expect("legacy loads");
    assert_eq!(lf.schema, Some(3));
    assert_eq!(lf.tools.len(), 2);
    assert_eq!(lf.tools[0].0, "kubectl");
    assert_eq!(lf.tools[1].0, "helm");
}

#[test]
fn unknown_lock_shapes_are_refused() {
    let tree = table(vec![("generated", text("t")), ("tools", text("nope"))]);
    assert!(LockFile::load(&tree).is_err());
}

#[test]
fn install_locked_follows_the_lock() {
    let tree = table(vec![
        ("generated", text("2023-01-01T00:00:00Z")),
        (
            "tools",
            TomlValue::List(vec![table(vec![
                ("name", text("kubectl")),
                ("version", text("1.30.2")),
                ("source", text("https://dl.k8s.io/release/v1.30.2/bin/linux/amd64/kubectl")),
            ])]),
        ),
    ]);
    let lock = LockFile::load(&tree).expect("loads");
    let cfg = TlkConfig { tools: vec![] };
    let tools = install_locked(&lock, &cfg, "linux", "amd64", "gnu").expect("plans");
    assert_eq!(tools.len(), 1);
    assert_eq!(tools[0].name, "kubectl");
    assert_eq!(tools[0].version, "1.30.2");
    assert_eq!(tools[0].source, "https://dl.k8s.io/release/v1.30.2/bin/linux/amd64/kubectl");
    // the extra tool is reported, not an error
    let (issues, extras) = verify_lockfile(&cfg, &lock, "linux", "amd64", &vec![]);
    assert!(issues.is_empty());
    assert_eq!(extras, vec!["kubectl".to_string()]);
}

#[test]
fn locked_tool_prefers_the_platform_matrix() {
    let (name, entry) = to_locked_entry(
        "terraform",
        "1.7.5",
        None,
        "https://releases.hashicorp.com/terraform/1.7.5/terraform_1.7.5_linux_amd64.zip",
        "https://releases.hashicorp.com/terraform/{version}/terraform_{version}_{os}_{arch}.zip",
        &None,
        None,
        "linux",
        "amd64",
    );
    let cfg = TlkConfig { tools: vec![] };
    let t = locked_tool(&cfg, &name, &entry, "darwin", "arm64", "gnu").expect("builds");
    assert!(t.source.ends_with("terraform_1.7.5_darwin_arm64.zip"));
}

#[test]
fn verify_flags_each_kind_of_divergence() {
    let cfg = TlkConfig {
        tools: vec![
            plain_tool("missing", "1.0.0", "https://x", ToolKind::Direct),
            plain_tool("ranged", "^3.14.0", "https://x/{version}", ToolKind::Direct),
            plain_tool("pinned", "1.2.3", "https://x/{version}", ToolKind::Direct),
        ],
    };
    let mk = |name: &str, version: &str| {
        to_locked_entry(
            name,
            version,
            None,
            "https://x/whatever",
            "https://x/{version}",
            &None,
            None,
            "linux",
            "amd64",
        )
    };
    let lock = LockFile::new(
        vec![mk("ranged", "3.13.0"), mk("pinned", "1.2.4")],
        "t".to_string(),
        "v".to_string(),
    );
    let (issues, extras) = verify_lockfile(&cfg, &lock, "linux", "amd64", &vec![]);
    assert!(extras.is_empty());
    assert_eq!(issues.len(), 3);
    assert!(matches!(&issues[0], VerifyIssue::MissingFromLock { name } if name == "missing"));
    assert!(
        matches!(&issues[1], VerifyIssue::RangeNotSatisfied { name, locked, config }
            if name == "ranged" && locked == "3.13.0" && config == "^3.14.0")
    );
    assert!(matches!(&issues[2], VerifyIssue::VersionMismatch { name, .. } if name == "pinned"));
}

#[test]
fn verify_passes_a_consistent_pair() {
    let cfg = TlkConfig {
        tools: vec![plain_tool("helm", "^3.14.0", "https://get.helm.sh/helm-v{version}-{os}-{arch}.tar.gz", ToolKind::Archive)],
    };
    let digests = write_lockfile(&cfg, &vec![], &vec![], "linux", "amd64");
    let lock = LockFile::new(digests, "t".to_string(), "v".to_string());
    let (issues, extras) = verify_lockfile(&cfg, &lock, "linux", "amd64", &vec![]);
    assert!(issues.is_empty());
    assert!(extras.is_empty());
}

#[test]
fn write_lockfile_records_normalized_versions() {
    let cfg = TlkConfig {
        tools: vec![plain_tool("helm", "^3.14.0", "https://get.helm.sh/helm-v{version}-{os}-{arch}.tar.gz", ToolKind::Archive)],
    };
    let entries = write_lockfile(
        &cfg,
        &vec![("helm".to_string(), Some("d".to_string()))],
        &vec![],
        "linux",
        "amd64",
    );
    assert_eq!(entries.len(), 1);
    assert_eq!(entries[0].0, "helm");
    assert_eq!(entries[0].1.version, "3.14.0");
    assert_eq!(entries[0].1.requested_version.as_deref(), Some("^3.14.0"));
    assert_eq!(entries[0].1.digest.as_deref(), Some("d"));
}

#[test]
fn write_lockfile_records_the_resolved_range() {
    let cfg = TlkConfig {
        tools: vec![plain_tool(
            "helm",
            "^3.14.0",
            "https://get.helm.sh/helm-v{version}-{os}-{arch}.tar.gz",
            ToolKind::Archive,
        )],
    };
    let entries = write_lockfile(
        &cfg,
        &vec![],
        &vec![("helm".to_string(), Some("3.14.3".to_string()))],
        "linux",
        "amd64",
    );
    assert_eq!(entries[0].1.version, "3.14.3");
    assert_eq!(entries[0].1.requested_version.as_deref(), Some("^3.14.0"));
    assert_eq!(entries[0].1.source, "https://get.helm.sh/helm-v3.14.3-linux-amd64.tar.gz");
    assert_eq!(entries[0].1.platform.as_deref(), Some("linux-amd64"));
    let sources = entries[0].1.sources.as_ref().expect("matrix");
    assert_eq!(sources.len(), 6);
    assert!(sources.iter().any(|(k, _)| k == "linux-amd64"));
    assert!(sources.iter().any(|(k, v)| k == "darwin-arm64"
        && v == "https://get.helm.sh/helm-v3.14.3-darwin-arm64.tar.gz"));
}

#[test]
fn write_lockfile_keeps_a_hyphen_range_as_requested() {
    let cfg = TlkConfig {
        tools: vec![plain_tool(
            "buf",
            "1 - 1.30",
            "https://github.com/bufbuild/buf/releases/download/v{version}/buf-{os}-{arch}",
            ToolKind::Direct,
        )],
    };
    let entries = write_lockfile(
        &cfg,
        &vec![],
        &vec![("buf".to_string(), Some("1.30.0".to_string()))],
        "linux",
        "amd64",
    );
    assert_eq!(entries[0].1.version, "1.30.0");
    assert_eq!(entries[0].1.requested_version.as_deref(), Some("1 - 1.30"));
    assert_eq!(
        entries[0].1.source,
        "https://github.com/bufbuild/buf/releases/download/v1.30.0/buf-linux-amd64"
    );
}

#[test]
fn write_lockfile_renders_terraform_entry_for_the_host() {
    let cfg = TlkConfig {
        tools: vec![plain_tool(
            "terraform",
            "1.7.5",
            "https://releases.hashicorp.com/terraform/{version}/terraform_{version}_{os}_{arch}.zip",
            ToolKind::Archive,
        )],
    };
    let entries = write_lockfile(&cfg, &vec![], &vec![], "linux", "amd64");
    assert_eq!(entries[0].1.version, "1.7.5");
    assert_eq!(entries[0].1.requested_version, None);
    assert_eq!(
        entries[0].1.source,
        "https://releases.hashicorp.com/terraform/1.7.5/terraform_1.7.5_linux_amd64.zip"
    );
    assert!(entries[0].1.source_template.as_deref().unwrap().ends_with(
        "terraform_{version}_{os}_{arch}.zip"
    ));
    assert_eq!(entries[0].1.platform.as_deref(), Some("linux-amd64"));
    assert_eq!(entries[0].1.sources.as_ref().map(|m| m.len()), Some(6));
}

#[test]
fn apply_resolutions_rewrites_only_resolved_ranges() {
    let cfg = TlkConfig {
        tools: vec![
            plain_tool("helm", "^3.14.0", "https://h/{version}", ToolKind::Archive),
            plain_tool("terraform", "1.7.5", "https://t/{version}", ToolKind::Archive),
            plain_tool("custom", ">=2", "https://c/{version}", ToolKind::Direct),
        ],
    };
    let resolved = tlk::installer::apply_resolutions(
        &cfg,
        &vec![
            ("helm".to_string(), Some("3.14.3".to_string())),
            ("terraform".to_string(), Some("9.9.9".to_string())),
            ("custom".to_string(), None),
        ],
    );
    assert_eq!(resolved[0].version, "3.14.3");
    // an exact pin is never overridden
    assert_eq!(resolved[1].version, "1.7.5");
    // an unresolved range keeps its text
    assert_eq!(resolved[2].version, ">=2");
    assert_eq!(resolved[0].name, "helm");
    assert_eq!(resolved[0].source, "https://h/{version}");
}

#[test]
fn single_lock_update_replaces_one_entry() {
    let (n1, e1) = to_locked_entry("a", "1.0.0", None, "u", "t", &None, None, "linux", "amd64");
    let (n2, e2) = to_locked_entry("b", "2.0.0", None, "u", "t", &None, None, "linux", "amd64");
    let mut tools = vec![(n1, e1), (n2, e2)];
    let (n3, e3) = to_locked_entry("b", "2.1.0", None, "u", "t", &None, None, "linux", "amd64");
    write_single_lock(&mut tools, n3, e3);
    assert_eq!(tools.len(), 2);
    assert_eq!(tools[1].1.version, "2.1.0");
    let (n4, e4) = to_locked_entry("c", "3.0.0", None, "u", "t", &None, None, "linux", "amd64");
    write_single_lock(&mut tools, n4, e4);
    assert_eq!(tools.len(), 3);
}

#[test]
fn single_lock_update_preserves_the_other_entries() {
    let (n1, e1) = to_locked_entry("a", "1.0.0", None, "ua", "ta", &None, None, "linux", "amd64");
    let (n2, e2) = to_locked_entry("b", "2.0.0", None, "ub", "tb", &None, None, "linux", "amd64");
    let (n3, e3) = to_locked_entry("c", "3.0.0", None, "uc", "tc", &None, None, "linux", "amd64");
    let mut tools = vec![(n1, e1), (n2, e2), (n3, e3)];
    let (nb, eb) = to_locked_entry("b", "2.5.0", None, "ub2", "tb", &None, None, "linux", "amd64");
    write_single_lock(&mut tools, nb, eb);
    assert_eq!(tools.len(), 3);
    assert_eq!(tools[0].0, "a");
    assert_eq!(tools[0].1.version, "1.0.0");
    assert_eq!(tools[0].1.source, "ua");
    assert_eq!(tools[1].0, "b");
    assert_eq!(tools[1].1.version, "2.5.0");
    assert_eq!(tools[2].0, "c");
    assert_eq!(tools[2].1.version, "3.0.0");
    assert_eq!(tools[2].1.source, "uc");
}

#[test]
fn checksums_gate_the_artifact() {
    let body = b"abc";
    assert_eq!(
        digest_hex(body),
        "ba7816bf8f01cfea414140de5dae2223b00361a396177a9cb410ff61f20015ad"
    );
    assert!(verify_sha256(
        body,
        "ba7816bf8f01cfea414140de5dae2223b00361a396177a9cb410ff61f20015ad"
    )
    .is_ok());
    let e = verify_sha256(body, "deadbeef").expect_err("must mismatch");
    assert!(matches!(e, InstallError::ChecksumMismatch { expected, got }
        if expected == "deadbeef"
        && got == "ba7816bf8f01cfea414140de5dae2223b00361a396177a9cb410ff61f20015ad"));
    let mut tool = plain_tool("x", "1.0.0", "https://x", ToolKind::Direct);
    tool.sha256 = Some("deadbeef".to_string());
    assert!(prepare_artifact(&tool, "https://x", body, "linux", "amd64").is_err());
}

#[test]
fn direct_artifacts_pass_through() {
    let tool = plain_tool("kubectl", "1.30.2", "https://x/kubectl", ToolKind::Direct);
    let out = prepare_artifact(&tool, "https://x/kubectl", b"binary-bytes", "linux", "amd64")
        .expect("direct install");
    assert_eq!(out, b"binary-bytes");
}

#[test]
fn tar_archives_give_up_their_binary() {
    let mut builder = tar::Builder::new(Vec::new());
    let mut header = tar::Header::new_gnu();
    let content = b"#!/bin/sh\necho helm\n";
    header.set_size(content.len() as u64);
    header.set_cksum();
    builder
        .append_data(&mut header, "linux-amd64/helm", content.as_slice())
        .expect("append");
    let tarball = builder.into_inner().expect("tar bytes");
    let mut gz = flate2::write::GzEncoder::new(Vec::new(), flate2::Compression::default());
    gz.write_all(&tarball).expect("compress");
    let data = gz.finish().expect("finish");

    let tool = plain_tool(
        "helm",
        "3.14.3",
        "https://get.helm.sh/helm-v{version}-{os}-{arch}.tar.gz",
        ToolKind::Archive,
    );
    let url = "https://get.helm.sh/helm-v3.14.3-linux-amd64.tar.gz";
    let out = prepare_artifact(&tool, url, &data, "linux", "amd64").expect("extracts");
    assert_eq!(out, content);
}

#[test]
fn zip_archives_give_up_their_binary() {
    let mut zw = zip::ZipWriter::new(std::io::Cursor::new(Vec::new()));
    zw.start_file("terraform", zip::write::SimpleFileOptions::default())
        .expect("entry");
    zw.write_all(b"terraform-binary").expect("payload");
    let data = zw.finish().expect("zip bytes").into_inner();

    let tool = plain_tool(
        "terraform",
        "1.7.5",
        "https://releases.hashicorp.com/terraform/{version}/terraform_{version}_{os}_{arch}.zip",
        ToolKind::Archive,
    );
    let url = "https://releases.hashicorp.com/terraform/1.7.5/terraform_1.7.5_linux_amd64.zip";
    let out = prepare_artifact(&tool, url, &data, "linux", "amd64").expect("extracts");
    assert_eq!(out, b"terraform-binary");
}

#[test]
fn missing_binaries_and_odd_archives_fail() {
    let mut zw = zip::ZipWriter::new(std::io::Cursor::new(Vec::new()));
    zw.start_file("README.md", zip::write::SimpleFileOptions::default())
        .expect("entry");
    zw.write_all(b"nothing here").expect("payload");
    let data = zw.finish().expect("zip bytes").into_inner();
    let tool = plain_tool("terraform", "1.7.5", "https://x/{version}.zip", ToolKind::Archive);
    let e = prepare_artifact(&tool, "https://x/1.7.5.zip", &data, "linux", "amd64")
        .expect_err("no entry");
    assert!(matches!(e, InstallError::BinaryNotFound { binary, name }
        if binary == "terraform" && name == "terraform"));
    let e2 = prepare_artifact(&tool, "https://x/1.7.5.rar", &data, "linux", "amd64")
        .expect_err("bad format");
    assert!(matches!(e2, InstallError::UnsupportedArchive { url } if url == "https://x/1.7.5.rar"));
}

#[test]
fn archive_format_and_entry_matching() {
    assert!(matches!(detect_format("a.tar.gz"), ArchiveFormat::TarGz));
    assert!(matches!(detect_format("a.tgz"), ArchiveFormat::TarGz));
    assert!(matches!(detect_format("a.zip"), ArchiveFormat::Zip));
    assert!(matches!(detect_format("a.exe"), ArchiveFormat::Other));
    let names = vec!["docs/readme".to_string(), "bin/yarn".to_string(), "superyarn".to_string()];
    let cands = vec!["yarn".to_string(), "bin/yarn".to_string()];
    assert_eq!(find_archive_entry(&names, &cands), Some(1));
    let nohit = vec!["superyarn".to_string()];
    assert_eq!(find_archive_entry(&nohit, &cands), None);
}

#[test]
fn install_decisions_skip_and_summarize() {
    let tool = plain_tool("helm", "3.14.3", "x", ToolKind::Archive);
    let installed = "3.14.3".to_string();
    assert!(should_skip_install(&tool, Some(&installed)));
    let older = "3.14.2".to_string();
    assert!(!should_skip_install(&tool, Some(&older)));
    assert!(!should_skip_install(&tool, None));
    assert!(check_download_status(200).is_ok());
    assert!(matches!(check_download_status(404), Err(InstallError::DownloadFailed { status: 404 })));
    let all_ok = vec![("a".to_string(), true), ("b".to_string(), true)];
    assert!(summarize_parallel(&all_ok).is_ok());
    let mixed = vec![("a".to_string(), true), ("b".to_string(), false), ("c".to_string(), false)];
    assert!(matches!(summarize_parallel(&mixed), Err(InstallError::ToolsFailed { count: 2 })));
}

#[test]
fn migrates_legacy_manifest_to_keyed_tables() {
    let root = table(vec![
        ("terraform", text("1.7.5")),
        (
            "tools",
            TomlValue::List(vec![table(vec![
                ("name", text("gh")),
                ("version", text("2.40.0")),
                ("source", text("https://x/{version}")),
            ])]),
        ),
    ]);
    let new_root = migrate_config(root).expect("migrates");
    let shorthand = value_lookup(&new_root, "terraform").expect("kept");
    assert!(matches!(shorthand, TomlValue::Text(v) if v == "1.7.5"));
    let tools = value_lookup(&new_root, "tools").expect("tools");
    let entries = match tools {
        TomlValue::Table(es) => es,
        _ => panic!("tools must be a table"),
    };
    assert_eq!(entries.len(), 1);
    assert_eq!(entries[0].0, "gh");
    let body = match &entries[0].1 {
        TomlValue::Table(b) => b,
        _ => panic!("entry must be a table"),
    };
    assert!(table_lookup(body, "name").is_none());
    assert!(matches!(table_lookup(body, "version"), Some(TomlValue::Text(v)) if v == "2.40.0"));
}

#[test]
fn migrate_config_reports_nothing_to_do() {
    let root = table(vec![("terraform", text("1.7.5"))]);
    assert!(migrate_config(root).is_none());
    let empty = table(vec![("tools", TomlValue::List(vec![]))]);
    assert!(migrate_config(empty).is_none());
}

#[test]
fn removes_entries_from_config_and_lock() {
    let root = table(vec![
        ("terraform", text("1.7.5")),
        ("helm", text("^3.14.0")),
    ]);
    let out = remove_from_config(root, "terraform");
    assert!(value_lookup(&out, "terraform").is_none());
    assert!(value_lookup(&out, "helm").is_some());

    let (n1, e1) = to_locked_entry("a", "1.0.0", None, "u", "t", &None, None, "linux", "amd64");
    let (n2, e2) = to_locked_entry("b", "2.0.0", None, "u", "t", &None, None, "linux", "amd64");
    let mut tools = vec![(n1, e1), (n2, e2)];
    remove_from_lock(&mut tools, "a");
    assert_eq!(tools.len(), 1);
    assert_eq!(tools[0].0, "b");
}

#[test]
fn removal_filters_the_legacy_array_and_keeps_the_rest() {
    let root = table(vec![
        ("gh", text("2.40.0")),
        ("other", text("1.0.0")),
        (
            "tools",
            TomlValue::List(vec![
                table(vec![("name", text("gh")), ("version", text("2.40.0"))]),
                table(vec![("name", text("jq")), ("version", text("1.7.1"))]),
            ]),
        ),
    ]);
    let out = remove_from_config(root, "gh");
    assert!(value_lookup(&out, "gh").is_none());
    let TomlValue::Table(entries) = &out else { panic!("table expected") };
    // the untouched shorthand stays in place
    assert_eq!(entries[0].0, "other");
    assert!(matches!(&entries[0].1, TomlValue::Text(t) if t == "1.0.0"));
    // the legacy array keeps exactly the items not named so
    let tools = value_lookup(&out, "tools").expect("tools kept");
    let TomlValue::List(items) = tools else { panic!("list expected") };
    assert_eq!(items.len(), 1);
    assert!(matches!(value_lookup(&items[0], "name"), Some(TomlValue::Text(t)) if t == "jq"));
}

#[test]
fn release_index_names_the_catalog_endpoints() {
    assert!(matches!(release_index("terraform"), Some(ReleaseIndex::Page { tool }) if tool == "terraform"));
    assert!(matches!(release_index("gh"),
        Some(ReleaseIndex::Releases { owner, repo }) if owner == "cli" && repo == "cli"));
    assert!(matches!(release_index("jq"),
        Some(ReleaseIndex::PrefixedTags { owner, repo, prefix })
            if owner == "jqlang" && repo == "jq" && prefix == "jq-"));
    assert!(release_index("unheard-of").is_none());
}

#[test]
fn locked_tool_takes_kind_and_binary_from_the_catalog() {
    let (name, entry) = to_locked_entry(
        "terraform",
        "1.7.5",
        None,
        "https://releases.hashicorp.com/terraform/1.7.5/terraform_1.7.5_linux_amd64.zip",
        "https://releases.hashicorp.com/terraform/{version}/terraform_{version}_{os}_{arch}.zip",
        &None,
        None,
        "linux",
        "amd64",
    );
    let cfg = TlkConfig { tools: vec![] };
    let t = locked_tool(&cfg, &name, &entry, "linux", "amd64", "gnu").expect("builds");
    assert!(matches!(t.kind, ToolKind::Archive));
    assert_eq!(t.binary.as_deref(), Some("terraform"));
    assert_eq!(t.sha256, None);
}

#[test]
fn diagnose_reports_missing_platforms() {
    let (n1, e1) = to_locked_entry(
        "terraform",
        "1.7.5",
        None,
        "u",
        "https://x/{version}_{os}_{arch}.zip",
        &None,
        None,
        "linux",
        "amd64",
    );
    let (n2, e2) = to_locked_entry("yarn", "1.22.0", None, "u", "https://x/{version}", &None, None, "linux", "amd64");
    let lock = LockFile::new(vec![(n1, e1), (n2, e2)], "t".to_string(), "v".to_string());
    let report = list_missing(&lock);
    assert_eq!(report.len(), 2);
    assert_eq!(report[0].0, "terraform");
    assert_eq!(report[0].1.as_ref().expect("matrix").len(), 0);
    assert!(report[1].1.is_none());
}

#[test]
fn corrupt_archives_are_reported() {
    let tool = plain_tool("helm", "3.14.3", "https://x/{version}.tar.gz", ToolKind::Archive);
    let garbage: &[u8] = b"this is not a gzip stream";
    let e = prepare_artifact(&tool, "https://x/3.14.3.tar.gz", garbage, "linux", "amd64")
        .expect_err("corrupt");
    assert!(matches!(e, InstallError::CorruptArchive { url } if url == "https://x/3.14.3.tar.gz"));
}

#[test]
fn verify_reports_checksum_and_digest_divergence() {
    let mut tool = plain_tool("pinned", "1.2.3", "https://x/{version}", ToolKind::Direct);
    tool.sha256 = Some("aaaa".to_string());
    let cfg = TlkConfig { tools: vec![tool] };
    let (name, mut entry) = to_locked_entry(
        "pinned",
        "1.2.3",
        None,
        "https://x/1.2.3",
        "https://x/{version}",
        &Some("bbbb".to_string()),
        Some("expected-digest".to_string()),
        "linux",
        "amd64",
    );
    entry.sha256 = Some("bbbb".to_string());
    let lock = LockFile::new(vec![(name, entry)], "t".to_string(), "v".to_string());
    let digests = vec![("pinned".to_string(), Some("actual-digest".to_string()))];
    let (issues, _) = verify_lockfile(&cfg, &lock, "linux", "amd64", &digests);
    assert_eq!(issues.len(), 2);
    assert!(matches!(&issues[0], VerifyIssue::ChecksumIssue { name } if name == "pinned"));
    assert!(matches!(&issues[1], VerifyIssue::DigestMismatch { name } if name == "pinned"));
}

#[test]
fn manifest_errors_name_the_tool() {
    let root = table(vec![(
        "tools",
        table(vec![(
            "brokey",
            table(vec![("version", text(" ")), ("source", text("https://x"))]),
        )]),
    )]);
    let e = parse_unknown(&root).expect_err("blank version");
    assert!(matches!(e, tlk::config::ManifestError::MissingVersion { name } if name == "brokey"));
}

#[test]
fn locked_tool_refuses_unknown_names() {
    let cfg = TlkConfig { tools: vec![] };
    let (_, entry) = to_locked_entry("mystery", "1.0.0", None, "u", "t", &None, None, "linux", "amd64");
    let e = locked_tool(&cfg, "mystery", &entry, "linux", "amd64", "gnu").expect_err("unknown");
    assert!(matches!(e, tlk::versioning::ResolutionError::UnknownTool { name } if name == "mystery"));
}

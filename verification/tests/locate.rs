use dhdesktop::locate::{
    child_path_env, env_report, install_spec, known_dirs, local_runtime, node_path, npm_path,
    npx_fallback, path_dirs, probe_paths, resolve, resolve_existing, HomeFacts, Source,
};
use dhdesktop::paths::{runtime_entry, Host, Platform};

fn host(path: Option<&str>, files: &[&str]) -> Host {
    Host {
        platform: Platform::MacOs,
        home: Some("/Users/a".to_string()),
        appdata: None,
        path_var: path.map(|p| p.to_string()),
        dsh_home_override: None,
        dsh_bin: None,
        dsh_spec: None,
        nvm_versions: Vec::new(),
        fnm_aliases: Vec::new(),
        files: files.iter().map(|f| f.to_string()).collect(),
    }
}

#[test]
fn labels() {
    assert_eq!(Source::EnvOverride.label(), "环境变量 DHDESKTOP_DSH_BIN");
    assert_eq!(Source::LocalRuntime.label(), "应用自带运行时");
    assert_eq!(Source::Path.label(), "PATH");
    assert_eq!(Source::KnownLocation.label(), "常见安装位置");
    assert_eq!(Source::Npx.label(), "npx 兜底(首次需下载)");
}

#[test]
fn path_dirs_skip_empty_entries() {
    let h = host(Some("/usr/bin::/opt/bin:"), &[]);
    assert_eq!(path_dirs(&h), vec!["/usr/bin".to_string(), "/opt/bin".to_string()]);
    assert!(path_dirs(&host(None, &[])).is_empty());
    assert!(path_dirs(&host(Some(""), &[])).is_empty());
}

#[test]
fn known_dirs_order_and_nvm_sorting() {
    let mut h = host(None, &[]);
    h.nvm_versions = vec!["v18.0.0".to_string(), "v20.1.0".to_string(), "v9.0.0".to_string()];
    h.fnm_aliases = vec!["default".to_string()];
    let d = known_dirs(&h);
    let expected: Vec<String> = vec![
        "/opt/homebrew/bin",
        "/usr/local/bin",
        "/usr/bin",
        "/bin",
        "/Users/a/.local/bin",
        "/Users/a/Library/pnpm",
        "/Users/a/.bun/bin",
        "/Users/a/.volta/bin",
        "/Users/a/.npm-global/bin",
        "/Users/a/.nvm/versions/node/v9.0.0/bin",
        "/Users/a/.nvm/versions/node/v20.1.0/bin",
        "/Users/a/.nvm/versions/node/v18.0.0/bin",
        "/Users/a/.local/share/fnm/aliases/default/bin",
        "/Users/a/.asdf/shims",
    ]
    .into_iter()
    .map(String::from)
    .collect();
    assert_eq!(d, expected);
}

#[test]
fn install_spec_override() {
    let mut h = host(None, &[]);
    assert_eq!(install_spec(&h), "@deepseek-ai/dsh@0.1.5-rc.1");
    h.dsh_spec = Some("   ".to_string());
    assert_eq!(install_spec(&h), "@deepseek-ai/dsh@0.1.5-rc.1");
    h.dsh_spec = Some(" @deepseek-ai/dsh@latest".to_string());
    assert_eq!(install_spec(&h), " @deepseek-ai/dsh@latest");
}

#[test]
fn resolves_from_path_first() {
    let h = host(Some("/opt/bin"), &["/opt/bin/dsh", "/usr/local/bin/dsh"]);
    let r = resolve(&h).unwrap();
    assert_eq!(r.program, "/opt/bin/dsh");
    assert!(r.args.is_empty());
    assert_eq!(r.source, Source::Path);
    assert_eq!(r.source_label, "PATH");
    assert_eq!(r.display, "/opt/bin/dsh");
}

#[test]
fn resolves_from_known_location() {
    let h = host(Some("/opt/bin"), &["/usr/local/bin/dsh"]);
    let r = resolve_existing(&h).unwrap();
    assert_eq!(r.program, "/usr/local/bin/dsh");
    assert_eq!(r.source, Source::KnownLocation);
}

#[test]
fn env_override_wins_when_it_is_a_file() {
    let mut h = host(Some("/opt/bin"), &["/opt/bin/dsh", " /x/dsh"]);
    h.dsh_bin = Some(" /x/dsh".to_string());
    let r = resolve(&h).unwrap();
    assert_eq!(r.source, Source::EnvOverride);
    assert_eq!(r.program, " /x/dsh");
    h.dsh_bin = Some("/missing/dsh".to_string());
    assert_eq!(resolve(&h).unwrap().source, Source::Path);
    h.dsh_bin = Some("  ".to_string());
    assert_eq!(resolve(&h).unwrap().source, Source::Path);
}

#[test]
fn local_runtime_needs_entry_and_node() {
    let base = host(Some("/opt/bin"), &[]);
    let entry = runtime_entry(&base);
    let h = host(Some("/opt/bin"), &[entry.as_str(), "/opt/bin/node", "/opt/bin/dsh"]);
    let r = local_runtime(&h).unwrap();
    assert_eq!(r.program, "/opt/bin/node");
    assert_eq!(r.args, vec![entry.clone()]);
    assert_eq!(r.display, format!("/opt/bin/node {entry}"));
    assert_eq!(resolve(&h).unwrap().source, Source::LocalRuntime);
    let no_node = host(Some("/opt/bin"), &[entry.as_str()]);
    assert!(local_runtime(&no_node).is_none());
}

#[test]
fn npx_fallback_when_nothing_else() {
    let h = host(Some("/opt/bin"), &["/usr/local/bin/npx", "/usr/bin/npm"]);
    assert!(resolve_existing(&h).is_none());
    let r = resolve(&h).unwrap();
    assert_eq!(r.source, Source::Npx);
    assert_eq!(r.program, "/usr/local/bin/npx");
    assert_eq!(r.args, vec!["-y".to_string(), "@deepseek-ai/dsh@0.1.5-rc.1".to_string()]);
    assert_eq!(r.display, "/usr/local/bin/npx -y @deepseek-ai/dsh@0.1.5-rc.1");
    assert_eq!(r.source_label, "npx 兜底(首次需下载)");
    assert_eq!(npm_path(&h), Some("/usr/bin/npm".to_string()));
    assert_eq!(node_path(&h), None);
    assert!(npx_fallback(&host(None, &[])).is_none());
    assert!(resolve(&host(None, &[])).is_none());
}

#[test]
fn child_path_keeps_path_first_and_skips_duplicates() {
    let h = host(Some("/usr/bin/:/bin:/custom"), &[]);
    let p = child_path_env(&h).unwrap();
    assert_eq!(
        p,
        "/usr/bin/:/bin:/custom:/opt/homebrew/bin:/usr/local/bin:/Users/a/.local/bin:\
/Users/a/Library/pnpm:/Users/a/.bun/bin:/Users/a/.volta/bin:/Users/a/.npm-global/bin:/Users/a/.asdf/shims"
    );
}

#[test]
fn child_path_refuses_a_colon_in_a_directory() {
    let mut h = host(None, &[]);
    h.home = Some("/Users/a:b".to_string());
    assert_eq!(child_path_env(&h), None);
}

#[test]
fn probe_paths_cover_every_directory() {
    let mut h = host(Some("/p"), &[]);
    h.dsh_bin = Some("/x/dsh".to_string());
    let probes = probe_paths(&h);
    assert_eq!(probes[0], "/x/dsh");
    assert_eq!(probes[1], runtime_entry(&h));
    assert!(probes[2].ends_with("/profiles/dhdesktop/package.json"));
    assert_eq!(&probes[3..7], &["/p/dsh", "/p/node", "/p/npx", "/p/npm"]);
    assert_eq!(probes.len(), 3 + 4 * 11);
}

#[test]
fn report_collects_probes() {
    let h = host(Some("/p"), &["/p/node", "/usr/bin/dsh"]);
    let r = env_report(
        &h,
        HomeFacts {
            platform: "macos-aarch64".to_string(),
            exists: true,
            writable: false,
            owner: Some(0),
            current_uid: Some(501),
        },
    );
    assert_eq!(r.platform, "macos-aarch64");
    assert!(r.dsh_home_exists && !r.dsh_home_writable);
    assert_eq!(r.dsh_home_owner, Some(0));
    assert_eq!(r.current_uid, Some(501));
    assert_eq!(r.profile, "dhdesktop");
    assert!(!r.profile_ready);
    assert_eq!(r.probes.len(), 11);
    assert_eq!(r.probes[0].dir, "/p");
    assert!(r.probes[0].has_node && !r.probes[0].has_dsh);
    assert!(r.probes[3].has_dsh);
    assert_eq!(r.node, Some("/p/node".to_string()));
    assert_eq!(r.resolved.unwrap().program, "/usr/bin/dsh");
}

use dhdesktop::paths::{profile_manifest, Host, Platform};
use dhdesktop::profile::{plugin_lists, snapshot};

fn host(with_manifest: bool) -> Host {
    let mut h = Host {
        platform: Platform::OtherUnix,
        home: Some("/home/a".to_string()),
        appdata: None,
        path_var: None,
        dsh_home_override: None,
        dsh_bin: None,
        dsh_spec: None,
        nvm_versions: Vec::new(),
        fnm_aliases: Vec::new(),
        files: Vec::new(),
    };
    if with_manifest {
        h.files.push(profile_manifest(&h));
    }
    h
}

const MANIFEST: &str = r#"{
  "name": "dhdesktop-profile",
  "dsh": { "profile": { "bundles": ["@deepseek-ai/dsh-base", "my-plugin", 3, "@deepseek-ai/dsh-web-app"] } },
  "dependencies": { "zeta": "1.0.0", "my-plugin": "^2.0.0", "alpha": 5, "@deepseek-ai/dsh-base": "0.1.5" }
}"#;

#[test]
fn snapshot_of_an_initialised_profile() {
    let h = host(true);
    let s = snapshot(&h, Ok(MANIFEST.to_string()), "disable: []\n".to_string()).unwrap();
    assert!(s.exists);
    assert_eq!(s.profile, "dhdesktop");
    assert_eq!(s.profile_dir, "/home/a/.local/share/com.dhdesktop.app/dsh-home/profiles/dhdesktop");
    assert_eq!(s.manifest_path, profile_manifest(&h));
    assert!(s.patch_path.ends_with("/cordis.patch.yml"));
    assert_eq!(s.patch, "disable: []\n");
    let enabled: Vec<(String, bool, Option<String>)> = s
        .enabled
        .iter()
        .map(|e| (e.name.clone(), e.builtin, e.installed_version.clone()))
        .collect();
    assert_eq!(
        enabled,
        vec![
            ("@deepseek-ai/dsh-base".to_string(), true, Some("0.1.5".to_string())),
            ("my-plugin".to_string(), false, Some("^2.0.0".to_string())),
            ("@deepseek-ai/dsh-web-app".to_string(), true, None),
        ]
    );
    assert_eq!(
        s.dependencies,
        vec![
            ("@deepseek-ai/dsh-base".to_string(), "0.1.5".to_string()),
            ("alpha".to_string(), String::new()),
            ("my-plugin".to_string(), "^2.0.0".to_string()),
            ("zeta".to_string(), "1.0.0".to_string()),
        ]
    );
    assert_eq!(s.installed_not_enabled, vec!["alpha".to_string(), "zeta".to_string()]);
}

#[test]
fn snapshot_without_manifest() {
    let s = snapshot(&host(false), Err("not read".to_string()), String::new()).unwrap();
    assert!(!s.exists);
    assert!(s.enabled.is_empty() && s.dependencies.is_empty() && s.installed_not_enabled.is_empty());
}

#[test]
fn snapshot_of_a_manifest_without_sections() {
    let s = snapshot(&host(true), Ok("[1, 2]".to_string()), String::new()).unwrap();
    assert!(s.exists && s.enabled.is_empty() && s.dependencies.is_empty());
    let s = snapshot(&host(true), Ok(r#"{"dsh": {"profile": {"bundles": "x"}}, "dependencies": []}"#.to_string()), String::new()).unwrap();
    assert!(s.enabled.is_empty() && s.dependencies.is_empty());
}

#[test]
fn snapshot_errors() {
    let h = host(true);
    let m = profile_manifest(&h);
    assert_eq!(
        snapshot(&h, Err("permission denied".to_string()), String::new()).err(),
        Some(format!("读取 {m} 失败: permission denied"))
    );
    let e = snapshot(&h, Ok("{ not json".to_string()), String::new()).err().unwrap();
    assert!(e.starts_with(&format!("解析 {m} 失败: ")));
    assert!(e.len() > format!("解析 {m} 失败: ").len());
}

#[test]
fn plugin_lists_join_names_with_installed_versions() {
    let names = vec![
        "@deepseek-ai/dsh-base".to_string(),
        "b-plugin".to_string(),
        "missing".to_string(),
    ];
    let deps = vec![
        ("@deepseek-ai/dsh-base".to_string(), "0.1.5".to_string()),
        ("a-plugin".to_string(), "1.0.0".to_string()),
        ("b-plugin".to_string(), "^2.0.0".to_string()),
        ("c-plugin".to_string(), "".to_string()),
    ];
    let (enabled, rest) = plugin_lists(&names, &deps);
    let got: Vec<(String, bool, Option<String>)> = enabled
        .into_iter()
        .map(|e| (e.name, e.builtin, e.installed_version))
        .collect();
    assert_eq!(
        got,
        vec![
            ("@deepseek-ai/dsh-base".to_string(), true, Some("0.1.5".to_string())),
            ("b-plugin".to_string(), false, Some("^2.0.0".to_string())),
            ("missing".to_string(), false, None),
        ]
    );
    assert_eq!(rest, vec!["a-plugin".to_string(), "c-plugin".to_string()]);
}

#[test]
fn plugin_lists_of_nothing_are_empty() {
    let (enabled, rest) = plugin_lists(&Vec::new(), &Vec::new());
    assert!(enabled.is_empty());
    assert!(rest.is_empty());
}

use dhdesktop::paths::{
    app_data_dir, dsh_home, home_dir, pidfile, profile_dir, profile_manifest, profile_patch,
    profiles_dir, runtime_dir, runtime_entry, Host, Platform,
};

fn host(platform: Platform, home: Option<&str>) -> Host {
    Host {
        platform,
        home: home.map(|h| h.to_string()),
        appdata: None,
        path_var: None,
        dsh_home_override: None,
        dsh_bin: None,
        dsh_spec: None,
        nvm_versions: Vec::new(),
        fnm_aliases: Vec::new(),
        files: Vec::new(),
    }
}

#[test]
fn home_defaults_to_root() {
    assert_eq!(home_dir(&host(Platform::MacOs, None)), "/");
    assert_eq!(home_dir(&host(Platform::MacOs, Some("/Users/a"))), "/Users/a");
}

#[test]
fn app_data_per_platform() {
    assert_eq!(
        app_data_dir(&host(Platform::MacOs, Some("/Users/a"))),
        "/Users/a/Library/Application Support/com.dhdesktop.app"
    );
    assert_eq!(
        app_data_dir(&host(Platform::OtherUnix, Some("/home/a"))),
        "/home/a/.local/share/com.dhdesktop.app"
    );
    let mut w = host(Platform::Windows, Some("C:/Users/a"));
    assert_eq!(app_data_dir(&w), "C:/Users/a/AppData/Roaming/com.dhdesktop.app");
    w.appdata = Some("D:/Roaming".to_string());
    assert_eq!(app_data_dir(&w), "D:/Roaming/com.dhdesktop.app");
    assert_eq!(
        app_data_dir(&host(Platform::MacOs, None)),
        "/Library/Application Support/com.dhdesktop.app"
    );
}

#[test]
fn join_does_not_double_the_separator() {
    assert_eq!(
        app_data_dir(&host(Platform::OtherUnix, Some("/home/a/"))),
        "/home/a/.local/share/com.dhdesktop.app"
    );
}

#[test]
fn layout_under_dsh_home() {
    let h = host(Platform::MacOs, Some("/Users/a"));
    let base = "/Users/a/Library/Application Support/com.dhdesktop.app";
    assert_eq!(dsh_home(&h), format!("{base}/dsh-home"));
    assert_eq!(profiles_dir(&h), format!("{base}/dsh-home/profiles"));
    assert_eq!(profile_dir(&h), format!("{base}/dsh-home/profiles/dhdesktop"));
    assert_eq!(profile_manifest(&h), format!("{base}/dsh-home/profiles/dhdesktop/package.json"));
    assert_eq!(profile_patch(&h), format!("{base}/dsh-home/profiles/dhdesktop/cordis.patch.yml"));
    assert_eq!(pidfile(&h), format!("{base}/dsh-home/dhdesktop-backend.pid"));
    assert_eq!(runtime_dir(&h), format!("{base}/runtime"));
    assert_eq!(
        runtime_entry(&h),
        format!("{base}/runtime/node_modules/@deepseek-ai/dsh/lib/bin.js")
    );
}

#[test]
fn override_is_trimmed_and_expands_tilde() {
    let mut h = host(Platform::MacOs, Some("/Users/a"));
    h.dsh_home_override = Some("  ~/my-dsh \n".to_string());
    assert_eq!(dsh_home(&h), "/Users/a/my-dsh");
    h.dsh_home_override = Some("/tmp/x".to_string());
    assert_eq!(dsh_home(&h), "/tmp/x");
    assert_eq!(pidfile(&h), "/tmp/x/dhdesktop-backend.pid");
    h.dsh_home_override = Some("\u{3000} \t".to_string());
    assert_eq!(
        dsh_home(&h),
        "/Users/a/Library/Application Support/com.dhdesktop.app/dsh-home"
    );
    h.dsh_home_override = Some("relative".to_string());
    assert_eq!(profiles_dir(&h), "relative/profiles");
}

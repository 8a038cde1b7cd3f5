//! Where the shell keeps its own copy of the `dsh` home directory.
//!
//! The shell uses a data directory of its own and never touches the user's
//! shared `~/.dsh`: a command-line `dsh` and the desktop client must not be
//! able to break each other. The layout under the data directory mirrors
//! `$DSH_HOME`, because that is how `dsh` reads it:
//!
//! ```text
//! <app data>/com.dhdesktop.app/
//! ├── dsh-home/                 the DSH_HOME handed to the child
//! │   ├── profiles/dhdesktop/   plugins and their dependency graph
//! │   └── dhdesktop-backend.pid process group of the running backend
//! └── runtime/                  the locally installed dsh runtime
//! ```
//!
//! Paths are plain strings with Unix separators, joined as `PathBuf::join`
//! joins them. Everything here is computed from a [`Host`], the snapshot of
//! the process environment and file system that the caller gathered.

use vstd::prelude::*;
use crate::text::{
    chars_of, concat_chars, push_all, slice_chars, starts_with, starts_with_chars, string_of, trim,
    trim_chars,
};

verus! {

/// The profile that belongs to this client alone. The command-line `web`
/// profile is left to the user, and `desktop` is refused by the official CLI.
pub const PROFILE_NAME: &'static str = "dhdesktop";

/// The built-in template the profile is initialised from.
pub const PROFILE_TEMPLATE: &'static str = "web";

/// The application identifier (the `identifier` of the app bundle).
pub const APP_IDENTIFIER: &'static str = "com.dhdesktop.app";

/// Environment variable that overrides the data directory. `DSH_HOME` is
/// deliberately not reused: it belongs to the user's own `dsh`.
pub const HOME_OVERRIDE_ENV: &'static str = "DHDESKTOP_DSH_HOME";

/// The operating-system family, which decides the data directory.
#[derive(Clone, Copy, Debug, PartialEq, Eq)]
pub enum Platform {
    MacOs,
    Windows,
    OtherUnix,
}

/// What the caller read from the process environment and the file system.
///
/// `files` lists the paths that were found to be regular files; a path that
/// is not listed is taken not to be one.
pub struct Host {
    pub platform: Platform,
    /// `$HOME`.
    pub home: Option<String>,
    /// `$APPDATA` (read on Windows).
    pub appdata: Option<String>,
    /// `$PATH`.
    pub path_var: Option<String>,
    /// `$DHDESKTOP_DSH_HOME`.
    pub dsh_home_override: Option<String>,
    /// `$DHDESKTOP_DSH_BIN`.
    pub dsh_bin: Option<String>,
    /// `$DHDESKTOP_DSH_SPEC`.
    pub dsh_spec: Option<String>,
    /// Entry names under `~/.nvm/versions/node`, in the order they were read.
    pub nvm_versions: Vec<String>,
    /// Entry names under `~/.local/share/fnm/aliases`, in the order they were read.
    pub fnm_aliases: Vec<String>,
    /// Paths that are regular files.
    pub files: Vec<String>,
}

/// An optional string by its characters.
pub open spec fn opt_view(o: Option<String>) -> Option<Seq<char>> {
    match o {
        Some(s) => Some(s@),
        None => None,
    }
}

impl Host {
    /// `p` is a regular file on this host.
    pub open spec fn is_file(&self, p: Seq<char>) -> bool {
        exists|i: int| 0 <= i < self.files@.len() && #[trigger] self.files@[i]@ == p
    }
}

/// `base.join(part)` for Unix paths: an absolute `part` replaces `base`;
/// otherwise a `/` is put between them unless `base` is empty or already
/// ends with one.
pub open spec fn join(base: Seq<char>, part: Seq<char>) -> Seq<char> {
    if part.len() > 0 && part[0] == '/' {
        part
    } else if base.len() == 0 || base.last() == '/' {
        base + part
    } else {
        base + seq!['/'] + part
    }
}

pub fn join_chars(base: &[char], part: &[char]) -> (r: Vec<char>)
    ensures
        r@ == join(base@, part@),
{
    if part.len() > 0 && part[0] == '/' {
        slice_chars(part, 0, part.len())
    } else if base.len() == 0 || base[base.len() - 1] == '/' {
        concat_chars(base, part)
    } else {
        let mut r = slice_chars(base, 0, base.len());
        r.push('/');
        push_all(&mut r, part);
        proof {
            assert(base@.subrange(0, base@.len() as int) =~= base@);
        }
        r
    }
}

/// `base.join(part)` on strings.
pub fn join_str(base: &[char], part: &str) -> (r: Vec<char>)
    ensures
        r@ == join(base@, part@),
{
    let p = chars_of(part);
    join_chars(base, p.as_slice())
}

/// The home directory: `$HOME`, or `/` when it is not set.
pub open spec fn home_path(host: &Host) -> Seq<char> {
    match host.home {
        Some(h) => h@,
        None => seq!['/'],
    }
}

pub fn home_chars(host: &Host) -> (r: Vec<char>)
    ensures
        r@ == home_path(host),
{
    match &host.home {
        Some(h) => chars_of(h.as_str()),
        None => {
            let mut r: Vec<char> = Vec::new();
            r.push('/');
            assert(r@ =~= seq!['/']);
            r
        },
    }
}

/// The home directory.
pub fn home_dir(host: &Host) -> (r: String)
    ensures
        r@ == home_path(host),
{
    let h = home_chars(host);
    string_of(h.as_slice())
}

/// The application's own data directory.
pub open spec fn app_data_path(host: &Host) -> Seq<char> {
    match host.platform {
        Platform::MacOs => join(
            join(home_path(host), "Library/Application Support"@),
            APP_IDENTIFIER@,
        ),
        Platform::Windows => join(
            match host.appdata {
                Some(a) => a@,
                None => join(home_path(host), "AppData/Roaming"@),
            },
            APP_IDENTIFIER@,
        ),
        Platform::OtherUnix => join(join(home_path(host), ".local/share"@), APP_IDENTIFIER@),
    }
}

pub fn app_data_chars(host: &Host) -> (r: Vec<char>)
    ensures
        r@ == app_data_path(host),
{
    let home = home_chars(host);
    match host.platform {
        Platform::MacOs => {
            let base = join_str(home.as_slice(), "Library/Application Support");
            join_str(base.as_slice(), APP_IDENTIFIER)
        },
        Platform::Windows => {
            let base = match &host.appdata {
                Some(a) => chars_of(a.as_str()),
                None => join_str(home.as_slice(), "AppData/Roaming"),
            };
            join_str(base.as_slice(), APP_IDENTIFIER)
        },
        Platform::OtherUnix => {
            let base = join_str(home.as_slice(), ".local/share");
            join_str(base.as_slice(), APP_IDENTIFIER)
        },
    }
}

/// The application's own data directory.
pub fn app_data_dir(host: &Host) -> (r: String)
    ensures
        r@ == app_data_path(host),
{
    let d = app_data_chars(host);
    string_of(d.as_slice())
}

/// The `DSH_HOME` handed to the child: the trimmed override when it is not
/// blank (a leading `~/` standing for the home directory), else
/// `dsh-home` under the data directory.
pub open spec fn dsh_home_path(host: &Host) -> Seq<char> {
    match host.dsh_home_override {
        Some(v) if trim(v@).len() > 0 => {
            let t = trim(v@);
            if starts_with(t, "~/"@) {
                join(home_path(host), t.subrange(2, t.len() as int))
            } else {
                t
            }
        },
        _ => join(app_data_path(host), "dsh-home"@),
    }
}

pub fn dsh_home_chars(host: &Host) -> (r: Vec<char>)
    ensures
        r@ == dsh_home_path(host),
{
    if let Some(v) = &host.dsh_home_override {
        let raw = chars_of(v.as_str());
        let t = trim_chars(raw.as_slice());
        if t.len() > 0 {
            let tilde = chars_of("~/");
            if starts_with_chars(t.as_slice(), tilde.as_slice()) {
                proof {
                    reveal_strlit("~/");
                }
                let home = home_chars(host);
                let rest = slice_chars(t.as_slice(), 2, t.len());
                return join_chars(home.as_slice(), rest.as_slice());
            }
            return t;
        }
    }
    let d = app_data_chars(host);
    join_str(d.as_slice(), "dsh-home")
}

/// The `DSH_HOME` handed to the child.
pub fn dsh_home(host: &Host) -> (r: String)
    ensures
        r@ == dsh_home_path(host),
{
    let d = dsh_home_chars(host);
    string_of(d.as_slice())
}

pub open spec fn profiles_path(host: &Host) -> Seq<char> {
    join(dsh_home_path(host), "profiles"@)
}

pub open spec fn profile_path(host: &Host) -> Seq<char> {
    join(profiles_path(host), PROFILE_NAME@)
}

pub open spec fn profile_manifest_path(host: &Host) -> Seq<char> {
    join(profile_path(host), "package.json"@)
}

pub open spec fn profile_patch_path(host: &Host) -> Seq<char> {
    join(profile_path(host), "cordis.patch.yml"@)
}

pub open spec fn pidfile_path(host: &Host) -> Seq<char> {
    join(dsh_home_path(host), "dhdesktop-backend.pid"@)
}

pub open spec fn runtime_path(host: &Host) -> Seq<char> {
    join(app_data_path(host), "runtime"@)
}

pub open spec fn runtime_entry_path(host: &Host) -> Seq<char> {
    join(runtime_path(host), "node_modules/@deepseek-ai/dsh/lib/bin.js"@)
}

/// `profiles/` under `DSH_HOME`.
pub fn profiles_dir(host: &Host) -> (r: String)
    ensures
        r@ == profiles_path(host),
{
    let d = dsh_home_chars(host);
    let p = join_str(d.as_slice(), "profiles");
    string_of(p.as_slice())
}

pub fn profile_chars(host: &Host) -> (r: Vec<char>)
    ensures
        r@ == profile_path(host),
{
    let d = dsh_home_chars(host);
    let p = join_str(d.as_slice(), "profiles");
    join_str(p.as_slice(), PROFILE_NAME)
}

/// This client's profile directory.
pub fn profile_dir(host: &Host) -> (r: String)
    ensures
        r@ == profile_path(host),
{
    let p = profile_chars(host);
    string_of(p.as_slice())
}

/// The profile manifest, which lists the installed plugins
/// (`dependencies`) and the enabled ones (`dsh.profile.bundles`).
pub fn profile_manifest(host: &Host) -> (r: String)
    ensures
        r@ == profile_manifest_path(host),
{
    let p = profile_chars(host);
    let m = join_str(p.as_slice(), "package.json");
    string_of(m.as_slice())
}

/// The user patch layer, where plugins are disabled or reconfigured.
pub fn profile_patch(host: &Host) -> (r: String)
    ensures
        r@ == profile_patch_path(host),
{
    let p = profile_chars(host);
    let m = join_str(p.as_slice(), "cordis.patch.yml");
    string_of(m.as_slice())
}

/// The file that records the process group of the running backend, so that
/// a backend left behind by a crash can be cleaned up on the next start.
pub fn pidfile(host: &Host) -> (r: String)
    ensures
        r@ == pidfile_path(host),
{
    let d = dsh_home_chars(host);
    let p = join_str(d.as_slice(), "dhdesktop-backend.pid");
    string_of(p.as_slice())
}

pub fn runtime_chars(host: &Host) -> (r: Vec<char>)
    ensures
        r@ == runtime_path(host),
{
    let d = app_data_chars(host);
    join_str(d.as_slice(), "runtime")
}

/// The directory of the locally installed `dsh` runtime.
pub fn runtime_dir(host: &Host) -> (r: String)
    ensures
        r@ == runtime_path(host),
{
    let d = runtime_chars(host);
    string_of(d.as_slice())
}

/// The entry script of the local runtime; it exists once the runtime is
/// installed.
pub fn runtime_entry(host: &Host) -> (r: String)
    ensures
        r@ == runtime_entry_path(host),
{
    let d = runtime_chars(host);
    let e = join_str(d.as_slice(), "node_modules/@deepseek-ai/dsh/lib/bin.js");
    string_of(e.as_slice())
}

/// Joining a relative part keeps the base as a prefix.
pub proof fn lemma_join_extends(base: Seq<char>, part: Seq<char>)
    requires
        part.len() == 0 || part[0] != '/',
    ensures
        starts_with(join(base, part), base),
        join(base, part).len() > base.len() || part.len() == 0,
{
    let j = join(base, part);
    if base.len() == 0 || base.last() == '/' {
        assert(j.subrange(0, base.len() as int) =~= base);
    } else {
        assert(j.subrange(0, base.len() as int) =~= base);
    }
}

proof fn lemma_starts_with_trans(a: Seq<char>, b: Seq<char>, c: Seq<char>)
    requires
        starts_with(a, b),
        starts_with(b, c),
    ensures
        starts_with(a, c),
{
    assert(a.subrange(0, c.len() as int) =~= b.subrange(0, c.len() as int));
}

/// Everything the client writes for `dsh` stays inside its `DSH_HOME`: the
/// profile directory, its manifest and patch layer, and the pid file all
/// lie under it, and the local runtime lies under the data directory.
pub proof fn lemma_layout_under_dsh_home(host: &Host)
    ensures
        starts_with(profiles_path(host), dsh_home_path(host)),
        starts_with(profile_path(host), dsh_home_path(host)),
        starts_with(profile_manifest_path(host), profile_path(host)),
        starts_with(profile_patch_path(host), profile_path(host)),
        starts_with(profile_manifest_path(host), dsh_home_path(host)),
        starts_with(pidfile_path(host), dsh_home_path(host)),
        starts_with(runtime_entry_path(host), app_data_path(host)),
{
    reveal_strlit("profiles");
    reveal_strlit("dhdesktop");
    reveal_strlit("package.json");
    reveal_strlit("cordis.patch.yml");
    reveal_strlit("dhdesktop-backend.pid");
    reveal_strlit("runtime");
    reveal_strlit("node_modules/@deepseek-ai/dsh/lib/bin.js");
    let h = dsh_home_path(host);
    lemma_join_extends(h, "profiles"@);
    lemma_join_extends(profiles_path(host), PROFILE_NAME@);
    lemma_join_extends(profile_path(host), "package.json"@);
    lemma_join_extends(profile_path(host), "cordis.patch.yml"@);
    lemma_join_extends(h, "dhdesktop-backend.pid"@);
    lemma_join_extends(app_data_path(host), "runtime"@);
    lemma_join_extends(runtime_path(host), "node_modules/@deepseek-ai/dsh/lib/bin.js"@);
    lemma_starts_with_trans(profile_path(host), profiles_path(host), h);
    lemma_starts_with_trans(profile_manifest_path(host), profile_path(host), h);
    lemma_starts_with_trans(runtime_entry_path(host), runtime_path(host), app_data_path(host));
}

} // verus!

//! Finding an executable `dsh`, and the environment report.
//!
//! An application started from the macOS Finder gets only
//! `/usr/bin:/bin:/usr/sbin:/sbin` as its `PATH`, while the user's `dsh` is
//! likely to live under Homebrew, nvm, pnpm and the like. So besides `PATH`
//! a list of well-known directories is probed as well.

use vstd::prelude::*;
use crate::paths::{
    home_chars, home_path, join, join_chars, join_str, profile_manifest, profile_manifest_path,
    profile_path, profile_dir, dsh_home, dsh_home_path, runtime_entry, runtime_entry_path, Host,
    PROFILE_NAME,
};
use crate::text::{
    chars_eq, chars_of, has_char, is_blank, push_all, push_str, slice_chars, sort_desc,
    sort_desc_chars, split, split_chars, string_of, trim_chars, views,
};

verus! {

/// Where `dsh` was found.
#[derive(Clone, Copy, Debug, PartialEq, Eq, Structural)]
pub enum Source {
    /// Named by the user in `DHDESKTOP_DSH_BIN`.
    EnvOverride,
    /// The runtime installed by the application itself (the fastest way).
    LocalRuntime,
    /// Found on `PATH`.
    Path,
    /// Found in one of the well-known install directories.
    KnownLocation,
    /// Nothing found: fall back to `npx` (the first run downloads ~290 MB).
    Npx,
}

/// The label shown to the user for each source.
pub open spec fn source_label(s: Source) -> Seq<char> {
    match s {
        Source::EnvOverride => "环境变量 DHDESKTOP_DSH_BIN"@,
        Source::LocalRuntime => "应用自带运行时"@,
        Source::Path => "PATH"@,
        Source::KnownLocation => "常见安装位置"@,
        Source::Npx => "npx 兜底(首次需下载)"@,
    }
}

impl Source {
    pub fn label(&self) -> (r: &'static str)
        ensures
            r@ == source_label(*self),
    {
        match self {
            Source::EnvOverride => "环境变量 DHDESKTOP_DSH_BIN",
            Source::LocalRuntime => "应用自带运行时",
            Source::Path => "PATH",
            Source::KnownLocation => "常见安装位置",
            Source::Npx => "npx 兜底(首次需下载)",
        }
    }
}

/// The `dsh` version installed; pinned because `dsh` warns of breaking changes.
pub const DEFAULT_DSH_SPEC: &'static str = "@deepseek-ai/dsh@0.1.5-rc.1";

/// The package spec to install: `$DHDESKTOP_DSH_SPEC` unless it is blank.
pub open spec fn install_spec_of(host: &Host) -> Seq<char> {
    match host.dsh_spec {
        Some(v) if !is_blank(v@) => v@,
        _ => DEFAULT_DSH_SPEC@,
    }
}

pub fn install_spec(host: &Host) -> (r: String)
    ensures
        r@ == install_spec_of(host),
{
    if let Some(v) = &host.dsh_spec {
        let cs = chars_of(v.as_str());
        let t = trim_chars(cs.as_slice());
        if t.len() > 0 {
            return v.clone();
        }
    }
    DEFAULT_DSH_SPEC.to_string()
}

/// How `dsh` is to be started: `program` followed by `args` is the prefix of
/// the command line.
pub struct ResolvedDsh {
    pub program: String,
    pub args: Vec<String>,
    pub source: Source,
    pub source_label: String,
    pub display: String,
}

/// A resolved command by its contents.
pub struct ResolvedView {
    pub program: Seq<char>,
    pub args: Seq<Seq<char>>,
    pub source: Source,
    pub source_label: Seq<char>,
    pub display: Seq<char>,
}

pub open spec fn string_views(v: Seq<String>) -> Seq<Seq<char>> {
    v.map_values(|s: String| s@)
}

impl View for ResolvedDsh {
    type V = ResolvedView;

    open spec fn view(&self) -> ResolvedView {
        ResolvedView {
            program: self.program@,
            args: string_views(self.args@),
            source: self.source,
            source_label: self.source_label@,
            display: self.display@,
        }
    }
}

pub open spec fn opt_resolved(r: Option<ResolvedDsh>) -> Option<ResolvedView> {
    match r {
        Some(x) => Some(x@),
        None => None,
    }
}

/// A command with its label filled in from its source.
pub open spec fn resolved(
    program: Seq<char>,
    args: Seq<Seq<char>>,
    source: Source,
    display: Seq<char>,
) -> ResolvedView {
    ResolvedView { program, args, source, source_label: source_label(source), display }
}

/// One probed directory of the environment report.
pub struct Probe {
    pub dir: String,
    pub has_dsh: bool,
    pub has_node: bool,
}

/// The environment report shown on the diagnostics page.
pub struct EnvReport {
    pub platform: String,
    pub dsh_home: String,
    pub dsh_home_exists: bool,
    pub dsh_home_writable: bool,
    /// Owner of the `dsh` home. When it differs from `current_uid`, the
    /// directory was most likely used through `sudo`, and `dsh` cannot start.
    pub dsh_home_owner: Option<u32>,
    pub current_uid: Option<u32>,
    pub profile: String,
    pub profile_dir: String,
    pub profile_manifest: String,
    pub profile_ready: bool,
    pub probes: Vec<Probe>,
    pub resolved: Option<ResolvedDsh>,
    pub node: Option<String>,
}

/// The non-empty entries of `s`, in order.
pub open spec fn keep_non_empty(s: Seq<Seq<char>>) -> Seq<Seq<char>>
    decreases s.len(),
{
    if s.len() == 0 {
        s
    } else if s.last().len() > 0 {
        keep_non_empty(s.drop_last()).push(s.last())
    } else {
        keep_non_empty(s.drop_last())
    }
}

/// The directories of `$PATH` (`std::env::split_paths` on `:`), empty ones left out.
pub open spec fn path_dirs_of(host: &Host) -> Seq<Seq<char>> {
    match host.path_var {
        Some(p) => keep_non_empty(split(p@, seq![':'])),
        None => Seq::empty(),
    }
}

fn keep_non_empty_vec(v: Vec<Vec<char>>) -> (r: Vec<Vec<char>>)
    ensures
        views(r@) == keep_non_empty(views(v@)),
{
    let mut r: Vec<Vec<char>> = Vec::new();
    let mut k: usize = 0;
    while k < v.len()
        invariant
            k <= v@.len(),
            views(r@) == keep_non_empty(views(v@).take(k as int)),
        decreases v@.len() - k,
    {
        proof {
            assert(views(v@).take(k + 1).drop_last() =~= views(v@).take(k as int));
        }
        if v[k].len() > 0 {
            let ghost old_r = r@;
            r.push(slice_chars(v[k].as_slice(), 0, v[k].len()));
            proof {
                assert(v@[k as int]@.subrange(0, v@[k as int]@.len() as int) =~= v@[k as int]@);
                assert(views(r@) =~= views(old_r).push(v@[k as int]@));
            }
        }
        k = k + 1;
    }
    assert(views(v@).take(k as int) =~= views(v@));
    r
}

pub fn path_dir_chars(host: &Host) -> (r: Vec<Vec<char>>)
    ensures
        views(r@) == path_dirs_of(host),
{
    match &host.path_var {
        Some(p) => {
            let cs = chars_of(p.as_str());
            let sep = vec![':'];
            assert(sep@ =~= seq![':']);
            let parts = split_chars(cs.as_slice(), sep.as_slice());
            keep_non_empty_vec(parts)
        },
        None => {
            let r: Vec<Vec<char>> = Vec::new();
            assert(views(r@) =~= Seq::<Seq<char>>::empty());
            r
        },
    }
}

/// The well-known install directories (besides `PATH`): Homebrew and the
/// system directories, the user's own bin directories, the nvm versions
/// from the newest name down, the fnm aliases, and the asdf shims.
pub open spec fn known_dirs_of(host: &Host) -> Seq<Seq<char>> {
    let home = home_path(host);
    let nvm = join(home, ".nvm/versions/node"@);
    let fnm = join(home, ".local/share/fnm/aliases"@);
    seq![
        "/opt/homebrew/bin"@,
        "/usr/local/bin"@,
        "/usr/bin"@,
        "/bin"@,
        join(home, ".local/bin"@),
        join(home, "Library/pnpm"@),
        join(home, ".bun/bin"@),
        join(home, ".volta/bin"@),
        join(home, ".npm-global/bin"@),
    ] + sort_desc(string_views(host.nvm_versions@)).map_values(
        |v: Seq<char>| join(join(nvm, v), "bin"@),
    ) + string_views(host.fnm_aliases@).map_values(|a: Seq<char>| join(join(fnm, a), "bin"@))
        + seq![join(home, ".asdf/shims"@)]
}

fn push_str_vec(r: &mut Vec<Vec<char>>, s: &str)
    ensures
        views(final(r)@) == views(old(r)@).push(s@),
{
    let ghost old_r = r@;
    r.push(chars_of(s));
    assert(views(r@) =~= views(old_r).push(s@));
}

fn push_joined(r: &mut Vec<Vec<char>>, base: &[char], part: &str)
    ensures
        views(final(r)@) == views(old(r)@).push(join(base@, part@)),
{
    let ghost old_r = r@;
    r.push(join_str(base, part));
    assert(views(r@) =~= views(old_r).push(join(base@, part@)));
}

fn strings_to_chars(v: &Vec<String>) -> (r: Vec<Vec<char>>)
    ensures
        views(r@) == string_views(v@),
{
    let mut r: Vec<Vec<char>> = Vec::new();
    let mut k: usize = 0;
    while k < v.len()
        invariant
            k <= v@.len(),
            views(r@) == string_views(v@).take(k as int),
        decreases v@.len() - k,
    {
        let ghost old_r = r@;
        r.push(chars_of(v[k].as_str()));
        proof {
            assert(views(r@) =~= views(old_r).push(v@[k as int]@));
            assert(views(r@) =~= string_views(v@).take(k + 1));
        }
        k = k + 1;
    }
    assert(string_views(v@).take(k as int) =~= string_views(v@));
    r
}

/// Appends `join(join(base, name), "bin")` for each name, in order.
fn push_bin_dirs(r: &mut Vec<Vec<char>>, base: &[char], names: &Vec<Vec<char>>)
    ensures
        views(final(r)@) == views(old(r)@) + views(names@).map_values(
            |v: Seq<char>| join(join(base@, v), "bin"@),
        ),
{
    let ghost old_r = r@;
    let ghost f = |v: Seq<char>| join(join(base@, v), "bin"@);
    let mut k: usize = 0;
    while k < names.len()
        invariant
            k <= names@.len(),
            f == (|v: Seq<char>| join(join(base@, v), "bin"@)),
            views(r@) == views(old_r) + views(names@).take(k as int).map_values(f),
        decreases names@.len() - k,
    {
        let d = join_chars(base, names[k].as_slice());
        let ghost before = r@;
        push_joined(r, d.as_slice(), "bin");
        proof {
            assert(views(names@).take(k + 1).map_values(f) =~= views(names@).take(k as int).map_values(
                f,
            ).push(f(names@[k as int]@)));
            assert(views(r@) =~= views(old_r) + views(names@).take(k + 1).map_values(f));
        }
        k = k + 1;
    }
    assert(views(names@).take(k as int) =~= views(names@));
}

pub fn known_dir_chars(host: &Host) -> (r: Vec<Vec<char>>)
    ensures
        views(r@) == known_dirs_of(host),
{
    let home = home_chars(host);
    let h = home.as_slice();
    let mut r: Vec<Vec<char>> = Vec::new();
    push_str_vec(&mut r, "/opt/homebrew/bin");
    push_str_vec(&mut r, "/usr/local/bin");
    push_str_vec(&mut r, "/usr/bin");
    push_str_vec(&mut r, "/bin");
    push_joined(&mut r, h, ".local/bin");
    push_joined(&mut r, h, "Library/pnpm");
    push_joined(&mut r, h, ".bun/bin");
    push_joined(&mut r, h, ".volta/bin");
    push_joined(&mut r, h, ".npm-global/bin");
    let ghost fixed = views(r@);
    let nvm = join_str(h, ".nvm/versions/node");
    let versions = sort_desc_chars(strings_to_chars(&host.nvm_versions));
    push_bin_dirs(&mut r, nvm.as_slice(), &versions);
    let ghost with_nvm = views(r@);
    let fnm = join_str(h, ".local/share/fnm/aliases");
    let aliases = strings_to_chars(&host.fnm_aliases);
    push_bin_dirs(&mut r, fnm.as_slice(), &aliases);
    let ghost with_fnm = views(r@);
    push_joined(&mut r, h, ".asdf/shims");
    proof {
        let home_v = home_path(host);
        assert(fixed =~= seq![
            "/opt/homebrew/bin"@,
            "/usr/local/bin"@,
            "/usr/bin"@,
            "/bin"@,
            join(home_v, ".local/bin"@),
            join(home_v, "Library/pnpm"@),
            join(home_v, ".bun/bin"@),
            join(home_v, ".volta/bin"@),
            join(home_v, ".npm-global/bin"@),
        ]);
        assert(views(r@) =~= known_dirs_of(host));
    }
    r
}

fn to_strings(v: &Vec<Vec<char>>) -> (r: Vec<String>)
    ensures
        string_views(r@) == views(v@),
{
    let mut r: Vec<String> = Vec::new();
    let mut k: usize = 0;
    while k < v.len()
        invariant
            k <= v@.len(),
            string_views(r@) == views(v@).take(k as int),
        decreases v@.len() - k,
    {
        let ghost old_r = r@;
        r.push(string_of(v[k].as_slice()));
        proof {
            assert(string_views(r@) =~= string_views(old_r).push(v@[k as int]@));
            assert(string_views(r@) =~= views(v@).take(k + 1));
        }
        k = k + 1;
    }
    assert(views(v@).take(k as int) =~= views(v@));
    r
}

/// The directories of `$PATH`.
pub fn path_dirs(host: &Host) -> (r: Vec<String>)
    ensures
        string_views(r@) == path_dirs_of(host),
{
    let d = path_dir_chars(host);
    to_strings(&d)
}

/// The well-known install directories.
pub fn known_dirs(host: &Host) -> (r: Vec<String>)
    ensures
        string_views(r@) == known_dirs_of(host),
{
    let d = known_dir_chars(host);
    to_strings(&d)
}

/// Whether `p` is listed among the host's regular files.
pub fn host_is_file(host: &Host, p: &[char]) -> (r: bool)
    ensures
        r == host.is_file(p@),
{
    let mut k: usize = 0;
    while k < host.files.len()
        invariant
            k <= host.files@.len(),
            forall|m: int| 0 <= m < k ==> host.files@[m]@ != p@,
        decreases host.files@.len() - k,
    {
        let f = chars_of(host.files[k].as_str());
        if chars_eq(f.as_slice(), p) {
            return true;
        }
        k = k + 1;
    }
    false
}

/// The first `dir/exe` among `dirs` that is a regular file.
pub open spec fn find_in_spec(host: &Host, dirs: Seq<Seq<char>>, exe: Seq<char>) -> Option<
    Seq<char>,
>
    decreases dirs.len(),
{
    if dirs.len() == 0 {
        None
    } else if host.is_file(join(dirs[0], exe)) {
        Some(join(dirs[0], exe))
    } else {
        find_in_spec(host, dirs.drop_first(), exe)
    }
}

pub fn find_in(host: &Host, dirs: &Vec<Vec<char>>, exe: &str) -> (r: Option<Vec<char>>)
    ensures
        match r {
            Some(p) => find_in_spec(host, views(dirs@), exe@) == Some(p@),
            None => find_in_spec(host, views(dirs@), exe@) is None,
        },
{
    let mut k: usize = 0;
    assert(views(dirs@).skip(0) =~= views(dirs@));
    while k < dirs.len()
        invariant
            k <= dirs@.len(),
            find_in_spec(host, views(dirs@), exe@) == find_in_spec(
                host,
                views(dirs@).skip(k as int),
                exe@,
            ),
        decreases dirs@.len() - k,
    {
        proof {
            assert(views(dirs@).skip(k as int).drop_first() =~= views(dirs@).skip(k + 1));
            assert(views(dirs@).skip(k as int)[0] == dirs@[k as int]@);
        }
        let c = join_str(dirs[k].as_slice(), exe);
        if host_is_file(host, c.as_slice()) {
            return Some(c);
        }
        k = k + 1;
    }
    None
}

/// `dsh` found in one of `dirs`.
pub open spec fn resolve_in_spec(host: &Host, dirs: Seq<Seq<char>>, source: Source) -> Option<
    ResolvedView,
> {
    match find_in_spec(host, dirs, "dsh"@) {
        Some(exe) => Some(resolved(exe, Seq::empty(), source, exe)),
        None => None,
    }
}

fn resolved_dsh(program: &[char], args: Vec<String>, source: Source, display: &[char]) -> (r:
    ResolvedDsh)
    ensures
        r@ == resolved(program@, string_views(args@), source, display@),
{
    ResolvedDsh {
        program: string_of(program),
        args,
        source,
        source_label: source.label().to_string(),
        display: string_of(display),
    }
}

pub fn resolve_in(host: &Host, dirs: &Vec<Vec<char>>, source: Source) -> (r: Option<ResolvedDsh>)
    ensures
        opt_resolved(r) == resolve_in_spec(host, views(dirs@), source),
{
    match find_in(host, dirs, "dsh") {
        Some(exe) => {
            let args: Vec<String> = Vec::new();
            assert(string_views(args@) =~= Seq::<Seq<char>>::empty());
            Some(resolved_dsh(exe.as_slice(), args, source, exe.as_slice()))
        },
        None => None,
    }
}

/// `PATH` followed by the well-known directories.
pub open spec fn all_dirs_of(host: &Host) -> Seq<Seq<char>> {
    path_dirs_of(host) + known_dirs_of(host)
}

fn all_dir_chars(host: &Host) -> (r: Vec<Vec<char>>)
    ensures
        views(r@) == all_dirs_of(host),
{
    let mut a = path_dir_chars(host);
    let mut b = known_dir_chars(host);
    let ghost va = views(a@);
    let ghost vb = views(b@);
    a.append(&mut b);
    assert(views(a@) =~= va + vb);
    a
}

/// `node` on `PATH` or in a well-known directory.
pub open spec fn node_path_of(host: &Host) -> Option<Seq<char>> {
    find_in_spec(host, all_dirs_of(host), "node"@)
}

pub fn node_path(host: &Host) -> (r: Option<String>)
    ensures
        opt_view(r) == node_path_of(host),
        (exists|i: int| 0 <= i < (path_dirs_of(host) + known_dirs_of(host)).len()
            && #[trigger] host.is_file(join((path_dirs_of(host) + known_dirs_of(host))[i], "node"@)))
            ==> r is Some,
{
    proof {
        lemma_node_first_found(host);
    }
    let all = all_dir_chars(host);
    match find_in(host, &all, "node") {
        Some(p) => Some(string_of(p.as_slice())),
        None => None,
    }
}

/// `npm` on `PATH` or in a well-known directory (usually next to `node`).
pub open spec fn npm_path_of(host: &Host) -> Option<Seq<char>> {
    find_in_spec(host, all_dirs_of(host), "npm"@)
}

pub fn npm_path(host: &Host) -> (r: Option<String>)
    ensures
        opt_view(r) == npm_path_of(host),
{
    let all = all_dir_chars(host);
    match find_in(host, &all, "npm") {
        Some(p) => Some(string_of(p.as_slice())),
        None => None,
    }
}

pub open spec fn opt_view(o: Option<String>) -> Option<Seq<char>> {
    match o {
        Some(s) => Some(s@),
        None => None,
    }
}

/// The application's own runtime, started as `node <entry>` without npm or npx,
/// when the entry script is installed and `node` can be found.
pub open spec fn local_runtime_of(host: &Host) -> Option<ResolvedView> {
    let entry = runtime_entry_path(host);
    if !host.is_file(entry) {
        None
    } else {
        match node_path_of(host) {
            Some(node) => Some(
                resolved(node, seq![entry], Source::LocalRuntime, node + seq![' '] + entry),
            ),
            None => None,
        }
    }
}

pub fn local_runtime(host: &Host) -> (r: Option<ResolvedDsh>)
    ensures
        opt_resolved(r) == local_runtime_of(host),
{
    let entry = runtime_entry(host);
    let entry_cs = chars_of(entry.as_str());
    if !host_is_file(host, entry_cs.as_slice()) {
        return None;
    }
    let all = all_dir_chars(host);
    match find_in(host, &all, "node") {
        Some(node) => {
            let mut display = slice_chars(node.as_slice(), 0, node.len());
            display.push(' ');
            push_all(&mut display, entry_cs.as_slice());
            let mut args: Vec<String> = Vec::new();
            args.push(entry);
            proof {
                assert(display@ =~= node@ + seq![' '] + entry_cs@);
                assert(string_views(args@) =~= seq![entry_cs@]);
            }
            Some(resolved_dsh(node.as_slice(), args, Source::LocalRuntime, display.as_slice()))
        },
        None => None,
    }
}

/// The `npx` fallback: `npx -y <spec>`, when `npx` can be found.
pub open spec fn npx_fallback_of(host: &Host) -> Option<ResolvedView> {
    match find_in_spec(host, all_dirs_of(host), "npx"@) {
        Some(npx) => Some(
            resolved(
                npx,
                seq!["-y"@, install_spec_of(host)],
                Source::Npx,
                npx + " -y "@ + install_spec_of(host),
            ),
        ),
        None => None,
    }
}

pub fn npx_fallback(host: &Host) -> (r: Option<ResolvedDsh>)
    ensures
        opt_resolved(r) == npx_fallback_of(host),
{
    let all = all_dir_chars(host);
    match find_in(host, &all, "npx") {
        Some(npx) => {
            let spec = install_spec(host);
            let mut display = slice_chars(npx.as_slice(), 0, npx.len());
            push_str(&mut display, " -y ");
            push_str(&mut display, spec.as_str());
            let mut args: Vec<String> = Vec::new();
            args.push("-y".to_string());
            args.push(spec);
            proof {
                assert(npx@.subrange(0, npx@.len() as int) =~= npx@);
                assert(string_views(args@) =~= seq!["-y"@, install_spec_of(host)]);
            }
            Some(resolved_dsh(npx.as_slice(), args, Source::Npx, display.as_slice()))
        },
        None => None,
    }
}

/// `$DHDESKTOP_DSH_BIN` when it is not blank and names a regular file.
pub open spec fn env_override_of(host: &Host) -> Option<ResolvedView> {
    match host.dsh_bin {
        Some(v) if !is_blank(v@) && host.is_file(v@) => Some(
            resolved(v@, Seq::empty(), Source::EnvOverride, v@),
        ),
        _ => None,
    }
}

/// A way to start `dsh` that needs nothing downloaded, by precedence: the
/// user's override, the local runtime, `PATH`, the well-known directories.
pub open spec fn resolve_existing_of(host: &Host) -> Option<ResolvedView> {
    if env_override_of(host) is Some {
        env_override_of(host)
    } else if local_runtime_of(host) is Some {
        local_runtime_of(host)
    } else if resolve_in_spec(host, path_dirs_of(host), Source::Path) is Some {
        resolve_in_spec(host, path_dirs_of(host), Source::Path)
    } else {
        resolve_in_spec(host, known_dirs_of(host), Source::KnownLocation)
    }
}

pub fn resolve_existing(host: &Host) -> (r: Option<ResolvedDsh>)
    ensures
        opt_resolved(r) == resolve_existing_of(host),
        override_applies(host) ==> (r matches Some(x) && x.source == Source::EnvOverride
            && x.program@ == host.dsh_bin->0@),
{
    if let Some(v) = &host.dsh_bin {
        let cs = chars_of(v.as_str());
        let t = trim_chars(cs.as_slice());
        if t.len() > 0 && host_is_file(host, cs.as_slice()) {
            let args: Vec<String> = Vec::new();
            assert(string_views(args@) =~= Seq::<Seq<char>>::empty());
            return Some(resolved_dsh(cs.as_slice(), args, Source::EnvOverride, cs.as_slice()));
        }
    }
    if let Some(rt) = local_runtime(host) {
        return Some(rt);
    }
    let p = path_dir_chars(host);
    if let Some(r) = resolve_in(host, &p, Source::Path) {
        return Some(r);
    }
    let k = known_dir_chars(host);
    resolve_in(host, &k, Source::KnownLocation)
}

/// An existing installation, else the `npx` fallback.
pub open spec fn resolve_of(host: &Host) -> Option<ResolvedView> {
    if resolve_existing_of(host) is Some {
        resolve_existing_of(host)
    } else {
        npx_fallback_of(host)
    }
}

pub fn resolve(host: &Host) -> (r: Option<ResolvedDsh>)
    ensures
        opt_resolved(r) == resolve_of(host),
        override_applies(host) ==> (r matches Some(x) && x.source == Source::EnvOverride
            && x.program@ == host.dsh_bin->0@),
{
    match resolve_existing(host) {
        Some(r) => Some(r),
        None => npx_fallback(host),
    }
}

/// `$DHDESKTOP_DSH_BIN` is set, not blank, and names a regular file.
pub open spec fn override_applies(host: &Host) -> bool {
    host.dsh_bin matches Some(v) && !is_blank(v@) && host.is_file(v@)
}

/// The search through `dirs` takes the first directory that holds `exe`, and
/// finds nothing only when none does.
pub proof fn lemma_find_in_first(host: &Host, dirs: Seq<Seq<char>>, exe: Seq<char>)
    ensures
        match find_in_spec(host, dirs, exe) {
            Some(p) => exists|j: int|
                0 <= j < dirs.len() && p == join(dirs[j], exe) && host.is_file(p) && forall|k: int|
                    0 <= k < j ==> !#[trigger] host.is_file(join(dirs[k], exe)),
            None => forall|k: int| 0 <= k < dirs.len() ==> !#[trigger] host.is_file(join(dirs[k], exe)),
        },
    decreases dirs.len(),
{
    if dirs.len() > 0 {
        let rest = dirs.drop_first();
        lemma_find_in_first(host, rest, exe);
        if !host.is_file(join(dirs[0], exe)) {
            match find_in_spec(host, rest, exe) {
                Some(p) => {
                    let j = choose|j: int|
                        0 <= j < rest.len() && p == join(rest[j], exe) && host.is_file(p) && forall|
                            k: int,
                        | 0 <= k < j ==> !#[trigger] host.is_file(join(rest[k], exe));
                    assert(dirs[j + 1] == rest[j]);
                    assert forall|k: int| 0 <= k < j + 1 implies !#[trigger] host.is_file(
                        join(dirs[k], exe),
                    ) by {
                        if k > 0 {
                            assert(dirs[k] == rest[k - 1]);
                        }
                    }
                },
                None => {
                    assert forall|k: int| 0 <= k < dirs.len() implies !#[trigger] host.is_file(
                        join(dirs[k], exe),
                    ) by {
                        if k > 0 {
                            assert(dirs[k] == rest[k - 1]);
                        }
                    }
                },
            }
        }
    }
}

/// `node` is looked for on `PATH` and then in the well-known directories: it
/// is found whenever any of them holds it, and the first one that does is
/// taken.
pub proof fn lemma_node_first_found(host: &Host)
    ensures
        ({
            let ds = path_dirs_of(host) + known_dirs_of(host);
            match node_path_of(host) {
                Some(p) => exists|j: int|
                    0 <= j < ds.len() && p == join(ds[j], "node"@) && host.is_file(p) && forall|k: int|
                        0 <= k < j ==> !#[trigger] host.is_file(join(ds[k], "node"@)),
                None => forall|k: int|
                    0 <= k < ds.len() ==> !#[trigger] host.is_file(join(ds[k], "node"@)),
            }
        }),
{
    lemma_find_in_first(host, path_dirs_of(host) + known_dirs_of(host), "node"@);
}

/// The local runtime is `node <entry>`: it is there exactly when the entry
/// script is installed and `node` is found, and it is what gets started
/// unless the user's override applies.
pub proof fn lemma_local_runtime_second(host: &Host)
    ensures
        local_runtime_of(host) is Some <==> (host.is_file(runtime_entry_path(host))
            && node_path_of(host) is Some),
        local_runtime_of(host) matches Some(r) ==> r.program == node_path_of(host)->0 && r.args
            == seq![runtime_entry_path(host)] && r.source == Source::LocalRuntime,
        !override_applies(host) && local_runtime_of(host) is Some ==> resolve_existing_of(host)
            == local_runtime_of(host) && resolve_of(host) == local_runtime_of(host),
{
}

/// The user's override, when it is not blank and names a regular file, is
/// what gets started, whatever else is installed.
pub proof fn lemma_override_first(host: &Host)
    requires
        override_applies(host),
    ensures
        resolve_existing_of(host) matches Some(r) && r.source == Source::EnvOverride && r.program
            == host.dsh_bin->0@ && r.args.len() == 0,
        resolve_of(host) == resolve_existing_of(host),
{
}

/// Whatever is resolved starts a program that exists: the override, `dsh`
/// in a directory, `npx`, or `node` with an installed entry script.
pub proof fn lemma_resolved_program_exists(host: &Host)
    ensures
        resolve_of(host) matches Some(r) ==> host.is_file(r.program),
        resolve_of(host) matches Some(r) ==> (r.source == Source::LocalRuntime ==> host.is_file(
            r.args[0],
        )),
{
    lemma_find_in_first(host, path_dirs_of(host) + known_dirs_of(host), "node"@);
    lemma_find_in_first(host, path_dirs_of(host) + known_dirs_of(host), "npx"@);
    lemma_find_in_first(host, path_dirs_of(host), "dsh"@);
    lemma_find_in_first(host, known_dirs_of(host), "dsh"@);
}

/// Without the override and the local runtime, `dsh` on `PATH` is taken
/// before the well-known directories, and those before `npx`, the last
/// resort.
pub proof fn lemma_resolve_precedence(host: &Host)
    ensures
        !override_applies(host) && local_runtime_of(host) is None && (exists|i: int|
            0 <= i < path_dirs_of(host).len() && #[trigger] host.is_file(
                join(path_dirs_of(host)[i], "dsh"@),
            )) ==> (resolve_of(host) matches Some(r) && r.source == Source::Path),
        !override_applies(host) && local_runtime_of(host) is None && (forall|i: int|
            0 <= i < path_dirs_of(host).len() ==> !#[trigger] host.is_file(
                join(path_dirs_of(host)[i], "dsh"@),
            )) && (exists|i: int|
            0 <= i < known_dirs_of(host).len() && #[trigger] host.is_file(
                join(known_dirs_of(host)[i], "dsh"@),
            )) ==> (resolve_of(host) matches Some(r) && r.source == Source::KnownLocation),
        resolve_of(host) matches Some(r) ==> (r.source == Source::Npx ==> !override_applies(host)
            && local_runtime_of(host) is None && (forall|i: int|
            0 <= i < (path_dirs_of(host) + known_dirs_of(host)).len() ==> !#[trigger] host.is_file(
                join((path_dirs_of(host) + known_dirs_of(host))[i], "dsh"@),
            ))),
{
    let pd = path_dirs_of(host);
    let kd = known_dirs_of(host);
    lemma_find_in_first(host, pd, "dsh"@);
    lemma_find_in_first(host, kd, "dsh"@);
    if resolve_of(host) is Some && resolve_of(host)->0.source == Source::Npx {
        assert forall|i: int| 0 <= i < (pd + kd).len() implies !#[trigger] host.is_file(
            join((pd + kd)[i], "dsh"@),
        ) by {
            if i < pd.len() {
                assert((pd + kd)[i] == pd[i]);
            } else {
                assert((pd + kd)[i] == kd[i - pd.len()]);
            }
        }
    }
}

/// `npm` is looked for where `node` is: on `PATH`, then in the well-known
/// directories, the first one that holds it taken.
pub proof fn lemma_npm_first_found(host: &Host)
    ensures
        ({
            let ds = path_dirs_of(host) + known_dirs_of(host);
            match npm_path_of(host) {
                Some(p) => exists|j: int|
                    0 <= j < ds.len() && p == join(ds[j], "npm"@) && host.is_file(p) && forall|k: int|
                        0 <= k < j ==> !#[trigger] host.is_file(join(ds[k], "npm"@)),
                None => forall|k: int|
                    0 <= k < ds.len() ==> !#[trigger] host.is_file(join(ds[k], "npm"@)),
            }
        }),
{
    lemma_find_in_first(host, path_dirs_of(host) + known_dirs_of(host), "npm"@);
}

/// The non-empty segments of a path other than `.`.
pub open spec fn normal_parts(segs: Seq<Seq<char>>) -> Seq<Seq<char>>
    decreases segs.len(),
{
    if segs.len() == 0 {
        segs
    } else if segs.last().len() > 0 && segs.last() != seq!['.'] {
        normal_parts(segs.drop_last()).push(segs.last())
    } else {
        normal_parts(segs.drop_last())
    }
}

/// The components of a Unix path as `Path::components` yields them: the
/// root (written `/`) or a leading current-directory marker (written `.`),
/// then the other segments with empty ones and `.` left out.
pub open spec fn components(p: Seq<char>) -> Seq<Seq<char>> {
    let head = if p.len() > 0 && p[0] == '/' {
        seq![seq!['/']]
    } else if p.len() > 0 && p[0] == '.' && (p.len() == 1 || p[1] == '/') {
        seq![seq!['.']]
    } else {
        Seq::<Seq<char>>::empty()
    };
    head + normal_parts(split(p, seq!['/']))
}

/// `Path` equality, which compares components.
pub open spec fn same_path(a: Seq<char>, b: Seq<char>) -> bool {
    components(a) == components(b)
}

fn normal_parts_vec(v: &Vec<Vec<char>>) -> (r: Vec<Vec<char>>)
    ensures
        views(r@) == normal_parts(views(v@)),
{
    let mut r: Vec<Vec<char>> = Vec::new();
    let dot = vec!['.'];
    assert(dot@ =~= seq!['.']);
    let mut k: usize = 0;
    while k < v.len()
        invariant
            k <= v@.len(),
            dot@ == seq!['.'],
            views(r@) == normal_parts(views(v@).take(k as int)),
        decreases v@.len() - k,
    {
        proof {
            assert(views(v@).take(k + 1).drop_last() =~= views(v@).take(k as int));
        }
        if v[k].len() > 0 && !chars_eq(v[k].as_slice(), dot.as_slice()) {
            let ghost old_r = r@;
            r.push(slice_chars(v[k].as_slice(), 0, v[k].len()));
            proof {
                assert(v@[k as int]@.subrange(0, v@[k as int]@.len() as int) =~= v@[k as int]@);
                assert(views(r@) =~= views(old_r).push(v@[k as int]@));
            }
        }
        k = k + 1;
    }
    assert(views(v@).take(k as int) =~= views(v@));
    r
}

pub fn components_chars(p: &[char]) -> (r: Vec<Vec<char>>)
    ensures
        views(r@) == components(p@),
{
    let mut head: Vec<Vec<char>> = Vec::new();
    let root = vec!['/'];
    let cur = vec!['.'];
    assert(root@ =~= seq!['/']);
    assert(cur@ =~= seq!['.']);
    if p.len() > 0 && p[0] == '/' {
        head.push(root);
    } else if p.len() > 0 && p[0] == '.' && (p.len() == 1 || p[1] == '/') {
        head.push(cur);
    }
    let ghost h = views(head@);
    let sep = vec!['/'];
    assert(sep@ =~= seq!['/']);
    let segs = split_chars(p, sep.as_slice());
    let mut parts = normal_parts_vec(&segs);
    head.append(&mut parts);
    proof {
        assert(h =~= (if p@.len() > 0 && p@[0] == '/' {
            seq![seq!['/']]
        } else if p@.len() > 0 && p@[0] == '.' && (p@.len() == 1 || p@[1] == '/') {
            seq![seq!['.']]
        } else {
            Seq::<Seq<char>>::empty()
        }));
        assert(views(head@) =~= h + normal_parts(split(p@, seq!['/'])));
    }
    head
}

fn seqs_eq(a: &Vec<Vec<char>>, b: &Vec<Vec<char>>) -> (r: bool)
    ensures
        r == (views(a@) == views(b@)),
{
    if a.len() != b.len() {
        assert(views(a@).len() != views(b@).len());
        return false;
    }
    let mut k: usize = 0;
    while k < a.len()
        invariant
            a@.len() == b@.len(),
            k <= a@.len(),
            forall|m: int| 0 <= m < k ==> a@[m]@ == b@[m]@,
        decreases a@.len() - k,
    {
        if !chars_eq(a[k].as_slice(), b[k].as_slice()) {
            assert(views(a@)[k as int] != views(b@)[k as int]);
            return false;
        }
        k = k + 1;
    }
    assert(views(a@) =~= views(b@));
    true
}

/// Some entry of `ds` is the same path as `d`.
pub open spec fn has_same_path(ds: Seq<Seq<char>>, d: Seq<char>) -> bool {
    exists|i: int| 0 <= i < ds.len() && same_path(#[trigger] ds[i], d)
}

/// `base` followed by those of `extra` that are not already there, in order.
pub open spec fn add_missing(base: Seq<Seq<char>>, extra: Seq<Seq<char>>) -> Seq<Seq<char>>
    decreases extra.len(),
{
    if extra.len() == 0 {
        base
    } else {
        let acc = add_missing(base, extra.drop_last());
        if has_same_path(acc, extra.last()) {
            acc
        } else {
            acc.push(extra.last())
        }
    }
}

/// The entries of `ds` separated by `:`.
pub open spec fn join_colon(ds: Seq<Seq<char>>) -> Seq<char>
    decreases ds.len(),
{
    if ds.len() == 0 {
        Seq::empty()
    } else if ds.len() == 1 {
        ds[0]
    } else {
        join_colon(ds.drop_last()) + seq![':'] + ds.last()
    }
}

/// The `PATH` for the child: the current `PATH` first, then the well-known
/// directories not already on it; `None` when there is no directory at all,
/// or when one of them holds a `:` (`std::env::join_paths` refuses those).
pub open spec fn child_path_env_of(host: &Host) -> Option<Seq<char>> {
    let ds = add_missing(path_dirs_of(host), known_dirs_of(host));
    if ds.len() == 0 {
        None
    } else if exists|i: int| 0 <= i < ds.len() && (#[trigger] ds[i]).contains(':') {
        None
    } else {
        Some(join_colon(ds))
    }
}

fn has_same_path_vec(ds: &Vec<Vec<char>>, d: &[char]) -> (r: bool)
    ensures
        r == has_same_path(views(ds@), d@),
{
    let cd = components_chars(d);
    let mut k: usize = 0;
    while k < ds.len()
        invariant
            k <= ds@.len(),
            views(cd@) == components(d@),
            forall|m: int| 0 <= m < k ==> !same_path(#[trigger] views(ds@)[m], d@),
        decreases ds@.len() - k,
    {
        let c = components_chars(ds[k].as_slice());
        if seqs_eq(&c, &cd) {
            assert(same_path(views(ds@)[k as int], d@));
            return true;
        }
        k = k + 1;
    }
    false
}

pub fn child_path_env(host: &Host) -> (r: Option<String>)
    ensures
        opt_view(r) == child_path_env_of(host),
{
    let mut dirs = path_dir_chars(host);
    let known = known_dir_chars(host);
    let ghost base = views(dirs@);
    let mut k: usize = 0;
    while k < known.len()
        invariant
            k <= known@.len(),
            views(dirs@) == add_missing(base, views(known@).take(k as int)),
        decreases known@.len() - k,
    {
        proof {
            assert(views(known@).take(k + 1).drop_last() =~= views(known@).take(k as int));
        }
        if !has_same_path_vec(&dirs, known[k].as_slice()) {
            let ghost old_d = dirs@;
            dirs.push(slice_chars(known[k].as_slice(), 0, known[k].len()));
            proof {
                assert(known@[k as int]@.subrange(0, known@[k as int]@.len() as int)
                    =~= known@[k as int]@);
                assert(views(dirs@) =~= views(old_d).push(known@[k as int]@));
            }
        }
        k = k + 1;
    }
    assert(views(known@).take(k as int) =~= views(known@));
    let ghost ds = views(dirs@);
    if dirs.len() == 0 {
        return None;
    }
    let mut out: Vec<char> = Vec::new();
    let mut i: usize = 0;
    while i < dirs.len()
        invariant
            ds == views(dirs@),
            ds == add_missing(path_dirs_of(host), known_dirs_of(host)),
            ds.len() > 0,
            i == 0 ==> out@.len() == 0,
            i <= ds.len(),
            forall|m: int| 0 <= m < i ==> !(#[trigger] ds[m]).contains(':'),
            i > 0 ==> out@ == join_colon(ds.take(i as int)),
        decreases ds.len() - i,
    {
        if has_char(dirs[i].as_slice(), ':') {
            assert(ds[i as int].contains(':'));
            return None;
        }
        let ghost old_out = out@;
        if i > 0 {
            out.push(':');
        }
        push_all(&mut out, dirs[i].as_slice());
        proof {
            assert(ds.take(i + 1).drop_last() =~= ds.take(i as int));
            if i == 0 {
                assert(old_out.len() == 0);
                assert(out@ =~= ds[0]);
            }
        }
        i = i + 1;
    }
    assert(ds.take(i as int) =~= ds);
    Some(string_of(out.as_slice()))
}

proof fn lemma_add_missing(base: Seq<Seq<char>>, extra: Seq<Seq<char>>)
    ensures
        add_missing(base, extra).len() >= base.len(),
        add_missing(base, extra).take(base.len() as int) == base,
        forall|k: int| 0 <= k < extra.len() ==> has_same_path(add_missing(base, extra), #[trigger] extra[k]),
        forall|i: int, j: int|
            0 <= i < j < add_missing(base, extra).len() && j >= base.len() ==> !same_path(
                #[trigger] add_missing(base, extra)[i],
                #[trigger] add_missing(base, extra)[j],
            ),
    decreases extra.len(),
{
    if extra.len() == 0 {
        assert(base.take(base.len() as int) =~= base);
    } else {
        let init = extra.drop_last();
        lemma_add_missing(base, init);
        let acc = add_missing(base, init);
        let e = extra.last();
        let r = add_missing(base, extra);
        if has_same_path(acc, e) {
            assert(r == acc);
            assert forall|k: int| 0 <= k < extra.len() implies has_same_path(r, #[trigger] extra[k]) by {
                if k < extra.len() - 1 {
                    assert(init[k] == extra[k]);
                }
            }
        } else {
            assert(r == acc.push(e));
            assert(r.take(base.len() as int) =~= acc.take(base.len() as int));
            assert forall|k: int| 0 <= k < extra.len() implies has_same_path(r, #[trigger] extra[k]) by {
                if k < extra.len() - 1 {
                    assert(init[k] == extra[k]);
                    let i = choose|i: int| 0 <= i < acc.len() && same_path(#[trigger] acc[i], extra[k]);
                    assert(r[i] == acc[i]);
                } else {
                    assert(r[acc.len() as int] == e);
                }
            }
            assert forall|i: int, j: int| 0 <= i < j < r.len() && j >= base.len() implies !same_path(
                #[trigger] r[i],
                #[trigger] r[j],
            ) by {
                if j == acc.len() {
                    assert(r[i] == acc[i]);
                    if same_path(acc[i], e) {
                        assert(has_same_path(acc, e));
                    }
                } else {
                    assert(r[i] == acc[i]);
                    assert(r[j] == acc[j]);
                }
            }
        }
    }
}

/// The child's `PATH` keeps the current `PATH` in front, unchanged; every
/// well-known directory is on it; and none of the added directories is the
/// same path as one before it.
pub proof fn lemma_child_path_dirs(host: &Host)
    ensures
        ({
            let ds = add_missing(path_dirs_of(host), known_dirs_of(host));
            &&& ds.take(path_dirs_of(host).len() as int) == path_dirs_of(host)
            &&& forall|k: int| 0 <= k < known_dirs_of(host).len() ==> has_same_path(ds, #[trigger] known_dirs_of(host)[k])
            &&& forall|i: int, j: int| 0 <= i < j < ds.len() && j >= path_dirs_of(host).len() ==> !same_path(#[trigger] ds[i], #[trigger] ds[j])
        }),
{
    lemma_add_missing(path_dirs_of(host), known_dirs_of(host));
}

/// The files to look at for a report and a resolution: the override, the
/// runtime entry, the profile manifest, and `dsh`, `node`, `npx`, `npm` in
/// every directory of `PATH` and the well-known ones.
pub open spec fn dir_probes(ds: Seq<Seq<char>>) -> Seq<Seq<char>>
    decreases ds.len(),
{
    if ds.len() == 0 {
        Seq::empty()
    } else {
        dir_probes(ds.drop_last()) + seq![
            join(ds.last(), "dsh"@),
            join(ds.last(), "node"@),
            join(ds.last(), "npx"@),
            join(ds.last(), "npm"@),
        ]
    }
}

pub open spec fn probe_paths_of(host: &Host) -> Seq<Seq<char>> {
    (match host.dsh_bin {
        Some(v) => seq![v@],
        None => Seq::<Seq<char>>::empty(),
    }) + seq![runtime_entry_path(host), profile_manifest_path(host)] + dir_probes(
        all_dirs_of(host),
    )
}

/// The paths whose kind the caller has to look up to fill `Host::files`.
pub fn probe_paths(host: &Host) -> (r: Vec<String>)
    ensures
        string_views(r@) == probe_paths_of(host),
{
    let mut r: Vec<String> = Vec::new();
    if let Some(v) = &host.dsh_bin {
        r.push(v.clone());
    }
    r.push(runtime_entry(host));
    r.push(profile_manifest(host));
    let ghost head = string_views(r@);
    proof {
        assert(head =~= (match host.dsh_bin {
            Some(v) => seq![v@],
            None => Seq::<Seq<char>>::empty(),
        }) + seq![runtime_entry_path(host), profile_manifest_path(host)]);
    }
    let all = all_dir_chars(host);
    let mut k: usize = 0;
    while k < all.len()
        invariant
            k <= all@.len(),
            string_views(r@) == head + dir_probes(views(all@).take(k as int)),
        decreases all@.len() - k,
    {
        let d = all[k].as_slice();
        let ghost old_r = r@;
        r.push(string_of(join_str(d, "dsh").as_slice()));
        r.push(string_of(join_str(d, "node").as_slice()));
        r.push(string_of(join_str(d, "npx").as_slice()));
        r.push(string_of(join_str(d, "npm").as_slice()));
        proof {
            assert(views(all@).take(k + 1).drop_last() =~= views(all@).take(k as int));
            assert(string_views(r@) =~= string_views(old_r) + seq![
                join(all@[k as int]@, "dsh"@),
                join(all@[k as int]@, "node"@),
                join(all@[k as int]@, "npx"@),
                join(all@[k as int]@, "npm"@),
            ]);
        }
        k = k + 1;
    }
    assert(views(all@).take(k as int) =~= views(all@));
    r
}

/// Facts about the `dsh` home that the caller read from the system.
pub struct HomeFacts {
    /// `std::env::consts::OS` and `ARCH`, joined by `-`.
    pub platform: String,
    pub exists: bool,
    pub writable: bool,
    pub owner: Option<u32>,
    pub current_uid: Option<u32>,
}

/// A probe by its contents: the directory, and whether `dsh` and `node` are in it.
pub open spec fn probe_view(p: Probe) -> (Seq<char>, bool, bool) {
    (p.dir@, p.has_dsh, p.has_node)
}

pub open spec fn probes_of(host: &Host, ds: Seq<Seq<char>>) -> Seq<(Seq<char>, bool, bool)> {
    ds.map_values(
        |d: Seq<char>| (d, host.is_file(join(d, "dsh"@)), host.is_file(join(d, "node"@))),
    )
}

/// The environment report for the diagnostics page.
pub fn env_report(host: &Host, facts: HomeFacts) -> (r: EnvReport)
    ensures
        r.platform@ == facts.platform@,
        r.dsh_home@ == dsh_home_path(host),
        r.dsh_home_exists == facts.exists,
        r.dsh_home_writable == facts.writable,
        r.dsh_home_owner == facts.owner,
        r.current_uid == facts.current_uid,
        r.profile@ == PROFILE_NAME@,
        r.profile_dir@ == profile_path(host),
        r.profile_manifest@ == profile_manifest_path(host),
        r.profile_ready == host.is_file(profile_manifest_path(host)),
        r.probes@.map_values(|p: Probe| probe_view(p)) == probes_of(host, all_dirs_of(host)),
        opt_resolved(r.resolved) == resolve_of(host),
        opt_view(r.node) == node_path_of(host),
{
    let all = all_dir_chars(host);
    let mut probes: Vec<Probe> = Vec::new();
    let ghost f = |d: Seq<char>| (d, host.is_file(join(d, "dsh"@)), host.is_file(join(d, "node"@)));
    let mut k: usize = 0;
    while k < all.len()
        invariant
            k <= all@.len(),
            f == (|d: Seq<char>| (d, host.is_file(join(d, "dsh"@)), host.is_file(join(d, "node"@)))),
            probes@.map_values(|p: Probe| probe_view(p)) == views(all@).take(k as int).map_values(f),
        decreases all@.len() - k,
    {
        let d = all[k].as_slice();
        let has_dsh = host_is_file(host, join_str(d, "dsh").as_slice());
        let has_node = host_is_file(host, join_str(d, "node").as_slice());
        let ghost old_p = probes@;
        probes.push(Probe { dir: string_of(d), has_dsh, has_node });
        proof {
            assert(probes@.map_values(|p: Probe| probe_view(p)) =~= old_p.map_values(
                |p: Probe| probe_view(p),
            ).push(f(all@[k as int]@)));
            assert(views(all@).take(k + 1).map_values(f) =~= views(all@).take(k as int).map_values(
                f,
            ).push(f(all@[k as int]@)));
        }
        k = k + 1;
    }
    assert(views(all@).take(k as int) =~= views(all@));
    let manifest = profile_manifest(host);
    let manifest_cs = chars_of(manifest.as_str());
    let profile_ready = host_is_file(host, manifest_cs.as_slice());
    let node = match find_in(host, &all, "node") {
        Some(p) => Some(string_of(p.as_slice())),
        None => None,
    };
    EnvReport {
        platform: facts.platform,
        dsh_home_exists: facts.exists,
        dsh_home_writable: facts.writable,
        dsh_home_owner: facts.owner,
        current_uid: facts.current_uid,
        dsh_home: dsh_home(host),
        profile: PROFILE_NAME.to_string(),
        profile_dir: profile_dir(host),
        profile_manifest: manifest,
        profile_ready,
        probes,
        resolved: resolve(host),
        node,
    }
}

} // verus!

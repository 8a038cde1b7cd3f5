//! The read-only plugin view of this client's profile.
//!
//! In `profiles/<name>/package.json`, `dependencies` lists the installed
//! plugins and `dsh.profile.bundles` the enabled ones, in order; disabling
//! and overriding go through `cordis.patch.yml` next to it.

use vstd::prelude::*;
use crate::json::{json_node, parse_json, JsonNode, JsonNodeView};
use crate::paths::{
    profile_dir, profile_manifest, profile_manifest_path, profile_patch, profile_patch_path,
    profile_path, Host, PROFILE_NAME,
};
use crate::text::{
    chars_eq, chars_of, lemma_lex_antisym, lemma_lex_total, lemma_lex_trans, lex_le,
    lex_le_chars, push_str, starts_with, starts_with_chars, string_of,
};

verus! {

/// One enabled bundle.
pub struct EnabledEntry {
    pub name: String,
    /// Whether it is an official bundle (`@deepseek-ai/*`) rather than a
    /// third-party plugin.
    pub builtin: bool,
    /// Its version in `dependencies` (built-in bundles usually have none).
    pub installed_version: Option<String>,
}

/// The profile as the plugin page shows it.
pub struct PluginSnapshot {
    pub profile: String,
    pub profile_dir: String,
    pub manifest_path: String,
    pub patch_path: String,
    /// Whether the profile was initialised (otherwise the first start creates it).
    pub exists: bool,
    /// The enabled bundles, in order.
    pub enabled: Vec<EnabledEntry>,
    /// The installed dependencies, by name in ascending order.
    pub dependencies: Vec<(String, String)>,
    /// Installed but not enabled: the candidates to switch on.
    pub installed_not_enabled: Vec<String>,
    /// The raw patch layer, for display and later editing.
    pub patch: String,
}

/// The value of the first member named `key`.
pub open spec fn entry_get(es: Seq<(Seq<char>, Seq<char>)>, key: Seq<char>) -> Option<Seq<char>>
    decreases es.len(),
{
    if es.len() == 0 {
        None
    } else if es[0].0 == key {
        Some(es[0].1)
    } else {
        entry_get(es.drop_first(), key)
    }
}

/// The member `key` of the JSON object in `text`, as JSON text.
pub open spec fn member(text: Seq<char>, key: Seq<char>) -> Option<Seq<char>> {
    match json_node(text) {
        Ok(JsonNodeView::Object(es)) => entry_get(es, key),
        _ => None,
    }
}

/// The items of the array at `/dsh/profile/bundles`, as JSON texts; none
/// when there is no such array.
pub open spec fn bundle_items(text: Seq<char>) -> Seq<Seq<char>> {
    match member(text, "dsh"@) {
        Some(a) => match member(a, "profile"@) {
            Some(b) => match member(b, "bundles"@) {
                Some(c) => match json_node(c) {
                    Ok(JsonNodeView::Array(items)) => items,
                    _ => Seq::empty(),
                },
                None => Seq::empty(),
            },
            None => Seq::empty(),
        },
        None => Seq::empty(),
    }
}

/// The string items, in order; other items are skipped.
pub open spec fn string_items(items: Seq<Seq<char>>) -> Seq<Seq<char>>
    decreases items.len(),
{
    if items.len() == 0 {
        Seq::empty()
    } else {
        let rest = string_items(items.drop_last());
        match json_node(items.last()) {
            Ok(JsonNodeView::Str(s)) => rest.push(s),
            _ => rest,
        }
    }
}

/// A member value read as a string: its text when it is one, else empty.
pub open spec fn string_or_empty(t: Seq<char>) -> Seq<char> {
    match json_node(t) {
        Ok(JsonNodeView::Str(s)) => s,
        _ => Seq::empty(),
    }
}

/// The `dependencies` members, each value read as a string; none when
/// `dependencies` is not an object.
pub open spec fn dependency_entries(text: Seq<char>) -> Seq<(Seq<char>, Seq<char>)> {
    match member(text, "dependencies"@) {
        Some(d) => match json_node(d) {
            Ok(JsonNodeView::Object(es)) => es.map_values(
                |e: (Seq<char>, Seq<char>)| (e.0, string_or_empty(e.1)),
            ),
            _ => Seq::empty(),
        },
        None => Seq::empty(),
    }
}

/// The entries inserted one after the other into a map (a later key wins).
pub open spec fn entries_map(es: Seq<(Seq<char>, Seq<char>)>) -> Map<Seq<char>, Seq<char>>
    decreases es.len(),
{
    if es.len() == 0 {
        Map::empty()
    } else {
        entries_map(es.drop_last()).insert(es.last().0, es.last().1)
    }
}

/// `a` comes strictly before `b`.
pub open spec fn key_lt(a: Seq<char>, b: Seq<char>) -> bool {
    lex_le(a, b) && a != b
}

/// `l` lists `m` by key in strictly ascending order (what iterating a
/// `BTreeMap` gives).
pub open spec fn lists_map(l: Seq<(Seq<char>, Seq<char>)>, m: Map<Seq<char>, Seq<char>>) -> bool {
    &&& forall|i: int, j: int| 0 <= i < j < l.len() ==> key_lt(#[trigger] l[i].0, #[trigger] l[j].0)
    &&& forall|i: int| 0 <= i < l.len() ==> m.contains_key(#[trigger] l[i].0) && m[l[i].0] == l[i].1
    &&& forall|k: Seq<char>| #[trigger] m.contains_key(k) ==> exists|i: int| 0 <= i < l.len() && l[i].0 == k
}

pub open spec fn entry_views(v: Seq<(String, String)>) -> Seq<(Seq<char>, Seq<char>)> {
    v.map_values(|e: (String, String)| (e.0@, e.1@))
}

/// Inserts `(k, v)` into the sorted list, replacing the value of an equal key.
fn sorted_insert(l: &mut Vec<(String, String)>, k: String, v: String, Ghost(m): Ghost<Map<Seq<char>, Seq<char>>>)
    requires
        lists_map(entry_views(old(l)@), m),
    ensures
        lists_map(entry_views(final(l)@), m.insert(k@, v@)),
{
    let kc = chars_of(k.as_str());
    let ghost old_l = entry_views(l@);
    let mut p: usize = 0;
    while p < l.len() && !lex_le_chars(kc.as_slice(), chars_of(l[p].0.as_str()).as_slice())
        invariant
            p <= l@.len(),
            kc@ == k@,
            old_l == entry_views(l@),
            forall|i: int| 0 <= i < p ==> !lex_le(k@, #[trigger] old_l[i].0),
        decreases l@.len() - p,
    {
        p = p + 1;
    }
    let ghost m2 = m.insert(k@, v@);
    if p < l.len() && chars_eq(kc.as_slice(), chars_of(l[p].0.as_str()).as_slice()) {
        l.set(p, (k, v));
        proof {
            let nl = entry_views(l@);
            assert(nl =~= old_l.update(p as int, (k@, v@)));
            assert forall|i: int, j: int| 0 <= i < j < nl.len() implies key_lt(#[trigger] nl[i].0, #[trigger] nl[j].0) by {
                assert(nl[i].0 == old_l[i].0);
                assert(nl[j].0 == old_l[j].0);
            }
            assert forall|kk: Seq<char>| #[trigger] m2.contains_key(kk) implies exists|i: int| 0 <= i < nl.len() && nl[i].0 == kk by {
                if kk == k@ {
                    assert(nl[p as int].0 == kk);
                } else {
                    let i = choose|i: int| 0 <= i < old_l.len() && old_l[i].0 == kk;
                    assert(nl[i].0 == kk);
                }
            }
            assert forall|i: int| 0 <= i < nl.len() implies m2.contains_key(#[trigger] nl[i].0) && m2[nl[i].0] == nl[i].1 by {
                if i != p {
                    assert(nl[i] == old_l[i]);
                    assert(old_l[i].0 != old_l[p as int].0) by {
                        if i < p {
                            assert(key_lt(old_l[i].0, old_l[p as int].0));
                        } else {
                            assert(key_lt(old_l[p as int].0, old_l[i].0));
                        }
                    }
                }
            }
        }
    } else {
        let ghost kv = k@;
        l.insert(p, (k, v));
        proof {
            let nl = entry_views(l@);
            assert(nl =~= old_l.insert(p as int, (kv, v@)));
            if p < old_l.len() {
                assert(lex_le(kv, old_l[p as int].0));
            }
            assert forall|i: int| 0 <= i < p implies key_lt(#[trigger] old_l[i].0, kv) by {
                lemma_lex_total(kv, old_l[i].0);
            }
            assert forall|j: int| p <= j < old_l.len() implies key_lt(kv, #[trigger] old_l[j].0) by {
                if j > p {
                    lemma_lex_trans(kv, old_l[p as int].0, old_l[j].0);
                    if kv == old_l[j].0 {
                        lemma_lex_antisym(old_l[p as int].0, old_l[j].0);
                    }
                }
            }
            assert forall|i: int, j: int| 0 <= i < j < nl.len() implies key_lt(#[trigger] nl[i].0, #[trigger] nl[j].0) by {
                if j < p {
                } else if j == p {
                } else if i == p {
                    assert(nl[j] == old_l[j - 1]);
                } else if i < p {
                    assert(nl[j] == old_l[j - 1]);
                    assert(key_lt(old_l[i].0, kv));
                    assert(key_lt(kv, old_l[j - 1].0));
                    lemma_lex_trans(old_l[i].0, kv, old_l[j - 1].0);
                    if old_l[i].0 == old_l[j - 1].0 {
                        lemma_lex_antisym(kv, old_l[i].0);
                    }
                } else {
                    assert(nl[i] == old_l[i - 1]);
                    assert(nl[j] == old_l[j - 1]);
                }
            }
            assert forall|i: int| 0 <= i < old_l.len() implies old_l[i].0 != kv by {
                if i < p {
                    assert(key_lt(old_l[i].0, kv));
                } else {
                    assert(key_lt(kv, old_l[i].0));
                }
            }
            assert(!m.contains_key(kv));
            assert forall|kk: Seq<char>| #[trigger] m2.contains_key(kk) implies exists|i: int| 0 <= i < nl.len() && nl[i].0 == kk by {
                if kk == kv {
                    assert(nl[p as int].0 == kk);
                } else {
                    let i = choose|i: int| 0 <= i < old_l.len() && old_l[i].0 == kk;
                    if i < p {
                        assert(nl[i].0 == kk);
                    } else {
                        assert(nl[i + 1].0 == kk);
                    }
                }
            }
            assert forall|i: int| 0 <= i < nl.len() implies m2.contains_key(#[trigger] nl[i].0) && m2[nl[i].0] == nl[i].1 by {
                if i < p {
                    assert(nl[i] == old_l[i]);
                } else if i > p {
                    assert(nl[i] == old_l[i - 1]);
                }
            }
        }
    }
}

/// An enabled entry by its contents.
pub open spec fn enabled_view(e: EnabledEntry) -> (Seq<char>, bool, Option<Seq<char>>) {
    (
        e.name@,
        e.builtin,
        match e.installed_version {
            Some(v) => Some(v@),
            None => None,
        },
    )
}

/// What the page shows of an enabled bundle named `n`.
pub open spec fn enabled_of(n: Seq<char>, m: Map<Seq<char>, Seq<char>>) -> (
    Seq<char>,
    bool,
    Option<Seq<char>>,
) {
    (n, starts_with(n, "@deepseek-ai/"@), if m.contains_key(n) {
        Some(m[n])
    } else {
        None
    })
}

/// The keys of `l`, in order, that are not among `names`.
pub open spec fn not_enabled(l: Seq<(Seq<char>, Seq<char>)>, names: Seq<Seq<char>>) -> Seq<Seq<char>>
    decreases l.len(),
{
    if l.len() == 0 {
        Seq::empty()
    } else if names.contains(l.last().0) {
        not_enabled(l.drop_last(), names)
    } else {
        not_enabled(l.drop_last(), names).push(l.last().0)
    }
}

/// The installed packages that no enabled name mentions: the keys of `l`
/// that are not among `names`, each in the order of `l`, and no others.
pub proof fn lemma_not_enabled_keys(l: Seq<(Seq<char>, Seq<char>)>, names: Seq<Seq<char>>)
    ensures
        not_enabled(l, names) == l.map_values(|e: (Seq<char>, Seq<char>)| e.0).filter(
            |k: Seq<char>| !names.contains(k),
        ),
        forall|i: int| 0 <= i < l.len() ==> (not_enabled(l, names).contains(#[trigger] l[i].0)
            <==> !names.contains(l[i].0)),
        forall|x: Seq<char>| #[trigger] not_enabled(l, names).contains(x) ==> !names.contains(x)
            && exists|i: int| 0 <= i < l.len() && l[i].0 == x,
    decreases l.len(),
{
    reveal(Seq::filter);
    let f = |e: (Seq<char>, Seq<char>)| e.0;
    let pred = |k: Seq<char>| !names.contains(k);
    if l.len() == 0 {
        assert(l.map_values(f) =~= Seq::<Seq<char>>::empty());
    } else {
        let p = l.drop_last();
        let n = l.len() - 1;
        lemma_not_enabled_keys(p, names);
        assert(l.map_values(f).drop_last() =~= p.map_values(f));
        assert(l.map_values(f).last() == l[n].0);
        let s = not_enabled(l, names);
        let sp = not_enabled(p, names);
        assert forall|i: int| 0 <= i < l.len() implies (s.contains(#[trigger] l[i].0)
            <==> !names.contains(l[i].0)) by {
            if i < n {
                assert(p[i] == l[i]);
                if sp.contains(l[i].0) {
                    let j = choose|j: int| 0 <= j < sp.len() && sp[j] == l[i].0;
                    if !names.contains(l[n].0) {
                        assert(s[j] == sp[j]);
                    }
                }
                if s.contains(l[i].0) {
                    let j = choose|j: int| 0 <= j < s.len() && s[j] == l[i].0;
                    if j < sp.len() {
                        assert(sp[j] == s[j]);
                    }
                }
            } else {
                if !names.contains(l[n].0) {
                    assert(s[s.len() - 1] == l[n].0);
                } else if s.contains(l[n].0) {
                    let j = choose|j: int| 0 <= j < s.len() && s[j] == l[n].0;
                    assert(sp[j] == l[n].0);
                    assert(sp.contains(l[n].0));
                }
            }
        }
        assert forall|x: Seq<char>| #[trigger] s.contains(x) implies !names.contains(x) && exists|
            i: int,
        | 0 <= i < l.len() && l[i].0 == x by {
            let j = choose|j: int| 0 <= j < s.len() && s[j] == x;
            if j < sp.len() {
                assert(sp[j] == s[j]);
                assert(sp.contains(x));
                let i = choose|i: int| 0 <= i < p.len() && p[i].0 == x;
                assert(l[i] == p[i]);
            } else {
                assert(x == l[n].0);
            }
        }
    }
}

pub open spec fn read_error_message(manifest: Seq<char>, e: Seq<char>) -> Seq<char> {
    "读取 "@ + manifest + " 失败: "@ + e
}

pub open spec fn parse_error_message(manifest: Seq<char>, e: Seq<char>) -> Seq<char> {
    "解析 "@ + manifest + " 失败: "@ + e
}

fn entry_get_exec(es: &Vec<(String, String)>, key: &str) -> (r: Option<String>)
    ensures
        crate::locate::opt_view(r) == entry_get(entry_views(es@), key@),
{
    let kc = chars_of(key);
    let ghost all = entry_views(es@);
    let mut k: usize = 0;
    assert(all.skip(0) =~= all);
    while k < es.len()
        invariant
            k <= es@.len(),
            kc@ == key@,
            all == entry_views(es@),
            entry_get(all, key@) == entry_get(all.skip(k as int), key@),
        decreases es@.len() - k,
    {
        proof {
            assert(all.skip(k as int).drop_first() =~= all.skip(k + 1));
            assert(all.skip(k as int)[0] == all[k as int]);
        }
        if chars_eq(chars_of(es[k].0.as_str()).as_slice(), kc.as_slice()) {
            return Some(es[k].1.clone());
        }
        k = k + 1;
    }
    None
}

fn member_in(node: &JsonNode, key: &str) -> (r: Option<String>)
    ensures
        crate::locate::opt_view(r) == (match node@ {
            JsonNodeView::Object(es) => entry_get(es, key@),
            _ => None,
        }),
{
    match node {
        JsonNode::Object(es) => {
            assert(node@ == JsonNodeView::Object(entry_views(es@)));
            entry_get_exec(es, key)
        },
        _ => None,
    }
}

fn member_of(text: &str, key: &str) -> (r: Option<String>)
    ensures
        crate::locate::opt_view(r) == member(text@, key@),
{
    match parse_json(text) {
        Ok(node) => member_in(&node, key),
        Err(_) => None,
    }
}

fn bundle_items_of(root: &JsonNode, Ghost(text): Ghost<Seq<char>>) -> (r: Vec<String>)
    requires
        json_node(text) == Ok::<JsonNodeView, Seq<char>>(root@),
    ensures
        crate::locate::string_views(r@) == bundle_items(text),
{
    let empty: Vec<String> = Vec::new();
    assert(crate::locate::string_views(empty@) =~= Seq::<Seq<char>>::empty());
    let a = match member_in(root, "dsh") {
        Some(a) => a,
        None => return empty,
    };
    let b = match member_of(a.as_str(), "profile") {
        Some(b) => b,
        None => return empty,
    };
    let c = match member_of(b.as_str(), "bundles") {
        Some(c) => c,
        None => return empty,
    };
    match parse_json(c.as_str()) {
        Ok(JsonNode::Array(items)) => items,
        _ => empty,
    }
}

fn string_items_of(items: &Vec<String>) -> (r: Vec<String>)
    ensures
        crate::locate::string_views(r@) == string_items(crate::locate::string_views(items@)),
{
    let ghost all = crate::locate::string_views(items@);
    let mut r: Vec<String> = Vec::new();
    let mut k: usize = 0;
    while k < items.len()
        invariant
            k <= items@.len(),
            all == crate::locate::string_views(items@),
            crate::locate::string_views(r@) == string_items(all.take(k as int)),
        decreases items@.len() - k,
    {
        proof {
            assert(all.take(k + 1).drop_last() =~= all.take(k as int));
            assert(all.take(k + 1).last() == items@[k as int]@);
        }
        match parse_json(items[k].as_str()) {
            Ok(JsonNode::Str(s)) => {
                let ghost old_r = r@;
                r.push(s);
                proof {
                    assert(crate::locate::string_views(r@) =~= crate::locate::string_views(
                        old_r,
                    ).push(r@.last()@));
                }
            },
            _ => {},
        }
        k = k + 1;
    }
    assert(all.take(k as int) =~= all);
    r
}

fn string_or_empty_of(t: &str) -> (r: String)
    ensures
        r@ == string_or_empty(t@),
{
    match parse_json(t) {
        Ok(JsonNode::Str(s)) => s,
        _ => String::new(),
    }
}

fn dependencies_of(root: &JsonNode, Ghost(text): Ghost<Seq<char>>) -> (r: Vec<(String, String)>)
    requires
        json_node(text) == Ok::<JsonNodeView, Seq<char>>(root@),
    ensures
        lists_map(entry_views(r@), entries_map(dependency_entries(text))),
{
    let mut l: Vec<(String, String)> = Vec::new();
    assert(entry_views(l@) =~= Seq::<(Seq<char>, Seq<char>)>::empty());
    proof {
        let e = Seq::<(Seq<char>, Seq<char>)>::empty();
        assert(entries_map(e) =~= Map::<Seq<char>, Seq<char>>::empty());
    }
    let d = match member_in(root, "dependencies") {
        Some(d) => d,
        None => {
            assert(dependency_entries(text) =~= Seq::<(Seq<char>, Seq<char>)>::empty());
            return l;
        },
    };
    let es = match parse_json(d.as_str()) {
        Ok(JsonNode::Object(es)) => es,
        _ => {
            assert(dependency_entries(text) =~= Seq::<(Seq<char>, Seq<char>)>::empty());
            return l;
        },
    };
    let ghost all = dependency_entries(text);
    assert(all =~= entry_views(es@).map_values(
        |e: (Seq<char>, Seq<char>)| (e.0, string_or_empty(e.1)),
    ));
    let mut k: usize = 0;
    while k < es.len()
        invariant
            k <= es@.len(),
            all.len() == es@.len(),
            forall|i: int| 0 <= i < es@.len() ==> #[trigger] all[i] == (es@[i].0@, string_or_empty(es@[i].1@)),
            lists_map(entry_views(l@), entries_map(all.take(k as int))),
        decreases es@.len() - k,
    {
        let value = string_or_empty_of(es[k].1.as_str());
        proof {
            assert(all.take(k + 1).drop_last() =~= all.take(k as int));
            assert(all.take(k + 1).last() == all[k as int]);
        }
        sorted_insert(&mut l, es[k].0.clone(), value, Ghost(entries_map(all.take(k as int))));
        k = k + 1;
    }
    assert(all.take(k as int) =~= all);
    l
}

/// Looks `name` up in a sorted dependency list.
fn version_of(l: &Vec<(String, String)>, name: &str, Ghost(m): Ghost<Map<Seq<char>, Seq<char>>>) -> (r: Option<String>)
    requires
        lists_map(entry_views(l@), m),
    ensures
        crate::locate::opt_view(r) == (if m.contains_key(name@) {
            Some(m[name@])
        } else {
            None::<Seq<char>>
        }),
{
    let nc = chars_of(name);
    let ghost lv = entry_views(l@);
    let mut k: usize = 0;
    while k < l.len()
        invariant
            k <= l@.len(),
            nc@ == name@,
            lv == entry_views(l@),
            lists_map(lv, m),
            forall|i: int| 0 <= i < k ==> #[trigger] lv[i].0 != name@,
        decreases l@.len() - k,
    {
        if chars_eq(chars_of(l[k].0.as_str()).as_slice(), nc.as_slice()) {
            assert(lv[k as int].0 == name@);
            assert(m.contains_key(lv[k as int].0) && m[lv[k as int].0] == lv[k as int].1);
            let v = l[k].1.clone();
            assert(v@ == lv[k as int].1);
            return Some(v);
        }
        assert(lv[k as int].0 != name@);
        k = k + 1;
    }
    proof {
        if m.contains_key(name@) {
            let i = choose|i: int| 0 <= i < lv.len() && lv[i].0 == name@;
            assert(lv[i].0 != name@);
        }
    }
    None
}

fn names_contain(names: &Vec<String>, key: &str) -> (r: bool)
    ensures
        r == crate::locate::string_views(names@).contains(key@),
{
    let kc = chars_of(key);
    let ghost nv = crate::locate::string_views(names@);
    let mut k: usize = 0;
    while k < names.len()
        invariant
            k <= names@.len(),
            kc@ == key@,
            nv == crate::locate::string_views(names@),
            forall|i: int| 0 <= i < k ==> #[trigger] nv[i] != key@,
        decreases names@.len() - k,
    {
        if chars_eq(chars_of(names[k].as_str()).as_slice(), kc.as_slice()) {
            assert(nv[k as int] == key@);
            return true;
        }
        assert(nv[k as int] != key@);
        k = k + 1;
    }
    false
}

/// Each key of `l` comes before the next in the byte order, so no key occurs
/// twice: the order in which a sorted map lists its entries.
pub open spec fn keys_ascending(l: Seq<(Seq<char>, Seq<char>)>) -> bool {
    forall|i: int, j: int| 0 <= i < j < l.len() ==> key_lt(#[trigger] l[i].0, #[trigger] l[j].0)
}

proof fn lemma_ascending_lists_map(l: Seq<(Seq<char>, Seq<char>)>)
    requires
        keys_ascending(l),
    ensures
        lists_map(l, entries_map(l)),
    decreases l.len(),
{
    if l.len() == 0 {
        assert(entries_map(l) =~= Map::<Seq<char>, Seq<char>>::empty());
    } else {
        let p = l.drop_last();
        let n = l.len() - 1;
        assert forall|i: int, j: int| 0 <= i < j < p.len() implies key_lt(
            #[trigger] p[i].0,
            #[trigger] p[j].0,
        ) by {
            assert(p[i] == l[i] && p[j] == l[j]);
        }
        lemma_ascending_lists_map(p);
        let m = entries_map(l);
        assert(m == entries_map(p).insert(l[n].0, l[n].1));
        assert forall|i: int| 0 <= i < l.len() implies m.contains_key(#[trigger] l[i].0) && m[l[i].0]
            == l[i].1 by {
            if i < n {
                assert(key_lt(l[i].0, l[n].0));
                assert(p[i] == l[i]);
            }
        }
        assert forall|k: Seq<char>| #[trigger] m.contains_key(k) implies exists|i: int|
            0 <= i < l.len() && l[i].0 == k by {
            if k == l[n].0 {
                assert(l[n].0 == k);
            } else {
                assert(entries_map(p).contains_key(k));
                let i = choose|i: int| 0 <= i < p.len() && p[i].0 == k;
                assert(l[i].0 == k);
            }
        }
    }
}

proof fn lemma_lists_map_unique(
    l: Seq<(Seq<char>, Seq<char>)>,
    m1: Map<Seq<char>, Seq<char>>,
    m2: Map<Seq<char>, Seq<char>>,
)
    requires
        lists_map(l, m1),
        lists_map(l, m2),
    ensures
        m1 == m2,
{
    assert forall|k: Seq<char>| m1.contains_key(k) implies m2.contains_key(k) && m1[k] == m2[k] by {
        let i = choose|i: int| 0 <= i < l.len() && l[i].0 == k;
        assert(m1.contains_key(l[i].0) && m2.contains_key(l[i].0));
    }
    assert forall|k: Seq<char>| m2.contains_key(k) implies m1.contains_key(k) by {
        let i = choose|i: int| 0 <= i < l.len() && l[i].0 == k;
        assert(m1.contains_key(l[i].0));
    }
    assert(m1 =~= m2);
}

/// The two lists a snapshot derives from the manifest: for each enabled name,
/// in order, whether it is built in and which version is installed; and the
/// installed packages, in key order, that no name enables. `dependencies` is
/// the installed packages with their versions, in key order.
pub fn plugin_lists(names: &Vec<String>, dependencies: &Vec<(String, String)>) -> (r: (
    Vec<EnabledEntry>,
    Vec<String>,
))
    requires
        keys_ascending(entry_views(dependencies@)),
    ensures
        r.0@.map_values(|e: EnabledEntry| enabled_view(e)) == crate::locate::string_views(
            names@,
        ).map_values(|n: Seq<char>| enabled_of(n, entries_map(entry_views(dependencies@)))),
        crate::locate::string_views(r.1@) == not_enabled(
            entry_views(dependencies@),
            crate::locate::string_views(names@),
        ),
        forall|i: int| 0 <= i < dependencies@.len() ==> (crate::locate::string_views(r.1@).contains(
            #[trigger] dependencies@[i].0@,
        ) <==> !crate::locate::string_views(names@).contains(dependencies@[i].0@)),
{
    let ghost m = entries_map(entry_views(dependencies@));
    proof {
        lemma_ascending_lists_map(entry_views(dependencies@));
    }
    let ghost nv = crate::locate::string_views(names@);
    let ghost f = |n: Seq<char>| enabled_of(n, m);
    let prefix = chars_of("@deepseek-ai/");
    let mut enabled: Vec<EnabledEntry> = Vec::new();
    let mut k: usize = 0;
    while k < names.len()
        invariant
            k <= names@.len(),
            nv == crate::locate::string_views(names@),
            prefix@ == "@deepseek-ai/"@,
            f == (|n: Seq<char>| enabled_of(n, m)),
            lists_map(entry_views(dependencies@), m),
            enabled@.map_values(|e: EnabledEntry| enabled_view(e)) == nv.take(k as int).map_values(f),
        decreases names@.len() - k,
    {
        let name = names[k].clone();
        let nc = chars_of(name.as_str());
        let builtin = starts_with_chars(nc.as_slice(), prefix.as_slice());
        let installed_version = version_of(dependencies, name.as_str(), Ghost(m));
        let ghost old_e = enabled@;
        enabled.push(EnabledEntry { name, builtin, installed_version });
        proof {
            assert(enabled@.map_values(|e: EnabledEntry| enabled_view(e)) =~= old_e.map_values(
                |e: EnabledEntry| enabled_view(e),
            ).push(f(nv[k as int])));
            assert(nv.take(k + 1).map_values(f) =~= nv.take(k as int).map_values(f).push(
                f(nv[k as int]),
            ));
        }
        k = k + 1;
    }
    assert(nv.take(k as int) =~= nv);
    let ghost dv = entry_views(dependencies@);
    let mut installed_not_enabled: Vec<String> = Vec::new();
    assert(crate::locate::string_views(installed_not_enabled@) =~= Seq::<Seq<char>>::empty());
    let mut j: usize = 0;
    while j < dependencies.len()
        invariant
            j <= dependencies@.len(),
            dv == entry_views(dependencies@),
            nv == crate::locate::string_views(names@),
            crate::locate::string_views(installed_not_enabled@) == not_enabled(dv.take(j as int), nv),
        decreases dependencies@.len() - j,
    {
        proof {
            assert(dv.take(j + 1).drop_last() =~= dv.take(j as int));
            assert(dv.take(j + 1).last() == dv[j as int]);
        }
        if !names_contain(names, dependencies[j].0.as_str()) {
            let ghost old_n = installed_not_enabled@;
            installed_not_enabled.push(dependencies[j].0.clone());
            proof {
                assert(crate::locate::string_views(installed_not_enabled@) =~= crate::locate::string_views(
                    old_n,
                ).push(dv[j as int].0));
            }
        }
        j = j + 1;
    }
    assert(dv.take(j as int) =~= dv);
    proof {
        lemma_not_enabled_keys(dv, nv);
        assert forall|i: int| 0 <= i < dependencies@.len() implies (crate::locate::string_views(
            installed_not_enabled@,
        ).contains(#[trigger] dependencies@[i].0@) <==> !nv.contains(dependencies@[i].0@)) by {
            assert(dv[i].0 == dependencies@[i].0@);
        }
    }
    (enabled, installed_not_enabled)
}

fn message3(a: &str, b: &str, c: &str, d: &str) -> (r: String)
    ensures
        r@ == a@ + b@ + c@ + d@,
{
    let mut m: Vec<char> = Vec::new();
    push_str(&mut m, a);
    push_str(&mut m, b);
    push_str(&mut m, c);
    push_str(&mut m, d);
    string_of(m.as_slice())
}

/// The profile's current state. A manifest that does not exist is no
/// error: the snapshot says `exists: false` and lists nothing. Reading or
/// parsing an existing manifest can fail, and says so.
///
/// `manifest_text` is what reading the manifest gave (its text or the error's
/// message); it is only looked at when the manifest exists. `patch` is the
/// patch layer's text (empty when it cannot be read).
pub fn snapshot(host: &Host, manifest_text: Result<String, String>, patch: String) -> (r: Result<
    PluginSnapshot,
    String,
>)
    ensures
        ({
            let manifest = profile_manifest_path(host);
            let exists = host.is_file(manifest);
            match r {
                Err(e) => exists && match manifest_text {
                    Err(io) => e@ == read_error_message(manifest, io@),
                    Ok(text) => json_node(text@) matches Err(pe) && e@ == parse_error_message(
                        manifest,
                        pe,
                    ),
                },
                Ok(s) => {
                    &&& s.profile@ == PROFILE_NAME@
                    &&& s.profile_dir@ == profile_path(host)
                    &&& s.manifest_path@ == manifest
                    &&& s.patch_path@ == profile_patch_path(host)
                    &&& s.exists == exists
                    &&& s.patch@ == patch@
                    &&& if exists {
                        &&& manifest_text matches Ok(text)
                        &&& json_node(text@) is Ok
                        &&& lists_map(
                            entry_views(s.dependencies@),
                            entries_map(dependency_entries(text@)),
                        )
                        &&& s.enabled@.map_values(|e: EnabledEntry| enabled_view(e))
                            == string_items(bundle_items(text@)).map_values(
                            |n: Seq<char>| enabled_of(n, entries_map(dependency_entries(text@))),
                        )
                        &&& crate::locate::string_views(s.installed_not_enabled@) == not_enabled(
                            entry_views(s.dependencies@),
                            string_items(bundle_items(text@)),
                        )
                    } else {
                        &&& s.enabled@.len() == 0
                        &&& s.dependencies@.len() == 0
                        &&& s.installed_not_enabled@.len() == 0
                    }
                },
            }
        }),
{
    let manifest = profile_manifest(host);
    let manifest_cs = chars_of(manifest.as_str());
    let exists = crate::locate::host_is_file(host, manifest_cs.as_slice());
    let mut enabled: Vec<EnabledEntry> = Vec::new();
    let mut dependencies: Vec<(String, String)> = Vec::new();
    let mut installed_not_enabled: Vec<String> = Vec::new();
    if exists {
        let text = match manifest_text {
            Ok(t) => t,
            Err(e) => {
                return Err(message3("读取 ", manifest.as_str(), " 失败: ", e.as_str()));
            },
        };
        let root = match parse_json(text.as_str()) {
            Ok(n) => n,
            Err(e) => {
                return Err(message3("解析 ", manifest.as_str(), " 失败: ", e.as_str()));
            },
        };
        let items = bundle_items_of(&root, Ghost(text@));
        let names = string_items_of(&items);
        dependencies = dependencies_of(&root, Ghost(text@));
        proof {
            lemma_ascending_lists_map(entry_views(dependencies@));
            lemma_lists_map_unique(
                entry_views(dependencies@),
                entries_map(entry_views(dependencies@)),
                entries_map(dependency_entries(text@)),
            );
        }
        let lists = plugin_lists(&names, &dependencies);
        enabled = lists.0;
        installed_not_enabled = lists.1;
    }
    Ok(PluginSnapshot {
        profile: PROFILE_NAME.to_string(),
        profile_dir: profile_dir(host),
        manifest_path: manifest,
        patch_path: profile_patch(host),
        exists,
        enabled,
        dependencies,
        installed_not_enabled,
        patch,
    })
}

} // verus!

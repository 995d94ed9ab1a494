//! Installed-software catalog and traffic categorization.
//!
//! Traffic is attributed per process; here each program name is mapped to
//! one of four user-facing categories:
//!
//! - `system`   — the OS itself: kernel and system processes, svchost services
//! - `dev`      — developer tooling: node/npm/git/cargo/python/docker…
//! - `software` — installed applications (matched against the uninstall
//!                catalog and a list of well-known processes)
//! - `other`    — unattributed traffic and unmatched processes
//!
//! Categories are computed at query time and never stored, so the rules can
//! change without migrating the history.

use vstd::prelude::*;

use crate::text::{
    chars_of, ends_with, lex_lt, lemma_lex_total, lemma_lex_transitive, lowercase, occurs_at_exec,
    starts_with, str_eq, str_less, string_of, to_lower, trim_str, trimmed,
};

verus! {

/// One entry of the installed-programs catalog.
#[derive(Clone, Debug)]
pub struct InstalledApp {
    pub name: String,
    pub publisher: Option<String>,
    pub install_location: Option<String>,
}

/// View of a catalog entry: (name, publisher, install location).
pub type InstalledAppV = (Seq<char>, Option<Seq<char>>, Option<Seq<char>>);

pub open spec fn opt_view(o: Option<String>) -> Option<Seq<char>> {
    match o {
        Some(s) => Some(s@),
        None => None,
    }
}

impl View for InstalledApp {
    type V = InstalledAppV;

    open spec fn view(&self) -> InstalledAppV {
        (self.name@, opt_view(self.publisher), opt_view(self.install_location))
    }
}

/// The views of catalog entries.
pub open spec fn app_views(s: Seq<InstalledApp>) -> Seq<InstalledAppV> {
    s.map_values(|a: InstalledApp| a@)
}

/// OS-owned processes (kernel, shell, service hosts, Defender, indexer…).
pub open spec fn system_processes() -> Seq<Seq<char>> {
    seq![
        "system"@, "smss"@, "csrss"@, "wininit"@, "winlogon"@, "lsass"@, "services"@,
        "svchost"@, "dwm"@, "fontdrvhost"@, "sihost"@, "taskhostw"@, "explorer"@,
        "conhost"@, "openconsole"@, "dllhost"@, "runtimebroker"@, "spoolsv"@,
        "searchapp"@, "searchindexer"@, "searchprotocolhost"@, "searchfilterhost"@,
        "memory compression"@, "vmmem"@, "wmiprvse"@, "wudfhost"@, "msmpeng"@,
        "nissrv"@, "securityhealthservice"@, "securityhealthsystray"@,
        "comptelrunner"@, "dusmhost"@, "werfault"@, "wermgr"@, "smartscreen"@,
        "ctfmon"@, "applicationframehost"@, "lockapp"@, "textinputhost"@,
        "startmenuexperiencehost"@, "shellexperiencehost"@, "systemsettings"@,
        "mousocoreworker"@, "tiworker"@, "trustedinstaller"@, "usocoreworker"@,
        "audiodg"@, "nvdisplay.container"@, "msedgewebview2"@,
    ]
}

/// Developer tooling: package managers, VCS, toolchains, containers.
pub open spec fn dev_processes() -> Seq<Seq<char>> {
    seq![
        "node"@, "npm"@, "npx"@, "yarn"@, "pnpm"@, "cnpm"@, "tnpm"@, "bun"@, "deno"@,
        "git"@, "git-remote-https"@, "git-remote-http"@, "git-remote-ssh"@, "ssh"@,
        "scp"@, "cargo"@, "rustc"@, "rustup"@, "clippy-driver"@, "python"@, "pythonw"@,
        "python3"@, "pip"@, "pip3"@, "conda"@, "go"@, "gofmt"@, "docker"@,
        "docker-compose"@, "dockerd"@, "kubectl"@, "helm"@, "terraform"@, "dotnet"@,
        "java"@, "javaw"@, "mvn"@, "gradle"@, "code"@, "winget"@, "scoop"@, "choco"@,
        "hugo"@, "zcode"@,
    ]
}

/// Well-known applications whose catalog entries do not match their process name.
pub open spec fn well_known_software() -> Seq<Seq<char>> {
    seq![
        "msedge"@, "chrome"@, "firefox"@, "brave"@, "opera"@, "qq"@, "weixin"@,
        "wechat"@, "wxwork"@, "dingtalk"@, "feishu"@, "baidunetdisk"@, "thunder"@,
        "steam"@, "epicgameslauncher"@, "cloudmusic"@, "kugou"@, "potplayer"@,
        "everything"@, "ugreen nas"@, "syncspace_pro"@, "ugagent"@, "ima.copilot"@,
        "snipaste"@, "obsidian"@, "typora"@,
    ]
}

fn system_process_list() -> (r: Vec<&'static str>)
    ensures
        r@.map_values(|x: &str| x@) == system_processes(),
{
    let r = vec![
        "system", "smss", "csrss", "wininit", "winlogon", "lsass", "services",
        "svchost", "dwm", "fontdrvhost", "sihost", "taskhostw", "explorer",
        "conhost", "openconsole", "dllhost", "runtimebroker", "spoolsv",
        "searchapp", "searchindexer", "searchprotocolhost", "searchfilterhost",
        "memory compression", "vmmem", "wmiprvse", "wudfhost", "msmpeng",
        "nissrv", "securityhealthservice", "securityhealthsystray",
        "comptelrunner", "dusmhost", "werfault", "wermgr", "smartscreen",
        "ctfmon", "applicationframehost", "lockapp", "textinputhost",
        "startmenuexperiencehost", "shellexperiencehost", "systemsettings",
        "mousocoreworker", "tiworker", "trustedinstaller", "usocoreworker",
        "audiodg", "nvdisplay.container", "msedgewebview2",
    ];
    assert(r@.map_values(|x: &str| x@) =~= system_processes());
    r
}

fn dev_process_list() -> (r: Vec<&'static str>)
    ensures
        r@.map_values(|x: &str| x@) == dev_processes(),
{
    let r = vec![
        "node", "npm", "npx", "yarn", "pnpm", "cnpm", "tnpm", "bun", "deno",
        "git", "git-remote-https", "git-remote-http", "git-remote-ssh", "ssh",
        "scp", "cargo", "rustc", "rustup", "clippy-driver", "python", "pythonw",
        "python3", "pip", "pip3", "conda", "go", "gofmt", "docker",
        "docker-compose", "dockerd", "kubectl", "helm", "terraform", "dotnet",
        "java", "javaw", "mvn", "gradle", "code", "winget", "scoop", "choco",
        "hugo", "zcode",
    ];
    assert(r@.map_values(|x: &str| x@) =~= dev_processes());
    r
}

fn well_known_software_list() -> (r: Vec<&'static str>)
    ensures
        r@.map_values(|x: &str| x@) == well_known_software(),
{
    let r = vec![
        "msedge", "chrome", "firefox", "brave", "opera", "qq", "weixin",
        "wechat", "wxwork", "dingtalk", "feishu", "baidunetdisk", "thunder",
        "steam", "epicgameslauncher", "cloudmusic", "kugou", "potplayer",
        "everything", "ugreen nas", "syncspace_pro", "ugagent", "ima.copilot",
        "snipaste", "obsidian", "typora",
    ];
    assert(r@.map_values(|x: &str| x@) =~= well_known_software());
    r
}

/// Whether `s` is one of `list`.
fn listed(s: &str, list: Vec<&'static str>) -> (r: bool)
    ensures
        r == list@.map_values(|x: &str| x@).contains(s@),
{
    let ghost views = list@.map_values(|x: &str| x@);
    let mut i: usize = 0;
    while i < list.len()
        invariant
            i <= list@.len(),
            views == list@.map_values(|x: &str| x@),
            forall|j: int| 0 <= j < i ==> views[j] != s@,
        decreases list@.len() - i,
    {
        if str_eq(list[i], s) {
            assert(views[i as int] == s@);
            return true;
        }
        i = i + 1;
    }
    false
}

/// Whether a character separates path components.
pub open spec fn is_path_sep(c: char) -> bool {
    c == '\\' || c == '/'
}

/// The last path component: what follows the last `\` or `/`, or all of it.
pub open spec fn file_part(s: Seq<char>) -> Seq<char>
    decreases s.len(),
{
    if s.len() == 0 {
        s
    } else if is_path_sep(s.last()) {
        Seq::empty()
    } else {
        file_part(s.drop_last()).push(s.last())
    }
}

/// A program name without a trailing `.exe`.
pub open spec fn without_exe(p: Seq<char>) -> Seq<char> {
    if ends_with(p, ".exe"@) {
        p.subrange(0, p.len() - 4)
    } else {
        p
    }
}

/// The lowercase process stem: `C:\...\MsEdge.exe` -> `msedge`; an svchost
/// service label (`svchost:xxx`) is kept whole, lowercased.
pub open spec fn stem_of(program: Seq<char>) -> Seq<char> {
    let base = without_exe(program);
    if starts_with(base, "svchost:"@) {
        lowercase(base)
    } else {
        lowercase(file_part(base))
    }
}

proof fn lemma_file_part_suffix(s: Seq<char>, i: int)
    requires
        -1 <= i < s.len(),
        i >= 0 ==> is_path_sep(s[i]),
        forall|j: int| i < j < s.len() ==> !is_path_sep(#[trigger] s[j]),
    ensures
        file_part(s) == s.subrange(i + 1, s.len() as int),
    decreases s.len(),
{
    if s.len() == 0 {
        assert(s.subrange(0, 0) =~= s);
    } else if i == s.len() - 1 {
        assert(s.subrange(i + 1, s.len() as int) =~= Seq::<char>::empty());
    } else {
        assert(!is_path_sep(s[s.len() - 1]));
        lemma_file_part_suffix(s.drop_last(), i);
        assert(s.subrange(i + 1, s.len() as int) =~= s.drop_last().subrange(i + 1, s.len() - 1).push(s.last()));
    }
}

/// The characters of `v` from position `from` on.
fn chars_from(v: &Vec<char>, from: usize) -> (r: Vec<char>)
    requires
        from <= v@.len(),
    ensures
        r@ == v@.subrange(from as int, v@.len() as int),
{
    let mut out: Vec<char> = Vec::new();
    let mut i: usize = from;
    while i < v.len()
        invariant
            from <= i <= v@.len(),
            out@ == v@.subrange(from as int, i as int),
        decreases v@.len() - i,
    {
        out.push(v[i]);
        i = i + 1;
        assert(out@ =~= v@.subrange(from as int, i as int));
    }
    out
}

/// The lowercase process stem of a program name (see `stem_of`).
pub fn stem(program: &str) -> (r: String)
    ensures
        r@ == stem_of(program@),
{
    let chars = chars_of(program);
    let exe = chars_of(".exe");
    let has_exe = chars.len() >= exe.len() && occurs_at_exec(&chars, &exe, chars.len() - exe.len());
    proof {
        reveal_strlit(".exe");
    }
    let mut base: Vec<char> = chars;
    if has_exe {
        base.truncate(base.len() - 4);
        assert(base@ =~= program@.subrange(0, program@.len() - 4));
    }
    assert(base@ == without_exe(program@));
    let svc = chars_of("svchost:");
    if occurs_at_exec(&base, &svc, 0) {
        let s = string_of(&base);
        return to_lower(s.as_str());
    }
    let mut cut: usize = 0;
    let mut i: usize = 0;
    let mut found = false;
    while i < base.len()
        invariant
            i <= base@.len(),
            found ==> cut < i && is_path_sep(base@[cut as int]),
            found ==> forall|j: int| cut < j < i ==> !is_path_sep(#[trigger] base@[j]),
            !found ==> forall|j: int| 0 <= j < i ==> !is_path_sep(#[trigger] base@[j]),
        decreases base@.len() - i,
    {
        if base[i] == '\\' || base[i] == '/' {
            cut = i;
            found = true;
        }
        i = i + 1;
    }
    let file = if found {
        proof {
            lemma_file_part_suffix(base@, cut as int);
        }
        chars_from(&base, cut + 1)
    } else {
        proof {
            lemma_file_part_suffix(base@, -1);
            assert(base@.subrange(0, base@.len() as int) =~= base@);
        }
        base
    };
    let s = string_of(&file);
    to_lower(s.as_str())
}

/// Length of a text in UTF-8 bytes.
pub open spec fn utf8_len(s: Seq<char>) -> nat {
    vstd::utf8::encode_utf8(s).len()
}

/// Whether a catalog entry's install location holds the program: it ends
/// in `\<stem>.exe` or `\<stem>` (compared lowercase).
pub open spec fn location_matches(loc: Option<Seq<char>>, stem: Seq<char>) -> bool {
    match loc {
        Some(l) => ends_with(lowercase(l), seq!['\\'] + stem + ".exe"@) || ends_with(lowercase(l), seq!['\\'] + stem),
        None => false,
    }
}

/// Whether a lowercased product name and a process stem share a prefix the
/// way `PotPlayer` and `potplayermini64` do: one starts with the other, the
/// name has at least 3 bytes and the stem at least 4.
pub open spec fn name_matches(name_lower: Seq<char>, stem: Seq<char>) -> bool {
    &&& utf8_len(name_lower) >= 3
    &&& utf8_len(stem) >= 4
    &&& (starts_with(stem, name_lower) || starts_with(name_lower, stem))
}

/// Whether a catalog entry is the program with this stem.
pub open spec fn app_matches(a: InstalledAppV, stem: Seq<char>) -> bool {
    location_matches(a.2, stem) || name_matches(lowercase(a.0), stem)
}

/// The category of a program given the installed-programs catalog.
pub open spec fn category_of(program: Seq<char>, catalog: Seq<InstalledAppV>) -> Seq<char> {
    let s = stem_of(program);
    if program == "其他"@ {
        "other"@
    } else if starts_with(s, "svchost:"@) || system_processes().contains(s) {
        "system"@
    } else if dev_processes().contains(s) {
        "dev"@
    } else if well_known_software().contains(s) {
        "software"@
    } else if exists|i: int| 0 <= i < catalog.len() && app_matches(#[trigger] catalog[i], s) {
        "software"@
    } else {
        "other"@
    }
}

/// Every program falls in one of the four categories, and unattributed
/// traffic is always `other`.
pub proof fn lemma_categories(program: Seq<char>, catalog: Seq<InstalledAppV>)
    ensures
        category_of(program, catalog) == "system"@ || category_of(program, catalog) == "dev"@
            || category_of(program, catalog) == "software"@ || category_of(program, catalog) == "other"@,
        category_of("其他"@, catalog) == "other"@,
{
}

/// `a` followed by `b`.
fn concat_chars(a: &Vec<char>, b: &Vec<char>) -> (r: Vec<char>)
    ensures
        r@ == a@ + b@,
{
    let mut out: Vec<char> = Vec::new();
    let mut i: usize = 0;
    while i < a.len()
        invariant
            i <= a@.len(),
            out@ == a@.take(i as int),
        decreases a@.len() - i,
    {
        out.push(a[i]);
        i = i + 1;
        assert(out@ =~= a@.take(i as int));
    }
    let mut j: usize = 0;
    while j < b.len()
        invariant
            j <= b@.len(),
            out@ == a@ + b@.take(j as int),
        decreases b@.len() - j,
    {
        out.push(b[j]);
        j = j + 1;
        assert(out@ =~= a@ + b@.take(j as int));
    }
    assert(a@.take(a@.len() as int) =~= a@);
    assert(b@.take(b@.len() as int) =~= b@);
    out
}

/// Whether `s` ends with `p`.
fn ends_with_chars(s: &Vec<char>, p: &Vec<char>) -> (r: bool)
    ensures
        r == ends_with(s@, p@),
{
    if p.len() > s.len() {
        return false;
    }
    occurs_at_exec(s, p, s.len() - p.len())
}

/// Whether a catalog entry is the program with stem `s` (see `app_matches`).
fn app_is(a: &InstalledApp, s: &String) -> (r: bool)
    ensures
        r == app_matches(a@, s@),
{
    let sv = chars_of(s.as_str());
    let at_loc = match &a.install_location {
        Some(loc) => {
            let lower = to_lower(loc.as_str());
            let lv = chars_of(lower.as_str());
            let sep = vec!['\\'];
            let dir_suffix = concat_chars(&sep, &sv);
            let exe = chars_of(".exe");
            let exe_suffix = concat_chars(&dir_suffix, &exe);
            proof {
                assert(dir_suffix@ =~= seq!['\\'] + s@);
            }
            ends_with_chars(&lv, &exe_suffix) || ends_with_chars(&lv, &dir_suffix)
        },
        None => false,
    };
    if at_loc {
        return true;
    }
    let n = to_lower(a.name.as_str());
    let nv = chars_of(n.as_str());
    n.as_str().as_bytes().len() >= 3 && s.as_str().as_bytes().len() >= 4 && (occurs_at_exec(&sv, &nv, 0) || occurs_at_exec(&nv, &sv, 0))
}

/// The installed-programs catalog.
pub struct SoftwareCatalog {
    apps: Vec<InstalledApp>,
}

impl View for SoftwareCatalog {
    type V = Seq<InstalledAppV>;

    closed spec fn view(&self) -> Seq<InstalledAppV> {
        app_views(self.apps@)
    }
}

/// Categorizes one attributed program name as `system`, `dev`, `software`
/// or `other` (see `category_of`).
pub fn categorize(program: &str, catalog: &SoftwareCatalog) -> (r: &'static str)
    ensures
        r@ == category_of(program@, catalog@),
{
    if str_eq(program, "其他") {
        return "other";
    }
    let s = stem(program);
    let svc = crate::text::str_starts_with(s.as_str(), "svchost:");
    if svc || listed(s.as_str(), system_process_list()) {
        return "system";
    }
    if listed(s.as_str(), dev_process_list()) {
        return "dev";
    }
    if listed(s.as_str(), well_known_software_list()) {
        return "software";
    }
    let apps = &catalog.apps;
    let ghost cat = catalog@;
    let mut i: usize = 0;
    while i < apps.len()
        invariant
            i <= apps@.len(),
            cat == app_views(apps@),
            cat == catalog@,
            forall|j: int| 0 <= j < i ==> !app_matches(#[trigger] cat[j], s@),
            s@ == stem_of(program@),
            program@ != "其他"@,
            !starts_with(s@, "svchost:"@),
            !system_processes().contains(s@),
            !dev_processes().contains(s@),
            !well_known_software().contains(s@),
        decreases apps@.len() - i,
    {
        if app_is(&apps[i], &s) {
            assert(app_matches(cat[i as int], s@));
            return "software";
        }
        i = i + 1;
    }
    "other"
}

/// One program as listed by an uninstall registry key: its display name
/// (empty when the key has none), publisher and install location.
#[derive(Clone, Debug)]
pub struct UninstallEntry {
    pub display_name: String,
    pub publisher: Option<String>,
    pub install_location: Option<String>,
}

impl View for UninstallEntry {
    type V = InstalledAppV;

    open spec fn view(&self) -> InstalledAppV {
        (self.display_name@, opt_view(self.publisher), opt_view(self.install_location))
    }
}

/// The views of uninstall entries.
pub open spec fn entry_views(s: Seq<UninstallEntry>) -> Seq<InstalledAppV> {
    s.map_values(|e: UninstallEntry| e@)
}

/// An install location that is blank is dropped.
pub open spec fn location_kept(loc: Option<Seq<char>>) -> Option<Seq<char>> {
    match loc {
        Some(l) => if trimmed(l).len() == 0 { None } else { Some(l) },
        None => None,
    }
}

/// The catalog entry of an uninstall entry: the name trimmed, a blank
/// install location dropped.
pub open spec fn entry_app(e: InstalledAppV) -> InstalledAppV {
    (trimmed(e.0), e.1, location_kept(e.2))
}

/// Whether a (trimmed) name is listed: not empty and not an update patch
/// (`KB…`), whose traffic counts as the system's.
pub open spec fn listable(name: Seq<char>) -> bool {
    name.len() > 0 && !starts_with(lowercase(name), "kb"@)
}

/// The catalog entries of uninstall entries, in order: listable names only,
/// and of several with the same name (ignoring case) only the first.
pub open spec fn kept_entries(es: Seq<InstalledAppV>) -> Seq<InstalledAppV>
    decreases es.len(),
{
    if es.len() == 0 {
        Seq::empty()
    } else {
        let prev = kept_entries(es.drop_last());
        let a = entry_app(es.last());
        if listable(a.0) && !(exists|i: int| 0 <= i < prev.len() && lowercase((#[trigger] prev[i]).0) == lowercase(a.0)) {
            prev.push(a)
        } else {
            prev
        }
    }
}

/// Catalog entries in strictly increasing order of their lowercased names.
pub open spec fn sorted_by_name(s: Seq<InstalledAppV>) -> bool {
    forall|i: int, j: int| 0 <= i < j < s.len() ==> lex_lt(lowercase((#[trigger] s[i]).0), lowercase((#[trigger] s[j]).0))
}

/// `cat` is the catalog built from uninstall entries `es`: the kept entries
/// (see `kept_entries`), ordered by lowercased name.
pub open spec fn catalog_of(cat: Seq<InstalledAppV>, es: Seq<InstalledAppV>) -> bool {
    &&& cat.len() == kept_entries(es).len()
    &&& forall|x: InstalledAppV| cat.contains(x) <==> kept_entries(es).contains(x)
    &&& sorted_by_name(cat)
}

proof fn lemma_kept_distinct(es: Seq<InstalledAppV>)
    ensures
        forall|i: int, j: int| 0 <= i < j < kept_entries(es).len() ==> lowercase(
            (#[trigger] kept_entries(es)[i]).0,
        ) != lowercase((#[trigger] kept_entries(es)[j]).0),
    decreases es.len(),
{
    if es.len() > 0 {
        lemma_kept_distinct(es.drop_last());
        let prev = kept_entries(es.drop_last());
        let a = entry_app(es.last());
        if listable(a.0) && !(exists|i: int| 0 <= i < prev.len() && lowercase((#[trigger] prev[i]).0) == lowercase(a.0)) {
            let k = prev.push(a);
            assert(kept_entries(es) == k);
            assert forall|i: int, j: int| 0 <= i < j < k.len() implies lowercase((#[trigger] k[i]).0) != lowercase((#[trigger] k[j]).0) by {
                if j == prev.len() {
                    assert(k[i] == prev[i]);
                } else {
                    assert(k[i] == prev[i] && k[j] == prev[j]);
                }
            }
        }
    }
}

fn opt_copy(o: &Option<String>) -> (r: Option<String>)
    ensures
        opt_view(r) == opt_view(*o),
{
    match o {
        Some(s) => Some(s.clone()),
        None => None,
    }
}

fn copy_app(a: &InstalledApp) -> (r: InstalledApp)
    ensures
        r@ == a@,
{
    InstalledApp {
        name: a.name.clone(),
        publisher: opt_copy(&a.publisher),
        install_location: opt_copy(&a.install_location),
    }
}

/// Builds the catalog from uninstall entries (see `catalog_of`): names
/// trimmed, blank and `KB…` names skipped, one entry per name ignoring case,
/// ordered by lowercased name.
pub fn catalog_from_entries(entries: Vec<UninstallEntry>) -> (r: Vec<InstalledApp>)
    ensures
        catalog_of(app_views(r@), entry_views(entries@)),
{
    let ghost es = entry_views(entries@);
    let mut out: Vec<InstalledApp> = Vec::new();
    let mut lows: Vec<String> = Vec::new();
    let mut i: usize = 0;
    while i < entries.len()
        invariant
            i <= entries@.len(),
            es == entry_views(entries@),
            lows@.len() == out@.len(),
            forall|j: int| 0 <= j < out@.len() ==> (#[trigger] lows@[j])@ == lowercase(out@[j].name@),
            out@.len() == kept_entries(es.take(i as int)).len(),
            forall|x: InstalledAppV|
                #![trigger app_views(out@).contains(x)]
                #![trigger kept_entries(es.take(i as int)).contains(x)]
                app_views(out@).contains(x) <==> kept_entries(es.take(i as int)).contains(x),
            sorted_by_name(app_views(out@)),
        decreases entries@.len() - i,
    {
        let e = &entries[i];
        let ghost prev = kept_entries(es.take(i as int));
        proof {
            assert(es.take(i + 1).drop_last() =~= es.take(i as int));
            assert(es.take(i + 1).last() == e@);
        }
        let name = trim_str(e.display_name.as_str());
        let low = to_lower(name.as_str());
        let location = match &e.install_location {
            Some(l) => {
                let t = trim_str(l.as_str());
                if t.as_str().is_empty() { None } else { Some(l.clone()) }
            },
            None => None,
        };
        assert(opt_view(location) == location_kept(opt_view(e.install_location)));
        let skip = name.as_str().is_empty() || crate::text::str_starts_with(low.as_str(), "kb");
        if !skip {
            let mut dup = false;
            let mut j: usize = 0;
            while j < lows.len()
                invariant
                    j <= lows@.len(),
                    lows@.len() == out@.len(),
                    forall|k: int| 0 <= k < out@.len() ==> (#[trigger] lows@[k])@ == lowercase(out@[k].name@),
                    dup == exists|k: int| 0 <= k < j && lowercase((#[trigger] out@[k]).name@) == low@,
                decreases lows@.len() - j,
            {
                if lows[j] == low {
                    assert(lowercase(out@[j as int].name@) == low@);
                    dup = true;
                }
                j = j + 1;
            }
            let ghost outv = app_views(out@);
            proof {
                assert(dup == exists|k: int| 0 <= k < prev.len() && lowercase((#[trigger] prev[k]).0) == low@) by {
                    if dup {
                        let k = choose|k: int| 0 <= k < out@.len() && lowercase((#[trigger] out@[k]).name@) == low@;
                        assert(outv.contains(outv[k]));
                        let q = choose|q: int| 0 <= q < prev.len() && prev[q] == outv[k];
                        assert(lowercase(prev[q].0) == low@);
                    }
                    if exists|k: int| 0 <= k < prev.len() && lowercase((#[trigger] prev[k]).0) == low@ {
                        let k = choose|k: int| 0 <= k < prev.len() && lowercase((#[trigger] prev[k]).0) == low@;
                        assert(prev.contains(prev[k]));
                        let q = choose|q: int| 0 <= q < outv.len() && outv[q] == prev[k];
                        assert(lowercase(out@[q].name@) == low@);
                    }
                }
            }
            if !dup {
                let app = InstalledApp {
                    name,
                    publisher: opt_copy(&e.publisher),
                    install_location: location,
                };
                let mut p: usize = 0;
                while p < lows.len() && !str_less(low.as_str(), lows[p].as_str())
                    invariant
                        p <= lows@.len(),
                        lows@.len() == out@.len(),
                        forall|k: int| 0 <= k < out@.len() ==> (#[trigger] lows@[k])@ == lowercase(out@[k].name@),
                        forall|k: int| 0 <= k < p ==> !lex_lt(low@, lowercase((#[trigger] out@[k]).name@)),
                    decreases lows@.len() - p,
                {
                    p = p + 1;
                }
                let ghost before = out@;
                let ghost lows_before = lows@;
                proof {
                    assert forall|k: int| 0 <= k < p implies lex_lt(lowercase((#[trigger] before[k]).name@), low@) by {
                        assert(lowercase(before[k].name@) != low@);
                        lemma_lex_total(lowercase(before[k].name@), low@);
                    }
                    assert forall|k: int| p <= k < before.len() implies lex_lt(low@, lowercase((#[trigger] before[k]).name@)) by {
                        assert(!lex_lt(low@, lowercase(before[p as int].name@)) == false);
                        if k > p {
                            assert(lex_lt(lowercase(before[p as int].name@), lowercase(before[k].name@))) by {
                                assert(outv[p as int].0 == before[p as int].name@);
                                assert(outv[k].0 == before[k].name@);
                            }
                            lemma_lex_transitive(low@, lowercase(before[p as int].name@), lowercase(before[k].name@));
                        }
                    }
                }
                out.insert(p, app);
                lows.insert(p, low);
                proof {
                    let newv = app_views(out@);
                    let a = entry_app(e@);
                    assert(newv[p as int] == a);
                    assert forall|k: int| 0 <= k < p implies #[trigger] newv[k] == outv[k] by {}
                    assert forall|k: int| p < k < newv.len() implies #[trigger] newv[k] == outv[k - 1] by {}
                    assert forall|x: InstalledAppV| newv.contains(x) <==> prev.push(a).contains(x) by {
                        if newv.contains(x) {
                            let k = choose|k: int| 0 <= k < newv.len() && newv[k] == x;
                            if k < p {
                                assert(outv.contains(outv[k]));
                            } else if k > p {
                                assert(outv.contains(outv[k - 1]));
                            }
                            if x != a {
                                assert(prev.contains(x));
                                let q = choose|q: int| 0 <= q < prev.len() && prev[q] == x;
                                assert(prev.push(a)[q] == x);
                            } else {
                                assert(prev.push(a)[prev.len() as int] == a);
                            }
                        }
                        if prev.push(a).contains(x) {
                            let q = choose|q: int| 0 <= q < prev.len() + 1 && prev.push(a)[q] == x;
                            if q == prev.len() {
                                assert(newv[p as int] == x);
                            } else {
                                assert(prev.contains(x));
                                assert(outv.contains(x));
                                let k = choose|k: int| 0 <= k < outv.len() && outv[k] == x;
                                if k < p {
                                    assert(newv[k] == x);
                                } else {
                                    assert(newv[k + 1] == x);
                                }
                            }
                        }
                    }
                    assert forall|a1: int, b1: int| 0 <= a1 < b1 < newv.len() implies lex_lt(
                        lowercase((#[trigger] newv[a1]).0),
                        lowercase((#[trigger] newv[b1]).0),
                    ) by {
                        if a1 < p && b1 < p {
                            assert(newv[a1] == outv[a1] && newv[b1] == outv[b1]);
                        } else if a1 < p && b1 == p {
                            assert(newv[a1] == outv[a1]);
                            assert(outv[a1].0 == before[a1].name@);
                        } else if a1 < p && b1 > p {
                            assert(newv[a1] == outv[a1] && newv[b1] == outv[b1 - 1]);
                        } else if a1 == p {
                            assert(newv[b1] == outv[b1 - 1]);
                            assert(outv[b1 - 1].0 == before[b1 - 1].name@);
                        } else {
                            assert(newv[a1] == outv[a1 - 1] && newv[b1] == outv[b1 - 1]);
                        }
                    }
                    assert forall|k: int| 0 <= k < out@.len() implies (#[trigger] lows@[k])@ == lowercase(out@[k].name@) by {
                        if k < p {
                            assert(lows@[k] == lows_before[k]);
                            assert(out@[k] == before[k]);
                        } else if k > p {
                            assert(lows@[k] == lows_before[k - 1]);
                            assert(out@[k] == before[k - 1]);
                        }
                    }
                }
            }
        }
        i = i + 1;
    }
    proof {
        assert(es.take(entries@.len() as int) =~= es);
        lemma_kept_distinct(es);
    }
    out
}

impl SoftwareCatalog {
    /// An empty catalog.
    pub fn new() -> (r: Self)
        ensures
            r@.len() == 0,
    {
        let r = SoftwareCatalog { apps: Vec::new() };
        assert(r@ =~= Seq::empty());
        r
    }

    /// A snapshot of the catalog.
    pub fn installed_apps(&self) -> (r: Vec<InstalledApp>)
        ensures
            app_views(r@) == self@,
    {
        let mut out: Vec<InstalledApp> = Vec::new();
        let mut i: usize = 0;
        while i < self.apps.len()
            invariant
                i <= self.apps@.len(),
                out@.len() == i,
                app_views(out@) == app_views(self.apps@).take(i as int),
            decreases self.apps@.len() - i,
        {
            let ghost before = out@;
            let a = copy_app(&self.apps[i]);
            out.push(a);
            proof {
                assert forall|j: int| 0 <= j < i implies #[trigger] app_views(out@)[j] == app_views(before)[j] by {
                    assert(out@[j] == before[j]);
                }
            }
            i = i + 1;
            assert(app_views(out@) =~= app_views(self.apps@).take(i as int));
        }
        assert(app_views(self.apps@).take(i as int) =~= self@);
        out
    }

    /// Replaces the catalog with the one built from fresh uninstall entries
    /// (see `catalog_from_entries`) and returns a snapshot of it.
    pub fn refresh(&mut self, entries: Vec<UninstallEntry>) -> (r: Vec<InstalledApp>)
        ensures
            catalog_of(final(self)@, entry_views(entries@)),
            app_views(r@) == final(self)@,
    {
        let list = catalog_from_entries(entries);
        self.apps = list;
        self.installed_apps()
    }

    /// Adds one entry at the end of the catalog.
    pub fn push(&mut self, app: InstalledApp)
        ensures
            final(self)@ == old(self)@.push(app@),
    {
        self.apps.push(app);
        assert(self@ =~= old(self)@.push(app@));
    }
}

/// A snapshot read after a refresh, with no catalog write in between, is the
/// list the refresh returned, entry for entry and in the same order; two
/// snapshots of an unchanged catalog are the same list. `refreshed` is what
/// `refresh` returned and left as `catalog`, `first` and `second` are what
/// `installed_apps` returned on that catalog.
pub proof fn lemma_snapshot_after_refresh(
    catalog: SoftwareCatalog,
    refreshed: Seq<InstalledApp>,
    first: Seq<InstalledApp>,
    second: Seq<InstalledApp>,
)
    requires
        app_views(refreshed) == catalog@,
        app_views(first) == catalog@,
        app_views(second) == catalog@,
    ensures
        first.len() == refreshed.len(),
        forall|i: int| 0 <= i < first.len() ==> (#[trigger] first[i])@ == refreshed[i]@,
        second.len() == first.len(),
        forall|i: int| 0 <= i < second.len() ==> (#[trigger] second[i])@ == first[i]@,
{
    assert(app_views(first).len() == first.len());
    assert(app_views(second).len() == second.len());
    assert(app_views(refreshed).len() == refreshed.len());
    assert forall|i: int| 0 <= i < first.len() implies (#[trigger] first[i])@ == refreshed[i]@ by {
        assert(app_views(first)[i] == app_views(refreshed)[i]);
    }
    assert forall|i: int| 0 <= i < second.len() implies (#[trigger] second[i])@ == first[i]@ by {
        assert(app_views(second)[i] == app_views(first)[i]);
    }
}

} // verus!

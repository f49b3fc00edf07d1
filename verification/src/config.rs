use vstd::prelude::*;
use vstd::string::*;
use crate::text::{
    char_index_from, lemma_char_index_bounds, push_char, string_of, is_ws, trim_end, trim_start, chars_eq, chars_of, parse_u32, parse_unsigned_range, push_str, range_eq, string_views, trim,
    trim_range,
};

verus! {

/// Allowlists that exempt displays, virtual input drivers and processes from detection.
#[derive(Debug, Clone, PartialEq, Eq)]
pub struct AllowlistConfig {
    pub allowed_x11_displays: Vec<String>,
    pub allowed_virtual_drivers: Vec<String>,
    pub allowed_processes: Vec<String>,
}

/// The daemon's configuration.
#[derive(Debug, Clone, PartialEq, Eq)]
pub struct AppConfig {
    pub allowlist: AllowlistConfig,
}

impl AllowlistConfig {
    pub open spec fn displays(&self) -> Seq<Seq<char>> {
        string_views(self.allowed_x11_displays@)
    }

    pub open spec fn drivers(&self) -> Seq<Seq<char>> {
        string_views(self.allowed_virtual_drivers@)
    }

    pub open spec fn processes(&self) -> Seq<Seq<char>> {
        string_views(self.allowed_processes@)
    }

    /// An allowlist with no entries.
    pub fn empty() -> (r: AllowlistConfig)
        ensures
            r.displays().len() == 0,
            r.drivers().len() == 0,
            r.processes().len() == 0,
    {
        AllowlistConfig {
            allowed_x11_displays: Vec::new(),
            allowed_virtual_drivers: Vec::new(),
            allowed_processes: Vec::new(),
        }
    }
}

impl Default for AllowlistConfig {
    fn default() -> (r: AllowlistConfig)
        ensures
            r.displays().len() == 0,
            r.drivers().len() == 0,
            r.processes().len() == 0,
    {
        AllowlistConfig::empty()
    }
}

/// The display proxies of a Crostini (ChromeOS Linux) container, in the order they are added.
pub open spec fn crostini_display_defaults() -> Seq<Seq<char>> {
    seq!["X1"@, ":1"@, "X20"@, ":20"@]
}

/// `l` with each of `extra` appended, in order, unless it is already there.
pub open spec fn add_missing(l: Seq<Seq<char>>, extra: Seq<Seq<char>>) -> Seq<Seq<char>>
    decreases extra.len(),
{
    if extra.len() == 0 {
        l
    } else {
        let l2 = add_missing(l, extra.drop_last());
        if l2.contains(extra.last()) {
            l2
        } else {
            l2.push(extra.last())
        }
    }
}

/// The display allowlist once the Crostini defaults are applied (or not).
pub open spec fn with_crostini(l: Seq<Seq<char>>, crostini: bool) -> Seq<Seq<char>> {
    if crostini {
        add_missing(l, crostini_display_defaults())
    } else {
        l
    }
}

/// An allowlist entry `d` covers `display` when they are equal, or when they
/// differ only in a leading `X` against a leading `:`.
pub open spec fn display_entry_matches(d: Seq<char>, display: Seq<char>) -> bool {
    ||| d == display
    ||| (d.len() > 0 && display.len() > 0 && d[0] == ':' && display[0] == 'X' && d.drop_first()
        == display.drop_first())
    ||| (d.len() > 0 && display.len() > 0 && d[0] == 'X' && display[0] == ':' && d.drop_first()
        == display.drop_first())
}

/// The display index named by `d`: the number after a leading `X` or `:`, or `d` itself as a number.
pub open spec fn display_number(d: Seq<char>) -> Option<nat> {
    if d.len() > 0 && (d[0] == 'X' || d[0] == ':') {
        parse_u32(d.drop_first())
    } else {
        parse_u32(d)
    }
}

/// A display that a Crostini container uses for its display proxy (index 1 or 20).
pub open spec fn crostini_proxy_display(display: Seq<char>) -> bool {
    let t = trim(display);
    ||| display_number(t) == Some(1nat)
    ||| display_number(t) == Some(20nat)
    ||| t == "X1"@
    ||| t == ":1"@
    ||| t == "X20"@
    ||| t == ":20"@
}

/// Some entry of `l` covers `display`.
pub open spec fn listed_display(l: Seq<Seq<char>>, display: Seq<char>) -> bool {
    exists|i: int| 0 <= i < l.len() && display_entry_matches(#[trigger] l[i], display)
}

/// Joins `l` with `sep` between consecutive items (`[String]::join`).
pub open spec fn join(l: Seq<Seq<char>>, sep: Seq<char>) -> Seq<char>
    decreases l.len(),
{
    if l.len() == 0 {
        seq![]
    } else if l.len() == 1 {
        l[0]
    } else {
        join(l.drop_last(), sep) + sep + l.last()
    }
}

/// An allowlist as printed in the summary.
pub open spec fn list_text(l: Seq<Seq<char>>) -> Seq<char> {
    if l.len() == 0 {
        "None"@
    } else {
        join(l, ", "@)
    }
}

/// The plain-English summary of a configuration loaded from `path`.
pub open spec fn summary_text(path: Seq<char>, a: AllowlistConfig) -> Seq<char> {
    "[CONFIG] Configuration loaded from "@ + path + "\n  ├── Allowed X11 Displays: "@ + list_text(
        a.displays(),
    ) + "\n  ├── Allowed Virtual Drivers: "@ + list_text(a.drivers())
        + "\n  └── Allowed Processes: "@ + list_text(a.processes())
}

/// Whether `list` holds a string equal to `s`.
pub fn contains_string(list: &Vec<String>, s: &String) -> (r: bool)
    ensures
        r == string_views(list@).contains(s@),
{
    let mut i: usize = 0;
    while i < list.len()
        invariant
            i <= list@.len(),
            forall|j: int| 0 <= j < i ==> list@[j]@ != s@,
        decreases list@.len() - i,
    {
        if list[i] == *s {
            assert(string_views(list@)[i as int] == s@);
            return true;
        }
        i = i + 1;
    }
    assert(!string_views(list@).contains(s@)) by {
        if string_views(list@).contains(s@) {
            let k = choose|k: int| 0 <= k < string_views(list@).len() && string_views(list@)[k]
                == s@;
            assert(list@[k]@ == s@);
        }
    }
    false
}

fn add_if_missing(list: &mut Vec<String>, d: String)
    ensures
        string_views(final(list)@) == (if string_views(old(list)@).contains(d@) {
            string_views(old(list)@)
        } else {
            string_views(old(list)@).push(d@)
        }),
{
    if !contains_string(list, &d) {
        let ghost before = list@;
        list.push(d);
        assert(string_views(list@) =~= string_views(before).push(d@));
    }
}

impl AppConfig {
    /// Adds the Crostini display proxies (`X1`, `:1`, `X20`, `:20`) to the display
    /// allowlist, each unless already present, when running under Crostini.
    pub fn apply_crostini_defaults(&mut self, crostini: bool)
        ensures
            final(self).allowlist.displays() == with_crostini(
                old(self).allowlist.displays(),
                crostini,
            ),
            final(self).allowlist.allowed_virtual_drivers
                == old(self).allowlist.allowed_virtual_drivers,
            final(self).allowlist.allowed_processes == old(self).allowlist.allowed_processes,
    {
        if crostini {
            let ghost l0 = self.allowlist.displays();
            let ghost d = crostini_display_defaults();
            let x1 = "X1".to_owned();
            add_if_missing(&mut self.allowlist.allowed_x11_displays, x1);
            assert(d.take(1).drop_last() =~= d.take(0));
            assert(add_missing(l0, d.take(0)) == l0);
            assert(d.take(1).last() == x1@);
            assert(self.allowlist.displays() == add_missing(l0, d.take(1)));
            let v2 = ":1".to_owned();
            add_if_missing(&mut self.allowlist.allowed_x11_displays, v2);
            assert(d.take(2).drop_last() =~= d.take(1));
            assert(d.take(2).last() == v2@);
            assert(self.allowlist.displays() == add_missing(l0, d.take(2)));
            let v3 = "X20".to_owned();
            add_if_missing(&mut self.allowlist.allowed_x11_displays, v3);
            assert(d.take(3).drop_last() =~= d.take(2));
            assert(d.take(3).last() == v3@);
            assert(self.allowlist.displays() == add_missing(l0, d.take(3)));
            let v4 = ":20".to_owned();
            add_if_missing(&mut self.allowlist.allowed_x11_displays, v4);
            assert(d.take(4).drop_last() =~= d.take(3));
            assert(d.take(4).last() == v4@);
            assert(d.take(4) =~= d);
        }
    }

    /// The configuration built from the outcome of reading and parsing the
    /// configuration file: the parsed configuration, or the empty one when the
    /// file was missing or did not parse; then the Crostini defaults.
    pub fn load(parsed: Option<AppConfig>, crostini: bool) -> (r: AppConfig)
        ensures
            match parsed {
                Some(c) => {
                    &&& r.allowlist.displays() == with_crostini(c.allowlist.displays(), crostini)
                    &&& r.allowlist.drivers() == c.allowlist.drivers()
                    &&& r.allowlist.processes() == c.allowlist.processes()
                },
                None => {
                    &&& r.allowlist.displays() == with_crostini(seq![], crostini)
                    &&& r.allowlist.drivers().len() == 0
                    &&& r.allowlist.processes().len() == 0
                },
            },
    {
        let mut config = match parsed {
            Some(c) => c,
            None => AppConfig { allowlist: AllowlistConfig::empty() },
        };
        proof {
            if parsed is None {
                assert(config.allowlist.displays() =~= seq![]);
            }
        }
        config.apply_crostini_defaults(crostini);
        config
    }

    /// The configuration used when no file is read: empty, then the Crostini defaults.
    pub fn default_config(crostini: bool) -> (r: AppConfig)
        ensures
            r.allowlist.displays() == with_crostini(seq![], crostini),
            r.allowlist.drivers().len() == 0,
            r.allowlist.processes().len() == 0,
    {
        AppConfig::load(None, crostini)
    }

    pub open spec fn display_allowed(&self, display: Seq<char>, crostini: bool) -> bool {
        ||| (crostini && crostini_proxy_display(display))
        ||| listed_display(self.allowlist.displays(), display)
    }

    /// Whether an X11 display (such as `X20` or `:20`) is exempt: under Crostini
    /// its proxy displays always are; otherwise an allowlist entry must cover it.
    pub fn is_display_allowed(&self, display: &str, crostini: bool) -> (r: bool)
        ensures
            r == self.display_allowed(display@, crostini),
    {
        let dc = chars_of(display);
        if crostini && is_crostini_proxy_display(&dc) {
            return true;
        }
        let list = &self.allowlist.allowed_x11_displays;
        let mut i: usize = 0;
        while i < list.len()
            invariant
                i <= list@.len(),
                list == &self.allowlist.allowed_x11_displays,
                dc@ == display@,
                forall|j: int|
                    0 <= j < i ==> !display_entry_matches(
                        #[trigger] self.allowlist.displays()[j],
                        display@,
                    ),
            decreases list@.len() - i,
        {
            let d = chars_of(list[i].as_str());
            if entry_matches(&d, &dc) {
                assert(self.allowlist.displays()[i as int] == d@);
                return true;
            }
            i = i + 1;
        }
        false
    }

    /// Whether a virtual input driver name is on the allowlist.
    pub fn is_driver_allowed(&self, driver: &str) -> (r: bool)
        ensures
            r == self.allowlist.drivers().contains(driver@),
    {
        contains_string(&self.allowlist.allowed_virtual_drivers, &driver.to_owned())
    }

    /// Whether a process path or command line is on the allowlist.
    pub fn is_process_allowed(&self, path: &str) -> (r: bool)
        ensures
            r == self.allowlist.processes().contains(path@),
    {
        contains_string(&self.allowlist.allowed_processes, &path.to_owned())
    }

    /// The configuration as a plain-English summary tree.
    pub fn display_summary(&self, path: &str) -> (r: String)
        ensures
            r@ == summary_text(path@, self.allowlist),
    {
        let mut s = String::new();
        push_str(&mut s, "[CONFIG] Configuration loaded from ");
        push_str(&mut s, path);
        push_str(&mut s, "\n  ├── Allowed X11 Displays: ");
        push_list(&mut s, &self.allowlist.allowed_x11_displays);
        push_str(&mut s, "\n  ├── Allowed Virtual Drivers: ");
        push_list(&mut s, &self.allowlist.allowed_virtual_drivers);
        push_str(&mut s, "\n  └── Allowed Processes: ");
        push_list(&mut s, &self.allowlist.allowed_processes);
        assert(s@ =~= summary_text(path@, self.allowlist));
        s
    }
}

fn push_list(out: &mut String, list: &Vec<String>)
    ensures
        final(out)@ == old(out)@ + list_text(string_views(list@)),
{
    if list.len() == 0 {
        push_str(out, "None");
        return ;
    }
    let ghost l = string_views(list@);
    let ghost start = out@;
    push_str(out, list[0].as_str());
    assert(l.take(1) =~= seq![l[0]]);
    let mut i: usize = 1;
    while i < list.len()
        invariant
            1 <= i <= list@.len(),
            l == string_views(list@),
            out@ == start + join(l.take(i as int), ", "@),
        decreases list@.len() - i,
    {
        push_str(out, ", ");
        push_str(out, list[i].as_str());
        assert(l.take(i + 1).drop_last() =~= l.take(i as int));
        assert(out@ =~= start + join(l.take(i + 1), ", "@));
        i = i + 1;
    }
    assert(l.take(i as int) =~= l);
}

/// `entry_matches(d, display)` decides `display_entry_matches`.
fn entry_matches(d: &Vec<char>, display: &Vec<char>) -> (r: bool)
    ensures
        r == display_entry_matches(d@, display@),
{
    if chars_eq(d, display) {
        return true;
    }
    if d.len() > 0 && display.len() > 0 && d.len() == display.len() && ((d[0] == ':' && display[0]
        == 'X') || (d[0] == 'X' && display[0] == ':')) {
        let r = range_eq(d, 1, display, 1, d.len() - 1);
        assert(d@.subrange(1, d@.len() as int) =~= d@.drop_first());
        assert(display@.subrange(1, display@.len() as int) =~= display@.drop_first());
        return r;
    }
    proof {
        if d@.len() > 0 && display@.len() > 0 && d@.drop_first() == display@.drop_first() {
            assert(d@.drop_first().len() == display@.drop_first().len());
        }
    }
    false
}

/// The display index named by `s[start..end]`.
pub fn display_number_of(s: &Vec<char>, start: usize, end: usize) -> (r: Option<u64>)
    requires
        start <= end <= s@.len(),
    ensures
        match display_number(s@.subrange(start as int, end as int)) {
            Some(v) => r == Some(v as u64),
            None => r is None,
        },
{
    let ghost t = s@.subrange(start as int, end as int);
    if start < end && (s[start] == 'X' || s[start] == ':') {
        assert(t.drop_first() =~= s@.subrange(start + 1, end as int));
        parse_unsigned_range(s, start + 1, end, 10, 0xffff_ffff)
    } else {
        parse_unsigned_range(s, start, end, 10, 0xffff_ffff)
    }
}

fn range_is(s: &Vec<char>, start: usize, end: usize, lit: &str) -> (r: bool)
    requires
        start <= end <= s@.len(),
    ensures
        r == (s@.subrange(start as int, end as int) == lit@),
{
    let l = chars_of(lit);
    if l.len() != end - start {
        return false;
    }
    let r = range_eq(s, start, &l, 0, l.len());
    assert(l@.subrange(0, l@.len() as int) =~= l@);
    r
}

fn is_crostini_proxy_display(dc: &Vec<char>) -> (r: bool)
    ensures
        r == crostini_proxy_display(dc@),
{
    let (a, b) = trim_range(dc, 0, dc.len());
    assert(dc@.subrange(0, dc@.len() as int) =~= dc@);
    let n = display_number_of(dc, a, b);
    match n {
        Some(v) => {
            if v == 1 || v == 20 {
                return true;
            }
        },
        None => {},
    }
    range_is(dc, a, b, "X1") || range_is(dc, a, b, ":1") || range_is(dc, a, b, "X20") || range_is(
        dc,
        a,
        b,
        ":20",
    )
}

/// A path separator: `/`, and on Windows `\` as well.
pub open spec fn is_path_sep(c: char, windows: bool) -> bool {
    c == '/' || (windows && c == '\\')
}

/// The separator that `PathBuf::push` writes: `\` on Windows, `/` elsewhere.
pub open spec fn main_sep(windows: bool) -> char {
    if windows {
        '\\'
    } else {
        '/'
    }
}

/// A Windows drive prefix on its own, such as `C:`.
pub open spec fn bare_drive(s: Seq<char>) -> bool {
    s.len() == 2 && (('a' <= s[0] && s[0] <= 'z') || ('A' <= s[0] && s[0] <= 'Z')) && s[1] == ':'
}

/// `PathBuf::push` of a relative component (`windows` tells the platform's
/// path rules): a separator goes between unless the base is empty, already
/// ends with a separator, or (on Windows) is a drive prefix on its own.
pub open spec fn path_push(base: Seq<char>, comp: Seq<char>, windows: bool) -> Seq<char> {
    if base.len() > 0 && !is_path_sep(base.last(), windows) && !(windows && bare_drive(base)) {
        base + seq![main_sep(windows)] + comp
    } else {
        base + comp
    }
}

/// The index of the first path separator of `s` at or after `i`, or `s.len()`.
pub open spec fn sep_index_from(s: Seq<char>, i: int, windows: bool) -> int
    decreases s.len() - i,
{
    if i < 0 || i >= s.len() {
        s.len() as int
    } else if is_path_sep(s[i], windows) {
        i
    } else {
        sep_index_from(s, i + 1, windows)
    }
}

/// `sep_index_from` lands between its start and the end of `s`.
pub proof fn lemma_sep_index_bounds(s: Seq<char>, i: int, windows: bool)
    requires
        0 <= i <= s.len(),
    ensures
        i <= sep_index_from(s, i, windows) <= s.len(),
    decreases s.len() - i,
{
    if i < s.len() && !is_path_sep(s[i], windows) {
        lemma_sep_index_bounds(s, i + 1, windows);
    }
}

/// The home directory from `HOME`, else `USERPROFILE`, else `.`.
pub open spec fn env_home(home: Option<Seq<char>>, userprofile: Option<Seq<char>>) -> Seq<char> {
    match home {
        Some(h) => h,
        None => match userprofile {
            Some(u) => u,
            None => "."@,
        },
    }
}

/// The invoking user of `sudo`, when `SUDO_USER` names one.
pub open spec fn sudo_user_name(sudo_user: Option<Seq<char>>) -> Option<Seq<char>> {
    match sudo_user {
        Some(u) => if trim(u).len() > 0 {
            Some(trim(u))
        } else {
            None
        },
        None => None,
    }
}

/// The configuration file of a user by name.
pub open spec fn sudo_config_path(user: Seq<char>) -> Seq<char> {
    "/home/"@ + user + "/.kiss/config"@
}

/// The configuration file under a home directory (`home/.kiss/config`).
pub open spec fn home_config_path(home: Seq<char>, windows: bool) -> Seq<char> {
    path_push(path_push(home, ".kiss"@, windows), "config"@, windows)
}

/// The configuration file paths to try: the invoking user's when running
/// under `sudo`, the home directory's, and the system-wide one.
pub struct ConfigCandidates {
    pub sudo: Option<String>,
    pub home: String,
    pub etc: String,
}

pub open spec fn opt_string_view(o: Option<String>) -> Option<Seq<char>> {
    match o {
        Some(s) => Some(s@),
        None => None,
    }
}

/// The path the configuration is read from: the first of the candidates that
/// exists, else the invoking user's path under `sudo`, else the home directory's.
pub open spec fn chosen_config_path(
    sudo: Option<Seq<char>>,
    home: Seq<char>,
    etc: Seq<char>,
    sudo_exists: bool,
    home_exists: bool,
    etc_exists: bool,
) -> Seq<char> {
    if sudo is Some && sudo_exists {
        sudo->0
    } else if home_exists {
        home
    } else if etc_exists {
        etc
    } else if sudo is Some {
        sudo->0
    } else {
        home
    }
}

fn trimmed_string(s: &str) -> (r: String)
    ensures
        r@ == trim(s@),
{
    let c = chars_of(s);
    let (a, b) = trim_range(&c, 0, c.len());
    assert(c@.subrange(0, c@.len() as int) =~= c@);
    string_of(&c, a, b)
}

fn is_sep_char(c: char, windows: bool) -> (r: bool)
    ensures
        r == is_path_sep(c, windows),
{
    c == '/' || (windows && c == '\\')
}

/// Appends a relative path component, as `PathBuf::push` does (`windows`
/// tells the platform's path rules).
pub fn push_component(base: &mut String, comp: &str, windows: bool)
    ensures
        final(base)@ == path_push(old(base)@, comp@, windows),
{
    let c = chars_of(base.as_str());
    let drive = c.len() == 2 && (('a' <= c[0] && c[0] <= 'z') || ('A' <= c[0] && c[0] <= 'Z'))
        && c[1] == ':';
    if c.len() > 0 && !is_sep_char(c[c.len() - 1], windows) && !(windows && drive) {
        push_char(base, if windows { '\\' } else { '/' });
    }
    push_str(base, comp);
}

fn home_from_env(home: &Option<String>, userprofile: &Option<String>) -> (r: String)
    ensures
        r@ == env_home(opt_string_view(*home), opt_string_view(*userprofile)),
{
    match home {
        Some(h) => h.clone(),
        None => match userprofile {
            Some(u) => u.clone(),
            None => ".".to_owned(),
        },
    }
}

fn sudo_user_of(sudo_user: &Option<String>) -> (r: Option<String>)
    ensures
        opt_string_view(r) == sudo_user_name(opt_string_view(*sudo_user)),
{
    match sudo_user {
        Some(u) => {
            let t = trimmed_string(u.as_str());
            if t.unicode_len() > 0 {
                Some(t)
            } else {
                None
            }
        },
        None => None,
    }
}

impl AppConfig {
    /// The candidate configuration paths from the environment (`SUDO_USER`,
    /// `HOME`, `USERPROFILE`; `None` where unset), joined by the path rules of
    /// Windows when `windows` holds and of Unix otherwise.
    pub fn config_candidates(
        sudo_user: &Option<String>,
        home: &Option<String>,
        userprofile: &Option<String>,
        windows: bool,
    ) -> (r: ConfigCandidates)
        ensures
            opt_string_view(r.sudo) == match sudo_user_name(opt_string_view(*sudo_user)) {
                Some(u) => Some(sudo_config_path(u)),
                None => None,
            },
            r.home@ == home_config_path(
                env_home(opt_string_view(*home), opt_string_view(*userprofile)),
                windows,
            ),
            r.etc@ == "/etc/kiss/config"@,
    {
        let sudo = match sudo_user_of(sudo_user) {
            Some(u) => {
                let mut p = String::new();
                push_str(&mut p, "/home/");
                push_str(&mut p, u.as_str());
                push_str(&mut p, "/.kiss/config");
                Some(p)
            },
            None => None,
        };
        let mut h = home_from_env(home, userprofile);
        push_component(&mut h, ".kiss", windows);
        push_component(&mut h, "config", windows);
        ConfigCandidates { sudo, home: h, etc: "/etc/kiss/config".to_owned() }
    }

    /// Chooses among the candidates by which of them exist.
    pub fn select_config_path(
        candidates: &ConfigCandidates,
        sudo_exists: bool,
        home_exists: bool,
        etc_exists: bool,
    ) -> (r: String)
        ensures
            r@ == chosen_config_path(
                opt_string_view(candidates.sudo),
                candidates.home@,
                candidates.etc@,
                sudo_exists,
                home_exists,
                etc_exists,
            ),
    {
        match &candidates.sudo {
            Some(p) => {
                if sudo_exists {
                    return p.clone();
                }
            },
            None => {},
        }
        if home_exists {
            return candidates.home.clone();
        }
        if etc_exists {
            return candidates.etc.clone();
        }
        match &candidates.sudo {
            Some(p) => p.clone(),
            None => candidates.home.clone(),
        }
    }

    /// Expands a leading `~` component to the home directory: the invoking
    /// user's (`/home/<user>`) under `sudo`, else `HOME`, `USERPROFILE` or `.`.
    /// The other components follow, with empty and `.` components dropped.
    /// `windows` selects the path rules of Windows (both `/` and `\` separate
    /// components, `\` is written) or of Unix.
    pub fn expand_home(
        path: &str,
        sudo_user: &Option<String>,
        home: &Option<String>,
        userprofile: &Option<String>,
        windows: bool,
    ) -> (r: String)
        ensures
            r@ == expanded_path(
                path@,
                match sudo_user_name(opt_string_view(*sudo_user)) {
                    Some(u) => "/home/"@ + u,
                    None => env_home(opt_string_view(*home), opt_string_view(*userprofile)),
                },
                windows,
            ),
    {
        let c = chars_of(path);
        if !(c.len() > 0 && c[0] == '~' && (c.len() == 1 || is_sep_char(c[1], windows))) {
            return path.to_owned();
        }
        let mut out = match sudo_user_of(sudo_user) {
            Some(u) => {
                let mut p = String::new();
                push_str(&mut p, "/home/");
                push_str(&mut p, u.as_str());
                p
            },
            None => home_from_env(home, userprofile),
        };
        let ghost base = out@;
        let ghost rest = c@.skip(1);
        let mut i: usize = 1;
        assert(c@.skip(1) =~= c@.subrange(1, c@.len() as int));
        assert(push_components(base, rest, windows) == push_components_from(base, rest, 0, windows));
        while i < c.len()
            invariant
                1 <= i <= c@.len(),
                rest == c@.skip(1),
                push_components(base, rest, windows) == push_components_from(out@, rest, i - 1, windows),
            decreases c@.len() - i,
        {
            let mut e = i;
            while e < c.len() && !is_sep_char(c[e], windows)
                invariant
                    1 <= i <= e <= c@.len(),
                    rest == c@.skip(1),
                    sep_index_from(rest, i - 1, windows) == sep_index_from(rest, e - 1, windows),
                decreases c@.len() - e,
            {
                assert(rest[e - 1] == c@[e as int]);
                e = e + 1;
            }
            proof {
                if e < c@.len() {
                    assert(rest[e - 1] == c@[e as int]);
                }
                lemma_sep_index_bounds(rest, i - 1, windows);
            }
            assert(sep_index_from(rest, i - 1, windows) == e - 1);
            let ghost piece = rest.subrange(i - 1, e - 1);
            assert(piece =~= c@.subrange(i as int, e as int));
            let skip = e == i || (e == i + 1 && c[i] == '.');
            proof {
                reveal_strlit(".");
                if piece == "."@ {
                    assert(piece[0] == c@[i as int]);
                }
                if e == i + 1 && c@[i as int] == '.' {
                    assert(piece =~= "."@);
                }
            }
            if !skip {
                let comp = string_of(&c, i, e);
                push_component(&mut out, comp.as_str(), windows);
            }
            if e < c.len() {
                i = e + 1;
            } else {
                i = e;
                assert(push_components_from(out@, rest, e as int, windows) == out@);
            }
        }
        assert(push_components_from(out@, rest, i - 1, windows) == out@);
        out
    }
}

/// Pushes the components of `rest[i..]` (split at the path separators, empty
/// and `.` ones dropped) onto `base`.
pub open spec fn push_components_from(base: Seq<char>, rest: Seq<char>, i: int, windows: bool) -> Seq<char>
    decreases rest.len() + 1 - i,
{
    if 0 <= i < rest.len() {
        let e = sep_index_from(rest, i, windows);
        proof {
            lemma_sep_index_bounds(rest, i, windows);
        }
        let piece = rest.subrange(i, e);
        let next = if piece.len() == 0 || piece == "."@ {
            base
        } else {
            path_push(base, piece, windows)
        };
        push_components_from(next, rest, e + 1, windows)
    } else {
        base
    }
}

pub open spec fn push_components(base: Seq<char>, rest: Seq<char>, windows: bool) -> Seq<char> {
    push_components_from(base, rest, 0, windows)
}

/// A path whose first component is `~` with `~` replaced by `home`; any other path as it is.
pub open spec fn expanded_path(path: Seq<char>, home: Seq<char>, windows: bool) -> Seq<char> {
    if path.len() > 0 && path[0] == '~' && (path.len() == 1 || is_path_sep(path[1], windows)) {
        push_components(home, path.skip(1), windows)
    } else {
        path
    }
}

proof fn lemma_add_missing_props(l: Seq<Seq<char>>, extra: Seq<Seq<char>>)
    ensures
        add_missing(l, extra).len() >= l.len(),
        add_missing(l, extra).subrange(0, l.len() as int) == l,
        forall|i: int| 0 <= i < extra.len() ==> add_missing(l, extra).contains(#[trigger] extra[i]),
        forall|x: Seq<char>|
            add_missing(l, extra).contains(x) ==> l.contains(x) || extra.contains(x),
    decreases extra.len(),
{
    if extra.len() > 0 {
        let e = extra.drop_last();
        lemma_add_missing_props(l, e);
        let l2 = add_missing(l, e);
        if !l2.contains(extra.last()) {
            assert(l2.push(extra.last()).subrange(0, l.len() as int) =~= l2.subrange(
                0,
                l.len() as int,
            ));
            assert(l2.push(extra.last())[l2.len() as int] == extra.last());
        }
        assert forall|i: int| 0 <= i < extra.len() implies add_missing(l, extra).contains(
            #[trigger] extra[i],
        ) by {
            if i < extra.len() - 1 {
                assert(e[i] == extra[i]);
                let k = choose|k: int| 0 <= k < l2.len() && l2[k] == e[i];
                if !l2.contains(extra.last()) {
                    assert(l2.push(extra.last())[k] == extra[i]);
                }
            } else if !l2.contains(extra.last()) {
                assert(l2.push(extra.last())[l2.len() as int] == extra[i]);
            }
        }
        assert forall|x: Seq<char>| add_missing(l, extra).contains(x) implies l.contains(x)
            || extra.contains(x) by {
            let r = add_missing(l, extra);
            let k = choose|k: int| 0 <= k < r.len() && r[k] == x;
            if k < l2.len() {
                assert(l2[k] == x);
                if !l.contains(x) {
                    let j = choose|j: int| 0 <= j < e.len() && e[j] == x;
                    assert(extra[j] == x);
                }
            } else {
                assert(extra[extra.len() - 1] == x);
            }
        }
    }
}

proof fn lemma_add_missing_noop(l: Seq<Seq<char>>, extra: Seq<Seq<char>>)
    requires
        forall|i: int| 0 <= i < extra.len() ==> l.contains(#[trigger] extra[i]),
    ensures
        add_missing(l, extra) == l,
    decreases extra.len(),
{
    if extra.len() > 0 {
        let e = extra.drop_last();
        assert forall|i: int| 0 <= i < e.len() implies l.contains(#[trigger] e[i]) by {
            assert(e[i] == extra[i]);
        }
        lemma_add_missing_noop(l, e);
        assert(l.contains(extra[extra.len() - 1]));
    }
}

/// Under Crostini the display allowlist keeps its entries, in order, at its
/// front, and then holds each of the four proxy displays.
pub proof fn lemma_crostini_defaults_present(l: Seq<Seq<char>>)
    ensures
        with_crostini(l, true).subrange(0, l.len() as int) == l,
        forall|i: int|
            0 <= i < crostini_display_defaults().len() ==> with_crostini(l, true).contains(
                #[trigger] crostini_display_defaults()[i],
            ),
        forall|x: Seq<char>|
            with_crostini(l, true).contains(x) ==> l.contains(x) || crostini_display_defaults().contains(x),
{
    lemma_add_missing_props(l, crostini_display_defaults());
}

/// Applying the Crostini defaults a second time changes nothing.
pub proof fn lemma_crostini_defaults_idempotent(l: Seq<Seq<char>>, crostini: bool)
    ensures
        with_crostini(with_crostini(l, crostini), crostini) == with_crostini(l, crostini),
{
    if crostini {
        lemma_add_missing_props(l, crostini_display_defaults());
        lemma_add_missing_noop(with_crostini(l, true), crostini_display_defaults());
    }
}

/// Every display on the allowlist is allowed.
pub proof fn lemma_listed_display_allowed(c: AppConfig, i: int, crostini: bool)
    requires
        0 <= i < c.allowlist.displays().len(),
    ensures
        c.display_allowed(c.allowlist.displays()[i], crostini),
{
    assert(display_entry_matches(c.allowlist.displays()[i], c.allowlist.displays()[i]));
}

/// Under Crostini the proxy displays `X1`, `:1`, `X20` and `:20` are always allowed.
pub proof fn lemma_crostini_proxies_allowed(c: AppConfig)
    ensures
        c.display_allowed("X1"@, true),
        c.display_allowed(":1"@, true),
        c.display_allowed("X20"@, true),
        c.display_allowed(":20"@, true),
{
    reveal_strlit("X1");
    reveal_strlit(":1");
    reveal_strlit("X20");
    reveal_strlit(":20");
    assert(trim("X1"@) == "X1"@) by {
        assert(trim_start("X1"@) == "X1"@);
        assert(trim_end("X1"@) == "X1"@);
    }
    assert(trim(":1"@) == ":1"@) by {
        assert(trim_start(":1"@) == ":1"@);
        assert(trim_end(":1"@) == ":1"@);
    }
    assert(trim("X20"@) == "X20"@) by {
        assert(trim_start("X20"@) == "X20"@);
        assert(trim_end("X20"@) == "X20"@);
    }
    assert(trim(":20"@) == ":20"@) by {
        assert(trim_start(":20"@) == ":20"@);
        assert(trim_end(":20"@) == ":20"@);
    }
}

proof fn lemma_trim_end_after_char(c: char, r: Seq<char>)
    requires
        !is_ws(c),
    ensures
        trim_end(seq![c] + r) == seq![c] + trim_end(r),
    decreases r.len(),
{
    let s = seq![c] + r;
    if r.len() > 0 && is_ws(r.last()) {
        assert(s.last() == r.last());
        assert(s.drop_last() =~= seq![c] + r.drop_last());
        lemma_trim_end_after_char(c, r.drop_last());
    } else if r.len() == 0 {
        assert(s =~= seq![c]);
        assert(seq![c] + trim_end(r) =~= seq![c]);
    } else {
        assert(s.last() == r.last());
    }
}

proof fn lemma_trim_after_char(c: char, r: Seq<char>)
    requires
        !is_ws(c),
    ensures
        trim(seq![c] + r) == seq![c] + trim_end(r),
{
    let s = seq![c] + r;
    assert(s[0] == c);
    assert(trim_start(s) == s);
    lemma_trim_end_after_char(c, r);
}

/// A display written with a leading `X` is allowed exactly when the same
/// display written with a leading `:` is.
pub proof fn lemma_display_prefix_symmetry(c: AppConfig, rest: Seq<char>, crostini: bool)
    ensures
        c.display_allowed(seq!['X'] + rest, crostini) == c.display_allowed(
            seq![':'] + rest,
            crostini,
        ),
{
    let dx = seq!['X'] + rest;
    let dc = seq![':'] + rest;
    assert(dx.drop_first() =~= rest);
    assert(dc.drop_first() =~= rest);
    lemma_trim_after_char('X', rest);
    lemma_trim_after_char(':', rest);
    let u = trim_end(rest);
    let tx = seq!['X'] + u;
    let tc = seq![':'] + u;
    assert(tx.drop_first() =~= u);
    assert(tc.drop_first() =~= u);
    assert(display_number(tx) == display_number(tc));
    reveal_strlit("X1");
    reveal_strlit(":1");
    reveal_strlit("X20");
    reveal_strlit(":20");
    assert((tx == "X1"@) == (tc == ":1"@)) by {
        if tx == "X1"@ {
            assert(u =~= seq!['1']);
            assert(tc =~= ":1"@);
        }
        if tc == ":1"@ {
            assert(u =~= seq!['1']);
            assert(tx =~= "X1"@);
        }
    }
    assert((tx == "X20"@) == (tc == ":20"@)) by {
        if tx == "X20"@ {
            assert(u =~= seq!['2', '0']);
            assert(tc =~= ":20"@);
        }
        if tc == ":20"@ {
            assert(u =~= seq!['2', '0']);
            assert(tx =~= "X20"@);
        }
    }
    assert(tx != ":1"@ && tx != ":20"@ && tc != "X1"@ && tc != "X20"@) by {
        assert(tx[0] == 'X');
        assert(tc[0] == ':');
    }
    assert(crostini_proxy_display(dx) == crostini_proxy_display(dc));
    let l = c.allowlist.displays();
    assert forall|i: int| 0 <= i < l.len() implies display_entry_matches(#[trigger] l[i], dx)
        == display_entry_matches(l[i], dc) by {
        let d = l[i];
        if d == dx {
            assert(d[0] == 'X' && d.drop_first() == rest);
        }
        if d == dc {
            assert(d[0] == ':' && d.drop_first() == rest);
        }
        if d.len() > 0 && d[0] == 'X' && d.drop_first() == rest {
            assert(d =~= dx);
        }
        if d.len() > 0 && d[0] == ':' && d.drop_first() == rest {
            assert(d =~= dc);
        }
    }
    assert(listed_display(l, dx) == listed_display(l, dc)) by {
        if listed_display(l, dx) {
            let i = choose|i: int| 0 <= i < l.len() && display_entry_matches(l[i], dx);
            assert(display_entry_matches(l[i], dc));
        }
        if listed_display(l, dc) {
            let i = choose|i: int| 0 <= i < l.len() && display_entry_matches(l[i], dc);
            assert(display_entry_matches(l[i], dx));
        }
    }
}

/// The configuration path resolution prefers, in order, the invoking user's
/// file under `sudo`, the home directory's, and `/etc/kiss/config`, taking the
/// first that exists; without a `sudo` user, a missing home file and an
/// existing system-wide file give the system-wide path. When none exists, the
/// path is the `sudo` user's, else the home directory's. The chosen path is
/// always one of the candidates.
pub proof fn lemma_config_path_priority(
    sudo: Option<Seq<char>>,
    home: Seq<char>,
    etc: Seq<char>,
    sudo_exists: bool,
    home_exists: bool,
    etc_exists: bool,
)
    ensures
        chosen_config_path(None, home, etc, sudo_exists, false, true) == etc,
        sudo is Some && sudo_exists ==> chosen_config_path(
            sudo,
            home,
            etc,
            sudo_exists,
            home_exists,
            etc_exists,
        ) == sudo->0,
        !(sudo is Some && sudo_exists) && home_exists ==> chosen_config_path(
            sudo,
            home,
            etc,
            sudo_exists,
            home_exists,
            etc_exists,
        ) == home,
        !(sudo is Some && sudo_exists) && !home_exists && etc_exists ==> chosen_config_path(
            sudo,
            home,
            etc,
            sudo_exists,
            home_exists,
            etc_exists,
        ) == etc,
        !(sudo is Some && sudo_exists) && !home_exists && !etc_exists ==> chosen_config_path(
            sudo,
            home,
            etc,
            sudo_exists,
            home_exists,
            etc_exists,
        ) == (if sudo is Some {
            sudo->0
        } else {
            home
        }),
        ({
            let p = chosen_config_path(sudo, home, etc, sudo_exists, home_exists, etc_exists);
            p == home || p == etc || (sudo is Some && p == sudo->0)
        }),
{
}

/// Under Crostini, with nothing on the display allowlist, the only displays
/// allowed are those of the display proxies: a display whose index is neither
/// 1 nor 20 is not allowed, and those with index 1 or 20 are.
pub proof fn lemma_crostini_allows_only_proxy_indices(c: AppConfig, d: Seq<char>, n: nat)
    requires
        c.allowlist.displays().len() == 0,
        display_number(trim(d)) == Some(n),
    ensures
        n != 1 && n != 20 ==> !c.display_allowed(d, true),
        n == 1 || n == 20 ==> c.display_allowed(d, true),
        !c.display_allowed(d, false),
{
    let t = trim(d);
    reveal_strlit("X1");
    reveal_strlit(":1");
    reveal_strlit("X20");
    reveal_strlit(":20");
    if t == "X1"@ || t == ":1"@ {
        assert(t.drop_first() =~= seq!['1']);
        assert(parse_u32(seq!['1']) == Some(1nat)) by {
            reveal_with_fuel(crate::text::digits_value, 2);
            assert(seq!['1'].drop_last() =~= Seq::<char>::empty());
        }
    }
    if t == "X20"@ || t == ":20"@ {
        assert(t.drop_first() =~= seq!['2', '0']);
        assert(parse_u32(seq!['2', '0']) == Some(20nat)) by {
            reveal_with_fuel(crate::text::digits_value, 3);
            assert(seq!['2', '0'].drop_last() =~= seq!['2']);
            assert(seq!['2'].drop_last() =~= Seq::<char>::empty());
        }
    }
}

} // verus!

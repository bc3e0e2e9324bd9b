//! Run configuration: the per-invocation state built from defaults, then a
//! configuration file, then explicit overrides, and the validation that goes
//! with it.

use vstd::prelude::*;
use crate::strutil::{
    trim, trim_spec, str_eq, parse_u64, spec_parse_u64, first_occ, find_char_from,
    lemma_first_occ_none, lemma_first_occ_unique,
};
use vstd::string::*;

verus! {

/// Which registry field a search term matches against.
#[derive(Debug, Clone, Copy)]
pub enum SearchBy {
    Name,
    NameDesc,
    Maintainer,
}

/// Direction in which ranked results are returned.
#[derive(Debug, Clone, Copy)]
pub enum SortOrder {
    Forward,
    Reverse,
}

/// The comparator a run sorts results by.  A closed set of named strategies,
/// dispatched in `package::compare_by`.
#[derive(Debug, Clone, Copy)]
pub enum SortKey {
    Name,
    Version,
    Maintainer,
    Votes,
    Popularity,
    OutOfDate,
    LastModified,
    FirstSubmitted,
}

/// Logging verbosity for one run.
#[derive(Debug, Clone, Copy)]
pub enum LogLevel {
    Error,
    Warn,
    Info,
    Debug,
    Trace,
}

/// The set of operations requested for one run.
#[derive(Debug, Clone, Copy, PartialEq, Eq, Structural)]
pub struct OpMask {
    pub search: bool,
    pub info: bool,
    pub download: bool,
    pub update: bool,
}

/// A fault while loading or setting configuration.
#[derive(Debug)]
pub enum ConfigError {
    TargetDirNotAbsolute { path: String },
    TargetDirNotDir { path: String },
    InvalidMaxThreadArg { val: String },
    InvalidConnectTimeoutArg { val: String },
    InvalidColorArg { val: String },
    InvalidSearchByArg { val: String },
    InvalidSortByArg { val: String },
}

/// The state for one invocation.  Built once from defaults, overridden by the
/// configuration file and then by explicit flags, read-only afterwards.
pub struct Config {
    pub aur_domain: String,
    pub search_by: SearchBy,
    pub working_dir: String,
    pub delim: String,
    pub format: String,
    pub opmask: OpMask,
    pub loglevel: LogLevel,
    pub color: bool,
    pub sortorder: SortOrder,
    pub sort_key: SortKey,
    pub force: bool,
    pub getdeps: bool,
    pub literal: bool,
    pub quiet: bool,
    pub skiprepos: bool,
    pub srcinfo: bool,
    pub maxthreads: u64,
    pub timeout: u64,
    pub ignore_pkgs: Vec<String>,
    pub ignore_repos: Vec<String>,
    pub args: Vec<String>,
}

/// The mathematical model of a `Config`: every string as its character
/// sequence.
pub struct ConfigView {
    pub aur_domain: Seq<char>,
    pub search_by: SearchBy,
    pub working_dir: Seq<char>,
    pub delim: Seq<char>,
    pub format: Seq<char>,
    pub opmask: OpMask,
    pub loglevel: LogLevel,
    pub color: bool,
    pub sortorder: SortOrder,
    pub sort_key: SortKey,
    pub force: bool,
    pub getdeps: bool,
    pub literal: bool,
    pub quiet: bool,
    pub skiprepos: bool,
    pub srcinfo: bool,
    pub maxthreads: u64,
    pub timeout: u64,
    pub ignore_pkgs: Seq<Seq<char>>,
    pub ignore_repos: Seq<Seq<char>>,
    pub args: Seq<Seq<char>>,
}

impl View for Config {
    type V = ConfigView;

    open spec fn view(&self) -> ConfigView {
        ConfigView {
            aur_domain: self.aur_domain@,
            search_by: self.search_by,
            working_dir: self.working_dir@,
            delim: self.delim@,
            format: self.format@,
            opmask: self.opmask,
            loglevel: self.loglevel,
            color: self.color,
            sortorder: self.sortorder,
            sort_key: self.sort_key,
            force: self.force,
            getdeps: self.getdeps,
            literal: self.literal,
            quiet: self.quiet,
            skiprepos: self.skiprepos,
            srcinfo: self.srcinfo,
            maxthreads: self.maxthreads,
            timeout: self.timeout,
            ignore_pkgs: self.ignore_pkgs.deep_view(),
            ignore_repos: self.ignore_repos.deep_view(),
            args: self.args.deep_view(),
        }
    }
}

/// Effect of `set_color` on a configuration: the new configuration, or the
/// rejected (trimmed) token.
pub open spec fn spec_set_color(cfg: Config, tok: Seq<char>, stdout_tty: bool) -> Result<
    Config,
    Seq<char>,
> {
    let t = trim_spec(tok);
    if t == "auto"@ {
        Ok(Config { color: stdout_tty, ..cfg })
    } else if t == "always"@ {
        Ok(Config { color: true, ..cfg })
    } else if t == "never"@ {
        Ok(Config { color: false, ..cfg })
    } else {
        Err(t)
    }
}

/// Effect of `set_search_by` on a configuration.
pub open spec fn spec_set_search_by(cfg: Config, tok: Seq<char>) -> Result<Config, Seq<char>> {
    let t = trim_spec(tok);
    if t == "maintainer"@ {
        Ok(Config { search_by: SearchBy::Maintainer, ..cfg })
    } else if t == "name-desc"@ {
        Ok(Config { search_by: SearchBy::NameDesc, ..cfg })
    } else if t == "name"@ {
        Ok(Config { search_by: SearchBy::Name, ..cfg })
    } else {
        Err(t)
    }
}

impl Config {
    /// A fresh configuration with the documented defaults and the given sort
    /// key.
    pub fn new(sort_key: SortKey) -> (r: Config)
        ensures
            r.aur_domain@ == "aur.archlinux.org"@,
            r.search_by is NameDesc,
            r.working_dir@ == Seq::<char>::empty(),
            r.delim@ == "  "@,
            r.format@ == Seq::<char>::empty(),
            r.opmask == (OpMask { search: false, info: false, download: false, update: false }),
            r.loglevel is Info,
            r.color == false,
            r.sortorder is Forward,
            r.sort_key == sort_key,
            r.force == false,
            r.getdeps == false,
            r.literal == false,
            r.quiet == false,
            r.skiprepos == false,
            r.srcinfo == false,
            r.maxthreads == 10,
            r.timeout == 10,
            r.ignore_pkgs@ == Seq::<String>::empty(),
            r.ignore_repos@ == Seq::<String>::empty(),
            r.args@ == Seq::<String>::empty(),
    {
        Config {
            aur_domain: String::from_str("aur.archlinux.org"),
            search_by: SearchBy::NameDesc,
            working_dir: String::new(),
            delim: String::from_str("  "),
            format: String::new(),
            opmask: OpMask { search: false, info: false, download: false, update: false },
            loglevel: LogLevel::Info,
            color: false,
            sortorder: SortOrder::Forward,
            sort_key,
            force: false,
            getdeps: false,
            literal: false,
            quiet: false,
            skiprepos: false,
            srcinfo: false,
            maxthreads: 10,
            timeout: 10,
            ignore_pkgs: Vec::new(),
            ignore_repos: Vec::new(),
            args: Vec::new(),
        }
    }

    /// Set colored output from a token.  `"always"` and `"never"` set it
    /// directly; `"auto"` takes whether standard output is an interactive
    /// terminal, which the caller reports in `stdout_tty`.
    pub fn set_color(&mut self, color: &str, stdout_tty: bool) -> (r: Result<(), ConfigError>)
        ensures
            match spec_set_color(*old(self), color@, stdout_tty) {
                Ok(cfg) => r is Ok && *final(self) == cfg,
                Err(t) => *final(self) == *old(self) && match r {
                    Err(ConfigError::InvalidColorArg { val }) => val@ == t,
                    _ => false,
                },
            },
    {
        let t = trim(color);
        if str_eq(t, "auto") {
            self.color = stdout_tty;
            Ok(())
        } else if str_eq(t, "always") {
            self.color = true;
            Ok(())
        } else if str_eq(t, "never") {
            self.color = false;
            Ok(())
        } else {
            Err(ConfigError::InvalidColorArg { val: String::from_str(t) })
        }
    }

    /// Set the search field from one of the tokens `"name"`, `"name-desc"`,
    /// `"maintainer"`.
    pub fn set_search_by(&mut self, by: &str) -> (r: Result<(), ConfigError>)
        ensures
            match spec_set_search_by(*old(self), by@) {
                Ok(cfg) => r is Ok && *final(self) == cfg,
                Err(t) => *final(self) == *old(self) && match r {
                    Err(ConfigError::InvalidSearchByArg { val }) => val@ == t,
                    _ => false,
                },
            },
    {
        let t = trim(by);
        if str_eq(t, "maintainer") {
            self.search_by = SearchBy::Maintainer;
            Ok(())
        } else if str_eq(t, "name-desc") {
            self.search_by = SearchBy::NameDesc;
            Ok(())
        } else if str_eq(t, "name") {
            self.search_by = SearchBy::Name;
            Ok(())
        } else {
            Err(ConfigError::InvalidSearchByArg { val: String::from_str(t) })
        }
    }

    /// Record the requested operations.  `search`, `update`, `info` and
    /// `download` flag those operations; `download_twice` additionally asks
    /// for dependency downloads; `msearch` is the maintainer-search shortcut,
    /// which forces a search by maintainer.
    pub fn parse_operations(
        &mut self,
        search: bool,
        update: bool,
        info: bool,
        download: bool,
        download_twice: bool,
        msearch: bool,
    )
        ensures
            *final(self) == (Config {
                opmask: OpMask {
                    search: old(self).opmask.search || search || msearch,
                    update: old(self).opmask.update || update,
                    info: old(self).opmask.info || info,
                    download: old(self).opmask.download || download,
                },
                getdeps: old(self).getdeps || (download && download_twice),
                search_by: if msearch {
                    SearchBy::Maintainer
                } else {
                    old(self).search_by
                },
                ..*old(self)
            }),
    {
        self.opmask = OpMask {
            search: self.opmask.search || search || msearch,
            update: self.opmask.update || update,
            info: self.opmask.info || info,
            download: self.opmask.download || download,
        };
        self.getdeps = self.getdeps || (download && download_twice);
        if msearch {
            self.search_by = SearchBy::Maintainer;
        }
    }
}

// ---------------------------------------------------------------------------
// Configuration-file parsing
// ---------------------------------------------------------------------------

/// What `parse_config_lines` asks of its caller: either the file is fully
/// consumed, or the recorded working directory must be checked on disk before
/// parsing resumes at `next_line`.
#[derive(Debug)]
pub enum ParseStep {
    Done,
    CheckDir { val: String, next_line: usize },
}

/// The kind of a configuration error, for use in contracts.
pub enum ConfigErrKind {
    DirNotDir,
    DirNotAbsolute,
    BadMaxThreads,
    BadTimeout,
    BadColor,
}

/// Does `e` carry the kind `k` with the string `payload`?
pub open spec fn err_is(e: ConfigError, k: ConfigErrKind, payload: Seq<char>) -> bool {
    match e {
        ConfigError::TargetDirNotDir { path } => k is DirNotDir && path@ == payload,
        ConfigError::TargetDirNotAbsolute { path } => k is DirNotAbsolute && path@ == payload,
        ConfigError::InvalidMaxThreadArg { val } => k is BadMaxThreads && val@ == payload,
        ConfigError::InvalidConnectTimeoutArg { val } => k is BadTimeout && val@ == payload,
        ConfigError::InvalidColorArg { val } => k is BadColor && val@ == payload,
        _ => false,
    }
}

/// `val` joined onto `cur` as paths are joined: an absolute `val` replaces
/// `cur`, anything else is appended behind a separator.
pub open spec fn join_path_spec(cur: Seq<char>, val: Seq<char>) -> Seq<char> {
    if val.len() > 0 && val[0] == '/' {
        val
    } else if cur.len() == 0 {
        val
    } else if cur[cur.len() - 1] == '/' {
        cur + val
    } else {
        cur + seq!['/'] + val
    }
}

/// Outcome of interpreting configuration lines from some position on.
pub enum SpecParseResult {
    Done { cfg: ConfigView, warnings: Seq<Seq<char>> },
    Pause { cfg: ConfigView, val: Seq<char>, next: int, warnings: Seq<Seq<char>> },
    Fail { cfg: ConfigView, kind: ConfigErrKind, payload: Seq<char>, warnings: Seq<Seq<char>> },
}

/// Interpret the configuration lines from line `i` on: blank lines and `#`
/// comments are skipped, `Key = Value` lines take effect, a `TargetDir` line
/// pauses for the caller's directory check, and bad values fail.  Lines that
/// do not split at exactly one `=` are ignored; unknown keys are collected as
/// warnings.
pub open spec fn spec_parse_lines(
    cfg: ConfigView,
    lines: Seq<Seq<char>>,
    i: int,
    stdout_tty: bool,
    warnings: Seq<Seq<char>>,
) -> SpecParseResult
    decreases lines.len() - i,
{
    if i < 0 || i >= lines.len() {
        SpecParseResult::Done { cfg, warnings }
    } else {
        let line = trim_spec(lines[i]);
        if line.len() == 0 || line[0] == '#' {
            spec_parse_lines(cfg, lines, i + 1, stdout_tty, warnings)
        } else {
            match first_occ(line, '=') {
                None => spec_parse_lines(cfg, lines, i + 1, stdout_tty, warnings),
                Some(e1) => if first_occ(line.skip(e1 as int + 1), '=') is Some {
                    spec_parse_lines(cfg, lines, i + 1, stdout_tty, warnings)
                } else {
                    match spec_apply_kv(
                        cfg,
                        warnings,
                        trim_spec(line.take(e1 as int)),
                        trim_spec(line.skip(e1 as int + 1)),
                        stdout_tty,
                    ) {
                        SpecKvResult::Applied { cfg: cfg2, warnings: w2 } => spec_parse_lines(
                            cfg2,
                            lines,
                            i + 1,
                            stdout_tty,
                            w2,
                        ),
                        SpecKvResult::NeedDir { cfg: cfg2, val } => SpecParseResult::Pause {
                            cfg: cfg2,
                            val,
                            next: i + 1,
                            warnings,
                        },
                        SpecKvResult::Reject { kind, payload } => SpecParseResult::Fail {
                            cfg,
                            kind,
                            payload,
                            warnings,
                        },
                    }
                },
            }
        }
    }
}

/// Effect of one recognized `key = val` line on the configuration.
pub enum SpecKvResult {
    Applied { cfg: ConfigView, warnings: Seq<Seq<char>> },
    NeedDir { cfg: ConfigView, val: Seq<char> },
    Reject { kind: ConfigErrKind, payload: Seq<char> },
}

/// The configuration keys a file may carry.
pub enum KeyKind {
    IgnoreRepo,
    IgnorePkg,
    TargetDir,
    MaxThreads,
    ConnectTimeout,
    Color,
    Unknown,
}

/// Which configuration key `key` names.
pub open spec fn key_kind(key: Seq<char>) -> KeyKind {
    if key == "IgnoreRepo"@ {
        KeyKind::IgnoreRepo
    } else if key == "IgnorePkg"@ {
        KeyKind::IgnorePkg
    } else if key == "TargetDir"@ {
        KeyKind::TargetDir
    } else if key == "MaxThreads"@ {
        KeyKind::MaxThreads
    } else if key == "ConnectTimeout"@ {
        KeyKind::ConnectTimeout
    } else if key == "Color"@ {
        KeyKind::Color
    } else {
        KeyKind::Unknown
    }
}

/// Recognize a configuration key.
fn classify_key(key: &str) -> (k: KeyKind)
    ensures
        k == key_kind(key@),
{
    if str_eq(key, "IgnoreRepo") {
        KeyKind::IgnoreRepo
    } else if str_eq(key, "IgnorePkg") {
        KeyKind::IgnorePkg
    } else if str_eq(key, "TargetDir") {
        KeyKind::TargetDir
    } else if str_eq(key, "MaxThreads") {
        KeyKind::MaxThreads
    } else if str_eq(key, "ConnectTimeout") {
        KeyKind::ConnectTimeout
    } else if str_eq(key, "Color") {
        KeyKind::Color
    } else {
        KeyKind::Unknown
    }
}

/// Apply one `key = val` line: exclusion keys append, `TargetDir` records the
/// joined directory and asks for a check, the numeric keys parse, `Color`
/// goes through the color tokens, and an unknown key becomes a warning.
pub open spec fn spec_apply_kv(
    cfg: ConfigView,
    warnings: Seq<Seq<char>>,
    key: Seq<char>,
    val: Seq<char>,
    stdout_tty: bool,
) -> SpecKvResult {
    match key_kind(key) {
        KeyKind::IgnoreRepo => SpecKvResult::Applied {
            cfg: ConfigView { ignore_repos: cfg.ignore_repos.push(val), ..cfg },
            warnings,
        },
        KeyKind::IgnorePkg => SpecKvResult::Applied {
            cfg: ConfigView { ignore_pkgs: cfg.ignore_pkgs.push(val), ..cfg },
            warnings,
        },
        KeyKind::TargetDir => SpecKvResult::NeedDir {
            cfg: ConfigView { working_dir: join_path_spec(cfg.working_dir, val), ..cfg },
            val,
        },
        KeyKind::MaxThreads => match spec_parse_u64(val) {
            Some(v) => SpecKvResult::Applied { cfg: ConfigView { maxthreads: v, ..cfg }, warnings },
            None => SpecKvResult::Reject { kind: ConfigErrKind::BadMaxThreads, payload: val },
        },
        KeyKind::ConnectTimeout => match spec_parse_u64(val) {
            Some(v) => SpecKvResult::Applied { cfg: ConfigView { timeout: v, ..cfg }, warnings },
            None => SpecKvResult::Reject { kind: ConfigErrKind::BadTimeout, payload: val },
        },
        KeyKind::Color => {
            let t = trim_spec(val);
            if t == "auto"@ {
                SpecKvResult::Applied { cfg: ConfigView { color: stdout_tty, ..cfg }, warnings }
            } else if t == "always"@ {
                SpecKvResult::Applied { cfg: ConfigView { color: true, ..cfg }, warnings }
            } else if t == "never"@ {
                SpecKvResult::Applied { cfg: ConfigView { color: false, ..cfg }, warnings }
            } else {
                SpecKvResult::Reject { kind: ConfigErrKind::BadColor, payload: t }
            }
        },
        KeyKind::Unknown => SpecKvResult::Applied { cfg, warnings: warnings.push(key) },
    }
}

/// Append `val` to `cur` as paths are joined.
pub fn join_path(cur: &str, val: &str) -> (r: String)
    ensures
        r@ == join_path_spec(cur@, val@),
{
    let nv = val.unicode_len();
    let nc = cur.unicode_len();
    if nv > 0 && val.get_char(0) == '/' {
        String::from_str(val)
    } else if nc == 0 {
        String::from_str(val)
    } else if cur.get_char(nc - 1) == '/' {
        let mut out = String::from_str(cur);
        out.append(val);
        out
    } else {
        let mut out = String::from_str(cur);
        out.append("/");
        out.append(val);
        proof {
            reveal_strlit("/");
            assert(out@ =~= cur@ + seq!['/'] + val@);
        }
        out
    }
}

impl Config {
    /// Interpret configuration lines starting at `start`, mutating `self` as
    /// recognized keys direct.  Returns `Done` when the file is consumed, or
    /// `CheckDir` when a `TargetDir` line needs the caller to test that the
    /// new working directory is an existing directory (`confirm_target_dir`)
    /// before calling again with the returned `next_line`.  Unknown keys are
    /// appended to `warnings`.
    pub fn parse_config_lines(
        &mut self,
        lines: &Vec<String>,
        start: usize,
        stdout_tty: bool,
        warnings: &mut Vec<String>,
    ) -> (r: Result<ParseStep, ConfigError>)
        ensures
            match spec_parse_lines(
                old(self)@,
                lines.deep_view(),
                start as int,
                stdout_tty,
                old(warnings).deep_view(),
            ) {
                SpecParseResult::Done { cfg, warnings: w } => r
                    == Ok::<ParseStep, ConfigError>(ParseStep::Done) && final(self)@ == cfg
                    && final(warnings).deep_view() == w,
                SpecParseResult::Pause { cfg, val, next, warnings: w } => final(self)@ == cfg
                    && final(warnings).deep_view() == w && match r {
                    Ok(ParseStep::CheckDir { val: v, next_line }) => v@ == val && next_line == next,
                    _ => false,
                },
                SpecParseResult::Fail { cfg, kind, payload, warnings: w } => final(self)@ == cfg
                    && final(warnings).deep_view() == w && match r {
                    Err(e) => err_is(e, kind, payload),
                    _ => false,
                },
            },
    {
        let nlines = lines.len();
        let mut i: usize = start;
        loop
            invariant
                start <= i,
                nlines == lines@.len(),
                spec_parse_lines(
                    old(self)@,
                    lines.deep_view(),
                    start as int,
                    stdout_tty,
                    old(warnings).deep_view(),
                ) == spec_parse_lines(
                    self@,
                    lines.deep_view(),
                    i as int,
                    stdout_tty,
                    warnings.deep_view(),
                ),
            decreases nlines - i,
        {
            if i >= nlines {
                return Ok(ParseStep::Done);
            }
            let ghost lv = lines.deep_view();
            proof {
                assert(lv[i as int] == lines@[i as int]@);
            }
            let line = trim(lines[i].as_str());
            let n = line.unicode_len();
            let ghost sline = trim_spec(lv[i as int]);
            proof {
                assert(line@ == sline);
            }
            if n == 0 || line.get_char(0) == '#' {
                i = i + 1;
                continue ;
            }
            let e1 = match find_char_from(line, 0, '=') {
                None => {
                    proof {
                        lemma_first_occ_none(sline, '=');
                    }
                    i = i + 1;
                    continue ;
                },
                Some(e1) => e1,
            };
            proof {
                lemma_first_occ_unique(sline, '=', e1 as nat);
            }
            let ghost tail = sline.skip(e1 as int + 1);
            proof {
                assert(forall|j: int| 0 <= j < tail.len() ==> tail[j] == sline[e1 + 1 + j]);
            }
            match find_char_from(line, e1 + 1, '=') {
                Some(e2) => {
                    proof {
                        lemma_first_occ_unique(tail, '=', (e2 - e1 - 1) as nat);
                    }
                    i = i + 1;
                    continue ;
                },
                None => {
                    proof {
                        lemma_first_occ_none(tail, '=');
                    }
                },
            }
            let key = trim(line.substring_char(0, e1));
            let val = trim(line.substring_char(e1 + 1, n));
            let ghost skey = trim_spec(sline.take(e1 as int));
            let ghost sval = trim_spec(tail);
            proof {
                assert(sline.take(e1 as int) =~= sline.subrange(0, e1 as int));
                assert(tail =~= sline.subrange(e1 as int + 1, sline.len() as int));
                assert(key@ == skey);
                assert(val@ == sval);
            }
            match self.apply_kv(key, val, stdout_tty, warnings) {
                Ok(None) => {
                    i = i + 1;
                },
                Ok(Some(v)) => {
                    return Ok(ParseStep::CheckDir { val: v, next_line: i + 1 });
                },
                Err(e) => {
                    return Err(e);
                },
            }
        }
    }

    /// Apply one recognized `key = val` configuration line to `self`.
    /// `Ok(None)` means parsing may continue; `Ok(Some(v))` means a
    /// `TargetDir` line recorded a new working directory that the caller must
    /// check, with `v` the configured value.
    #[verifier::rlimit(100)]
    #[verifier::spinoff_prover]
    fn apply_kv(
        &mut self,
        key: &str,
        val: &str,
        stdout_tty: bool,
        warnings: &mut Vec<String>,
    ) -> (r: Result<Option<String>, ConfigError>)
        ensures
            match spec_apply_kv(old(self)@, old(warnings).deep_view(), key@, val@, stdout_tty) {
                SpecKvResult::Applied { cfg, warnings: w } => r == Ok::<
                    Option<String>,
                    ConfigError,
                >(None) && final(self)@ == cfg && final(warnings).deep_view() == w,
                SpecKvResult::NeedDir { cfg, val: v } => final(self)@ == cfg
                    && final(warnings).deep_view() == old(warnings).deep_view() && match r {
                    Ok(Some(s)) => s@ == v,
                    _ => false,
                },
                SpecKvResult::Reject { kind, payload } => final(self)@ == old(self)@
                    && final(warnings).deep_view() == old(warnings).deep_view() && match r {
                    Err(e) => err_is(e, kind, payload),
                    _ => false,
                },
            },
    {
        match classify_key(key) {
            KeyKind::IgnoreRepo => {
                self.kv_ignore_repo(val);
                Ok(None)
            },
            KeyKind::IgnorePkg => {
                self.kv_ignore_pkg(val);
                Ok(None)
            },
            KeyKind::TargetDir => {
                self.kv_target_dir(val);
                Ok(Some(String::from_str(val)))
            },
            KeyKind::MaxThreads => match parse_u64(val) {
                Some(v) => {
                    self.maxthreads = v;
                    Ok(None)
                },
                None => Err(ConfigError::InvalidMaxThreadArg { val: String::from_str(val) }),
            },
            KeyKind::ConnectTimeout => match parse_u64(val) {
                Some(v) => {
                    self.timeout = v;
                    Ok(None)
                },
                None => Err(ConfigError::InvalidConnectTimeoutArg { val: String::from_str(val) }),
            },
            KeyKind::Color => {
                let t = trim(val);
                if str_eq(t, "auto") {
                    self.color = stdout_tty;
                    Ok(None)
                } else if str_eq(t, "always") {
                    self.color = true;
                    Ok(None)
                } else if str_eq(t, "never") {
                    self.color = false;
                    Ok(None)
                } else {
                    Err(ConfigError::InvalidColorArg { val: String::from_str(t) })
                }
            },
            KeyKind::Unknown => {
                let ghost prevw = warnings.deep_view();
                warnings.push(String::from_str(key));
                proof {
                    assert(warnings.deep_view() =~= prevw.push(key@));
                }
                Ok(None)
            },
        }
    }

    /// Append a repository name to the exclusion set.
    fn kv_ignore_repo(&mut self, val: &str)
        ensures
            final(self)@ == (ConfigView {
                ignore_repos: old(self)@.ignore_repos.push(val@),
                ..old(self)@
            }),
    {
        let ghost prev = self.ignore_repos.deep_view();
        self.ignore_repos.push(String::from_str(val));
        proof {
            assert(self.ignore_repos.deep_view() =~= prev.push(val@));
        }
    }

    /// Append a package name to the exclusion set.
    fn kv_ignore_pkg(&mut self, val: &str)
        ensures
            final(self)@ == (ConfigView {
                ignore_pkgs: old(self)@.ignore_pkgs.push(val@),
                ..old(self)@
            }),
    {
        let ghost prev = self.ignore_pkgs.deep_view();
        self.ignore_pkgs.push(String::from_str(val));
        proof {
            assert(self.ignore_pkgs.deep_view() =~= prev.push(val@));
        }
    }

    /// Join a configured target directory onto the working directory.
    fn kv_target_dir(&mut self, val: &str)
        ensures
            final(self)@ == (ConfigView {
                working_dir: join_path_spec(old(self)@.working_dir, val@),
                ..old(self)@
            }),
    {
        let joined = join_path(self.working_dir.as_str(), val);
        self.working_dir = joined;
    }

    /// Complete a `TargetDir` step: `is_dir` reports whether the recorded
    /// working directory is an existing directory.  It must exist and be
    /// absolute; `val` is the configured value, reported in errors.
    pub fn confirm_target_dir(&self, val: &str, is_dir: bool) -> (r: Result<(), ConfigError>)
        ensures
            r is Ok <==> is_dir && self.working_dir@.len() > 0 && self.working_dir@[0] == '/',
            match r {
                Ok(_) => true,
                Err(e) => if !is_dir {
                    err_is(e, ConfigErrKind::DirNotDir, val@)
                } else {
                    err_is(e, ConfigErrKind::DirNotAbsolute, val@)
                },
            },
    {
        if !is_dir {
            Err(ConfigError::TargetDirNotDir { path: String::from_str(val) })
        } else {
            let wd = self.working_dir.as_str();
            if wd.unicode_len() > 0 && wd.get_char(0) == '/' {
                Ok(())
            } else {
                Err(ConfigError::TargetDirNotAbsolute { path: String::from_str(val) })
            }
        }
    }
}

} // verus!

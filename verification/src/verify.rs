//! The project's verification config and the pure resolution of a check into
//! the argv to run and the output stream to match, and of a check cadence into
//! what the shell should do.

use vstd::prelude::*;
use crate::sorted::{SortedMap, lookup};
use crate::text::{views, copy_strings};

verus! {

/// The run timeout, in seconds, when none is configured.
pub const DEFAULT_TIMEOUT_SECS: u64 = 300;

/// What the per-commit check runs unless the config says otherwise.
pub const DEFAULT_COMMIT: [&'static str; 2] = ["just", "check"];

/// What the end-of-phase check runs unless the config says otherwise.
pub const DEFAULT_GATE: [&'static str; 2] = ["just", "gate"];

/// The regression suite's argv when none is configured: a per-test runner.
pub const DEFAULT_REGRESSION: [&'static str; 3] = ["cargo", "test", "--no-fail-fast"];

/// What the quick cadence prints when it is not configured.
pub const QUICK_UNSET_NOTE: &'static str = "doctrine check quick: no [verification].quick set — skipping";

/// Which output stream a matcher reads.
#[derive(Debug, Clone, Copy, PartialEq, Eq, Structural)]
pub enum MatchSource {
    Stdout,
    Stderr,
}

/// How a check's output is matched.
#[derive(Debug, Clone)]
pub struct Matcher {
    pub source: Option<MatchSource>,
    pub pattern: String,
    pub regex: bool,
}

/// One verification check: a base (an alias, a literal command, or the
/// project default), extra arguments, and a matcher.
#[derive(Debug, Clone)]
pub struct VtCheck {
    pub alias: Option<String>,
    pub command: Option<Vec<String>>,
    pub extra_args: Vec<String>,
    pub matcher: Option<Matcher>,
}

/// The `[verification]` table: every field optional.
#[derive(Debug, Clone)]
pub struct VerificationConfig {
    pub command: Option<Vec<String>>,
    pub default_source: Option<MatchSource>,
    pub timeout_secs: Option<u64>,
    pub aliases: SortedMap<Vec<String>>,
    pub quick: Option<Vec<String>>,
    pub commit: Option<Vec<String>>,
    pub gate: Option<Vec<String>>,
    pub regression: Option<Vec<String>>,
}

impl Default for VerificationConfig {
    /// The config of an absent table: nothing set, no aliases.
    fn default() -> (c: Self)
        ensures
            c.command is None,
            c.default_source is None,
            c.timeout_secs is None,
            c.aliases@ == Seq::<(Seq<char>, Vec<String>)>::empty(),
            c.aliases.wf(),
            c.quick is None,
            c.commit is None,
            c.gate is None,
            c.regression is None,
    {
        VerificationConfig {
            command: None,
            default_source: None,
            timeout_secs: None,
            aliases: SortedMap::new(),
            quick: None,
            commit: None,
            gate: None,
            regression: None,
        }
    }
}

/// The characters of each literal.
pub open spec fn literal_views(argv: Seq<&str>) -> Seq<Seq<char>> {
    argv.map_values(|s: &str| s@)
}

impl VerificationConfig {
    /// The effective run timeout: the configured one, else 300 seconds.
    pub fn timeout_secs(&self) -> (t: u64)
        ensures
            t == match self.timeout_secs {
                Some(t) => t,
                None => DEFAULT_TIMEOUT_SECS,
            },
    {
        match self.timeout_secs {
            Some(t) => t,
            None => DEFAULT_TIMEOUT_SECS,
        }
    }

    /// The regression suite's argv: the configured one, else the default.
    pub fn regression_argv(&self) -> (argv: Vec<String>)
        ensures
            views(argv@) == match self.regression {
                Some(r) => views(r@),
                None => literal_views(DEFAULT_REGRESSION@),
            },
    {
        match &self.regression {
            Some(r) => copy_strings(r),
            None => owned(&DEFAULT_REGRESSION),
        }
    }
}

/// A runnable check: the argv to spawn and the stream to match.
#[derive(Debug, Clone)]
pub struct Resolved {
    pub argv: Vec<String>,
    pub source: MatchSource,
}

/// Why a check could not be resolved.
#[derive(Debug, Clone, Copy, PartialEq, Eq, Structural)]
pub enum ResolveError {
    BothAliasAndCommand,
    UnknownAlias,
    NoRunnable,
}

/// The base argv of a check: its alias looked up in the config's aliases, or
/// its literal command, or the project default command.
pub open spec fn base_argv_spec(cfg: VerificationConfig, check: VtCheck) -> Result<Seq<Seq<char>>, ResolveError> {
    if check.alias is Some && check.command is Some {
        Err(ResolveError::BothAliasAndCommand)
    } else {
        match check.alias {
            Some(a) => match lookup(cfg.aliases@, a@) {
                Some(v) => Ok(views(v@)),
                None => Err(ResolveError::UnknownAlias),
            },
            None => match check.command {
                Some(c) => Ok(views(c@)),
                None => match cfg.command {
                    Some(c) => Ok(views(c@)),
                    None => Err(ResolveError::NoRunnable),
                },
            },
        }
    }
}

/// The stream to match: the check's matcher's, else the config default, else
/// stdout.
pub open spec fn source_spec(cfg: VerificationConfig, check: VtCheck) -> MatchSource {
    match check.matcher {
        Some(m) if m.source is Some => m.source.unwrap(),
        _ => match cfg.default_source {
            Some(s) => s,
            None => MatchSource::Stdout,
        },
    }
}

/// Resolve a check against the config: the base argv followed by the
/// check's extra arguments, and the effective match source.
pub fn resolve(cfg: &VerificationConfig, check: &VtCheck) -> (r: Result<Resolved, ResolveError>)
    ensures
        match base_argv_spec(*cfg, *check) {
            Ok(base) => r matches Ok(res) && views(res.argv@) == base + views(check.extra_args@)
                && res.source == source_spec(*cfg, *check),
            Err(e) => r matches Err(e2) && e2 == e,
        },
{
    if check.alias.is_some() && check.command.is_some() {
        return Err(ResolveError::BothAliasAndCommand);
    }
    let mut argv = match &check.alias {
        Some(alias) => match cfg.aliases.get(alias.as_str()) {
            Some(v) => copy_strings(v),
            None => {
                return Err(ResolveError::UnknownAlias);
            },
        },
        None => match &check.command {
            Some(c) => copy_strings(c),
            None => match &cfg.command {
                Some(c) => copy_strings(c),
                None => {
                    return Err(ResolveError::NoRunnable);
                },
            },
        },
    };
    let ghost base = argv@;
    let mut i: usize = 0;
    while i < check.extra_args.len()
        invariant
            i <= check.extra_args@.len(),
            argv@ == base + check.extra_args@.take(i as int),
        decreases check.extra_args.len() - i,
    {
        argv.push(check.extra_args[i].clone());
        i = i + 1;
        assert(argv@ =~= base + check.extra_args@.take(i as int));
    }
    assert(check.extra_args@.take(i as int) =~= check.extra_args@);
    assert(views(argv@) =~= views(base) + views(check.extra_args@));
    let source = match &check.matcher {
        Some(m) => match m.source {
            Some(s) => s,
            None => match cfg.default_source {
                Some(s) => s,
                None => MatchSource::Stdout,
            },
        },
        None => match cfg.default_source {
            Some(s) => s,
            None => MatchSource::Stdout,
        },
    };
    Ok(Resolved { argv, source })
}

/// The three check cadences.
#[derive(Debug, Clone, Copy, PartialEq, Eq, Structural)]
pub enum CheckKind {
    Quick,
    Commit,
    Gate,
}

/// The config key of a cadence.
pub open spec fn check_key_spec(k: CheckKind) -> Seq<char> {
    match k {
        CheckKind::Quick => "quick"@,
        CheckKind::Commit => "commit"@,
        CheckKind::Gate => "gate"@,
    }
}

impl CheckKind {
    /// The `[verification]` key that configures this cadence.
    pub fn key(self) -> (s: &'static str)
        ensures
            s@ == check_key_spec(self),
    {
        match self {
            CheckKind::Quick => "quick",
            CheckKind::Commit => "commit",
            CheckKind::Gate => "gate",
        }
    }
}

/// What the shell does for a cadence: run an argv, print a note and succeed,
/// or refuse an empty override by its key.
#[derive(Debug, Clone)]
pub enum CheckPlan {
    Run(Vec<String>),
    Noop(&'static str),
    Empty(CheckKind),
}

/// The override configured for a cadence.
pub open spec fn override_for(cfg: VerificationConfig, kind: CheckKind) -> Option<Vec<String>> {
    match kind {
        CheckKind::Quick => cfg.quick,
        CheckKind::Commit => cfg.commit,
        CheckKind::Gate => cfg.gate,
    }
}

/// Resolve a cadence: a non-empty override runs as given; an empty one is
/// refused by its key; without one, quick is an owned no-op and commit and
/// gate run their defaults.
pub fn resolve_check(cfg: &VerificationConfig, kind: CheckKind) -> (p: CheckPlan)
    ensures
        match override_for(*cfg, kind) {
            Some(v) => if v@.len() == 0 {
                p == CheckPlan::Empty(kind)
            } else {
                p matches CheckPlan::Run(argv) && argv@ == v@
            },
            None => match kind {
                CheckKind::Quick => p matches CheckPlan::Noop(note) && note@ == QUICK_UNSET_NOTE@,
                CheckKind::Commit => p matches CheckPlan::Run(argv) && views(argv@) == literal_views(DEFAULT_COMMIT@),
                CheckKind::Gate => p matches CheckPlan::Run(argv) && views(argv@) == literal_views(DEFAULT_GATE@),
            },
        },
{
    let over = match kind {
        CheckKind::Quick => &cfg.quick,
        CheckKind::Commit => &cfg.commit,
        CheckKind::Gate => &cfg.gate,
    };
    match over {
        Some(argv) => {
            if argv.len() == 0 {
                CheckPlan::Empty(kind)
            } else {
                CheckPlan::Run(copy_strings(argv))
            }
        },
        None => match kind {
            CheckKind::Quick => CheckPlan::Noop(QUICK_UNSET_NOTE),
            CheckKind::Commit => CheckPlan::Run(owned(&DEFAULT_COMMIT)),
            CheckKind::Gate => CheckPlan::Run(owned(&DEFAULT_GATE)),
        },
    }
}

/// Owned strings spelling the given literals, in order.
pub fn owned(argv: &[&str]) -> (r: Vec<String>)
    ensures
        views(r@) == argv@.map_values(|s: &str| s@),
{
    let mut r: Vec<String> = Vec::new();
    let mut i: usize = 0;
    while i < argv.len()
        invariant
            i <= argv@.len(),
            r@.len() == i,
            views(r@) == argv@.map_values(|s: &str| s@).take(i as int),
        decreases argv.len() - i,
    {
        let ghost before = r@;
        r.push(String::from_str(argv[i]));
        proof {
            assert forall|k: int| 0 <= k < i implies #[trigger] views(r@)[k] == views(before)[k] by {
                assert(r@[k] == before[k]);
            }
        }
        i = i + 1;
        assert(views(r@) =~= argv@.map_values(|s: &str| s@).take(i as int));
    }
    assert(argv@.map_values(|s: &str| s@).take(argv@.len() as int) =~= argv@.map_values(|s: &str| s@));
    r
}

} // verus!

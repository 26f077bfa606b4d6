//! The command line: its arguments, what they ask for, and when they are
//! refused.

use vstd::prelude::*;
use vstd::string::*;

use crate::config::{Hooks, TreehouseConfig};
use crate::destroy::{DestroyOptions, DestroyResult, DestroyTargetSpec};
use crate::format::{gc_err, gc_found_nothing, gc_out, render_gc, block, OutputFormat, Rendered};
use crate::gc::{GcOptions, GcResult};
use crate::pool::{LeaseAcquireOptions, ReleasePreconditions, WorktreeStatus};
use crate::prune::{PruneOptions, PruneResult};
use crate::reclaim::CleanupError;
use crate::result::{sweep_scope, CommandResult, SweepScope};
use crate::run::{is_lease_span, lease_span_fits};
use crate::text::{
    copy_list, copy_opt, decimal, decimal_text, ends, ends_with, opt_view, same_text, trim, trimmed, views,
};
use crate::time::{Span, NANOS};
use crate::worktree::flag_views;

verus! {

// ---------- the arguments ----------

/// The whole command line.
#[derive(Clone, Debug, PartialEq, Eq)]
pub struct Cli {
    pub update_check: bool,
    pub format: OutputFormat,
    /// The root of the pools, in place of the configured one.
    pub env_path: Option<String>,
    pub command: Option<Command>,
}

/// What is to be done.
#[derive(Clone, Debug, PartialEq, Eq)]
pub enum Command {
    Get(GetArgs),
    Enter(EnterArgs),
    Return(ReturnArgs),
    Status(StatusArgs),
    Prune(PruneArgs),
    Destroy(DestroyArgs),
    Gc(GcArgs),
    Watch(WatchArgs),
    Run(Vec<String>),
    Doctor(DoctorArgs),
    Init,
    Update,
}

/// Arguments of a get.
#[derive(Clone, Debug, PartialEq, Eq)]
pub struct GetArgs {
    /// Lease the worktree, rather than open a shell in it.
    pub lease: bool,
    pub lease_holder: Option<String>,
    pub ttl: Option<String>,
    pub json: bool,
}

/// Arguments of an enter.
#[derive(Clone, Debug, PartialEq, Eq)]
pub struct EnterArgs {
    pub print_path: bool,
    pub name: String,
}

/// Arguments of a return.
#[derive(Clone, Debug, PartialEq, Eq)]
pub struct ReturnArgs {
    pub force: bool,
    pub if_lease_id: Option<String>,
    pub if_lease_holder: Option<String>,
    pub path: Option<String>,
}

/// Arguments of a status.
#[derive(Clone, Debug, PartialEq, Eq)]
pub struct StatusArgs {
    pub json: bool,
}

/// Arguments of a prune.
#[derive(Clone, Debug, PartialEq, Eq)]
pub struct PruneArgs {
    pub yes: bool,
    pub all: bool,
    pub prune_orphans: bool,
    pub verbose: bool,
}

/// Arguments of a doctor.
#[derive(Clone, Debug, PartialEq, Eq)]
pub struct DoctorArgs {
    pub strict: bool,
}

/// Arguments of a gc.
#[derive(Clone, Debug, PartialEq, Eq)]
pub struct GcArgs {
    pub yes: bool,
    pub all: bool,
    pub prune_orphans: bool,
    pub verbose: bool,
}

/// Arguments of a watch.
#[derive(Clone, Debug, PartialEq, Eq)]
pub struct WatchArgs {
    pub once: bool,
    pub interval: Option<Span>,
    pub yes: bool,
    pub prune_orphans: bool,
}

/// Arguments of a destroy.
#[derive(Clone, Debug, PartialEq, Eq)]
pub struct DestroyArgs {
    pub all: bool,
    pub yes: bool,
    pub include_unlanded: bool,
    pub include_in_use: bool,
    pub include_leased: bool,
    pub path: Option<String>,
}

/// The command of a command line. Without one it is a get that opens a shell.
pub fn command_or_get(command: Option<Command>) -> (r: Command)
    ensures
        match command {
            Some(c) => r == c,
            None => r == Command::Get(
                GetArgs { lease: false, lease_holder: None, ttl: None, json: false },
            ),
        },
{
    match command {
        Some(c) => c,
        None => Command::Get(GetArgs { lease: false, lease_holder: None, ttl: None, json: false }),
    }
}

// ---------- output formats ----------

/// The name of a format.
pub open spec fn format_name(f: OutputFormat) -> Seq<char> {
    match f {
        OutputFormat::Human => "human"@,
        OutputFormat::Json => "json"@,
        OutputFormat::Toon => "toon"@,
    }
}

/// The name of a format.
pub fn format_variant_str(f: OutputFormat) -> (r: &'static str)
    ensures
        r@ == format_name(f),
{
    match f {
        OutputFormat::Human => "human",
        OutputFormat::Json => "json",
        OutputFormat::Toon => "toon",
    }
}

/// The format that is asked for, or why it is refused.
pub open spec fn format_spec(format: OutputFormat, json_flag: bool, allowed: bool) -> Result<
    OutputFormat,
    Seq<char>,
> {
    if json_flag && format == OutputFormat::Toon {
        Err("conflicting output formats: --json and --format "@ + format_name(format))
    } else if json_flag {
        if allowed {
            Ok(OutputFormat::Json)
        } else {
            Err("--json requires --lease"@)
        }
    } else if format == OutputFormat::Human || allowed {
        Ok(format)
    } else {
        Err("--format "@ + format_name(format) + " requires --lease"@)
    }
}

/// The result and what a specification says of it.
pub open spec fn says<T>(r: Result<T, String>, s: Result<T, Seq<char>>) -> bool {
    match r {
        Ok(x) => s == Ok::<T, Seq<char>>(x),
        Err(e) => s == Err::<T, Seq<char>>(e@),
    }
}

/// The format of an output. `--json` stands for the format json and bears no
/// other one beside it. A format for machines is refused where it is not
/// allowed.
pub fn resolve_format(format: OutputFormat, json_flag: bool, allowed: bool) -> (r: Result<
    OutputFormat,
    String,
>)
    ensures
        says(r, format_spec(format, json_flag, allowed)),
{
    if json_flag && format == OutputFormat::Toon {
        let mut e = "conflicting output formats: --json and --format ".to_owned();
        e.append(format_variant_str(format));
        return Err(e);
    }
    let resolved = if json_flag {
        OutputFormat::Json
    } else {
        format
    };
    if resolved != OutputFormat::Human && !allowed {
        if json_flag {
            return Err("--json requires --lease".to_owned());
        }
        let mut e = "--format ".to_owned();
        e.append(format_variant_str(resolved));
        e.append(" requires --lease");
        return Err(e);
    }
    Ok(resolved)
}

/// The format of a get, or why its arguments are refused.
pub open spec fn get_format_spec(format: OutputFormat, args: GetArgs) -> Result<
    OutputFormat,
    Seq<char>,
> {
    match format_spec(format, args.json, args.lease) {
        Err(e) => Err(e),
        Ok(f) => if args.ttl is Some && !args.lease {
            Err("--ttl requires --lease"@)
        } else {
            Ok(f)
        },
    }
}

/// The format of a get. A format for machines and an end of the lease are
/// only for a lease.
pub fn get_format(format: OutputFormat, args: &GetArgs) -> (r: Result<OutputFormat, String>)
    ensures
        says(r, get_format_spec(format, *args)),
{
    let f = match resolve_format(format, args.json, args.lease) {
        Ok(f) => f,
        Err(e) => return Err(e),
    };
    if args.ttl.is_some() && !args.lease {
        return Err("--ttl requires --lease".to_owned());
    }
    Ok(f)
}

// ---------- durations ----------

/// A character of a fraction, or of a unit below a second.
pub open spec fn fine_char(c: char) -> bool {
    c == '.' || c == 'n' || c == 'u' || c == 'µ' || c == 'm'
}

/// The text names no part of a second.
pub open spec fn no_fine_char(s: Seq<char>) -> bool {
    forall|i: int| 0 <= i < s.len() ==> !fine_char(#[trigger] s[i])
}

/// The letter at `i` is followed by this one.
pub open spec fn next_is(s: Seq<char>, i: int, c: char) -> bool {
    i + 1 < s.len() && s[i + 1] == c
}

/// The nanoseconds of the unit that begins at `i`. A year counts where the
/// letter begins no unit.
pub open spec fn unit_nanos(s: Seq<char>, i: int) -> nat {
    let c = s[i];
    if c == 'n' {
        1
    } else if c == 'u' || c == 'µ' {
        1000
    } else if c == 'm' {
        if next_is(s, i, 's') || (next_is(s, i, 'i') && next_is(s, i + 1, 'l')) {
            1_000_000
        } else if next_is(s, i, 'o') {
            2_630_016_000_000_000
        } else {
            60_000_000_000
        }
    } else if c == 's' {
        1_000_000_000
    } else if c == 'h' {
        3_600_000_000_000
    } else if c == 'd' {
        86_400_000_000_000
    } else if c == 'w' {
        604_800_000_000_000
    } else if c == 'M' {
        2_630_016_000_000_000
    } else {
        31_557_600_000_000_000
    }
}

/// How far reading a duration has come: the number that waits for its unit,
/// its fraction, whether that is being read, and the nanoseconds so far.
pub struct Reach {
    pub n: nat,
    pub num: nat,
    pub den: nat,
    pub fraction: bool,
    pub nanos: nat,
}

/// As many digits of a fraction as count.
pub const MAX_DEN: u128 = 10_000_000_000_000_000_000;

/// How far the first `k` characters of a duration come.
pub open spec fn reach(s: Seq<char>, k: nat) -> Reach
    decreases k,
{
    if k == 0 {
        Reach { n: 0, num: 0, den: 1, fraction: false, nanos: 0 }
    } else {
        reach_step(s, k - 1, reach(s, (k - 1) as nat))
    }
}

/// How far the character at `i` comes from there.
pub open spec fn reach_step(s: Seq<char>, i: int, r: Reach) -> Reach {
    let c = s[i];
    if '0' <= c <= '9' {
        let d = (c as int - '0' as int) as nat;
        if !r.fraction {
            Reach { n: r.n * 10 + d, ..r }
        } else if r.den * 10 <= MAX_DEN {
            Reach { num: r.num * 10 + d, den: r.den * 10, ..r }
        } else {
            r
        }
    } else if c == '.' {
        Reach { num: 0, den: 1, fraction: true, ..r }
    } else if ('a' <= c <= 'z') || ('A' <= c <= 'Z') || c == 'µ' {
        let u = unit_nanos(s, i);
        Reach { n: 0, num: 0, den: 1, fraction: false, nanos: r.nanos + r.n * u + r.num * u / r.den }
    } else {
        r
    }
}

/// The text can be handed to the parser of durations: it stays short of the
/// first nanosecond that no duration reaches, or it has no parts of a second
/// that could carry over to there.
pub open spec fn parsable(s: Seq<char>) -> bool {
    reach(s, s.len()).nanos < LIMIT || no_fine_char(s)
}

/// The first number of nanoseconds that is too large for a duration.
pub const LIMIT: u128 = 18_446_744_073_709_551_616_000_000_000;

/// What `humantime::parse_duration` reads: seconds and nanoseconds, or the
/// text of its error.
pub uninterp spec fn duration_read(s: Seq<char>) -> Result<(u64, u32), Seq<char>>;

/// What `humantime::format_duration` writes.
pub uninterp spec fn duration_text(secs: u64, nanos: u32) -> Seq<char>;

/// `humantime::parse_duration`. The nanoseconds are below a second. It panics
/// where parts of a second carry over the largest number of seconds. That
/// takes a fraction or a unit below a second, and as many nanoseconds as no
/// duration holds.
#[verifier::external_body]
fn read_duration(s: &str) -> (r: Result<Span, String>)
    requires
        parsable(s@),
    ensures
        match duration_read(s@) {
            Ok((secs, nanos)) => r == Ok::<Span, String>(Span { secs, nanos }) && nanos < NANOS,
            Err(e) => r matches Err(text) && text@ == e,
        },
{
    let d = humantime::parse_duration(s).map_err(|e| e.to_string())?;
    Ok(Span { secs: d.as_secs(), nanos: d.subsec_nanos() })
}

/// `humantime::format_duration`.
#[verifier::external_body]
fn write_duration(d: Span) -> (r: String)
    requires
        d.wf(),
    ensures
        r@ == duration_text(d.secs, d.nanos),
{
    humantime::format_duration(std::time::Duration::new(d.secs, d.nanos)).to_string()
}

/// The duration that a text names, or why it names none.
pub open spec fn duration_spec(s: Seq<char>) -> Result<Span, Seq<char>> {
    if !parsable(s) {
        Err(
            "number is too large or cannot be represented without a lack of precision (values below 1ns are not supported)"@,
        )
    } else {
        match duration_read(s) {
            Ok((secs, nanos)) => Ok(Span { secs, nanos }),
            Err(e) => Err(e),
        }
    }
}

/// `n`, or `cap` where it is larger.
pub open spec fn capped(n: nat, cap: nat) -> nat {
    if n < cap {
        n
    } else {
        cap
    }
}

fn char_follows(v: &Vec<char>, i: usize, c: char) -> (r: bool)
    requires
        i < v.len(),
    ensures
        r == next_is(v@, i as int, c),
{
    i < v.len() - 1 && v[i + 1] == c
}

fn unit_of(v: &Vec<char>, i: usize) -> (r: u128)
    requires
        i < v.len(),
    ensures
        r == unit_nanos(v@, i as int),
        1 <= r <= 31_557_600_000_000_000,
{
    let c = v[i];
    if c == 'n' {
        1
    } else if c == 'u' || c == 'µ' {
        1000
    } else if c == 'm' {
        let millis = char_follows(v, i, 's') || (char_follows(v, i, 'i') && i + 1 < v.len()
            && char_follows(v, i + 1, 'l'));
        if millis {
            1_000_000
        } else if char_follows(v, i, 'o') {
            2_630_016_000_000_000
        } else {
            60_000_000_000
        }
    } else if c == 's' {
        1_000_000_000
    } else if c == 'h' {
        3_600_000_000_000
    } else if c == 'd' {
        86_400_000_000_000
    } else if c == 'w' {
        604_800_000_000_000
    } else if c == 'M' {
        2_630_016_000_000_000
    } else {
        31_557_600_000_000_000
    }
}

/// A number times a unit, up to the limit.
fn capped_times(m: u128, u: u128, Ghost(n): Ghost<nat>) -> (r: u128)
    requires
        m == capped(n, LIMIT as nat),
        u >= 1,
    ensures
        r == capped(n * u as nat, LIMIT as nat),
{
    let most: u128 = LIMIT / u;
    proof {
        let q = most as int;
        let d = u as int;
        let l = LIMIT as int;
        assert(q * d <= l < (q + 1) * d) by (nonlinear_arith)
            requires
                d >= 1,
                l >= 0,
                q == l / d,
        ;
        if m > most {
            assert(n as int * d >= (q + 1) * d) by (nonlinear_arith)
                requires
                    n as int >= q + 1,
                    d >= 1,
            ;
        } else {
            assert(m as int * d <= q * d) by (nonlinear_arith)
                requires
                    0 <= m as int <= q,
                    d >= 1,
            ;
            if n >= LIMIT {
                assert(n as int * d >= l && m as int * d >= l) by (nonlinear_arith)
                    requires
                        n as int >= l,
                        m as int == l,
                        d >= 1,
                        l >= 0,
                ;
            } else {
                assert(n as int * d == m as int * d);
            }
        }
    }
    if m > most {
        LIMIT
    } else {
        m * u
    }
}

/// The fraction of a unit.
fn fraction_of(num: u128, den: u128, u: u128) -> (r: u128)
    requires
        num < den,
        1 <= den <= MAX_DEN,
        u <= 31_557_600_000_000_000,
    ensures
        r == num as int * u as int / den as int,
        r <= u,
{
    proof {
        let (a, b, c) = (num as int, den as int, u as int);
        assert(a * c <= b * c <= MAX_DEN * 31_557_600_000_000_000) by (nonlinear_arith)
            requires
                0 <= a <= b <= MAX_DEN,
                0 <= c <= 31_557_600_000_000_000,
        ;
        assert((a * c) / b <= c) by (nonlinear_arith)
            requires
                a * c <= b * c,
                b >= 1,
        ;
    }
    num * u / den
}

fn is_parsable(s: &str) -> (r: bool)
    ensures
        r == parsable(s@),
{
    let v = crate::text::chars_of(s);
    let mut m: u128 = 0;
    let mut num: u128 = 0;
    let mut den: u128 = 1;
    let mut fraction = false;
    let mut nanos: u128 = 0;
    let mut fine = false;
    let mut i: usize = 0;
    while i < v.len()
        invariant
            v@ == s@,
            i <= v.len(),
            m == capped(reach(s@, i as nat).n, LIMIT as nat),
            num == reach(s@, i as nat).num,
            den == reach(s@, i as nat).den,
            num < den,
            1 <= den <= MAX_DEN,
            fraction == reach(s@, i as nat).fraction,
            nanos == capped(reach(s@, i as nat).nanos, LIMIT as nat),
            fine == (exists|j: int| 0 <= j < i && fine_char(#[trigger] s@[j])),
        decreases v.len() - i,
    {
        let c = v[i];
        let ghost now = reach(s@, i as nat);
        assert(reach(s@, (i + 1) as nat) == reach_step(s@, i as int, now));
        if '0' <= c && c <= '9' {
            let d: u128 = (c as u32 - '0' as u32) as u128;
            if !fraction {
                m = m * 10 + d;
                if m > LIMIT {
                    m = LIMIT;
                }
            } else if den * 10 <= MAX_DEN {
                num = num * 10 + d;
                den = den * 10;
            }
        } else if c == '.' {
            num = 0;
            den = 1;
            fraction = true;
        } else if ('a' <= c && c <= 'z') || ('A' <= c && c <= 'Z') || c == 'µ' {
            let u: u128 = unit_of(&v, i);
            let whole: u128 = capped_times(m, u, Ghost(now.n));
            let part: u128 = fraction_of(num, den, u);
            nanos = nanos + whole + part;
            if nanos > LIMIT {
                nanos = LIMIT;
            }
            m = 0;
            num = 0;
            den = 1;
            fraction = false;
        }
        if c == '.' || c == 'n' || c == 'u' || c == 'µ' || c == 'm' {
            assert(fine_char(s@[i as int]));
            fine = true;
        }
        i += 1;
    }
    nanos < LIMIT || !fine
}

/// The duration that a text such as `30s` or `1h30m` names.
pub fn parse_duration(s: &str) -> (r: Result<Span, String>)
    ensures
        says(r, duration_spec(s@)),
        r matches Ok(d) ==> d.wf(),
{
    if !is_parsable(s) {
        return Err(
            "number is too large or cannot be represented without a lack of precision (values below 1ns are not supported)".to_owned(),
        );
    }
    read_duration(s)
}

/// How long a lease is asked to last, or why that is refused.
pub open spec fn ttl_spec(s: Seq<char>) -> Result<Span, Seq<char>> {
    match duration_spec(s) {
        Err(e) => Err(e),
        Ok(d) => checked_ttl(d),
    }
}

/// A duration as the length of a lease: more than nothing, and not too long.
pub open spec fn checked_ttl(d: Span) -> Result<Span, Seq<char>> {
    if d.value() == 0 {
        Err("--ttl must be greater than zero"@)
    } else if !lease_span_fits(d) {
        Err("Source duration value is out of range for the target type"@)
    } else {
        Ok(d)
    }
}

/// A duration as the length of a lease.
pub fn check_ttl(d: Span) -> (r: Result<Span, String>)
    requires
        d.wf(),
    ensures
        says(r, checked_ttl(d)),
{
    if d.secs == 0 && d.nanos == 0 {
        return Err("--ttl must be greater than zero".to_owned());
    }
    if !is_lease_span(d) {
        return Err("Source duration value is out of range for the target type".to_owned());
    }
    Ok(d)
}

/// The lease that a get asks for. What the arguments leave open comes from
/// the environment: the holder, else nobody, and the length, else no end.
pub fn lease_options(
    args: &GetArgs,
    env_holder: &Option<String>,
    env_ttl: &Option<String>,
) -> (r: Result<LeaseAcquireOptions, String>)
    ensures
        ({
            let ttl = match args.ttl {
                Some(t) => Some(t@),
                None => opt_view(*env_ttl),
            };
            let holder = match args.lease_holder {
                Some(h) => h@,
                None => match *env_holder {
                    Some(h) => h@,
                    None => seq![],
                },
            };
            match ttl {
                None => r matches Ok(o) && o.holder@ == holder && o.ttl is None,
                Some(t) => match ttl_spec(t) {
                    Ok(d) => r matches Ok(o) && o.holder@ == holder && o.ttl == Some(d),
                    Err(e) => r matches Err(text) && text@ == e,
                },
            }
        }),
        r matches Ok(o) ==> (o.ttl matches Some(d) ==> d.wf()),
{
    let holder = match &args.lease_holder {
        Some(h) => h.clone(),
        None => match env_holder {
            Some(h) => h.clone(),
            None => String::new(),
        },
    };
    assert(args.lease_holder is None && env_holder is None ==> holder@ =~= seq![]);
    let text = match &args.ttl {
        Some(t) => Some(t),
        None => match env_ttl {
            Some(t) => Some(t),
            None => None,
        },
    };
    match text {
        None => Ok(LeaseAcquireOptions { holder, ttl: None }),
        Some(t) => match parse_duration(t) {
            Err(e) => Err(e),
            Ok(d) => match check_ttl(d) {
                Err(e) => Err(e),
                Ok(d) => Ok(LeaseAcquireOptions { holder, ttl: Some(d) }),
            },
        },
    }
}

// ---------- where the pool is ----------

/// The settings with which a pool is opened. A root that is given on the
/// command line comes before a configured one; the environment then brings
/// it. All other settings are kept.
pub fn settings_for(config: &TreehouseConfig, env_path: &Option<String>) -> (r: TreehouseConfig)
    ensures
        opt_view(r.root) == if env_path is Some {
            None
        } else {
            opt_view(config.root)
        },
        r.max_trees == config.max_trees,
        r.lease_ttl_secs == config.lease_ttl_secs,
        r.hooks.same(config.hooks),
{
    let mut r = config.copy();
    if env_path.is_some() {
        r.root = None;
    }
    r
}

// ---------- enter and return ----------

/// The first worktree with a name.
pub open spec fn first_named(v: Seq<WorktreeStatus>, name: Seq<char>, i: int) -> bool {
    &&& 0 <= i < v.len()
    &&& v[i].name@ == name
    &&& forall|j: int| 0 <= j < i ==> (#[trigger] v[j]).name@ != name
}

/// The path of the first worktree with a name. It is an error if there is
/// none.
pub fn find_named(statuses: &Vec<WorktreeStatus>, name: &str) -> (r: Result<String, String>)
    ensures
        match r {
            Ok(path) => exists|i: int| #[trigger]
                first_named(statuses@, name@, i) && path@ == statuses@[i].path@,
            Err(e) => (forall|i: int|
                0 <= i < statuses@.len() ==> (#[trigger] statuses@[i]).name@ != name@) && e@
                == "no worktree named \""@ + name@
                + "\": the pool is empty. Run 'treehouse get' to create one"@,
        },
{
    let mut i: usize = 0;
    while i < statuses.len()
        invariant
            i <= statuses.len(),
            forall|j: int| 0 <= j < i ==> (#[trigger] statuses@[j]).name@ != name@,
        decreases statuses.len() - i,
    {
        if same_text(&statuses[i].name, name) {
            assert(first_named(statuses@, name@, i as int));
            return Ok(statuses[i].path.clone());
        }
        i += 1;
    }
    let mut e = "no worktree named \"".to_owned();
    e.append(name);
    e.append("\": the pool is empty. Run 'treehouse get' to create one");
    Err(e)
}

/// The worktree that a return is about, and what it expects of its lease.
/// Without a path it is the worktree of the surrounding shell.
pub fn return_request(args: &ReturnArgs, env_dir: &Option<String>) -> (r: Result<
    (String, ReleasePreconditions),
    String,
>)
    ensures
        ({
            let path = match args.path {
                Some(p) => Some(p@),
                None => opt_view(*env_dir),
            };
            match path {
                None => r matches Err(e) && e@ == "no worktree path specified"@,
                Some(p) => if opt_view(args.if_lease_id) == Some(Seq::<char>::empty()) {
                    r matches Err(e) && e@ == "--if-lease-id must not be empty"@
                } else {
                    r matches Ok(x) && x.0@ == p && opt_view(x.1.expected_lease_id) == opt_view(
                        args.if_lease_id,
                    ) && opt_view(x.1.expected_lease_holder) == opt_view(args.if_lease_holder)
                },
            }
        }),
{
    let path = match &args.path {
        Some(p) => p.clone(),
        None => match env_dir {
            Some(p) => p.clone(),
            None => return Err("no worktree path specified".to_owned()),
        },
    };
    if let Some(id) = &args.if_lease_id {
        if id.as_str().is_empty() {
            assert(id@ =~= seq![]);
            return Err("--if-lease-id must not be empty".to_owned());
        }
    }
    Ok(
        (
            path,
            ReleasePreconditions {
                expected_lease_id: copy_opt(&args.if_lease_id),
                expected_lease_holder: copy_opt(&args.if_lease_holder),
            },
        ),
    )
}

/// A letter in lower case.
pub open spec fn lower(c: char) -> char {
    if 'A' <= c <= 'Z' {
        (c as int - 'A' as int + 'a' as int) as char
    } else {
        c
    }
}

/// The answer is yes: `y` or `yes` in any case, or nothing at all.
pub open spec fn affirms(answer: Seq<char>) -> bool {
    let a = trimmed(answer).map_values(|c: char| lower(c));
    a.len() == 0 || a == seq!['y'] || a == seq!['y', 'e', 's']
}

fn is_letter(c: char, small: char, large: char) -> (r: bool)
    requires
        'a' <= small <= 'z',
        small as int - large as int == 'a' as int - 'A' as int,
    ensures
        r == (lower(c) == small),
{
    proof {
        if 'A' <= c && c <= 'Z' && lower(c) == small {
            assert((c as int - 'A' as int + 'a' as int) == small as int);
        }
    }
    c == small || c == large
}

/// Whether an answer is yes.
pub fn is_affirmative(answer: &str) -> (r: bool)
    ensures
        r == affirms(answer@),
{
    let t = trim(answer);
    let v = crate::text::chars_of(&t);
    let ghost a = trimmed(answer@).map_values(|c: char| lower(c));
    if v.len() == 0 {
        return true;
    }
    if v.len() == 1 {
        let r = is_letter(v[0], 'y', 'Y');
        proof {
            assert(a.len() == 1 && a[0] == lower(v@[0]));
            if r {
                assert(a =~= seq!['y']);
            } else {
                assert(seq!['y'][0] == 'y');
            }
        }
        return r;
    }
    if v.len() == 3 {
        let r = is_letter(v[0], 'y', 'Y') && is_letter(v[1], 'e', 'E') && is_letter(v[2], 's', 'S');
        assert(r == (a =~= seq!['y', 'e', 's']));
        return r;
    }
    assert(a.len() == v.len());
    false
}

// ---------- destroy ----------

/// The path names the pool, rather than a worktree.
pub open spec fn names_pool(path: Seq<char>, pool_dir: Seq<char>) -> bool {
    path == "."@ || ends(path, ".treehouse"@) || path == pool_dir
}

/// What a destroy is about. `--all` is about a whole pool, which the path has
/// to name, and never about leased worktrees; without it the path names one
/// worktree. The hooks of the settings are run before.
pub fn destroy_request(args: &DestroyArgs, pool_dir: &str, hooks: &Hooks) -> (r: Result<
    (DestroyTargetSpec, DestroyOptions),
    String,
>)
    requires
        args.all || args.path is Some,
    ensures
        if args.all && args.include_leased {
            r matches Err(e) && e@ == "--include-leased cannot be combined with --all"@
        } else if args.all && args.path is None {
            r matches Err(e) && e@ == "--all requires a pool path"@
        } else if args.all && (args.path matches Some(p) && !names_pool(p@, pool_dir@)) {
            r matches Err(e) && e@ == "--all takes a pool path, not a worktree path"@
        } else {
            r matches Ok(x) && (if args.all {
                x.0 is All
            } else {
                x.0 matches DestroyTargetSpec::Single(p) && Some(p@) == opt_view(args.path)
            }) && x.1.dry_run == !args.yes && x.1.include_unlanded == args.include_unlanded
                && x.1.include_in_use == args.include_in_use && x.1.include_leased
                == args.include_leased && views(x.1.pre_destroy@) == views(hooks.pre_destroy@)
        },
{
    if args.all && args.include_leased {
        return Err("--include-leased cannot be combined with --all".to_owned());
    }
    if args.all {
        match &args.path {
            None => return Err("--all requires a pool path".to_owned()),
            Some(p) => {
                if !(same_text(p, ".") || ends_with(p, ".treehouse") || same_text(p, pool_dir)) {
                    return Err("--all takes a pool path, not a worktree path".to_owned());
                }
            },
        }
    }
    let spec = if args.all {
        DestroyTargetSpec::All
    } else {
        match &args.path {
            Some(p) => DestroyTargetSpec::Single(p.clone()),
            None => DestroyTargetSpec::All,
        }
    };
    Ok(
        (
            spec,
            DestroyOptions {
                dry_run: !args.yes,
                include_unlanded: args.include_unlanded,
                include_in_use: args.include_in_use,
                include_leased: args.include_leased,
                pre_destroy: copy_list(&hooks.pre_destroy),
            },
        ),
    )
}

/// Texts with a comma and a blank between them.
pub open spec fn comma_list(ws: Seq<Seq<char>>) -> Seq<char>
    decreases ws.len(),
{
    if ws.len() == 0 {
        seq![]
    } else if ws.len() == 1 {
        ws[0]
    } else {
        comma_list(ws.drop_last()) + ", "@ + ws.last()
    }
}

fn join_flags(flags: &Vec<&'static str>) -> (r: String)
    ensures
        r@ == comma_list(flag_views(flags@)),
{
    let ghost all = flag_views(flags@);
    if flags.len() == 0 {
        let s = String::new();
        assert(s@ =~= comma_list(all));
        return s;
    }
    let mut s = flags[0].to_owned();
    let mut i: usize = 1;
    assert(all.take(1) =~= seq![flags@[0]@]);
    while i < flags.len()
        invariant
            1 <= i <= flags.len(),
            all == flag_views(flags@),
            s@ == comma_list(all.take(i as int)),
        decreases flags.len() - i,
    {
        assert(all.take(i + 1).drop_last() =~= all.take(i as int));
        assert(all.take(i + 1).last() == flags@[i as int]@);
        s.append(", ");
        s.append(flags[i]);
        i += 1;
    }
    assert(all.take(flags.len() as int) =~= all);
    s
}

/// The failure of a destroy of one worktree that was left in place; none where
/// it was a dry run, about a whole pool, or a success.
pub open spec fn destroy_failure_spec(r: DestroyResult, dry_run: bool, all: bool) -> Option<
    Seq<char>,
> {
    if !dry_run && !all && r.destroyed@.len() == 0 && r.skipped@.len() > 0
        && !r.skipped@[0].leased_bulk {
        let s = r.skipped@[0];
        Some(
            "did not destroy "@ + s.target.name@ + " ("@ + s.target.class.name_spec()
                + "); re-run with "@ + comma_list(flag_views(s.needed_flags@)),
        )
    } else {
        None
    }
}

/// The failure of a destroy, if it is one.
pub fn destroy_failure(r: &DestroyResult, dry_run: bool, all: bool) -> (e: Option<String>)
    ensures
        opt_view(e) == destroy_failure_spec(*r, dry_run, all),
{
    if dry_run || all || r.destroyed.len() > 0 || r.skipped.len() == 0 {
        return None;
    }
    let s = &r.skipped[0];
    if s.leased_bulk {
        return None;
    }
    let mut e = "did not destroy ".to_owned();
    e.append(&s.target.name);
    e.append(" (");
    e.append(s.target.class.name());
    e.append("); re-run with ");
    e.append(&join_flags(&s.needed_flags));
    Some(e)
}

// ---------- prune, gc and watch ----------

impl PruneArgs {
    /// What the prune does.
    pub fn options(&self) -> (r: PruneOptions)
        ensures
            r.dry_run == !self.yes,
            r.prune_orphans == self.prune_orphans,
            r.pre_destroy@.len() == 0,
    {
        PruneOptions {
            dry_run: !self.yes,
            prune_orphans: self.prune_orphans,
            pre_destroy: Vec::new(),
        }
    }

    /// What a prune of so many pools came to. It was a dry run exactly if it
    /// was asked to be one, even where there was no pool.
    pub fn outcome(&self, result: PruneResult, pools: usize) -> (r: CommandResult)
        ensures
            r == CommandResult::Prune(
                PruneResult { dry_run: !self.yes, ..result },
                sweep_scope(self.prune_orphans, self.all, pools as nat),
            ),
    {
        let mut p = result;
        p.dry_run = !self.yes;
        CommandResult::Prune(p, SweepScope::of(self.prune_orphans, self.all, pools))
    }
}

impl GcArgs {
    /// What the gc does.
    pub fn options(&self) -> (r: GcOptions)
        ensures
            r.dry_run == !self.yes,
            r.prune_orphans == self.prune_orphans,
    {
        GcOptions { dry_run: !self.yes, prune_orphans: self.prune_orphans }
    }

    /// What reclaiming in so many pools came to. It was a dry run exactly if
    /// it was asked to be one, even where there was no pool.
    pub fn outcome(&self, result: GcResult, pools: usize) -> (r: CommandResult)
        ensures
            r == CommandResult::Gc(
                GcResult { dry_run: !self.yes, ..result },
                sweep_scope(self.prune_orphans, self.all, pools as nat),
            ),
    {
        let mut g = result;
        g.dry_run = !self.yes;
        CommandResult::Gc(g, SweepScope::of(self.prune_orphans, self.all, pools))
    }
}

/// How many seconds lie between two sweeps of a watch by default.
pub const DEFAULT_INTERVAL_SECS: u64 = 60;

impl WatchArgs {
    /// What each sweep does.
    pub fn options(&self) -> (r: GcOptions)
        ensures
            r.dry_run == !self.yes,
            r.prune_orphans == self.prune_orphans,
    {
        GcOptions { dry_run: !self.yes, prune_orphans: self.prune_orphans }
    }

    /// How long the watch waits after a sweep. Not to wait is refused.
    pub fn pause(&self) -> (r: Result<Span, String>)
        ensures
            ({
                let d = match self.interval {
                    Some(d) => d,
                    None => Span { secs: DEFAULT_INTERVAL_SECS, nanos: 0 },
                };
                if d.secs == 0 && d.nanos == 0 {
                    r matches Err(e) && e@ == "🌳 error: --interval must be greater than zero"@
                } else {
                    r == Ok::<Span, String>(d)
                }
            }),
    {
        let d = match self.interval {
            Some(d) => d,
            None => Span::from_secs(DEFAULT_INTERVAL_SECS),
        };
        if d.secs == 0 && d.nanos == 0 {
            return Err("🌳 error: --interval must be greater than zero".to_owned());
        }
        Ok(d)
    }
}

/// What a watch says when it starts.
pub fn watch_banner(interval: Span) -> (r: String)
    requires
        interval.wf(),
    ensures
        r@ == "🌳 treehouse watch: sweeping every "@ + duration_text(interval.secs, interval.nanos)
            + ". Press Ctrl-C to stop."@,
{
    let mut s = "🌳 treehouse watch: sweeping every ".to_owned();
    s.append(&write_duration(interval));
    s.append(". Press Ctrl-C to stop.");
    s
}

/// The failure of a whole pool as one of its errors.
pub open spec fn is_pool_error(e: CleanupError, dir: Seq<char>, phase: Seq<char>, detail: Seq<char>) -> bool {
    e.name@ == "pool"@ && e.path@ == dir && e.phase@ == phase && e.detail@ == detail
}

/// The result of a pool that could not be pruned: one error, and nothing else.
pub fn failed_prune(dir: &str, dry_run: bool, detail: &str) -> (r: PruneResult)
    ensures
        r.dry_run == dry_run,
        r.candidates@.len() == 0,
        r.pruned@.len() == 0,
        r.skipped@.len() == 0,
        r.errors@.len() == 1,
        is_pool_error(r.errors@[0], dir@, "pool_prune"@, detail@),
        r.reclaimable_bytes == 0,
        r.freed_bytes == 0,
{
    let mut r = PruneResult::default();
    r.dry_run = dry_run;
    r.errors.push(
        CleanupError {
            name: "pool".to_owned(),
            path: dir.to_owned(),
            phase: "pool_prune".to_owned(),
            detail: detail.to_owned(),
        },
    );
    r
}

/// The result of a pool in which nothing could be reclaimed: one error, and
/// nothing else.
pub fn failed_gc(dir: &str, dry_run: bool, detail: &str) -> (r: GcResult)
    ensures
        r.dry_run == dry_run,
        r.candidates@.len() == 0,
        r.reclaimed@.len() == 0,
        r.skipped@.len() == 0,
        r.errors@.len() == 1,
        is_pool_error(r.errors@[0], dir@, "pool_gc"@, detail@),
        r.reclaimable_bytes == 0,
        r.freed_bytes == 0,
{
    let mut r = GcResult::default();
    r.dry_run = dry_run;
    r.errors.push(
        CleanupError {
            name: "pool".to_owned(),
            path: dir.to_owned(),
            phase: "pool_gc".to_owned(),
            detail: detail.to_owned(),
        },
    );
    r
}

/// The exit code of a sweep over all pools: an error in any of them counts.
pub fn sweep_exit_code(errors: &Vec<CleanupError>) -> (r: i32)
    ensures
        r == if errors@.len() > 0 {
            1i32
        } else {
            0i32
        },
{
    if errors.len() > 0 {
        1
    } else {
        0
    }
}

/// What a watch says of a sweep: that all is clean, or what was reclaimed.
/// The only sweep of a watch says a little more.
pub fn watch_report(once: bool, dry_run: bool, r: &GcResult) -> (t: Rendered)
    ensures
        if gc_found_nothing(*r) {
            t.out@ == Seq::<char>::empty() && t.err@ == if once {
                "🌳 All pools clean. Nothing to reclaim.\n"@
            } else {
                "🌳 All pools clean.\n"@
            }
        } else {
            t.out@ == block(gc_out(dry_run, *r)) && t.err@ == block(gc_err(*r))
        },
{
    if r.candidates.len() == 0 && r.skipped.len() == 0 && r.errors.len() == 0 {
        let err = if once {
            "🌳 All pools clean. Nothing to reclaim.\n".to_owned()
        } else {
            "🌳 All pools clean.\n".to_owned()
        };
        return Rendered { out: String::new(), err };
    }
    render_gc(dry_run, r)
}

/// What a watch does next.
#[derive(Clone, Copy, Debug, PartialEq, Eq, Structural)]
pub enum WatchStep {
    /// Sweep all pools now.
    Sweep,
    /// Sleep a little, then look again.
    Sleep,
    /// Stop with this exit code.
    Stop(i32),
}

/// How many milliseconds a watch sleeps before it looks again.
pub const WATCH_POLL_MS: u64 = 200;

/// What a watch does next: it stops when it is told to, sweeps at once when it
/// starts, and after that whenever the pause since the end of the last sweep
/// is over.
pub fn watch_step(
    stop: bool,
    since_sweep_ms: Option<u64>,
    pause_ms: u64,
    had_errors: bool,
) -> (r: WatchStep)
    ensures
        r == if stop {
            WatchStep::Stop(
                if had_errors {
                    1
                } else {
                    0
                },
            )
        } else {
            match since_sweep_ms {
                None => WatchStep::Sweep,
                Some(ms) => if ms < pause_ms {
                    WatchStep::Sleep
                } else {
                    WatchStep::Sweep
                },
            }
        },
{
    if stop {
        return WatchStep::Stop(
            if had_errors {
                1
            } else {
                0
            },
        );
    }
    match since_sweep_ms {
        None => WatchStep::Sweep,
        Some(ms) => if ms < pause_ms {
            WatchStep::Sleep
        } else {
            WatchStep::Sweep
        },
    }
}

// ---------- run ----------

/// What a run is asked to do.
#[derive(Clone, Debug, PartialEq, Eq)]
pub struct RunRequest {
    pub ttl: Option<Span>,
    pub holder: Option<String>,
    pub command: Vec<String>,
}

/// What a [`RunRequest`] says.
#[verifier::ext_equal]
pub struct RunRequestView {
    pub ttl: Option<Span>,
    pub holder: Option<Seq<char>>,
    pub command: Seq<Seq<char>>,
}

impl View for RunRequest {
    type V = RunRequestView;

    open spec fn view(&self) -> RunRequestView {
        RunRequestView {
            ttl: self.ttl,
            holder: opt_view(self.holder),
            command: views(self.command@),
        }
    }
}

/// Without its first text, where that is `word`.
pub open spec fn without_first(args: Seq<Seq<char>>, word: Seq<char>) -> Seq<Seq<char>> {
    if args.len() > 0 && args[0] == word {
        args.skip(1)
    } else {
        args
    }
}

/// The flags at the front of `args`, and the command behind them. The last of
/// two equal flags counts. `--` ends the flags.
pub open spec fn run_flags(args: Seq<Seq<char>>, ttl: Option<Span>, holder: Option<Seq<char>>) -> Result<
    RunRequestView,
    Seq<char>,
>
    decreases args.len(),
{
    if args.len() == 0 {
        Ok(RunRequestView { ttl, holder, command: args })
    } else if args[0] == "--ttl"@ {
        if args.len() == 1 {
            Err("--ttl requires a value"@)
        } else {
            match duration_spec(args[1]) {
                Err(e) => Err(e),
                Ok(d) => run_flags(args.skip(2), Some(d), holder),
            }
        }
    } else if args[0] == "--lease-holder"@ {
        if args.len() == 1 {
            Err("--lease-holder requires a value"@)
        } else {
            run_flags(args.skip(2), ttl, Some(args[1]))
        }
    } else if args[0] == "--"@ {
        Ok(RunRequestView { ttl, holder, command: args.skip(1) })
    } else {
        Ok(RunRequestView { ttl, holder, command: args })
    }
}

/// What the arguments of a run ask for: after the word `run` and a `--`, if
/// they are there, come flags and then the command, which must not be empty.
pub open spec fn run_request(args: Seq<Seq<char>>) -> Result<RunRequestView, Seq<char>> {
    match run_flags(without_first(without_first(args, "run"@), "--"@), None, None) {
        Err(e) => Err(e),
        Ok(r) => if r.command.len() == 0 {
            Err("run requires a command"@)
        } else {
            Ok(r)
        },
    }
}

fn copy_from(args: &Vec<String>, from: usize) -> (r: Vec<String>)
    requires
        from <= args@.len(),
    ensures
        views(r@) == views(args@).skip(from as int),
{
    let ghost all = views(args@);
    let mut out: Vec<String> = Vec::new();
    let mut i: usize = from;
    while i < args.len()
        invariant
            from <= i <= args.len(),
            all == views(args@),
            views(out@) =~= all.subrange(from as int, i as int),
        decreases args.len() - i,
    {
        let ghost before = out@;
        out.push(args[i].clone());
        assert(views(out@) =~= views(before).push(args@[i as int]@));
        i += 1;
    }
    assert(views(out@) =~= all.skip(from as int));
    out
}

/// What the arguments of a run ask for.
pub fn parse_run_args(args: &Vec<String>) -> (r: Result<RunRequest, String>)
    ensures
        match r {
            Ok(x) => run_request(views(args@)) == Ok::<RunRequestView, Seq<char>>(x@),
            Err(e) => run_request(views(args@)) == Err::<RunRequestView, Seq<char>>(e@),
        },
        r matches Ok(x) ==> x.command@.len() > 0 && (x.ttl matches Some(d) ==> d.wf()),
{
    let ghost all = views(args@);
    let mut i: usize = 0;
    assert(all.skip(0) =~= all);
    if args.len() > 0 && same_text(&args[0], "run") {
        i = 1;
    }
    let ghost first = without_first(all, "run"@);
    assert(first =~= all.skip(i as int));
    if i < args.len() && same_text(&args[i], "--") {
        i += 1;
    }
    let ghost rest = without_first(first, "--"@);
    assert(rest =~= all.skip(i as int));
    let mut ttl: Option<Span> = None;
    let mut holder: Option<String> = None;
    while i < args.len()
        invariant_except_break
            run_flags(all.skip(i as int), ttl, opt_view(holder)) == run_flags(rest, None, None),
        invariant
            i <= args.len(),
            all == views(args@),
            ttl matches Some(d) ==> d.wf(),
            run_request(all) == match run_flags(rest, None, None) {
                Err(e) => Err::<RunRequestView, Seq<char>>(e),
                Ok(r) => if r.command.len() == 0 {
                    Err("run requires a command"@)
                } else {
                    Ok(r)
                },
            },
        ensures
            i <= args.len(),
            ttl matches Some(d) ==> d.wf(),
            run_flags(rest, None, None) == Ok::<RunRequestView, Seq<char>>(
                RunRequestView { ttl, holder: opt_view(holder), command: all.skip(i as int) },
            ),
        decreases args.len() - i,
    {
        let ghost now = all.skip(i as int);
        assert(now[0] == args@[i as int]@);
        if same_text(&args[i], "--ttl") {
            if i + 1 >= args.len() {
                return Err("--ttl requires a value".to_owned());
            }
            assert(now[1] == args@[i + 1]@);
            match parse_duration(&args[i + 1]) {
                Err(e) => return Err(e),
                Ok(d) => {
                    ttl = Some(d);
                },
            }
            assert(now.skip(2) =~= all.skip(i + 2));
            i += 2;
        } else if same_text(&args[i], "--lease-holder") {
            if i + 1 >= args.len() {
                return Err("--lease-holder requires a value".to_owned());
            }
            assert(now[1] == args@[i + 1]@);
            holder = Some(args[i + 1].clone());
            assert(now.skip(2) =~= all.skip(i + 2));
            i += 2;
        } else if same_text(&args[i], "--") {
            assert(now.skip(1) =~= all.skip(i + 1));
            i += 1;
            break ;
        } else {
            break ;
        }
    }
    if i >= args.len() {
        return Err("run requires a command".to_owned());
    }
    let command = copy_from(args, i);
    let r = RunRequest { ttl, holder, command };
    assert(views(r.command@).len() == r.command@.len());
    Ok(r)
}

// ---------- init and update ----------

/// The text of a new configuration file.
pub open spec fn init_spec(max_trees: u32) -> Seq<char> {
    "# treehouse.toml\n# Maximum number of worktrees in the pool\nmax_trees = "@ + decimal(
        max_trees as nat,
    ) + "\n\n# Optional worktree root directory.\n# root = \"$HOME/worktrees\"\n"@
}

/// The text of a new configuration file; refused where there is one already.
pub fn init_text(exists_already: bool) -> (r: Result<String, String>)
    ensures
        match r {
            Ok(t) => !exists_already && t@ == init_spec(crate::config::DEFAULT_MAX_TREES),
            Err(e) => exists_already && e@ == "treehouse.toml already exists"@,
        },
{
    if exists_already {
        return Err("treehouse.toml already exists".to_owned());
    }
    let mut s =
        "# treehouse.toml\n# Maximum number of worktrees in the pool\nmax_trees = ".to_owned();
    s.append(&decimal_text(crate::config::DEFAULT_MAX_TREES as u64));
    s.append("\n\n# Optional worktree root directory.\n# root = \"$HOME/worktrees\"\n");
    Ok(s)
}

/// What an update says at its end.
pub fn update_message(current: &str, latest: &str, available: bool) -> (r: String)
    ensures
        r@ == if available {
            "🌳 Successfully updated treehouse "@ + current@ + " -> "@ + latest@
        } else {
            "🌳 treehouse is up to date ("@ + current@ + ")"@
        },
{
    if available {
        let mut s = "🌳 Successfully updated treehouse ".to_owned();
        s.append(current);
        s.append(" -> ");
        s.append(latest);
        s
    } else {
        let mut s = "🌳 treehouse is up to date (".to_owned();
        s.append(current);
        s.append(")");
        s
    }
}

/// The notice of a newer version.
pub fn update_notice(current: &str, latest: &str) -> (r: String)
    ensures
        r@ == "A new version of treehouse is available: "@ + current@ + " -> "@ + latest@
            + "\nRun \"treehouse update\" to update\n\n"@,
{
    let mut s = "A new version of treehouse is available: ".to_owned();
    s.append(current);
    s.append(" -> ");
    s.append(latest);
    s.append("\nRun \"treehouse update\" to update\n\n");
    s
}

/// Whether a command line shows the notice of a newer version: not in a
/// development build, where it is switched off, or for an update.
pub fn shows_notice(version: &str, switched_off: bool, is_update: bool) -> (r: bool)
    ensures
        r == (version@ != "dev"@ && !switched_off && !is_update),
{
    !same_text(version, "dev") && !switched_off && !is_update
}

// ---------- laws ----------

/// A format for machines is given exactly if it is asked for in one way and may
/// be asked for; the short flag asks for JSON.
pub proof fn law_format_is_what_was_asked_for(format: OutputFormat, json_flag: bool, allowed: bool)
    ensures
        format_spec(format, json_flag, allowed) is Err <==> (json_flag && (format
            == OutputFormat::Toon || !allowed)) || (!json_flag && format != OutputFormat::Human
            && !allowed),
        format_spec(format, json_flag, allowed) matches Ok(f) ==> f == if json_flag {
            OutputFormat::Json
        } else {
            format
        },
{
}

/// A get is refused exactly if its format is, or if it asks for a length without
/// a lease.
pub proof fn law_ttl_needs_a_lease(format: OutputFormat, args: GetArgs)
    ensures
        get_format_spec(format, args) is Ok <==> format_spec(format, args.json, args.lease) is Ok && (
        args.ttl is Some ==> args.lease),
        get_format_spec(format, args) matches Ok(f) ==> format_spec(format, args.json, args.lease)
            == Ok::<OutputFormat, Seq<char>>(f),
{
}

/// A lease lasts as long as was asked for: longer than nothing, and no longer
/// than a lease can.
pub proof fn law_ttl_is_positive_and_fits(d: Span)
    ensures
        checked_ttl(d) is Ok <==> 0 < d.secs * 1_000_000_000 + d.nanos <= i64::MAX * 1_000_000,
        checked_ttl(d) matches Ok(x) ==> x == d,
{
}

/// An answer is a yes exactly if it is empty, a `y` or a `yes`, whatever the
/// case and the whitespace around it.
pub proof fn law_yes_is_y_or_yes_or_nothing(answer: Seq<char>)
    ensures
        ({
            let t = trimmed(answer);
            affirms(answer) <==> {
                ||| t.len() == 0
                ||| t.len() == 1 && (t[0] == 'y' || t[0] == 'Y')
                ||| t.len() == 3 && (t[0] == 'y' || t[0] == 'Y') && (t[1] == 'e' || t[1] == 'E') && (
                t[2] == 's' || t[2] == 'S')
            }
        }),
{
    let t = trimmed(answer);
    let a = t.map_values(|c: char| lower(c));
    if t.len() == 1 {
        assert(a[0] == lower(t[0]));
        if t[0] == 'y' || t[0] == 'Y' {
            assert(a =~= seq!['y']);
        }
        if a == seq!['y'] {
            assert(seq!['y'][0] == 'y');
            lemma_lower(t[0]);
        }
    }
    if t.len() == 3 {
        assert(a[0] == lower(t[0]) && a[1] == lower(t[1]) && a[2] == lower(t[2]));
        lemma_lower(t[0]);
        lemma_lower(t[1]);
        lemma_lower(t[2]);
        let yes = seq!['y', 'e', 's'];
        assert(yes[0] == 'y' && yes[1] == 'e' && yes[2] == 's');
        if lower(t[0]) == 'y' && lower(t[1]) == 'e' && lower(t[2]) == 's' {
            assert(a =~= yes);
        }
    }
    assert(seq!['y'].len() == 1 && seq!['y', 'e', 's'].len() == 3);
}

proof fn lemma_lower(c: char)
    ensures
        lower(c) == 'y' <==> c == 'y' || c == 'Y',
        lower(c) == 'e' <==> c == 'e' || c == 'E',
        lower(c) == 's' <==> c == 's' || c == 'S',
{
    if 'A' <= c <= 'Z' {
        let d = (c as int - 'A' as int + 'a' as int) as char;
        assert(d as int == c as int + 32);
    }
}

/// A path names the pool exactly if it is the current directory, ends in
/// `.treehouse`, or is the directory of the pool.
pub proof fn law_pool_is_named_by_its_path(path: Seq<char>, pool_dir: Seq<char>, base: Seq<char>)
    ensures
        names_pool(pool_dir, pool_dir),
        names_pool(seq!['.'], pool_dir),
        names_pool(base + ".treehouse"@, pool_dir),
        names_pool(path, pool_dir) && path != pool_dir && path != seq!['.'] ==> ends(
            path,
            ".treehouse"@,
        ),
{
    reveal_strlit(".");
    assert("."@ =~= seq!['.']);
    let p = base + ".treehouse"@;
    assert(p.skip(p.len() - ".treehouse"@.len()) =~= ".treehouse"@);
}

/// A destroy of one named worktree fails exactly if it was to remove something,
/// removed nothing, and left the worktree for want of a flag.
pub proof fn law_destroy_fails_exactly(r: DestroyResult, dry_run: bool, all: bool)
    ensures
        destroy_failure_spec(r, dry_run, all) is Some <==> !dry_run && !all && r.destroyed@.len()
            == 0 && r.skipped@.len() > 0 && !r.skipped@[0].leased_bulk,
{
}

/// Listed texts come one after the other with a comma and a blank between them.
pub proof fn law_list_has_commas_between(ws: Seq<Seq<char>>, w: Seq<char>)
    ensures
        comma_list(seq![w]) == w,
        ws.len() > 0 ==> comma_list(ws.push(w)) == comma_list(ws) + ", "@ + w,
{
    if ws.len() > 0 {
        assert(ws.push(w).drop_last() =~= ws);
    }
}

/// The command of a run is what follows its flags, word for word; it is never
/// empty, and it is the end of the arguments.
pub proof fn law_run_command_is_the_rest(args: Seq<Seq<char>>)
    ensures
        run_request(args) matches Ok(r) ==> r.command.len() > 0 && r.command.len() <= args.len()
            && r.command == args.skip(args.len() - r.command.len()),
{
    let a = without_first(args, "run"@);
    let b = without_first(a, "--"@);
    lemma_run_command(b, None, None);
    if let Ok(r) = run_request(args) {
        assert(r.command =~= args.skip(args.len() - r.command.len()));
    }
}

proof fn lemma_run_command(args: Seq<Seq<char>>, ttl: Option<Span>, holder: Option<Seq<char>>)
    ensures
        run_flags(args, ttl, holder) matches Ok(r) ==> r.command.len() <= args.len() && r.command
            == args.skip(args.len() - r.command.len()),
    decreases args.len(),
{
    let rest = args.skip(2);
    if args.len() > 1 && args[0] == "--ttl"@ {
        if let Ok(d) = duration_spec(args[1]) {
            lemma_run_command(rest, Some(d), holder);
            if let Ok(r) = run_flags(rest, Some(d), holder) {
                assert(rest.skip(rest.len() - r.command.len()) =~= args.skip(
                    args.len() - r.command.len(),
                ));
            }
        }
    } else if args.len() > 1 && args[0] == "--lease-holder"@ {
        lemma_run_command(rest, ttl, Some(args[1]));
        if let Ok(r) = run_flags(rest, ttl, Some(args[1])) {
            assert(rest.skip(rest.len() - r.command.len()) =~= args.skip(
                args.len() - r.command.len(),
            ));
        }
    } else {
        assert(args.skip(0) =~= args);
    }
}

/// A command behind `--` is taken as it is, even where it looks like a flag.
pub proof fn law_run_takes_what_follows_the_dashes(command: Seq<Seq<char>>)
    requires
        command.len() > 0,
    ensures
        run_request(seq!["run"@, "--"@, "--"@] + command) == Ok::<RunRequestView, Seq<char>>(
            RunRequestView { ttl: None, holder: None, command },
        ),
{
    reveal_strlit("run");
    reveal_strlit("--");
    reveal_strlit("--ttl");
    reveal_strlit("--lease-holder");
    assert("--"@.len() == 2 && "--ttl"@.len() == 5 && "--lease-holder"@.len() == 14);
    let args = seq!["run"@, "--"@, "--"@] + command;
    let b = args.skip(1);
    assert(b[0] == "--"@);
    let c = b.skip(1);
    assert(c[0] == "--"@);
    assert(c.skip(1) =~= command);
}

/// The flags of a run are read in any order, and the last of two equal ones
/// counts; a flag without a value is refused.
pub proof fn law_run_flags_are_read(
    rest: Seq<Seq<char>>,
    text: Seq<char>,
    name: Seq<char>,
    ttl: Option<Span>,
    holder: Option<Seq<char>>,
)
    ensures
        duration_spec(text) matches Ok(d) ==> run_flags(
            seq!["--ttl"@, text] + rest,
            ttl,
            holder,
        ) == run_flags(rest, Some(d), holder),
        duration_spec(text) is Err ==> run_flags(seq!["--ttl"@, text] + rest, ttl, holder) is Err,
        run_flags(seq!["--lease-holder"@, name] + rest, ttl, holder) == run_flags(
            rest,
            ttl,
            Some(name),
        ),
        run_flags(seq!["--ttl"@], ttl, holder) is Err,
        run_flags(seq!["--lease-holder"@], ttl, holder) is Err,
{
    reveal_strlit("--ttl");
    reveal_strlit("--lease-holder");
    assert("--ttl"@.len() == 5 && "--lease-holder"@.len() == 14);
    assert((seq!["--ttl"@, text] + rest).skip(2) =~= rest);
    assert((seq!["--lease-holder"@, name] + rest).skip(2) =~= rest);
}

/// The lease of a get is as long as its text says, and refused where the text
/// names no duration, names none at all, or names one that is too long.
pub proof fn law_ttl_is_what_the_text_says(s: Seq<char>, d: Span)
    ensures
        ttl_spec(s) == Ok::<Span, Seq<char>>(d) <==> duration_spec(s) == Ok::<Span, Seq<char>>(d)
            && 0 < d.secs * 1_000_000_000 + d.nanos <= i64::MAX * 1_000_000,
{
}

/// A duration is what the parser reads, unless its text could not be handed to
/// the parser.
pub proof fn law_durations_are_what_is_read(s: Seq<char>)
    ensures
        parsable(s) ==> match duration_read(s) {
            Ok((secs, nanos)) => duration_spec(s) == Ok::<Span, Seq<char>>(Span { secs, nanos }),
            Err(e) => duration_spec(s) == Err::<Span, Seq<char>>(e),
        },
        !parsable(s) ==> duration_spec(s) is Err,
        no_fine_char(s) ==> parsable(s),
{
}

/// Every text of up to ten characters can be handed to the parser.
pub proof fn law_short_durations_are_parsed(s: Seq<char>)
    requires
        s.len() <= 10,
    ensures
        parsable(s),
{
    lemma_short_reach(s, s.len());
}

proof fn lemma_short_reach(s: Seq<char>, k: nat)
    requires
        k <= s.len() <= 10,
    ensures
        ({
            let r = reach(s, k);
            &&& r.n < tens(k)
            &&& r.num < r.den
            &&& r.nanos <= k * 10_000_000_000 * 31_557_600_000_000_000
        }),
    decreases k,
{
    lemma_tens(k);
    if k > 0 {
        lemma_short_reach(s, (k - 1) as nat);
        lemma_tens((k - 1) as nat);
        let before = reach(s, (k - 1) as nat);
        let u = unit_nanos(s, k - 1);
        let most: nat = 31_557_600_000_000_000;
        let n = before.n;
        let num = before.num;
        let den = before.den;
        assert(num * u / den <= u) by (nonlinear_arith)
            requires
                num < den,
        ;
        assert(n * u + u <= 10_000_000_000 * u) by (nonlinear_arith)
            requires
                n + 1 <= 10_000_000_000,
        ;
        assert(u <= most);
    }
}

spec fn tens(k: nat) -> nat
    decreases k,
{
    if k == 0 {
        1
    } else {
        10 * tens((k - 1) as nat)
    }
}

proof fn lemma_tens(k: nat)
    requires
        k <= 10,
    ensures
        tens(k) <= 10_000_000_000,
        k < 10 ==> tens(k) <= 1_000_000_000,
{
    reveal_with_fuel(tens, 11);
}

/// The first of several worktrees with a name is the one that is meant.
pub proof fn law_first_of_a_name_is_meant(
    v: Seq<WorktreeStatus>,
    name: Seq<char>,
    i: int,
    j: int,
)
    requires
        first_named(v, name, i),
        0 <= j < v.len(),
        v[j].name@ == name,
    ensures
        i <= j,
        v[i].name@ == name,
{
}

/// What asks for a run may begin with the word `run` and a `--`; both are left
/// out once.
pub proof fn law_run_word_is_left_out(args: Seq<Seq<char>>, word: Seq<char>)
    ensures
        without_first(seq![word] + args, word) == args,
        args.len() == 0 || args[0] != word ==> without_first(args, word) == args,
{
    assert((seq![word] + args).skip(1) =~= args);
}

/// What begins with no flag is the command, as it is.
pub proof fn law_run_command_begins_at_no_flag(
    args: Seq<Seq<char>>,
    ttl: Option<Span>,
    holder: Option<Seq<char>>,
)
    requires
        args.len() > 0,
        args[0] != "--ttl"@,
        args[0] != "--lease-holder"@,
        args[0] != "--"@,
    ensures
        run_flags(args, ttl, holder) == Ok::<RunRequestView, Seq<char>>(
            RunRequestView { ttl, holder, command: args },
        ),
        args[0] != "run"@ ==> run_request(args) == Ok::<RunRequestView, Seq<char>>(
            RunRequestView { ttl: None, holder: None, command: args },
        ),
        run_request(seq!["run"@] + args) == Ok::<RunRequestView, Seq<char>>(
            RunRequestView { ttl: None, holder: None, command: args },
        ),
        run_request(seq!["run"@]) is Err,
        run_request(seq![]) is Err,
{
    reveal_strlit("run");
    reveal_strlit("--");
    assert("run"@.len() == 3 && "--"@.len() == 2);
    assert((seq!["run"@] + args).skip(1) =~= args);
    assert(seq!["run"@].skip(1) =~= seq![]);
}

/// The failure of a destroy names the worktree, what stands against its removal,
/// and the flags that would allow it.
pub proof fn law_destroy_failure_names_flags(r: DestroyResult)
    requires
        destroy_failure_spec(r, false, false) is Some,
    ensures
        destroy_failure_spec(r, false, false) == Some(
            "did not destroy "@ + r.skipped@[0].target.name@ + " ("@
                + r.skipped@[0].target.class.name_spec() + "); re-run with "@ + comma_list(
                flag_views(r.skipped@[0].needed_flags@),
            ),
        ),
{
}

/// A result says what was specified: the value where there is one, and the text
/// of the error where there is not.
pub proof fn law_results_say_what_is_specified<T>(
    r: Result<T, String>,
    s: Result<T, Seq<char>>,
)
    requires
        says(r, s),
    ensures
        r is Ok <==> s is Ok,
        r matches Ok(x) ==> s->Ok_0 == x,
        r matches Err(e) ==> s->Err_0 == e@,
{
}

/// The failure of a pool is reported under the pool, with where it failed and
/// why.
pub proof fn law_pool_failures_name_their_pool(
    e: CleanupError,
    dir: Seq<char>,
    phase: Seq<char>,
    detail: Seq<char>,
)
    requires
        is_pool_error(e, dir, phase, detail),
    ensures
        e.name@ == "pool"@,
        e.path@ == dir,
        e.phase@ == phase,
        e.detail@ == detail,
{
}

/// A whole number of a unit reaches as far as that many of the unit.
pub proof fn law_units_reach_their_length(digits: Seq<char>)
    requires
        crate::text::all_digits(digits),
    ensures
        ({
            let v = crate::text::digits_value(digits);
            let far = |unit: Seq<char>| reach(digits + unit, (digits + unit).len()).nanos;
            &&& far(seq!['n', 's']) == v
            &&& far(seq!['u', 's']) == v * 1000
            &&& far(seq!['m', 's']) == v * 1_000_000
            &&& far(seq!['s']) == v * 1_000_000_000
            &&& far(seq!['m']) == v * 60_000_000_000
            &&& far(seq!['h']) == v * 3_600_000_000_000
            &&& far(seq!['d']) == v * 86_400_000_000_000
            &&& far(seq!['w']) == v * 604_800_000_000_000
            &&& far(seq!['M']) == v * 2_630_016_000_000_000
            &&& far(seq!['y']) == v * 31_557_600_000_000_000
        }),
{
    lemma_one_letter(digits, 's');
    lemma_one_letter(digits, 'm');
    lemma_one_letter(digits, 'h');
    lemma_one_letter(digits, 'd');
    lemma_one_letter(digits, 'w');
    lemma_one_letter(digits, 'M');
    lemma_one_letter(digits, 'y');
    lemma_letter_and_s(digits, 'n');
    lemma_letter_and_s(digits, 'u');
    lemma_letter_and_s(digits, 'm');
}

proof fn lemma_digits_reach(s: Seq<char>, k: nat)
    requires
        k <= s.len(),
        forall|i: int| 0 <= i < k ==> '0' <= #[trigger] s[i] <= '9',
    ensures
        reach(s, k) == (Reach {
            n: crate::text::digits_value(s.take(k as int)),
            num: 0,
            den: 1,
            fraction: false,
            nanos: 0,
        }),
    decreases k,
{
    if k > 0 {
        lemma_digits_reach(s, (k - 1) as nat);
        assert(s.take(k as int).drop_last() =~= s.take(k - 1));
        assert(s.take(k as int).last() == s[k - 1]);
    } else {
        assert(s.take(0) =~= seq![]);
    }
}

proof fn lemma_one_letter(digits: Seq<char>, c: char)
    requires
        crate::text::all_digits(digits),
        ('a' <= c <= 'z') || ('A' <= c <= 'Z'),
    ensures
        ({
            let s = digits + seq![c];
            reach(s, s.len()).nanos == crate::text::digits_value(digits) * unit_nanos(
                s,
                digits.len() as int,
            )
        }),
        !next_is(digits + seq![c], digits.len() as int, 's'),
        (digits + seq![c])[digits.len() as int] == c,
{
    let s = digits + seq![c];
    let k = digits.len();
    assert forall|i: int| 0 <= i < k implies '0' <= #[trigger] s[i] <= '9' by {
        assert(s[i] == digits[i]);
    }
    lemma_digits_reach(s, k);
    assert(s.take(k as int) =~= digits);
    assert(s[k as int] == c);
    let u = unit_nanos(s, k as int);
    assert(0 * u / 1 == 0) by (nonlinear_arith);
    assert(s.len() == k + 1);
}

proof fn lemma_letter_and_s(digits: Seq<char>, c: char)
    requires
        crate::text::all_digits(digits),
        'a' <= c <= 'z',
    ensures
        ({
            let s = digits + seq![c, 's'];
            reach(s, s.len()).nanos == crate::text::digits_value(digits) * unit_nanos(
                s,
                digits.len() as int,
            )
        }),
        next_is(digits + seq![c, 's'], digits.len() as int, 's'),
        (digits + seq![c, 's'])[digits.len() as int] == c,
{
    let s = digits + seq![c, 's'];
    let k = digits.len();
    assert forall|i: int| 0 <= i < k implies '0' <= #[trigger] s[i] <= '9' by {
        assert(s[i] == digits[i]);
    }
    lemma_digits_reach(s, k);
    assert(s.take(k as int) =~= digits);
    assert(s[k as int] == c);
    assert(s[k as int + 1] == 's');
    let u = unit_nanos(s, k as int);
    let w = unit_nanos(s, k as int + 1);
    assert(0 * u / 1 == 0) by (nonlinear_arith);
    assert(0 * w / 1 == 0) by (nonlinear_arith);
    assert(0 * w == 0) by (nonlinear_arith);
    assert(s.len() == k + 2);
    assert(reach(s, (k + 1) as nat) == reach_step(s, k as int, reach(s, k)));
    assert(reach(s, (k + 2) as nat) == reach_step(s, k as int + 1, reach(s, (k + 1) as nat)));
}

} // verus!

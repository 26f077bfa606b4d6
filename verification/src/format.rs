//! The texts of command results: for people, as JSON or as TOON.
//!
//! Machine data goes to the output only. Banners, warnings and prompts go to
//! the error output, in every format.

use vstd::prelude::*;
use vstd::string::*;

use crate::destroy::{DestroyResult, DestroySkip, DestroyTarget};
use crate::gc::{GcResult, GcSkipped, GcWorktree};
use crate::json::{json_parsed, json_text, print_json, print_toon, toon_text};
use crate::pool::{WorktreeStatus, STATUS_LEASED};
use crate::process::{info_views, ProcessInfo, ProcessInfoView};
use crate::prune::{format_bytes, size_text, PruneResult, PruneSkipped, PruneWorktree};
use crate::reclaim::CleanupError;
use crate::result::{law_payload_is_plain, CommandResult, GetResult};
use crate::text::{decimal, decimal_text, lemma_views_push, views};

verus! {

broadcast use lemma_views_push;

/// In which form a result is written.
#[derive(Clone, Copy, Debug, PartialEq, Eq, Structural)]
pub enum OutputFormat {
    Human,
    Json,
    Toon,
}

/// What is written to the output and to the error output.
#[derive(Clone, Debug, PartialEq, Eq)]
pub struct Rendered {
    pub out: String,
    pub err: String,
}

/// Lines as a text: each of them followed by a line feed.
pub open spec fn block(lines: Seq<Seq<char>>) -> Seq<char>
    decreases lines.len(),
{
    if lines.len() == 0 {
        seq![]
    } else {
        block(lines.drop_last()) + lines.last() + "\n"@
    }
}

pub(crate) fn join_lines(lines: &Vec<String>) -> (r: String)
    ensures
        r@ == block(views(lines@)),
{
    let ghost all = views(lines@);
    let mut s = String::new();
    let mut i: usize = 0;
    assert(s@ =~= block(all.take(0)));
    while i < lines.len()
        invariant
            i <= lines.len(),
            all == views(lines@),
            s@ == block(all.take(i as int)),
        decreases lines.len() - i,
    {
        assert(all.take(i + 1).drop_last() =~= all.take(i as int));
        assert(all.take(i + 1).last() == lines@[i as int]@);
        s.append(&lines[i]);
        s.append("\n");
        i += 1;
    }
    assert(all.take(lines.len() as int) =~= all);
    s
}

/// `n` blanks.
pub open spec fn blanks(n: nat) -> Seq<char> {
    Seq::new(n, |i: int| ' ')
}

/// `s` with blanks behind it, up to `n` characters.
pub open spec fn padded(s: Seq<char>, n: nat) -> Seq<char> {
    if s.len() >= n {
        s
    } else {
        s + blanks((n - s.len()) as nat)
    }
}

fn pad(s: &str, n: usize) -> (r: String)
    ensures
        r@ == padded(s@, n as nat),
{
    let have: usize = s.unicode_len();
    let mut r = s.to_owned();
    let mut i: usize = have;
    assert(s@ + blanks(0) =~= s@);
    while i < n
        invariant
            have == s@.len(),
            have <= i,
            i <= n || i == have,
            r@ == s@ + blanks((i - have) as nat),
        decreases n - i,
    {
        r.append(" ");
        proof {
            reveal_strlit(" ");
            assert(r@ =~= s@ + blanks((i + 1 - have) as nat));
        }
        i += 1;
    }
    r
}

// ---------- for people ----------

/// The state of a worktree for people. A lease that has passed its end says so.
pub open spec fn shown_status(s: WorktreeStatus) -> Seq<char> {
    if s.stale {
        s.status@ + " (expired)"@
    } else {
        s.status@
    }
}

/// The line of a worktree in a status.
pub open spec fn status_line(s: WorktreeStatus) -> Seq<char> {
    padded(s.name@, 4) + "  "@ + padded(shown_status(s), 11) + "  "@ + s.path@ + (
    if s.lease_holder@.len() == 0 {
        seq![]
    } else {
        "  (held by "@ + s.lease_holder@ + ")"@
    })
}

fn status_row(s: &WorktreeStatus) -> (r: String)
    ensures
        r@ == status_line(*s),
{
    let mut t = pad(&s.name, 4);
    t.append("  ");
    let mut status = s.status.clone();
    if s.stale {
        status.append(" (expired)");
    }
    t.append(&pad(&status, 11));
    t.append("  ");
    t.append(&s.path);
    let mut holder = String::new();
    if !s.lease_holder.as_str().is_empty() {
        holder = "  (held by ".to_owned();
        holder.append(&s.lease_holder);
        holder.append(")");
    }
    assert(s.lease_holder@.len() == 0 ==> holder@ =~= seq![]);
    t.append(&holder);
    t
}

/// The line of a process in a status.
pub open spec fn process_line(p: ProcessInfoView) -> Seq<char> {
    blanks(19) + ProcessInfo::label_spec(p)
}

/// The lines of a worktree in a status: its own and those of its processes.
pub open spec fn status_lines(s: WorktreeStatus) -> Seq<Seq<char>> {
    seq![status_line(s)] + info_views(s.processes@).map_values(
        |p: ProcessInfoView| process_line(p),
    )
}

/// The lines of a status.
pub open spec fn all_status_lines(v: Seq<WorktreeStatus>) -> Seq<Seq<char>>
    decreases v.len(),
{
    if v.len() == 0 {
        seq![]
    } else {
        all_status_lines(v.drop_last()) + status_lines(v.last())
    }
}

fn push_status(lines: &mut Vec<String>, s: &WorktreeStatus)
    ensures
        views(final(lines)@) == views(old(lines)@) + status_lines(*s),
{
    let ghost before = views(lines@);
    let ghost more = info_views(s.processes@).map_values(|p: ProcessInfoView| process_line(p));
    lines.push(status_row(s));
    let mut i: usize = 0;
    assert(views(lines@) =~= before + seq![status_line(*s)] + more.take(0));
    while i < s.processes.len()
        invariant
            i <= s.processes.len(),
            more == info_views(s.processes@).map_values(|p: ProcessInfoView| process_line(p)),
            views(lines@) == before + seq![status_line(*s)] + more.take(i as int),
        decreases s.processes.len() - i,
    {
        let mut t = pad("", 19);
        proof {
            reveal_strlit("");
            assert(t@ =~= blanks(19));
        }
        t.append(&s.processes[i].label());
        assert(t@ == more[i as int]);
        lines.push(t);
        assert(views(lines@) =~= before + seq![status_line(*s)] + more.take(i + 1));
        i += 1;
    }
    assert(views(lines@) =~= before + status_lines(*s));
}

/// The line of a worktree that a prune would remove.
pub open spec fn prune_candidate_line(c: PruneWorktree) -> Seq<char> {
    "  "@ + size_text(c.bytes as nat) + " "@ + c.path@
}

fn prune_candidate_row(c: &PruneWorktree) -> (r: String)
    ensures
        r@ == prune_candidate_line(*c),
{
    let mut t = "  ".to_owned();
    t.append(&format_bytes(c.bytes));
    t.append(" ");
    t.append(&c.path);
    t
}

/// The line of something that was passed over, and why.
pub open spec fn tagged_line(tag: Seq<char>, path: Seq<char>, note: Seq<char>) -> Seq<char> {
    "  ["@ + tag + "] "@ + path + " ("@ + note + ")"@
}

fn tagged_row(tag: &str, path: &str, note: &str) -> (r: String)
    ensures
        r@ == tagged_line(tag@, path@, note@),
{
    let mut t = "  [".to_owned();
    t.append(tag);
    t.append("] ");
    t.append(path);
    t.append(" (");
    t.append(note);
    t.append(")");
    t
}

/// The line of something with its size.
pub open spec fn sized_line(tag: Seq<char>, bytes: u64, path: Seq<char>) -> Seq<char> {
    "  ["@ + tag + "] "@ + size_text(bytes as nat) + " "@ + path
}

fn sized_row(tag: &str, bytes: u64, path: &str) -> (r: String)
    ensures
        r@ == sized_line(tag@, bytes, path@),
{
    let mut t = "  [".to_owned();
    t.append(tag);
    t.append("] ");
    t.append(&format_bytes(bytes));
    t.append(" ");
    t.append(path);
    t
}

/// The line of a worktree whose removal failed.
pub open spec fn error_line(e: CleanupError) -> Seq<char> {
    "  ["@ + e.phase@ + "] "@ + e.path@ + " — "@ + e.name@ + ": "@ + e.detail@
}

fn error_row(e: &CleanupError) -> (r: String)
    ensures
        r@ == error_line(*e),
{
    let mut t = "  [".to_owned();
    t.append(&e.phase);
    t.append("] ");
    t.append(&e.path);
    t.append(" — ");
    t.append(&e.name);
    t.append(": ");
    t.append(&e.detail);
    t
}

/// A number and a size in words.
pub open spec fn summary_line(
    before: Seq<char>,
    n: nat,
    middle: Seq<char>,
    bytes: u64,
) -> Seq<char> {
    before + decimal(n) + middle + size_text(bytes as nat) + "."@
}

fn summary_row(before: &str, n: usize, middle: &str, bytes: u64) -> (r: String)
    ensures
        r@ == summary_line(before@, n as nat, middle@, bytes),
{
    let mut t = before.to_owned();
    t.append(&decimal_text(n as u64));
    t.append(middle);
    t.append(&format_bytes(bytes));
    t.append(".");
    t
}

pub(crate) fn count_row(before: &str, n: usize, after: &str) -> (r: String)
    ensures
        r@ == before@ + decimal(n as nat) + after@,
{
    let mut t = before.to_owned();
    t.append(&decimal_text(n as u64));
    t.append(after);
    t
}

/// The lines on worktrees whose removal failed; none where there are none.
pub open spec fn error_lines(errors: Seq<CleanupError>) -> Seq<Seq<char>> {
    if errors.len() == 0 {
        seq![]
    } else {
        seq![
            "🌳 Cleanup failed for "@ + decimal(errors.len())
                + " worktree(s) (will retry next run):"@,
        ] + errors.map_values(|e: CleanupError| error_line(e))
    }
}

fn push_errors(lines: &mut Vec<String>, errors: &Vec<CleanupError>)
    ensures
        views(final(lines)@) == views(old(lines)@) + error_lines(errors@),
{
    let ghost before = views(lines@);
    if errors.len() == 0 {
        assert(before + error_lines(errors@) =~= before);
        return;
    }
    let head = count_row(
        "🌳 Cleanup failed for ",
        errors.len(),
        " worktree(s) (will retry next run):",
    );
    lines.push(head);
    let ghost more = errors@.map_values(|e: CleanupError| error_line(e));
    let mut i: usize = 0;
    assert(views(lines@) =~= before + seq![head@] + more.take(0));
    while i < errors.len()
        invariant
            i <= errors.len(),
            more == errors@.map_values(|e: CleanupError| error_line(e)),
            views(lines@) == before + seq![head@] + more.take(i as int),
        decreases errors.len() - i,
    {
        let t = error_row(&errors[i]);
        lines.push(t);
        assert(views(lines@) =~= before + seq![head@] + more.take(i + 1));
        i += 1;
    }
    assert(views(lines@) =~= before + error_lines(errors@));
}

/// Nothing was found by a prune.
pub open spec fn prune_found_nothing(r: PruneResult) -> bool {
    r.candidates@.len() == 0 && r.skipped@.len() == 0 && r.errors@.len() == 0
}

/// What a prune writes to the output.
pub open spec fn prune_out(r: PruneResult) -> Seq<Seq<char>> {
    if prune_found_nothing(r) {
        seq![]
    } else if r.dry_run {
        seq![
            summary_line(
                "🌳 Dry run: would prune "@,
                r.candidates@.len(),
                " stale worktree(s) and reclaim "@,
                r.reclaimable_bytes,
            ),
            "🌳 Re-run with --yes to delete these worktrees."@,
        ] + r.candidates@.map_values(|c: PruneWorktree| prune_candidate_line(c))
    } else {
        seq![
            summary_line(
                "🌳 Pruned "@,
                r.pruned@.len(),
                " stale worktree(s) and freed "@,
                r.freed_bytes,
            ),
        ]
    }
}

/// The line of a worktree that a prune passed over.
pub open spec fn prune_skip_line(s: PruneSkipped) -> Seq<char> {
    tagged_line(s.category@, s.path@, s.reason@)
}

/// The lines on worktrees that a prune passed over.
pub open spec fn prune_skip_lines(skipped: Seq<PruneSkipped>) -> Seq<Seq<char>> {
    if skipped.len() == 0 {
        seq![]
    } else {
        seq!["🌳 Skipped "@ + decimal(skipped.len()) + " unsafe idle worktree(s):"@]
            + skipped.map_values(|s: PruneSkipped| prune_skip_line(s))
    }
}

/// What a prune writes to the error output.
pub open spec fn prune_err(r: PruneResult) -> Seq<Seq<char>> {
    if prune_found_nothing(r) {
        seq!["🌳 No stale worktrees to prune."@]
    } else {
        prune_skip_lines(r.skipped@) + error_lines(r.errors@)
    }
}

fn push_prune(r: &PruneResult, out: &mut Vec<String>, err: &mut Vec<String>)
    requires
        old(out)@.len() == 0,
        old(err)@.len() == 0,
    ensures
        views(final(out)@) == prune_out(*r),
        views(final(err)@) == prune_err(*r),
{
    if r.candidates.len() == 0 && r.skipped.len() == 0 && r.errors.len() == 0 {
        err.push("🌳 No stale worktrees to prune.".to_owned());
        assert(views(err@) =~= prune_err(*r));
        assert(views(out@) =~= prune_out(*r));
        return;
    }
    if r.dry_run {
        let a = summary_row(
            "🌳 Dry run: would prune ",
            r.candidates.len(),
            " stale worktree(s) and reclaim ",
            r.reclaimable_bytes,
        );
        let b = "🌳 Re-run with --yes to delete these worktrees.".to_owned();
        let ghost head = seq![a@, b@];
        out.push(a);
        out.push(b);
        let ghost more = r.candidates@.map_values(|c: PruneWorktree| prune_candidate_line(c));
        let mut i: usize = 0;
        assert(views(out@) =~= head + more.take(0));
        while i < r.candidates.len()
            invariant
                i <= r.candidates.len(),
                more == r.candidates@.map_values(|c: PruneWorktree| prune_candidate_line(c)),
                views(out@) == head + more.take(i as int),
            decreases r.candidates.len() - i,
        {
            let t = prune_candidate_row(&r.candidates[i]);
            out.push(t);
            assert(views(out@) =~= head + more.take(i + 1));
            i += 1;
        }
        assert(more.take(r.candidates.len() as int) =~= more);
    } else {
        let a = summary_row(
            "🌳 Pruned ",
            r.pruned.len(),
            " stale worktree(s) and freed ",
            r.freed_bytes,
        );
        out.push(a);
        assert(views(out@) =~= prune_out(*r));
    }
    if r.skipped.len() > 0 {
        let head = count_row("🌳 Skipped ", r.skipped.len(), " unsafe idle worktree(s):");
        err.push(head);
        let ghost more = r.skipped@.map_values(|s: PruneSkipped| prune_skip_line(s));
        let mut i: usize = 0;
        assert(views(err@) =~= seq![head@] + more.take(0));
        while i < r.skipped.len()
            invariant
                i <= r.skipped.len(),
                more == r.skipped@.map_values(|s: PruneSkipped| prune_skip_line(s)),
                views(err@) == seq![head@] + more.take(i as int),
            decreases r.skipped.len() - i,
        {
            let s = &r.skipped[i];
            let t = tagged_row(&s.category, &s.path, &s.reason);
            err.push(t);
            assert(views(err@) =~= seq![head@] + more.take(i + 1));
            i += 1;
        }
        assert(more.take(r.skipped.len() as int) =~= more);
    }
    assert(views(err@) =~= prune_skip_lines(r.skipped@));
    push_errors(err, &r.errors);
}

/// The line of a worktree that a destroy would remove.
pub open spec fn destroy_target_line(t: DestroyTarget) -> Seq<char> {
    sized_line(t.class.name_spec(), t.bytes, t.path@)
}

/// What a destroy writes to the output.
pub open spec fn destroy_out(r: DestroyResult) -> Seq<Seq<char>> {
    if r.dry_run {
        seq![
            summary_line(
                "🌳 Dry run: would destroy "@,
                r.planned@.len(),
                " worktree(s) in "@ + r.scope@ + " and reclaim "@,
                r.planned_bytes,
            ),
        ] + r.planned@.map_values(|t: DestroyTarget| destroy_target_line(t))
    } else {
        seq![
            summary_line(
                "🌳 Destroyed "@,
                r.destroyed@.len(),
                " worktree(s) in "@ + r.scope@ + " and freed "@,
                r.freed_bytes,
            ),
        ]
    }
}

/// The line of a worktree that a destroy left in place.
pub open spec fn destroy_skip_line(s: DestroySkip) -> Seq<char> {
    tagged_line(s.detail@, s.target.path@, s.target.class.name_spec())
}

/// What a destroy writes to the error output.
pub open spec fn destroy_err(r: DestroyResult) -> Seq<Seq<char>> {
    r.skipped@.map_values(|s: DestroySkip| destroy_skip_line(s))
}

fn in_scope(scope: &str, after: &str) -> (r: String)
    ensures
        r@ == " worktree(s) in "@ + scope@ + after@,
{
    let mut t = " worktree(s) in ".to_owned();
    t.append(scope);
    t.append(after);
    t
}

fn push_destroy(r: &DestroyResult, out: &mut Vec<String>, err: &mut Vec<String>)
    requires
        old(out)@.len() == 0,
        old(err)@.len() == 0,
    ensures
        views(final(out)@) == destroy_out(*r),
        views(final(err)@) == destroy_err(*r),
{
    if r.dry_run {
        let middle = in_scope(&r.scope, " and reclaim ");
        let a = summary_row(
            "🌳 Dry run: would destroy ",
            r.planned.len(),
            &middle,
            r.planned_bytes,
        );
        out.push(a);
        let ghost more = r.planned@.map_values(|t: DestroyTarget| destroy_target_line(t));
        let mut i: usize = 0;
        assert(views(out@) =~= seq![a@] + more.take(0));
        while i < r.planned.len()
            invariant
                i <= r.planned.len(),
                more == r.planned@.map_values(|t: DestroyTarget| destroy_target_line(t)),
                views(out@) == seq![a@] + more.take(i as int),
            decreases r.planned.len() - i,
        {
            let t = &r.planned[i];
            let row = sized_row(t.class.name(), t.bytes, &t.path);
            out.push(row);
            assert(views(out@) =~= seq![a@] + more.take(i + 1));
            i += 1;
        }
        assert(more.take(r.planned.len() as int) =~= more);
    } else {
        let middle = in_scope(&r.scope, " and freed ");
        let a = summary_row("🌳 Destroyed ", r.destroyed.len(), &middle, r.freed_bytes);
        out.push(a);
        assert(views(out@) =~= destroy_out(*r));
    }
    let ghost more = destroy_err(*r);
    let mut i: usize = 0;
    assert(views(err@) =~= more.take(0));
    while i < r.skipped.len()
        invariant
            i <= r.skipped.len(),
            more == destroy_err(*r),
            views(err@) == more.take(i as int),
        decreases r.skipped.len() - i,
    {
        let s = &r.skipped[i];
        let row = tagged_row(&s.detail, &s.target.path, s.target.class.name());
        err.push(row);
        assert(views(err@) =~= more.take(i + 1));
        i += 1;
    }
    assert(more.take(r.skipped.len() as int) =~= more);
}

/// What is written for people to the output.
pub open spec fn human_out(r: CommandResult) -> Seq<Seq<char>> {
    match r {
        CommandResult::Get(GetResult::Lease(l)) => seq![l.path@],
        CommandResult::Get(GetResult::Interactive) => seq![],
        CommandResult::Enter => seq![],
        CommandResult::Return(_) => seq![],
        CommandResult::Status(v) => all_status_lines(v@),
        CommandResult::Prune(p, _) => prune_out(p),
        CommandResult::Gc(g, _) => gc_out(g.dry_run, g),
        CommandResult::Destroy(d) => destroy_out(d),
    }
}

/// What is written for people to the error output.
pub open spec fn human_err(r: CommandResult) -> Seq<Seq<char>> {
    match r {
        CommandResult::Get(GetResult::Lease(l)) => seq![
            "🌳 Leased worktree at "@ + l.path@ + ". Run 'treehouse return "@ + l.path@
                + "' to release it."@,
        ],
        CommandResult::Get(GetResult::Interactive) => seq![],
        CommandResult::Enter => seq![],
        CommandResult::Return(x) => if x.aborted {
            seq!["🌳 Aborted."@]
        } else if x.returned {
            seq!["🌳 Worktree returned to pool."@]
        } else {
            seq![]
        },
        CommandResult::Status(v) => if v@.len() == 0 {
            seq!["🌳 No worktrees in pool."@]
        } else {
            seq![]
        },
        CommandResult::Prune(p, _) => prune_err(p),
        CommandResult::Gc(g, _) => gc_err(g),
        CommandResult::Destroy(d) => destroy_err(d),
    }
}

fn lease_banner(path: &str) -> (r: String)
    ensures
        r@ == "🌳 Leased worktree at "@ + path@ + ". Run 'treehouse return "@ + path@
            + "' to release it."@,
{
    let mut t = "🌳 Leased worktree at ".to_owned();
    t.append(path);
    t.append(". Run 'treehouse return ");
    t.append(path);
    t.append("' to release it.");
    t
}

/// The text of a result for people.
fn render_human(result: &CommandResult) -> (r: Rendered)
    ensures
        r.out@ == block(human_out(*result)),
        r.err@ == block(human_err(*result)),
{
    let mut out: Vec<String> = Vec::new();
    let mut err: Vec<String> = Vec::new();
    assert(views(out@) =~= seq![]);
    match result {
        CommandResult::Get(GetResult::Lease(l)) => {
            out.push(l.path.clone());
            err.push(lease_banner(&l.path));
        },
        CommandResult::Get(GetResult::Interactive) => {},
        CommandResult::Enter => {},
        CommandResult::Return(x) => {
            if x.aborted {
                err.push("🌳 Aborted.".to_owned());
            } else if x.returned {
                err.push("🌳 Worktree returned to pool.".to_owned());
            }
        },
        CommandResult::Status(v) => {
            if v.len() == 0 {
                err.push("🌳 No worktrees in pool.".to_owned());
            }
            let mut i: usize = 0;
            assert(views(out@) =~= all_status_lines(v@.take(0)));
            while i < v.len()
                invariant
                    i <= v.len(),
                    views(out@) == all_status_lines(v@.take(i as int)),
                decreases v.len() - i,
            {
                assert(v@.take(i + 1).drop_last() =~= v@.take(i as int));
                push_status(&mut out, &v[i]);
                i += 1;
            }
            assert(v@.take(v.len() as int) =~= v@);
        },
        CommandResult::Prune(p, _) => push_prune(p, &mut out, &mut err),
        CommandResult::Gc(g, _) => push_gc(g.dry_run, g, &mut out, &mut err),
        CommandResult::Destroy(d) => push_destroy(d, &mut out, &mut err),
    }
    assert(views(out@) =~= human_out(*result));
    assert(views(err@) =~= human_err(*result));
    Rendered { out: join_lines(&out), err: join_lines(&err) }
}

// ---------- for machines ----------

/// What is written for a machine to the output.
pub open spec fn machine_out(format: OutputFormat, r: CommandResult) -> Seq<char> {
    match r.tree() {
        None => seq![],
        Some(t) => if format == OutputFormat::Toon {
            toon_text(t) + "\n"@
        } else {
            json_text(t) + "\n"@
        },
    }
}

/// The text of a result as JSON: one document, compact, and a line feed. It
/// reads back as what the result holds.
fn render_json(result: &CommandResult) -> (r: Rendered)
    requires
        result.wf(),
    ensures
        r.out@ == machine_out(OutputFormat::Json, *result),
        r.err@ == Seq::<char>::empty(),
        result.tree() matches Some(t) ==> json_parsed(vstd::utf8::encode_utf8(r.out@)) == Some(t),
{
    match result.payload() {
        Some(v) => {
            proof {
                law_payload_is_plain(*result);
                crate::json::lemma_plain_grows(result.tree()->Some_0, 4, 100);
            }
            let mut out = print_json(&v);
            let ghost text = out@;
            out.append("\n");
            proof {
                crate::json::lemma_line_feed(text);
            }
            Rendered { out, err: String::new() }
        },
        None => Rendered { out: String::new(), err: String::new() },
    }
}

/// The text of a result as TOON: the same data, and a line feed.
fn render_toon(result: &CommandResult) -> (r: Rendered)
    requires
        result.wf(),
    ensures
        r.out@ == machine_out(OutputFormat::Toon, *result),
        r.err@ == Seq::<char>::empty(),
{
    match result.payload() {
        Some(v) => {
            let mut out = print_toon(v);
            out.append("\n");
            Rendered { out, err: String::new() }
        },
        None => Rendered { out: String::new(), err: String::new() },
    }
}

/// The text of a result in a form.
pub fn render(format: OutputFormat, result: &CommandResult) -> (r: Rendered)
    requires
        result.wf(),
    ensures
        r.out@ == if format == OutputFormat::Human {
            block(human_out(*result))
        } else {
            machine_out(format, *result)
        },
        r.err@ == if format == OutputFormat::Human {
            block(human_err(*result))
        } else {
            seq![]
        },
        format == OutputFormat::Json ==> (result.tree() matches Some(t) ==> json_parsed(
            vstd::utf8::encode_utf8(r.out@),
        ) == Some(t)),
{
    match format {
        OutputFormat::Human => render_human(result),
        OutputFormat::Json => render_json(result),
        OutputFormat::Toon => render_toon(result),
    }
}

// ---------- reclaiming ----------

/// Nothing was found by reclaiming.
pub open spec fn gc_found_nothing(r: GcResult) -> bool {
    r.candidates@.len() == 0 && r.skipped@.len() == 0 && r.errors@.len() == 0
}

/// The line of a worktree that would be reclaimed.
pub open spec fn gc_candidate_line(c: GcWorktree) -> Seq<char> {
    sized_line(c.tag@, c.bytes, c.path@)
}

/// The line of a worktree that reclaiming passed over.
pub open spec fn gc_skip_line(s: GcSkipped) -> Seq<char> {
    tagged_line(s.category@, s.path@, s.reason@)
}

/// The lines on worktrees that reclaiming passed over.
pub open spec fn gc_skip_lines(skipped: Seq<GcSkipped>) -> Seq<Seq<char>> {
    if skipped.len() == 0 {
        seq![]
    } else {
        seq!["🌳 Skipped "@ + decimal(skipped.len()) + " worktree(s):"@] + skipped.map_values(
            |s: GcSkipped| gc_skip_line(s),
        )
    }
}

/// What reclaiming writes to the output.
pub open spec fn gc_out(dry_run: bool, r: GcResult) -> Seq<Seq<char>> {
    if gc_found_nothing(r) {
        seq![]
    } else if dry_run {
        seq![
            summary_line(
                "🌳 Dry run: would reclaim "@,
                r.candidates@.len(),
                " worktree(s) and free "@,
                r.reclaimable_bytes,
            ),
            "🌳 Re-run with --yes to reclaim these worktrees."@,
        ] + r.candidates@.map_values(|c: GcWorktree| gc_candidate_line(c))
    } else {
        seq![
            summary_line(
                "🌳 Reclaimed "@,
                r.reclaimed@.len(),
                " worktree(s) and freed "@,
                r.freed_bytes,
            ),
        ]
    }
}

/// What reclaiming writes to the error output.
pub open spec fn gc_err(r: GcResult) -> Seq<Seq<char>> {
    if gc_found_nothing(r) {
        seq!["🌳 No stale worktrees to reclaim."@]
    } else {
        gc_skip_lines(r.skipped@) + error_lines(r.errors@)
    }
}

fn push_gc(dry_run: bool, r: &GcResult, out: &mut Vec<String>, err: &mut Vec<String>)
    requires
        old(out)@.len() == 0,
        old(err)@.len() == 0,
    ensures
        views(final(out)@) == gc_out(dry_run, *r),
        views(final(err)@) == gc_err(*r),
{
    if r.candidates.len() == 0 && r.skipped.len() == 0 && r.errors.len() == 0 {
        err.push("🌳 No stale worktrees to reclaim.".to_owned());
        assert(views(err@) =~= gc_err(*r));
        assert(views(out@) =~= gc_out(dry_run, *r));
        return;
    }
    if dry_run {
        let a = summary_row(
            "🌳 Dry run: would reclaim ",
            r.candidates.len(),
            " worktree(s) and free ",
            r.reclaimable_bytes,
        );
        let b = "🌳 Re-run with --yes to reclaim these worktrees.".to_owned();
        let ghost head = seq![a@, b@];
        out.push(a);
        out.push(b);
        let ghost more = r.candidates@.map_values(|c: GcWorktree| gc_candidate_line(c));
        let mut i: usize = 0;
        assert(views(out@) =~= head + more.take(0));
        while i < r.candidates.len()
            invariant
                i <= r.candidates.len(),
                more == r.candidates@.map_values(|c: GcWorktree| gc_candidate_line(c)),
                views(out@) == head + more.take(i as int),
            decreases r.candidates.len() - i,
        {
            let c = &r.candidates[i];
            let t = sized_row(&c.tag, c.bytes, &c.path);
            out.push(t);
            assert(views(out@) =~= head + more.take(i + 1));
            i += 1;
        }
        assert(more.take(r.candidates.len() as int) =~= more);
    } else {
        let a = summary_row(
            "🌳 Reclaimed ",
            r.reclaimed.len(),
            " worktree(s) and freed ",
            r.freed_bytes,
        );
        out.push(a);
        assert(views(out@) =~= gc_out(dry_run, *r));
    }
    if r.skipped.len() > 0 {
        let head = count_row("🌳 Skipped ", r.skipped.len(), " worktree(s):");
        err.push(head);
        let ghost more = r.skipped@.map_values(|s: GcSkipped| gc_skip_line(s));
        let mut i: usize = 0;
        assert(views(err@) =~= seq![head@] + more.take(0));
        while i < r.skipped.len()
            invariant
                i <= r.skipped.len(),
                more == r.skipped@.map_values(|s: GcSkipped| gc_skip_line(s)),
                views(err@) == seq![head@] + more.take(i as int),
            decreases r.skipped.len() - i,
        {
            let s = &r.skipped[i];
            let t = tagged_row(&s.category, &s.path, &s.reason);
            err.push(t);
            assert(views(err@) =~= seq![head@] + more.take(i + 1));
            i += 1;
        }
        assert(more.take(r.skipped.len() as int) =~= more);
    }
    assert(views(err@) =~= gc_skip_lines(r.skipped@));
    push_errors(err, &r.errors);
    assert(views(out@) =~= gc_out(dry_run, *r));
    assert(views(err@) =~= gc_err(*r));
}

/// The text of what reclaiming did or would do.
pub fn render_gc(dry_run: bool, r: &GcResult) -> (t: Rendered)
    ensures
        t.out@ == block(gc_out(dry_run, *r)),
        t.err@ == block(gc_err(*r)),
{
    let mut out: Vec<String> = Vec::new();
    let mut err: Vec<String> = Vec::new();
    push_gc(dry_run, r, &mut out, &mut err);
    Rendered { out: join_lines(&out), err: join_lines(&err) }
}

// ---------- laws ----------

/// A shell that was started gets a clean output: nothing is written to it, in
/// any form.
pub proof fn law_shells_have_no_output(r: CommandResult, format: OutputFormat)
    requires
        r is Enter || r == CommandResult::Get(GetResult::Interactive),
    ensures
        block(human_out(r)) == Seq::<char>::empty(),
        machine_out(format, r) == Seq::<char>::empty(),
{
}

/// A lease for people puts exactly its path on the output, on one line.
pub proof fn law_lease_output_is_the_path(l: crate::lease::LeaseInfo)
    ensures
        block(human_out(CommandResult::Get(GetResult::Lease(l)))) == l.path@ + "\n"@,
{
    let lines = seq![l.path@];
    assert(lines.drop_last() =~= seq![]);
    assert(block(Seq::<Seq<char>>::empty()) =~= seq![]);
    assert(block(lines) =~= l.path@ + "\n"@);
}

/// A lease that has passed its end is shown as leased and expired, not as
/// free.
pub proof fn law_expired_lease_is_shown(s: WorktreeStatus)
    requires
        s.status@ == STATUS_LEASED@,
        s.stale,
    ensures
        shown_status(s) == "leased (expired)"@,
{
    reveal_strlit("leased");
    reveal_strlit(" (expired)");
    reveal_strlit("leased (expired)");
    assert("leased"@ + " (expired)"@ =~= "leased (expired)"@);
}

/// A text of lines is the lines one after the other, each with a line feed.
pub proof fn law_block_keeps_every_line(lines: Seq<Seq<char>>)
    ensures
        block(lines) == lines.map_values(|l: Seq<char>| l + "\n"@).flatten_alt(),
    decreases lines.len(),
{
    let all = lines.map_values(|l: Seq<char>| l + "\n"@);
    if lines.len() > 0 {
        law_block_keeps_every_line(lines.drop_last());
        assert(all.drop_last() =~= lines.drop_last().map_values(|l: Seq<char>| l + "\n"@));
        assert(block(lines) =~= all.drop_last().flatten_alt() + (lines.last() + "\n"@));
    }
}

/// Padding puts blanks behind a text up to a width, and cuts nothing off.
pub proof fn law_padding_keeps_the_text(s: Seq<char>, n: nat)
    ensures
        padded(s, n).take(s.len() as int) == s,
        padded(s, n).len() == if s.len() < n {
            n
        } else {
            s.len()
        },
        forall|i: int| s.len() <= i < padded(s, n).len() ==> padded(s, n)[i] == ' ',
{
    assert(padded(s, n).take(s.len() as int) =~= s);
}

/// A status for people lists every worktree in order, each with all its
/// processes below it; nothing else is listed.
pub proof fn law_status_lists_everything(v: Seq<WorktreeStatus>, s: WorktreeStatus, i: int)
    ensures
        all_status_lines(v) == v.map_values(|w: WorktreeStatus| status_lines(w)).flatten_alt(),
        status_lines(s).len() == 1 + s.processes@.len(),
        status_lines(s)[0] == status_line(s),
        0 <= i < s.processes@.len() ==> status_lines(s)[i + 1] == blanks(19) + s.processes@[i].name@
            + " ("@ + crate::text::decimal_int(s.processes@[i].pid as int) + ")"@,
    decreases v.len(),
{
    let all = v.map_values(|w: WorktreeStatus| status_lines(w));
    if v.len() > 0 {
        law_status_lists_everything(v.drop_last(), s, i);
        assert(all.drop_last() =~= v.drop_last().map_values(|w: WorktreeStatus| status_lines(w)));
    }
    if 0 <= i < s.processes@.len() {
        assert(status_lines(s)[i + 1] == process_line(s.processes@[i]@));
        assert(status_lines(s)[i + 1] =~= blanks(19) + s.processes@[i].name@ + " ("@
            + crate::text::decimal_int(s.processes@[i].pid as int) + ")"@);
    }
}

/// The line of a worktree begins with its name, and ends with its path or with
/// who holds it.
pub proof fn law_status_line_names_path_and_holder(s: WorktreeStatus)
    ensures
        crate::text::begins(status_line(s), s.name@),
        s.lease_holder@.len() == 0 ==> crate::text::ends(status_line(s), "  "@ + s.path@),
        s.lease_holder@.len() > 0 ==> crate::text::ends(
            status_line(s),
            "  "@ + s.path@ + "  (held by "@ + s.lease_holder@ + ")"@,
        ),
{
    let line = status_line(s);
    law_padding_keeps_the_text(s.name@, 4);
    assert(line.take(s.name@.len() as int) =~= padded(s.name@, 4).take(s.name@.len() as int));
    let front = padded(s.name@, 4) + "  "@ + padded(shown_status(s), 11);
    if s.lease_holder@.len() == 0 {
        let tail = "  "@ + s.path@;
        assert(line =~= front + tail);
        assert(line.skip(line.len() - tail.len()) =~= tail);
    } else {
        let tail = "  "@ + s.path@ + "  (held by "@ + s.lease_holder@ + ")"@;
        assert(line =~= front + tail);
        assert(line.skip(line.len() - tail.len()) =~= tail);
    }
}

/// A prune tells of everything that it found: a dry run names every candidate,
/// and every worktree that was passed over or could not be removed is named
/// with the reason. Only a prune that found nothing says so.
pub proof fn law_prune_tells_everything(r: PruneResult, i: int)
    ensures
        ({
            let nothing = r.candidates@.len() == 0 && r.skipped@.len() == 0 && r.errors@.len() == 0;
            &&& nothing ==> prune_out(r).len() == 0 && prune_err(r) == seq![
                "🌳 No stale worktrees to prune."@,
            ]
            &&& !nothing && r.dry_run ==> prune_out(r).len() == 2 + r.candidates@.len()
            &&& r.dry_run && 0 <= i < r.candidates@.len() ==> prune_out(r)[i + 2] == "  "@
                + size_text(r.candidates@[i].bytes as nat) + " "@ + r.candidates@[i].path@
            &&& !nothing && !r.dry_run ==> prune_out(r).len() == 1
            &&& 0 <= i < r.skipped@.len() ==> prune_err(r)[i + 1] == "  ["@ + r.skipped@[i].category@
                + "] "@ + r.skipped@[i].path@ + " ("@ + r.skipped@[i].reason@ + ")"@
            &&& 0 <= i < r.errors@.len() ==> prune_err(r).contains(error_line(r.errors@[i]))
        }),
{
    let skips = prune_skip_lines(r.skipped@);
    let errors = error_lines(r.errors@);
    if 0 <= i < r.errors@.len() {
        assert(errors[i + 1] == error_line(r.errors@[i]));
        assert(prune_err(r)[skips.len() + i + 1] == error_line(r.errors@[i]));
    }
    if 0 <= i < r.skipped@.len() {
        assert(skips[i + 1] == prune_skip_line(r.skipped@[i]));
        assert(prune_err(r)[i + 1] == skips[i + 1]);
    }
    if r.dry_run && 0 <= i < r.candidates@.len() {
        assert(prune_out(r)[i + 2] == prune_candidate_line(r.candidates@[i]));
    }
}

/// Reclaiming tells of everything that it found: a dry run names every
/// candidate, and every worktree that was passed over or could not be removed
/// is named with the reason.
pub proof fn law_gc_tells_everything(dry_run: bool, r: GcResult, i: int)
    ensures
        ({
            let nothing = r.candidates@.len() == 0 && r.skipped@.len() == 0 && r.errors@.len() == 0;
            &&& nothing ==> gc_out(dry_run, r).len() == 0 && gc_err(r) == seq![
                "🌳 No stale worktrees to reclaim."@,
            ]
            &&& !nothing && dry_run ==> gc_out(dry_run, r).len() == 2 + r.candidates@.len()
            &&& dry_run && 0 <= i < r.candidates@.len() ==> gc_out(dry_run, r)[i + 2] == "  ["@
                + r.candidates@[i].tag@ + "] "@ + size_text(r.candidates@[i].bytes as nat) + " "@
                + r.candidates@[i].path@
            &&& !nothing && !dry_run ==> gc_out(dry_run, r).len() == 1
            &&& 0 <= i < r.skipped@.len() ==> gc_err(r)[i + 1] == "  ["@ + r.skipped@[i].category@
                + "] "@ + r.skipped@[i].path@ + " ("@ + r.skipped@[i].reason@ + ")"@
            &&& 0 <= i < r.errors@.len() ==> gc_err(r).contains(error_line(r.errors@[i]))
        }),
{
    let skips = gc_skip_lines(r.skipped@);
    let errors = error_lines(r.errors@);
    if 0 <= i < r.errors@.len() {
        assert(errors[i + 1] == error_line(r.errors@[i]));
        assert(gc_err(r)[skips.len() + i + 1] == error_line(r.errors@[i]));
    }
    if 0 <= i < r.skipped@.len() {
        assert(skips[i + 1] == gc_skip_line(r.skipped@[i]));
        assert(gc_err(r)[i + 1] == skips[i + 1]);
    }
    if dry_run && 0 <= i < r.candidates@.len() {
        assert(gc_out(dry_run, r)[i + 2] == gc_candidate_line(r.candidates@[i]));
    }
}

/// A destroy tells of everything that it planned and of everything that it left
/// in place.
pub proof fn law_destroy_tells_everything(r: DestroyResult, i: int)
    ensures
        r.dry_run ==> destroy_out(r).len() == 1 + r.planned@.len(),
        r.dry_run && 0 <= i < r.planned@.len() ==> destroy_out(r)[i + 1] == "  ["@
            + r.planned@[i].class.name_spec() + "] "@ + size_text(r.planned@[i].bytes as nat) + " "@
            + r.planned@[i].path@,
        !r.dry_run ==> destroy_out(r).len() == 1,
        destroy_err(r).len() == r.skipped@.len(),
        0 <= i < r.skipped@.len() ==> destroy_err(r)[i] == "  ["@ + r.skipped@[i].detail@ + "] "@
            + r.skipped@[i].target.path@ + " ("@ + r.skipped@[i].target.class.name_spec() + ")"@,
{
    if r.dry_run && 0 <= i < r.planned@.len() {
        assert(destroy_out(r)[i + 1] == destroy_target_line(r.planned@[i]));
    }
}

/// The summary of a removal tells how many worktrees went and how much that
/// freed; that of a dry run how many would go, and how much that would free.
pub proof fn law_summaries_tell_the_numbers(
    p: PruneResult,
    g: GcResult,
    d: DestroyResult,
    dry_run: bool,
)
    ensures
        !prune_found_nothing(p) ==> prune_out(p)[0] == if p.dry_run {
            "🌳 Dry run: would prune "@ + decimal(p.candidates@.len())
                + " stale worktree(s) and reclaim "@ + size_text(p.reclaimable_bytes as nat) + "."@
        } else {
            "🌳 Pruned "@ + decimal(p.pruned@.len()) + " stale worktree(s) and freed "@ + size_text(
                p.freed_bytes as nat,
            ) + "."@
        },
        !gc_found_nothing(g) ==> gc_out(dry_run, g)[0] == if dry_run {
            "🌳 Dry run: would reclaim "@ + decimal(g.candidates@.len()) + " worktree(s) and free "@
                + size_text(g.reclaimable_bytes as nat) + "."@
        } else {
            "🌳 Reclaimed "@ + decimal(g.reclaimed@.len()) + " worktree(s) and freed "@ + size_text(
                g.freed_bytes as nat,
            ) + "."@
        },
        destroy_out(d)[0] == if d.dry_run {
            "🌳 Dry run: would destroy "@ + decimal(d.planned@.len()) + (" worktree(s) in "@ + d.scope@
                + " and reclaim "@) + size_text(d.planned_bytes as nat) + "."@
        } else {
            "🌳 Destroyed "@ + decimal(d.destroyed@.len()) + (" worktree(s) in "@ + d.scope@
                + " and freed "@) + size_text(d.freed_bytes as nat) + "."@
        },
{
}

/// People are told how a return ended, that a pool is empty, and how to give a
/// leased worktree back; a return writes nothing to the output.
pub proof fn law_people_are_told(
    r: crate::result::ReturnResult,
    v: Vec<WorktreeStatus>,
    l: crate::lease::LeaseInfo,
)
    ensures
        human_out(CommandResult::Return(r)).len() == 0,
        r.aborted ==> human_err(CommandResult::Return(r)) == seq!["🌳 Aborted."@],
        !r.aborted && r.returned ==> human_err(CommandResult::Return(r)) == seq![
            "🌳 Worktree returned to pool."@,
        ],
        human_out(CommandResult::Status(v)) == all_status_lines(v@),
        v@.len() == 0 ==> human_err(CommandResult::Status(v)) == seq!["🌳 No worktrees in pool."@],
        v@.len() > 0 ==> human_err(CommandResult::Status(v)).len() == 0,
        human_err(CommandResult::Get(GetResult::Lease(l))) == seq![
            "🌳 Leased worktree at "@ + l.path@ + ". Run 'treehouse return "@ + l.path@
                + "' to release it."@,
        ],
{
}

/// For machines a result is one document of its value, and a line feed.
pub proof fn law_machines_get_one_document(r: CommandResult, t: crate::json::Tree)
    requires
        r.tree() == Some(t),
    ensures
        machine_out(OutputFormat::Json, r) == json_text(t) + "\n"@,
        machine_out(OutputFormat::Toon, r) == toon_text(t) + "\n"@,
{
}

/// The state of a worktree stands in its line right behind its name, and the
/// line of a removal that failed says where and why.
pub proof fn law_lines_say_state_and_failure(s: WorktreeStatus, e: CleanupError)
    ensures
        status_line(s).skip((padded(s.name@, 4).len() + "  "@.len()) as int).take(
            shown_status(s).len() as int,
        ) == shown_status(s),
        !s.stale ==> shown_status(s) == s.status@,
        error_line(e) == "  ["@ + e.phase@ + "] "@ + e.path@ + " — "@ + e.name@ + ": "@ + e.detail@,
{
    let at = (padded(s.name@, 4).len() + "  "@.len()) as int;
    law_padding_keeps_the_text(shown_status(s), 11);
    let n = shown_status(s).len() as int;
    assert(status_line(s).skip(at).take(n) =~= padded(shown_status(s), 11).take(n));
}

} // verus!

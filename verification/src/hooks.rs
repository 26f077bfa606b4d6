//! Lifecycle hooks: commands that run in a worktree when it was created and
//! before it is destroyed.
//!
//! Hooks run one after the other, outside every lock. One that fails is
//! reported; it stops neither the hooks after it nor the caller.

use vstd::prelude::*;
use vstd::string::*;

use crate::text::{decimal_int, decimal_int_text, list_of, quote, quoted, views};

verus! {

/// How a hook ended.
#[derive(Clone, Debug, PartialEq, Eq)]
pub enum HookOutcome {
    /// The command could not be started or waited for.
    Failed(String),
    /// The command ended: with its exit code, where it has one, and with its
    /// status in words.
    Ended { code: Option<i32>, status: String },
}

/// The hook did what it should.
pub open spec fn went_well(o: HookOutcome) -> bool {
    o matches HookOutcome::Ended { code, .. } && code == Some(0i32)
}

/// The line that reports a failed hook.
pub open spec fn failure_line(command: Seq<char>, o: HookOutcome) -> Seq<char> {
    "🌳 hook command failed: "@ + quoted(command) + " (exit "@ + match o {
        HookOutcome::Failed(e) => "-1"@ + "): "@ + e@,
        HookOutcome::Ended { code, status } => decimal_int(
            match code {
                Some(c) => c as int,
                None => -1,
            },
        ) + "): command exited with status "@ + status@,
    }
}

/// The reports of the hooks that failed, in order.
pub open spec fn reports(commands: Seq<String>, outcomes: Seq<HookOutcome>) -> Seq<Seq<char>>
    decreases commands.len(),
{
    if commands.len() == 0 {
        seq![]
    } else {
        let rest = reports(commands.drop_last(), outcomes);
        let o = outcomes[commands.len() - 1];
        if went_well(o) {
            rest
        } else {
            rest.push(failure_line(commands.last()@, o))
        }
    }
}

/// The report of a hook, where it failed.
pub fn run_one(command: &str, outcome: &HookOutcome) -> (r: Option<String>)
    ensures
        match r {
            Some(line) => !went_well(*outcome) && line@ == failure_line(command@, *outcome),
            None => went_well(*outcome),
        },
{
    let mut s = "🌳 hook command failed: ".to_owned();
    s.append(&quote(command));
    s.append(" (exit ");
    match outcome {
        HookOutcome::Failed(e) => {
            let mut tail = "-1".to_owned();
            tail.append("): ");
            tail.append(e);
            s.append(&tail);
            Some(s)
        },
        HookOutcome::Ended { code, status } => {
            let c: i32 = match code {
                Some(c) => *c,
                None => -1,
            };
            if code.is_some() && c == 0 {
                return None;
            }
            let mut tail = decimal_int_text(c as i64);
            tail.append("): command exited with status ");
            tail.append(status);
            s.append(&tail);
            Some(s)
        },
    }
}

/// The reports of hooks that were all run: one for each that failed.
pub fn run(commands: &Vec<String>, outcomes: &Vec<HookOutcome>) -> (r: Vec<String>)
    requires
        commands@.len() == outcomes@.len(),
    ensures
        views(r@) == reports(commands@, outcomes@),
{
    let mut out: Vec<String> = Vec::new();
    let mut i: usize = 0;
    assert(views(out@) =~= seq![]);
    while i < commands.len()
        invariant
            i <= commands.len(),
            commands@.len() == outcomes@.len(),
            views(out@) == reports(commands@.take(i as int), outcomes@),
        decreases commands.len() - i,
    {
        broadcast use crate::text::lemma_views_push;

        assert(commands@.take(i + 1).drop_last() =~= commands@.take(i as int));
        assert(commands@.take(i + 1).last() == commands@[i as int]);
        if let Some(line) = run_one(&commands[i], &outcomes[i]) {
            out.push(line);
        }
        i += 1;
    }
    assert(commands@.take(commands.len() as int) =~= commands@);
    out
}

/// The arguments of the shell that runs a hook.
pub fn hook_args(command: &str) -> (r: Vec<String>)
    ensures
        views(r@) == seq!["-c"@, command@],
{
    let r = list_of(&["-c", command]);
    assert(views(r@) =~= seq!["-c"@, command@]);
    r
}

/// The command line of the shell of Windows for a hook.
pub fn windows_shell_command_line(shell: &str, command: &str) -> (r: String)
    ensures
        r@ == "\""@ + shell@ + "\" /d /s /c \""@ + command@ + "\""@,
{
    let mut s = "\"".to_owned();
    s.append(shell);
    s.append("\" /d /s /c \"");
    s.append(command);
    s.append("\"");
    s
}

/// A failed hook does not keep the later ones from being reported: the
/// reports of a row of hooks are those of its parts.
pub proof fn law_failure_stops_nothing(
    commands: Seq<String>,
    outcomes: Seq<HookOutcome>,
    command: String,
    outcome: HookOutcome,
)
    requires
        commands.len() == outcomes.len(),
        !went_well(outcome),
    ensures
        reports(commands.push(command), outcomes.push(outcome)) == reports(
            commands,
            outcomes,
        ).push(failure_line(command@, outcome)),
{
    assert(commands.push(command).drop_last() =~= commands);
    lemma_reports_prefix(commands, outcomes, outcome);
}

proof fn lemma_reports_prefix(
    commands: Seq<String>,
    outcomes: Seq<HookOutcome>,
    outcome: HookOutcome,
)
    requires
        commands.len() <= outcomes.len(),
    ensures
        reports(commands, outcomes.push(outcome)) == reports(commands, outcomes),
    decreases commands.len(),
{
    if commands.len() > 0 {
        lemma_reports_prefix(commands.drop_last(), outcomes, outcome);
    }
}

/// A hook that went well is not reported, and one that failed is; a hook went
/// well exactly if it ended with code zero.
pub proof fn law_only_failures_are_reported(
    commands: Seq<String>,
    outcomes: Seq<HookOutcome>,
    i: int,
)
    requires
        commands.len() == outcomes.len(),
        0 <= i < commands.len(),
    ensures
        went_well(outcomes[i]) <==> (outcomes[i] matches HookOutcome::Ended { code, .. } && code
            == Some(0i32)),
        !went_well(outcomes[i]) ==> reports(commands, outcomes).contains(
            failure_line(commands[i]@, outcomes[i]),
        ),
        reports(commands, outcomes).len() == outcomes.filter(|o: HookOutcome| !went_well(o)).len(),
    decreases commands.len(),
{
    reveal(Seq::filter);
    let front = commands.drop_last();
    let before = outcomes.drop_last();
    lemma_reports_prefix(front, before, outcomes.last());
    assert(before.push(outcomes.last()) =~= outcomes);
    let rest = reports(front, before);
    let all = reports(commands, outcomes);
    if front.len() > 0 {
        law_only_failures_are_reported(front, before, if i < front.len() {
            i
        } else {
            0
        });
    } else {
        assert(before.filter(|o: HookOutcome| !went_well(o)).len() == 0);
    }
    if !went_well(outcomes[i]) {
        let line = failure_line(commands[i]@, outcomes[i]);
        if i < front.len() {
            assert(front[i] == commands[i] && before[i] == outcomes[i]);
            let k = choose|k: int| 0 <= k < rest.len() && rest[k] == line;
            assert(all[k] == line);
        } else {
            assert(all[all.len() - 1] == line);
        }
    }
}

/// A hook that went well leaves the reports as they are.
pub proof fn law_success_is_silent(
    commands: Seq<String>,
    outcomes: Seq<HookOutcome>,
    command: String,
    outcome: HookOutcome,
)
    requires
        commands.len() == outcomes.len(),
        outcome matches HookOutcome::Ended { code, .. } && code == Some(0i32),
    ensures
        reports(commands.push(command), outcomes.push(outcome)) == reports(commands, outcomes),
        reports(seq![], seq![]).len() == 0,
{
    assert(commands.push(command).drop_last() =~= commands);
    lemma_reports_prefix(commands, outcomes, outcome);
}

/// The report of a hook names its command, its exit code and what went wrong; a
/// hook without a code has ended with minus one.
pub proof fn law_failure_in_words(command: Seq<char>, e: String, code: i32, status: String)
    ensures
        failure_line(command, HookOutcome::Failed(e)) == "🌳 hook command failed: "@ + quoted(
            command,
        ) + " (exit "@ + ("-1"@ + "): "@ + e@),
        failure_line(command, HookOutcome::Ended { code: Some(code), status })
            == "🌳 hook command failed: "@ + quoted(command) + " (exit "@ + (decimal_int(
            code as int,
        ) + "): command exited with status "@ + status@),
        failure_line(command, HookOutcome::Ended { code: None, status })
            == "🌳 hook command failed: "@ + quoted(command) + " (exit "@ + (decimal_int(-1)
            + "): command exited with status "@ + status@),
{
}

} // verus!

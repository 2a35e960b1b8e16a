//! Command execution, answered from an in-memory table of canned responses.

use vstd::prelude::*;

use crate::infra::util::{OutputListener, OutputTracker};
use crate::text::{str_eq, trim, trimmed};

verus! {

/// One command invocation, in rendered form (e.g. `poetry env info -p`).
#[derive(Debug, PartialEq, Eq)]
pub struct Execution {
    pub command: String,
}

impl Clone for Execution {
    fn clone(&self) -> (r: Self)
        ensures
            r == *self,
    {
        Execution { command: self.command.clone() }
    }
}

/// The rendered command lines of a sequence of executions.
pub open spec fn commands(log: Seq<Execution>) -> Seq<Seq<char>> {
    log.map_values(|e: Execution| e.command@)
}

/// Whether `after` is what running the command line `command` makes of the
/// execution record `before`: one more execution, of that command line,
/// while some tracker is subscribed; no change otherwise.
pub open spec fn records(
    before: OutputListener<Execution>,
    after: OutputListener<Execution>,
    command: Seq<char>,
) -> bool {
    &&& after.wf()
    &&& after.starts() == before.starts()
    &&& if before.subscribed() {
        &&& after.log().len() == before.log().len() + 1
        &&& after.log().drop_last() == before.log()
        &&& after.log().last().command@ == command
    } else {
        after.log() == before.log()
    }
}

/// What the runner answers for one command line.
#[derive(Debug, Clone)]
pub enum NullResponse {
    /// Successful run with this stdout.
    Stdout(String),
    /// Failed run with this error message.
    Failure(String),
}

/// Why a command gave no output.
#[derive(Debug)]
pub enum CommandError {
    /// No response is configured for the command line.
    NotConfigured { command: String },
    /// The configured response is a failure with this message.
    Failed { command: String, message: String },
}

impl CommandError {
    /// The message shown to the user.
    pub fn message(&self) -> (r: String)
        ensures
            match self {
                CommandError::NotConfigured { command } => r@
                    == "Nulled CommandRunner: no response configured for `"@ + command@ + "`"@,
                CommandError::Failed { command, message } => r@
                    == "Nulled CommandRunner: configured failure for `"@ + command@ + "`: "@
                    + message@,
            },
    {
        match self {
            CommandError::NotConfigured { command } => {
                let mut m = String::from_str("Nulled CommandRunner: no response configured for `");
                m.append(command.as_str());
                m.append("`");
                m
            },
            CommandError::Failed { command, message } => {
                let mut m = String::from_str("Nulled CommandRunner: configured failure for `");
                m.append(command.as_str());
                m.append("`: ");
                m.append(message.as_str());
                m
            },
        }
    }
}

/// The arguments joined by single spaces.
pub open spec fn join_args(args: Seq<Seq<char>>) -> Seq<char>
    decreases args.len(),
{
    if args.len() == 0 {
        seq![]
    } else if args.len() == 1 {
        args[0]
    } else {
        join_args(args.drop_last()) + seq![' '] + args.last()
    }
}

/// A command line as rendered for lookup: the program, a space, and the
/// arguments joined by spaces.
pub open spec fn render(program: Seq<char>, args: Seq<Seq<char>>) -> Seq<char> {
    program + seq![' '] + join_args(args)
}

/// The texts of string slices.
pub open spec fn arg_views(args: Seq<&str>) -> Seq<Seq<char>> {
    args.map_values(|a: &str| a@)
}

/// The response bound to a command line: the last binding.
pub open spec fn last_response(table: Seq<(String, NullResponse)>, command: Seq<char>) -> Option<
    NullResponse,
>
    decreases table.len(),
{
    if table.len() == 0 {
        None
    } else if table.last().0@ == command {
        Some(table.last().1)
    } else {
        last_response(table.drop_last(), command)
    }
}

/// What running a command line yields, given the response table.
pub open spec fn outcome(table: Seq<(String, NullResponse)>, command: Seq<char>, r: Result<
    String,
    CommandError,
>) -> bool {
    match last_response(table, command) {
        Some(NullResponse::Stdout(out)) => r matches Ok(s) && s@ == trim(out@),
        Some(NullResponse::Failure(m)) => r matches Err(CommandError::Failed { command: c, message })
            && c@ == command && message@ == m@,
        None => r matches Err(CommandError::NotConfigured { command: c }) && c@ == command,
    }
}

/// A command runner that answers only the configured command lines. Any
/// other command fails loudly, which is also the safe default world: a tool
/// that is not installed.
#[derive(Debug)]
pub struct CommandRunner {
    responses: Vec<(String, NullResponse)>,
    listener: OutputListener<Execution>,
}

impl CommandRunner {
    /// The configured responses; later bindings win.
    pub closed spec fn responses(&self) -> Seq<(String, NullResponse)> {
        self.responses@
    }

    /// The listener that records every execution.
    pub closed spec fn listener(&self) -> OutputListener<Execution> {
        self.listener
    }

    pub open spec fn wf(&self) -> bool {
        self.listener().wf()
    }

    /// A runner that answers only the configured command lines, keyed by
    /// rendered command line, e.g. `"poetry env info -p"`.
    pub fn create_null(responses: Vec<(String, NullResponse)>) -> (r: CommandRunner)
        ensures
            r.wf(),
            r.responses() == responses@,
            r.listener().log() == Seq::<Execution>::empty(),
            r.listener().starts() == Seq::<Option<usize>>::empty(),
    {
        CommandRunner { responses, listener: OutputListener::new() }
    }

    /// Run a command and return its output.
    pub fn run(&mut self, program: &str, args: &[&str]) -> (r: Result<String, CommandError>)
        requires
            old(self).wf(),
        ensures
            final(self).wf(),
            final(self).responses() == old(self).responses(),
            records(old(self).listener(), final(self).listener(), render(program@, arg_views(args@))),
            forall|id: nat|
                #[trigger] commands(final(self).listener().seen_by(id)) == if old(
                    self,
                ).listener().live(id) {
                    commands(old(self).listener().seen_by(id)).push(render(program@, arg_views(args@)))
                } else {
                    Seq::<Seq<char>>::empty()
                },
            outcome(old(self).responses(), render(program@, arg_views(args@)), r),
    {
        let command = render_command(program, args);
        let ex = Execution { command: command.clone() };
        let ghost e = ex;
        self.listener.emit(ex);
        let ghost table = self.responses@;
        let ghost snap = self.listener();
        proof {
            assert(old(self).listener().emits(snap, e));
            if old(self).listener().subscribed() {
                assert(snap.log().drop_last() =~= old(self).listener().log());
            }
            assert forall|id: nat| #[trigger] commands(snap.seen_by(id)) == if old(
                self,
            ).listener().live(id) {
                commands(old(self).listener().seen_by(id)).push(command@)
            } else {
                Seq::<Seq<char>>::empty()
            } by {
                if old(self).listener().live(id) {
                    assert(snap.seen_by(id) == old(self).listener().seen_by(id).push(e));
                    assert(commands(snap.seen_by(id)) =~= commands(
                        old(self).listener().seen_by(id),
                    ).push(command@));
                } else {
                    assert(commands(snap.seen_by(id)) =~= Seq::<Seq<char>>::empty());
                }
            }
        }
        let mut i = self.responses.len();
        assert(table.take(i as int) =~= table);
        while i > 0
            invariant
                table == self.responses@,
                table == old(self).responses(),
                snap == self.listener(),
                self.wf(),
                records(old(self).listener(), snap, command@),
                forall|id: nat|
                    #[trigger] commands(snap.seen_by(id)) == if old(self).listener().live(id) {
                        commands(old(self).listener().seen_by(id)).push(command@)
                    } else {
                        Seq::<Seq<char>>::empty()
                    },
                command@ == render(program@, arg_views(args@)),
                i <= table.len(),
                last_response(table, command@) == last_response(table.take(i as int), command@),
            decreases i,
        {
            let t = Ghost(table.take(i as int));
            assert(t@.last() == table[i - 1]);
            assert(t@.drop_last() =~= table.take(i - 1));
            if str_eq(self.responses[i - 1].0.as_str(), command.as_str()) {
                return match &self.responses[i - 1].1 {
                    NullResponse::Stdout(out) => Ok(trimmed(out.as_str())),
                    NullResponse::Failure(message) => Err(
                        CommandError::Failed { command, message: message.clone() },
                    ),
                };
            }
            i = i - 1;
        }
        Err(CommandError::NotConfigured { command })
    }

    /// Observe every command this runner is asked to execute from now on.
    pub fn track_runs(&mut self) -> (r: OutputTracker<Execution>)
        requires
            old(self).wf(),
        ensures
            final(self).wf(),
            final(self).responses() == old(self).responses(),
            old(self).listener().tracks(final(self).listener()),
            r.id() == old(self).listener().starts().len(),
    {
        self.listener.track()
    }

    /// The record of executions that trackers read from.
    pub fn runs(&self) -> (r: &OutputListener<Execution>)
        ensures
            *r == self.listener(),
    {
        &self.listener
    }
}

/// The rendered command line.
fn render_command(program: &str, args: &[&str]) -> (r: String)
    ensures
        r@ == render(program@, arg_views(args@)),
{
    proof {
        reveal_strlit(" ");
    }
    let mut r = String::from_str(program);
    r.append(" ");
    let ghost base = r@;
    assert(base =~= program@ + seq![' ']);
    let mut i: usize = 0;
    assert(join_args(arg_views(args@).take(0)) =~= seq![]);
    while i < args.len()
        invariant
            i <= args@.len(),
            " "@ == seq![' '],
            r@ == base + join_args(arg_views(args@).take(i as int)),
        decreases args@.len() - i,
    {
        let ghost t = arg_views(args@).take(i + 1);
        assert(t.drop_last() =~= arg_views(args@).take(i as int));
        assert(t.last() == args@[i as int]@);
        if i > 0 {
            r.append(" ");
        }
        r.append(args[i]);
        assert(r@ =~= base + join_args(t));
        i = i + 1;
    }
    assert(arg_views(args@).take(i as int) =~= arg_views(args@));
    r
}

} // verus!

verus! {

/// A tracker of a runner sees exactly the command lines run since it
/// subscribed, in the order they ran, whether each run succeeded or failed:
/// subscribe to the record `before`, giving `states[0]`, then run each of
/// `runs` in turn, giving the later states. Running changes no subscription.
pub proof fn law_tracker_sees_the_commands_run_since_it_subscribed(
    before: OutputListener<Execution>,
    states: Seq<OutputListener<Execution>>,
    runs: Seq<Seq<char>>,
)
    requires
        before.wf(),
        states.len() == runs.len() + 1,
        before.tracks(states[0]),
        forall|i: int| 0 <= i < runs.len() ==> #[trigger] records(states[i], states[i + 1], runs[i]),
    ensures
        states.last().starts() == states[0].starts(),
        commands(states.last().seen_by(before.starts().len())) == runs,
    decreases runs.len(),
{
    let id = before.starts().len();
    if runs.len() == 0 {
        assert(states.last() == states[0]);
        assert(states[0].starts()[id as int] == states[0].starts().last());
        assert(states[0].live(id));
        assert(states[0].log().skip(before.log().len() as int) =~= Seq::<Execution>::empty());
        assert(commands(states[0].seen_by(id)) =~= runs);
    } else {
        let n = runs.len() - 1;
        assert forall|i: int| 0 <= i < n implies #[trigger] records(
            states.drop_last()[i],
            states.drop_last()[i + 1],
            runs.drop_last()[i],
        ) by {
            assert(records(states[i], states[i + 1], runs[i]));
        }
        law_tracker_sees_the_commands_run_since_it_subscribed(
            before,
            states.drop_last(),
            runs.drop_last(),
        );
        assert(states.drop_last().last() == states[n]);
        assert(records(states[n], states[n + 1], runs[n]));
        if n > 0 {
            let m = n - 1;
            assert(records(states[m], states[m + 1], runs[m]));
        }
        assert(states[n].wf());
        assert(states[0].starts()[id as int] == states[0].starts().last());
        assert(states[n].live(id));
        assert(states[n].subscribed());
        let e = states[n + 1].log().last();
        assert(states[n + 1].log() =~= states[n].log().push(e));
        assert(states[n].emits(states[n + 1], e));
        crate::infra::util::lemma_emit_seen(states[n], states[n + 1], e);
        assert(states.last() == states[n + 1]);
        assert(states[n + 1].seen_by(id) == states[n].seen_by(id).push(e));
        assert(commands(states[n + 1].seen_by(id)) =~= commands(states[n].seen_by(id)).push(
            runs[n],
        ));
        assert(runs.drop_last().push(runs[n]) =~= runs);
    }
}

/// Of a response table whose command lines are all different, each command
/// line is answered by its own response, and a command line not in the
/// table by none.
pub proof fn law_configured_commands_are_answered(table: Seq<(String, NullResponse)>)
    requires
        forall|i: int, j: int|
            0 <= i < table.len() && 0 <= j < table.len() && i != j ==> #[trigger] table[i].0@
                != #[trigger] table[j].0@,
    ensures
        forall|i: int|
            0 <= i < table.len() ==> last_response(table, #[trigger] table[i].0@) == Some(
                table[i].1,
            ),
        forall|c: Seq<char>|
            (forall|i: int| 0 <= i < table.len() ==> #[trigger] table[i].0@ != c) ==> last_response(
                table,
                c,
            ) is None,
    decreases table.len(),
{
    if table.len() > 0 {
        let d = table.drop_last();
        assert forall|i: int, j: int|
            0 <= i < d.len() && 0 <= j < d.len() && i != j implies #[trigger] d[i].0@
                != #[trigger] d[j].0@ by {
            assert(table[i].0@ != table[j].0@);
        }
        law_configured_commands_are_answered(d);
        assert forall|i: int| 0 <= i < table.len() implies last_response(
            table,
            #[trigger] table[i].0@,
        ) == Some(table[i].1) by {
            if i < table.len() - 1 {
                assert(table[i] == d[i]);
                assert(table[i].0@ != table[table.len() - 1].0@);
                assert(last_response(d, d[i].0@) == Some(d[i].1));
            }
        }
        assert forall|c: Seq<char>|
            (forall|i: int| 0 <= i < table.len() ==> #[trigger] table[i].0@ != c) implies last_response(
                table,
                c,
            ) is None by {
            assert(table[table.len() - 1].0@ != c);
            assert forall|i: int| 0 <= i < d.len() implies #[trigger] d[i].0@ != c by {
                assert(table[i] == d[i]);
                assert(table[i].0@ != c);
            }
            assert(last_response(d, c) is None);
        }
    }
}

} // verus!

verus! {

/// A copy of an execution is the same execution: what a tracker's `data`
/// hands out of an execution record is exactly what the record holds.
pub proof fn law_execution_copies_are_equal(a: Execution, b: Execution)
    requires
        cloned(a, b),
    ensures
        b == a,
{
}

} // verus!

//! Test double for [`AdbDevice`].
//!
//! Shell responses are served from a queue in call order. An exhausted queue
//! answers with silence and exit 0, which is what a successful mutation looks
//! like. What `pull` would write to the local path is kept in memory.

use crate::adb::{AdbDevice, AdbError, Calls, Exchange, Outcomes, ShellOutput};
use crate::text::{copy_texts, texts};
use std::collections::VecDeque;
use vstd::prelude::*;

verus! {

/// An answer that shows `stdout`, `stderr` and `exit_code`.
pub open spec fn answer_shows(
    r: Result<ShellOutput, AdbError>,
    stdout: Seq<Seq<char>>,
    stderr: Seq<Seq<char>>,
    exit_code: i32,
) -> bool {
    match r {
        Ok(output) => {
            &&& texts(output.stdout@) == stdout
            &&& texts(output.stderr@) == stderr
            &&& output.exit_code == exit_code
        },
        Err(_) => false,
    }
}

/// What the lines of a list hold.
pub open spec fn line_texts(lines: Seq<&str>) -> Seq<Seq<char>> {
    lines.map_values(|s: &str| s@)
}

fn owned_lines(lines: &[&str]) -> (r: Vec<String>)
    ensures
        texts(r@) == line_texts(lines@),
{
    let mut r: Vec<String> = Vec::new();
    let mut i: usize = 0;
    while i < lines.len()
        invariant
            i <= lines@.len(),
            r@.len() == i,
            forall|j: int| 0 <= j < i ==> (#[trigger] r@[j])@ == lines@[j]@,
        decreases lines@.len() - i,
    {
        r.push(lines[i].to_owned());
        i += 1;
    }
    assert(texts(r@) =~= line_texts(lines@));
    r
}

/// A command that printed `lines` on stdout and exited 0. Also stands for the
/// failure on devices without shell protocol v2: those fold stderr into stdout
/// and still exit 0.
pub fn out(lines: &[&str]) -> (r: Result<ShellOutput, AdbError>)
    ensures
        answer_shows(r, line_texts(lines@), Seq::empty(), 0),
{
    let stderr: Vec<String> = Vec::new();
    assert(texts(stderr@) =~= Seq::empty());
    Ok(ShellOutput { stdout: owned_lines(lines), stderr, exit_code: 0 })
}

/// A command that failed the way shell protocol v2 reports it: message on
/// stderr, non-zero exit.
pub fn failed(exit_code: i32, stderr: &[&str]) -> (r: Result<ShellOutput, AdbError>)
    ensures
        answer_shows(r, Seq::empty(), line_texts(stderr@), exit_code),
{
    let stdout: Vec<String> = Vec::new();
    assert(texts(stdout@) =~= Seq::empty());
    Ok(ShellOutput { stdout, stderr: owned_lines(stderr), exit_code })
}

/// The shell commands among `calls`, in order.
pub open spec fn commands_in(calls: Calls) -> Seq<Seq<char>>
    decreases calls.len(),
{
    if calls.len() == 0 {
        Seq::empty()
    } else {
        let before = commands_in(calls.drop_last());
        match calls.last() {
            Exchange::Shell { command, .. } => before.push(command),
            Exchange::Run { command, .. } => before.push(command),
            _ => before,
        }
    }
}

/// The local and remote path of each file that `calls` push, in order.
pub open spec fn pushes_in(calls: Calls) -> Seq<(Seq<char>, Seq<char>)>
    decreases calls.len(),
{
    if calls.len() == 0 {
        Seq::empty()
    } else {
        let before = pushes_in(calls.drop_last());
        match calls.last() {
            Exchange::Push { local, remote, .. } => before.push((local, remote)),
            _ => before,
        }
    }
}

/// What a double is set to do: answer the commands with `answers`, in order,
/// and fail every pull or none, from the call at `from` on.
pub struct Script {
    pub answers: Seq<Result<ShellOutput, AdbError>>,
    pub failing: bool,
    pub from: nat,
}

impl Script {
    /// Whether the command that has `k` before it is answered `output`: by the
    /// answer in its place, and behind the last one by silence.
    pub open spec fn gives(self, k: nat, output: Result<ShellOutput, AdbError>) -> bool {
        if k < self.answers.len() {
            output == self.answers[k as int]
        } else {
            answer_shows(output, Seq::empty(), Seq::empty(), 0)
        }
    }

    /// The same, where only standard output is kept.
    pub open spec fn gives_lines(self, k: nat, lines: Result<Vec<String>, AdbError>) -> bool {
        if k < self.answers.len() {
            lines == match self.answers[k as int] {
                Ok(output) => Ok::<Vec<String>, AdbError>(output.stdout),
                Err(e) => Err(e),
            }
        } else {
            lines is Ok && lines->Ok_0@.len() == 0
        }
    }

    /// Whether the double answers `call` so, after the calls `before`.
    pub open spec fn answers_so(self, before: Calls, call: Exchange) -> bool {
        match call {
            Exchange::Shell { lines, .. } => self.gives_lines(commands_in(before).len(), lines),
            Exchange::Run { output, .. } => self.gives(commands_in(before).len(), output),
            Exchange::Pull { done, .. } => before.len() >= self.from ==> match done {
                Ok(_) => !self.failing,
                Err(AdbError::CommandFailed { exit_code, stderr }) => {
                    &&& self.failing
                    &&& exit_code == 1
                    &&& stderr@ == "remote object does not exist"@
                },
                Err(_) => false,
            },
            Exchange::Push { done, .. } => done is Ok,
            Exchange::Sync { done } => done is Ok,
        }
    }

    /// Whether the double answers all of `calls` so.
    pub open spec fn followed(self, calls: Calls) -> bool
        decreases calls.len(),
    {
        calls.len() > 0 ==> {
            &&& self.followed(calls.drop_last())
            &&& self.answers_so(calls.drop_last(), calls.last())
        }
    }

    /// The answers that are left after `k` commands.
    pub open spec fn left(self, k: nat) -> Seq<Result<ShellOutput, AdbError>> {
        if k < self.answers.len() {
            self.answers.skip(k as int)
        } else {
            Seq::empty()
        }
    }
}

/// What a double holds. The lists that it keeps are those in its history.
struct State {
    responses: VecDeque<Result<ShellOutput, AdbError>>,
    commands: Vec<String>,
    pushes: Vec<(String, String)>,
    pulled: Vec<(String, Vec<u8>)>,
    pull_content: Vec<u8>,
    pull_fails: bool,
    script: Ghost<Script>,
    history: Ghost<Calls>,
}

/// What the rows of a list of pushes hold.
pub open spec fn push_texts(list: Seq<(String, String)>) -> Seq<(Seq<char>, Seq<char>)> {
    list.map_values(|p: (String, String)| (p.0@, p.1@))
}

impl State {
    #[verifier::type_invariant]
    spec fn consistent(self) -> bool {
        &&& texts(self.commands@) == commands_in(self.history@)
        &&& push_texts(self.pushes@) == pushes_in(self.history@)
        &&& self.responses@ == self.script@.left(commands_in(self.history@).len())
        &&& self.script@.failing == self.pull_fails
        &&& self.script@.from <= self.history@.len()
        &&& self.script@.followed(self.history@)
    }

    fn new(responses: VecDeque<Result<ShellOutput, AdbError>>) -> (state: Self)
        ensures
            state.script@ == (Script { answers: responses@, failing: false, from: 0 }),
            state.history@ == Seq::<Exchange>::empty(),
            state.pulled@.len() == 0,
            state.pull_content@.len() == 0,
    {
        let ghost script = Script { answers: responses@, failing: false, from: 0 };
        proof {
            assert(responses@.skip(0) =~= responses@);
            assert(script.left(0) =~= responses@);
        }
        let commands: Vec<String> = Vec::new();
        let pushes: Vec<(String, String)> = Vec::new();
        assert(texts(commands@) =~= Seq::empty());
        assert(push_texts(pushes@) =~= Seq::empty());
        Self {
            responses,
            commands,
            pushes,
            pulled: Vec::new(),
            pull_content: Vec::new(),
            pull_fails: false,
            script: Ghost(script),
            history: Ghost(Seq::empty()),
        }
    }

    /// Answers a command of which everything is kept.
    fn run(self, command: &str) -> (r: (Self, Result<ShellOutput, AdbError>))
        ensures
            r.0.history@ == self.history@.push(Exchange::Run { command: command@, output: r.1 }),
            r.0.script@ == self.script@,
            r.0.pulled@ == self.pulled@,
            r.0.pull_content@ == self.pull_content@,
    {
        proof {
            use_type_invariant(&self);
        }
        let mut responses = self.responses;
        let mut commands = self.commands;
        let reply = MockAdb::next(&mut responses, &mut commands, command);
        let ghost history = self.history@.push(
            Exchange::Run { command: command@, output: reply },
        );
        proof {
            assert(history.drop_last() =~= self.history@);
            lemma_left(self.script@, commands_in(self.history@).len());
        }
        let state = Self {
            responses,
            commands,
            pushes: self.pushes,
            pulled: self.pulled,
            pull_content: self.pull_content,
            pull_fails: self.pull_fails,
            script: self.script,
            history: Ghost(history),
        };
        (state, reply)
    }

    /// Answers a command of which only standard output is kept.
    fn print(self, command: &str) -> (r: (Self, Result<Vec<String>, AdbError>))
        ensures
            r.0.history@ == self.history@.push(Exchange::Shell { command: command@, lines: r.1 }),
            r.0.script@ == self.script@,
            r.0.pulled@ == self.pulled@,
            r.0.pull_content@ == self.pull_content@,
    {
        proof {
            use_type_invariant(&self);
        }
        let mut responses = self.responses;
        let mut commands = self.commands;
        let answer = MockAdb::next(&mut responses, &mut commands, command);
        let ghost k = commands_in(self.history@).len();
        let reply = match answer {
            Ok(output) => {
                assert(k >= self.script@.answers.len() ==> texts(output.stdout@).len() == 0);
                Ok(output.stdout)
            },
            Err(e) => Err(e),
        };
        let ghost history = self.history@.push(
            Exchange::Shell { command: command@, lines: reply },
        );
        proof {
            assert(history.drop_last() =~= self.history@);
            lemma_left(self.script@, commands_in(self.history@).len());
        }
        let state = Self {
            responses,
            commands,
            pushes: self.pushes,
            pulled: self.pulled,
            pull_content: self.pull_content,
            pull_fails: self.pull_fails,
            script: self.script,
            history: Ghost(history),
        };
        (state, reply)
    }
}

pub struct MockAdb {
    state: State,
}

impl MockAdb {
    /// What the double is set to do.
    pub closed spec fn script(&self) -> Script {
        self.state.script@
    }

    /// The shell commands received.
    pub open spec fn received(&self) -> Seq<Seq<char>> {
        commands_in(self.history())
    }

    /// The local and remote path of each file pushed.
    pub open spec fn pushed(&self) -> Seq<(Seq<char>, Seq<char>)> {
        pushes_in(self.history())
    }

    /// The local path and the contents of each file pulled.
    pub closed spec fn written(&self) -> Seq<(Seq<char>, Seq<u8>)> {
        self.state.pulled@.map_values(|p: (String, Vec<u8>)| (p.0@, p.1@))
    }

    /// What `pull` writes.
    pub closed spec fn content(&self) -> Seq<u8> {
        self.state.pull_content@
    }

    pub fn new(responses: Vec<Result<ShellOutput, AdbError>>) -> (mock: Self)
        ensures
            mock.script() == (Script { answers: responses@, failing: false, from: 0 }),
            mock.history() == Seq::<Exchange>::empty(),
            mock.possible().contains(mock.history()),
            mock.written() == Seq::<(Seq<char>, Seq<u8>)>::empty(),
            mock.content() == Seq::<u8>::empty(),
    {
        let ghost all = responses@;
        let mut rest = responses;
        let mut queue: VecDeque<Result<ShellOutput, AdbError>> = VecDeque::new();
        assert(rest@ + queue@ =~= all);
        while rest.len() > 0
            invariant
                rest@ + queue@ == all,
            decreases rest.len(),
        {
            let ghost before = rest@;
            let ghost queued = queue@;
            if let Some(response) = rest.pop() {
                queue.push_front(response);
                assert(before == rest@.push(response));
                assert(queue@ =~= seq![response] + queued);
                assert(before + queued =~= rest@ + queue@);
            }
        }
        assert(queue@ =~= all);
        let mock = Self { state: State::new(queue) };
        assert(mock.written() =~= Seq::empty());
        assert(mock.content() =~= Seq::empty());
        mock
    }

    /// A device that answers every command with silence.
    pub fn silent() -> (mock: Self)
        ensures
            mock.script() == (Script { answers: Seq::empty(), failing: false, from: 0 }),
            mock.history() == Seq::<Exchange>::empty(),
            mock.possible().contains(mock.history()),
            mock.written() == Seq::<(Seq<char>, Seq<u8>)>::empty(),
            mock.content() == Seq::<u8>::empty(),
    {
        let mock = Self::new(Vec::new());
        assert(mock.script().answers =~= Seq::empty());
        mock
    }

    /// What `pull` writes to the local path.
    pub fn with_content(self, content: &[u8]) -> (mock: Self)
        ensures
            mock.content() == content@,
            mock.script() == self.script(),
            mock.history() == self.history(),
            mock.written() == self.written(),
    {
        proof {
            use_type_invariant(&self.state);
        }
        let state = self.state;
        Self {
            state: State {
                responses: state.responses,
                commands: state.commands,
                pushes: state.pushes,
                pulled: state.pulled,
                pull_content: copy_bytes(content),
                pull_fails: state.pull_fails,
                script: state.script,
                history: state.history,
            },
        }
    }

    /// A device whose files cannot be read.
    pub fn with_failing_pull(self) -> (mock: Self)
        ensures
            mock.content() == self.content(),
            mock.script() == (Script {
                failing: true,
                from: self.history().len(),
                ..self.script()
            }),
            mock.history() == self.history(),
            mock.possible().contains(mock.history()),
            mock.written() == self.written(),
    {
        let ghost script = Script {
            failing: true,
            from: self.history().len(),
            ..self.script()
        };
        proof {
            use_type_invariant(&self.state);
            lemma_earlier_pulls_are_free(self.script(), script, self.history());
        }
        let state = self.state;
        Self {
            state: State {
                responses: state.responses,
                commands: state.commands,
                pushes: state.pushes,
                pulled: state.pulled,
                pull_content: state.pull_content,
                pull_fails: true,
                script: Ghost(script),
                history: state.history,
            },
        }
    }

    /// The shell commands received.
    pub fn commands(&self) -> (r: Vec<String>)
        ensures
            texts(r@) == self.received(),
    {
        proof {
            use_type_invariant(&self.state);
        }
        copy_texts(&self.state.commands)
    }

    /// The local and remote path of each file pushed.
    pub fn pushes(&self) -> (r: Vec<(String, String)>)
        ensures
            push_texts(r@) == self.pushed(),
    {
        proof {
            use_type_invariant(&self.state);
        }
        let mut r: Vec<(String, String)> = Vec::new();
        let mut i: usize = 0;
        while i < self.state.pushes.len()
            invariant
                i <= self.state.pushes.len(),
                r@ == self.state.pushes@.take(i as int),
            decreases self.state.pushes.len() - i,
        {
            r.push((self.state.pushes[i].0.clone(), self.state.pushes[i].1.clone()));
            assert(self.state.pushes@.take(i + 1) == self.state.pushes@.take(i as int).push(
                self.state.pushes@[i as int],
            ));
            i += 1;
        }
        assert(self.state.pushes@.take(i as int) == self.state.pushes@);
        r
    }

    /// The local path and the contents of each file pulled.
    pub fn pulls(&self) -> (r: &Vec<(String, Vec<u8>)>)
        ensures
            r@.map_values(|p: (String, Vec<u8>)| (p.0@, p.1@)) == self.written(),
    {
        &self.state.pulled
    }

    /// Notes a command, and takes its answer from the queue.
    fn next(
        responses: &mut VecDeque<Result<ShellOutput, AdbError>>,
        commands: &mut Vec<String>,
        command: &str,
    ) -> (r: Result<ShellOutput, AdbError>)
        ensures
            texts(final(commands)@) == texts(old(commands)@).push(command@),
            old(responses)@.len() > 0 ==> {
                &&& r == old(responses)@[0]
                &&& final(responses)@ == old(responses)@.skip(1)
            },
            old(responses)@.len() == 0 ==> {
                &&& answer_shows(r, Seq::empty(), Seq::empty(), 0)
                &&& final(responses)@ == old(responses)@
            },
    {
        commands.push(command.to_owned());
        assert(texts(commands@) =~= texts(old(commands)@).push(command@));
        match responses.pop_front() {
            Some(response) => {
                assert(responses@ =~= old(responses)@.skip(1));
                response
            },
            None => {
                let nothing: [&str; 0] = [];
                let r = out(&nothing);
                assert(line_texts(nothing@) =~= Seq::empty());
                r
            },
        }
    }

    /// Takes the state out, for it to be put back changed.
    fn take(&mut self) -> (state: State)
        ensures
            state == old(self).state,
    {
        let mut state = State::new(VecDeque::new());
        std::mem::swap(&mut state, &mut self.state);
        state
    }
}

fn copy_bytes(bytes: &[u8]) -> (copy: Vec<u8>)
    ensures
        copy@ == bytes@,
{
    let mut copy: Vec<u8> = Vec::new();
    let mut i: usize = 0;
    while i < bytes.len()
        invariant
            i <= bytes@.len(),
            copy@ == bytes@.take(i as int),
        decreases bytes@.len() - i,
    {
        copy.push(bytes[i]);
        assert(bytes@.take(i + 1) == bytes@.take(i as int).push(bytes@[i as int]));
        i += 1;
    }
    assert(bytes@.take(i as int) == bytes@);
    copy
}

impl AdbDevice for MockAdb {
    closed spec fn history(&self) -> Calls {
        self.state.history@
    }

    open spec fn possible(&self) -> Outcomes {
        Set::new(|calls: Calls| self.script().followed(calls))
    }

    fn shell(&mut self, command: &str) -> (reply: Result<Vec<String>, AdbError>)
        ensures
            final(self).script() == old(self).script(),
            final(self).written() == old(self).written(),
            final(self).content() == old(self).content(),
    {
        let (state, reply) = self.take().print(command);
        proof {
            use_type_invariant(&state);
        }
        self.state = state;
        assert(self.possible() =~= old(self).possible());
        reply
    }

    fn shell_with_stderr(&mut self, command: &str) -> (reply: Result<ShellOutput, AdbError>)
        ensures
            final(self).script() == old(self).script(),
            final(self).written() == old(self).written(),
            final(self).content() == old(self).content(),
    {
        let (state, reply) = self.take().run(command);
        proof {
            use_type_invariant(&state);
        }
        self.state = state;
        assert(self.possible() =~= old(self).possible());
        reply
    }

    fn pull(&mut self, remote: &str, local: &str) -> (reply: Result<(), AdbError>)
        ensures
            final(self).script() == old(self).script(),
            final(self).content() == old(self).content(),
            (match reply {
                Ok(_) => !old(self).script().failing,
                Err(AdbError::CommandFailed { exit_code, stderr }) => {
                    &&& old(self).script().failing
                    &&& exit_code == 1
                    &&& stderr@ == "remote object does not exist"@
                },
                Err(_) => false,
            }),
            final(self).written() == (if old(self).script().failing {
                old(self).written()
            } else {
                old(self).written().push((local@, old(self).content()))
            }),
    {
        let state = self.take();
        proof {
            use_type_invariant(&state);
        }
        let mut pulled = state.pulled;
        let reply: Result<(), AdbError> = if state.pull_fails {
            Err(
                AdbError::CommandFailed {
                    exit_code: 1,
                    stderr: "remote object does not exist".to_owned(),
                },
            )
        } else {
            pulled.push((local.to_owned(), copy_bytes(state.pull_content.as_slice())));
            Ok(())
        };
        let ghost history = state.history@.push(
            Exchange::Pull { remote: remote@, local: local@, done: reply },
        );
        assert(history.drop_last() =~= state.history@);
        self.state = State {
            responses: state.responses,
            commands: state.commands,
            pushes: state.pushes,
            pulled,
            pull_content: state.pull_content,
            pull_fails: state.pull_fails,
            script: state.script,
            history: Ghost(history),
        };
        assert(self.possible() =~= old(self).possible());
        assert(!old(self).script().failing ==> self.written() =~= old(self).written().push(
            (local@, old(self).content()),
        ));
        reply
    }

    fn push(&mut self, local: &str, remote: &str) -> (reply: Result<(), AdbError>)
        ensures
            reply is Ok,
            final(self).script() == old(self).script(),
            final(self).written() == old(self).written(),
            final(self).content() == old(self).content(),
    {
        let state = self.take();
        proof {
            use_type_invariant(&state);
        }
        let reply: Result<(), AdbError> = Ok(());
        let ghost history = state.history@.push(
            Exchange::Push { local: local@, remote: remote@, done: reply },
        );
        assert(history.drop_last() =~= state.history@);
        let mut pushes = state.pushes;
        pushes.push((local.to_owned(), remote.to_owned()));
        assert(push_texts(pushes@) =~= push_texts(state.pushes@).push((local@, remote@)));
        self.state = State {
            responses: state.responses,
            commands: state.commands,
            pushes,
            pulled: state.pulled,
            pull_content: state.pull_content,
            pull_fails: state.pull_fails,
            script: state.script,
            history: Ghost(history),
        };
        assert(self.possible() =~= old(self).possible());
        reply
    }

    fn sync_device(&mut self) -> (reply: Result<(), AdbError>)
        ensures
            reply is Ok,
            final(self).script() == old(self).script(),
            final(self).written() == old(self).written(),
            final(self).content() == old(self).content(),
    {
        let state = self.take();
        proof {
            use_type_invariant(&state);
        }
        let reply: Result<(), AdbError> = Ok(());
        let ghost history = state.history@.push(Exchange::Sync { done: reply });
        assert(history.drop_last() =~= state.history@);
        self.state = State {
            responses: state.responses,
            commands: state.commands,
            pushes: state.pushes,
            pulled: state.pulled,
            pull_content: state.pull_content,
            pull_fails: state.pull_fails,
            script: state.script,
            history: Ghost(history),
        };
        assert(self.possible() =~= old(self).possible());
        reply
    }
}

// ---- laws ----

proof fn lemma_left(script: Script, k: nat)
    ensures
        k < script.answers.len() ==> {
            &&& script.left(k).len() > 0
            &&& script.left(k)[0] == script.answers[k as int]
            &&& script.left(k).skip(1) == script.left(k + 1)
        },
        k >= script.answers.len() ==> script.left(k) == script.left(k + 1),
{
    if k < script.answers.len() {
        assert(script.left(k).skip(1) =~= script.left(k + 1));
    }
}

proof fn lemma_earlier_pulls_are_free(script: Script, later: Script, calls: Calls)
    requires
        later.answers == script.answers,
        calls.len() <= later.from,
        script.followed(calls),
    ensures
        later.followed(calls),
    decreases calls.len(),
{
    if calls.len() > 0 {
        lemma_earlier_pulls_are_free(script, later, calls.drop_last());
    }
}

/// The double answers in order: the command that has `k` commands before it
/// gets the answer in place `k`, and silence where there is none. It is noted
/// in the same place, and copies of files change neither.
pub proof fn law_answers_come_in_order(script: Script, calls: Calls, i: int)
    requires
        script.followed(calls),
        0 <= i < calls.len(),
    ensures
        ({
            let k = commands_in(calls.take(i)).len();
            match calls[i] {
                Exchange::Run { command, output } => {
                    &&& script.gives(k, output)
                    &&& k < commands_in(calls).len()
                    &&& commands_in(calls)[k as int] == command
                },
                Exchange::Shell { command, lines } => {
                    &&& script.gives_lines(k, lines)
                    &&& k < commands_in(calls).len()
                    &&& commands_in(calls)[k as int] == command
                },
                _ => commands_in(calls.take(i + 1)) == commands_in(calls.take(i)),
            }
        }),
    decreases calls.len(),
{
    let before = calls.drop_last();
    if i == calls.len() - 1 {
        assert(calls.take(i) =~= before);
        assert(calls.take(i + 1) =~= calls);
    } else {
        law_answers_come_in_order(script, before, i);
        assert(before.take(i) =~= calls.take(i));
        assert(before.take(i + 1) =~= calls.take(i + 1));
    }
}

/// Every file that was pushed is noted, in order, and nothing else changes the
/// list.
pub proof fn law_pushes_are_noted_in_order(calls: Calls, call: Exchange)
    ensures
        pushes_in(calls.push(call)) == (match call {
            Exchange::Push { local, remote, .. } => pushes_in(calls).push((local, remote)),
            _ => pushes_in(calls),
        }),
        commands_in(calls.push(call)) == (match call {
            Exchange::Shell { command, .. } => commands_in(calls).push(command),
            Exchange::Run { command, .. } => commands_in(calls).push(command),
            _ => commands_in(calls),
        }),
{
    assert(calls.push(call).drop_last() =~= calls);
}

} // verus!

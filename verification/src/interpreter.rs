//! The machine: a program counter over the tokens, a stack of conditions,
//! and at most one loop under way.
//!
//! The machine runs a program as far as it can. Where it needs a number read,
//! combined, compared, converted or written out, it stops and hands its host a
//! request; the host answers, and the machine takes the statement up again.

use vstd::prelude::*;
use crate::expr::msg_no_result;
use crate::host::{answers_of, Answer, Need, Reply, Request};
use crate::laws::{keeps_names, lemma_run_keeps};
use crate::lexer::{lex, scan_text, texts};
use crate::statement::{record, record_of, statement, Change, Effect, Site, Spot};
use crate::syntax::{brace_close, kw_announce, kw_times_end, lemma_closing_bounds};
use crate::text::is_word;
use crate::value::{Datum, Environment, Value};

verus! {

/// A loop under way.
pub struct Loop {
    /// The variable that holds the number of the pass, if the loop has one.
    pub variable: Option<Seq<char>>,
    /// The number of the pass under way.
    pub current: int,
    /// The number of the last pass.
    pub last: int,
    /// The index of the first token of the body.
    pub body: int,
    /// The index of the token that closes the body.
    pub end: int,
    /// Whether the pass under way has begun: the variable, if there is one,
    /// is bound.
    pub bound: bool,
}

/// Where the machine is in its program.
pub struct Control {
    /// The tokens of the program.
    pub program: Seq<Seq<char>>,
    /// Whether the program announces its classes.
    pub announce: bool,
    /// The index of the next statement's first token.
    pub pc: int,
    /// The conditions of the open conditional chains, innermost last.
    pub conditions: Seq<bool>,
    /// Whether a branch of the chain under way has been taken.
    pub taken: bool,
    /// The loop under way, if any.
    pub frame: Option<Loop>,
    /// Whether the program has ended itself.
    pub halted: bool,
    /// The host's replies for the statement under way.
    pub answers: Seq<Answer>,
    /// Whether a request is out that the host has not answered.
    pub waiting: bool,
}

/// All that a run changes: the machine, the variables, the output.
pub struct State {
    pub control: Control,
    pub env: Map<Seq<char>, Datum>,
    pub output: Seq<char>,
}

/// One step of the machine.
pub enum Progress {
    /// The machine cannot go on: the host has to answer, or the program is
    /// done.
    Ask(Need),
    /// The machine has gone on to this state.
    Next(State),
}

/// Whether a branch is open: the first of a chain where its condition
/// holds, a later one where its condition holds and no branch was taken
/// before.
pub open spec fn gate(fresh: bool, condition: bool, taken: bool) -> bool {
    condition && (fresh || !taken)
}

/// The conditions once a branch begins: the first branch of a chain adds
/// its gate, a later one puts its gate in place of that of the branch before.
pub open spec fn branched(conditions: Seq<bool>, fresh: bool, open: bool) -> Seq<bool> {
    if fresh || conditions.len() == 0 {
        conditions.push(open)
    } else {
        conditions.drop_last().push(open)
    }
}

/// Whether a branch of the chain has been taken once this one has begun.
pub open spec fn taken_after(fresh: bool, condition: bool, taken: bool) -> bool {
    if fresh {
        condition
    } else {
        taken || condition
    }
}

impl Control {
    /// The machine before the first statement of `program`. A program whose
    /// first token is `CHIHUAHUA` announces its classes, and begins behind
    /// that token.
    pub open spec fn start(program: Seq<Seq<char>>) -> Control {
        let announce = program.len() > 0 && program[0] == kw_announce();
        Control {
            program,
            announce,
            pc: if announce {
                1
            } else {
                0
            },
            conditions: Seq::empty(),
            taken: false,
            frame: None,
            halted: false,
            answers: Seq::empty(),
            waiting: false,
        }
    }

    /// What holds of every machine: the counter is within the program, or
    /// within the body of the loop under way.
    pub open spec fn wf(self) -> bool {
        &&& 0 <= self.pc <= self.program.len()
        &&& match self.frame {
            Some(frame) => {
                &&& 0 <= frame.body <= self.pc <= frame.end < self.program.len()
                &&& frame.current <= frame.last
                &&& !self.halted
            },
            None => true,
        }
    }

    /// Whether statements are executed: as the innermost condition says,
    /// and always where no condition is open.
    pub open spec fn active(self) -> bool {
        self.conditions.len() == 0 || self.conditions.last()
    }

    /// Where the statements that the machine reads end.
    pub open spec fn limit(self) -> int {
        match self.frame {
            Some(frame) => frame.end,
            None => self.program.len() as int,
        }
    }

    /// The site of the next statement.
    pub open spec fn site(self) -> Site {
        Site {
            program: self.program,
            at: self.pc,
            limit: self.limit(),
            active: self.active(),
            announce: self.announce,
            nested: self.frame is Some,
            counter: match self.frame {
                Some(frame) => if frame.variable is Some {
                    Some(frame.current)
                } else {
                    None
                },
                None => None,
            },
        }
    }

    /// The machine at `next`, a statement behind it.
    pub open spec fn at(self, next: int) -> Control {
        Control { pc: next, answers: Seq::empty(), waiting: false, ..self }
    }

    /// The tokens that are left once the loop under way, if any, is over.
    pub open spec fn ahead(self) -> int {
        match self.frame {
            Some(frame) => self.program.len() - (frame.end + 1),
            None => self.program.len() - self.pc,
        }
    }

    /// The passes of the loop under way that are not over.
    pub open spec fn passes(self) -> int {
        match self.frame {
            Some(frame) => frame.last - frame.current + 1,
            None => 0,
        }
    }

    /// What is left of the pass under way.
    pub open spec fn rest(self) -> int {
        match self.frame {
            Some(frame) => frame.end - self.pc + if frame.bound {
                0int
            } else {
                1int
            },
            None => 0,
        }
    }
}

impl State {
    /// The state once the statement has produced `text` and the machine has
    /// gone on to `next`.
    pub open spec fn said(self, text: Seq<char>, next: int) -> State {
        State { control: self.control.at(next), output: self.output + text, ..self }
    }

    /// The state once the loop under way is left behind.
    pub open spec fn left(self, frame: Loop, text: Seq<char>) -> State {
        State {
            control: Control { frame: None, ..self.control.at(frame.end + 1) },
            output: self.output + text,
            ..self
        }
    }

    /// The state that a statement's change leads to.
    pub open spec fn apply(self, change: Change) -> Progress {
        let control = self.control;
        match change {
            Change::Ask(need) => Progress::Ask(need),
            Change::Say { text, next } => Progress::Next(self.said(text, next)),
            Change::Bind { name, value, next } => Progress::Next(
                State { control: control.at(next), env: self.env.insert(name, value), ..self },
            ),
            Change::Branch { fresh, condition, text, next } => Progress::Next(
                State {
                    control: Control {
                        conditions: branched(
                            control.conditions,
                            fresh,
                            gate(fresh, condition, control.taken),
                        ),
                        taken: taken_after(fresh, condition, control.taken),
                        ..control.at(next)
                    },
                    output: self.output + text,
                    ..self
                },
            ),
            Change::Reset { text, next } => Progress::Next(
                State {
                    control: Control { conditions: Seq::empty(), taken: false, ..control.at(next) },
                    output: self.output + text,
                    ..self
                },
            ),
            Change::Enter { variable, first, last, body, end } => Progress::Next(
                State {
                    control: Control {
                        frame: Some(
                            Loop {
                                variable,
                                current: first,
                                last,
                                body,
                                end,
                                bound: variable is None,
                            },
                        ),
                        ..control.at(body)
                    },
                    ..self
                },
            ),
            Change::Halt { text } => Progress::Next(
                State {
                    control: Control {
                        frame: None,
                        halted: true,
                        ..control.at(control.program.len() as int)
                    },
                    output: self.output + text,
                    ..self
                },
            ),
        }
    }

    /// The beginning of a pass: the host turns the number of the pass into
    /// a number of the language, and the loop's variable is bound to it. If
    /// the host does not, the loop is left with a line that says so. A loop
    /// without a variable begins its pass at once.
    pub open spec fn begin_pass(self, frame: Loop) -> Progress {
        let control = self.control;
        if frame.variable is None {
            Progress::Next(
                State {
                    control: Control {
                        frame: Some(Loop { bound: true, ..frame }),
                        ..control.at(control.pc)
                    },
                    ..self
                },
            )
        } else if control.answers.len() == 0 {
            Progress::Ask(Need::Widen(frame.current))
        } else {
            match control.answers[0] {
                Answer::Number(bits) => Progress::Next(
                    State {
                        control: Control {
                            frame: Some(Loop { bound: true, ..frame }),
                            ..control.at(control.pc)
                        },
                        env: self.env.insert(frame.variable->0, Datum::Num(bits)),
                        ..self
                    },
                ),
                _ => Progress::Next(self.left(frame, record(msg_no_result()))),
            }
        }
    }

    /// The end of a pass: the next pass begins, or after the last one the
    /// machine goes on behind the token that closes the body.
    pub open spec fn end_pass(self, frame: Loop) -> Progress {
        if frame.current < frame.last {
            Progress::Next(
                State {
                    control: Control {
                        frame: Some(
                            Loop {
                                current: frame.current + 1,
                                bound: frame.variable is None,
                                ..frame
                            },
                        ),
                        ..self.control.at(frame.body)
                    },
                    ..self
                },
            )
        } else {
            Progress::Next(self.left(frame, Seq::empty()))
        }
    }

    /// One step: the next statement, or the beginning or the end of a pass
    /// of the loop under way.
    pub open spec fn step(self) -> Progress {
        let control = self.control;
        if control.halted {
            Progress::Ask(Need::Done)
        } else {
            match control.frame {
                Some(frame) => if !frame.bound {
                    self.begin_pass(frame)
                } else if control.pc >= frame.end {
                    self.end_pass(frame)
                } else {
                    self.apply(control.site().statement(self.env, control.answers))
                },
                None => if control.pc >= control.program.len() {
                    Progress::Ask(Need::Done)
                } else {
                    self.apply(control.site().statement(self.env, control.answers))
                },
            }
        }
    }

    /// The state in which the machine stops, with what it then needs: it
    /// takes step after step until the host has to answer or the program is
    /// done.
    pub open spec fn run(self) -> (State, Need)
        decreases self.control.ahead(), self.control.passes(), self.control.rest(),
        when self.control.wf()
    {
        match self.step() {
            Progress::Ask(need) => (
                State { control: Control { waiting: !(need is Done), ..self.control }, ..self },
                need,
            ),
            Progress::Next(then) => {
                proof {
                    lemma_step_advances(self);
                }
                then.run()
            },
        }
    }
}

/// Whether a change suits the site that it comes from: the machine moves
/// forward and stays within the statement's surroundings, and a loop begins
/// only outside any loop, with its body before the token that closes it.
pub open spec fn suits(site: Site, change: Change) -> bool {
    match change {
        Change::Ask(_) => true,
        Change::Say { next, .. } => site.at < next <= site.limit,
        Change::Bind { next, .. } => site.at < next <= site.limit,
        Change::Branch { next, .. } => site.at < next <= site.limit,
        Change::Reset { next, .. } => site.at < next <= site.limit,
        Change::Enter { first, last, body, end, .. } => {
            &&& !site.nested
            &&& site.at < body <= end < site.limit
            &&& first <= last
        },
        Change::Halt { .. } => true,
    }
}

/// Every statement's change suits its site.
pub proof fn lemma_statement_suits(site: Site, env: Map<Seq<char>, Datum>, answers: Seq<Answer>)
    requires
        0 <= site.at < site.limit <= site.program.len(),
    ensures
        suits(site, site.statement(env, answers)),
{
    if site.has(4) {
        lemma_closing_bounds(site.program, brace_close(), site.at + 4, site.limit);
    }
    if site.has(2) {
        lemma_closing_bounds(site.program, kw_times_end(), site.at + 2, site.limit);
    }
}

/// A step leads from a machine that is well formed to one that is, and
/// brings the run nearer to its end.
pub proof fn lemma_step_advances(state: State)
    requires
        state.control.wf(),
    ensures
        match state.step() {
            Progress::Ask(_) => true,
            Progress::Next(then) => {
                &&& then.control.wf()
                &&& then.control.program == state.control.program
                &&& then.control.announce == state.control.announce
                &&& decreases_to!(
                    state.control.ahead(), state.control.passes(), state.control.rest() =>
                    then.control.ahead(), then.control.passes(), then.control.rest()
                )
            },
        },
{
    let control = state.control;
    if !control.halted && control.pc < control.limit() {
        lemma_statement_suits(control.site(), state.env, control.answers);
    }
}

impl Control {
    /// The machine once the host has answered its request. A reply that no
    /// request asked for is not taken.
    pub open spec fn answered(self, answer: Answer) -> Control {
        if self.waiting {
            Control { answers: self.answers.push(answer), waiting: false, ..self }
        } else {
            self
        }
    }
}

struct Frame {
    variable: Option<Vec<char>>,
    current: i64,
    last: i64,
    body: usize,
    end: usize,
    bound: bool,
}

struct Position {
    pc: usize,
    frame: Option<Frame>,
    halted: bool,
}

/// A program and the place that its run has come to.
pub struct Machine {
    program: Vec<Vec<char>>,
    announce: bool,
    position: Position,
    conditions: Vec<bool>,
    taken: bool,
    answers: Vec<Reply>,
    waiting: bool,
}

impl View for Frame {
    type V = Loop;

    closed spec fn view(&self) -> Loop {
        Loop {
            variable: match self.variable {
                Some(name) => Some(name@),
                None => None,
            },
            current: self.current as int,
            last: self.last as int,
            body: self.body as int,
            end: self.end as int,
            bound: self.bound,
        }
    }
}

impl View for Machine {
    type V = Control;

    closed spec fn view(&self) -> Control {
        Control {
            program: texts(self.program@),
            announce: self.announce,
            pc: self.position.pc as int,
            conditions: self.conditions@,
            taken: self.taken,
            frame: match self.position.frame {
                Some(frame) => Some(frame@),
                None => None,
            },
            halted: self.position.halted,
            answers: answers_of(self.answers@),
            waiting: self.waiting,
        }
    }
}

/// The state that a machine, an environment and an output buffer make up.
pub open spec fn state_of(machine: Machine, variables: Environment, output: String) -> State {
    State { control: machine@, env: variables@, output: output@ }
}

impl Machine {
    #[verifier::type_invariant]
    spec fn inv(self) -> bool {
        self@.wf()
    }

    /// A machine at the beginning of the program that `code` holds.
    pub fn new(code: &str) -> (machine: Machine)
        ensures
            machine@ == Control::start(lex(code@)),
            machine@.wf(),
    {
        let program = scan_text(code);
        let announce = program.len() > 0 && is_word(&program[0], "CHIHUAHUA");
        let machine = Machine {
            program,
            announce,
            position: Position { pc: if announce { 1 } else { 0 }, frame: None, halted: false },
            conditions: Vec::new(),
            taken: false,
            answers: Vec::new(),
            waiting: false,
        };
        proof {
            assert(machine@.answers =~= Seq::<Answer>::empty());
        }
        machine
    }

    /// Takes the host's reply to the request that is out. Returns whether a
    /// request was out; if none was, the reply is dropped.
    pub fn answer(&mut self, reply: Reply) -> (accepted: bool)
        ensures
            accepted == old(self)@.waiting,
            final(self)@ == old(self)@.answered(reply@),
            old(self)@.wf(),
            final(self)@.wf(),
    {
        proof {
            use_type_invariant(&*self);
        }
        if self.waiting {
            let ghost before = self@;
            let mut answers: Vec<Reply> = Vec::new();
            std::mem::swap(&mut answers, &mut self.answers);
            answers.push(reply);
            self.answers = answers;
            self.waiting = false;
            proof {
                assert(self@.answers =~= before.answers.push(reply@));
            }
            true
        } else {
            false
        }
    }

    /// Whether the machine has asked for something that the host has not
    /// answered.
    pub fn is_waiting(&self) -> (waiting: bool)
        ensures
            waiting == self@.waiting,
    {
        self.waiting
    }

    fn active(&self) -> (active: bool)
        ensures
            active == self@.active(),
    {
        self.conditions.len() == 0 || self.conditions[self.conditions.len() - 1]
    }

    /// Moves on to `next`, a statement behind.
    fn go(&mut self, next: usize)
        requires
            old(self)@.pc <= next <= old(self)@.limit(),
        ensures
            final(self)@ == old(self)@.at(next as int),
    {
        proof {
            use_type_invariant(&*self);
        }
        self.answers = Vec::new();
        self.waiting = false;
        self.position.pc = next;
        proof {
            assert(self@.answers =~= Seq::<Answer>::empty());
        }
    }

    /// Leaves the loop under way, which ends at `end`.
    fn leave(&mut self, end: usize)
        requires
            old(self)@.frame is Some,
            old(self)@.frame->0.end == end,
        ensures
            final(self)@ == (Control { frame: None, ..old(self)@.at(end + 1) }),
    {
        proof {
            use_type_invariant(&*self);
        }
        assert(end < self.program.len());
        self.answers = Vec::new();
        self.waiting = false;
        self.position = Position { pc: end + 1, frame: None, halted: false };
        proof {
            assert(self@.answers =~= Seq::<Answer>::empty());
        }
    }

    /// Begins a branch of a conditional chain.
    fn turn(&mut self, fresh: bool, condition: bool)
        ensures
            final(self)@ == (Control {
                conditions: branched(
                    old(self)@.conditions,
                    fresh,
                    gate(fresh, condition, old(self)@.taken),
                ),
                taken: taken_after(fresh, condition, old(self)@.taken),
                ..old(self)@
            }),
    {
        proof {
            use_type_invariant(&*self);
        }
        let open = condition && (fresh || !self.taken);
        let mut conditions: Vec<bool> = Vec::new();
        std::mem::swap(&mut conditions, &mut self.conditions);
        if !fresh && conditions.len() > 0 {
            conditions.pop();
        }
        conditions.push(open);
        self.conditions = conditions;
        self.taken = if fresh {
            condition
        } else {
            self.taken || condition
        };
    }

    /// Makes the change that a statement came to.
    fn apply(&mut self, effect: Effect, variables: &mut Environment, output: &mut String) -> (r: Option<
        Request,
    >)
        requires
            suits(old(self)@.site(), effect@),
            old(self)@.pc < old(self)@.limit(),
            !old(self)@.halted,
        ensures
            match state_of(*old(self), *old(variables), *old(output)).apply(effect@) {
                Progress::Ask(need) => {
                    &&& r matches Some(request)
                    &&& request@ == need
                    &&& state_of(*final(self), *final(variables), *final(output)) == state_of(
                        *old(self),
                        *old(variables),
                        *old(output),
                    )
                },
                Progress::Next(then) => {
                    &&& r is None
                    &&& state_of(*final(self), *final(variables), *final(output)) == then
                },
            },
    {
        proof {
            use_type_invariant(&*self);
        }
        let ghost before = state_of(*self, *variables, *output);
        let ghost change = effect@;
        match effect {
            Effect::Ask(request) => Some(request),
            Effect::Say { text, next } => {
                output.append(text.as_str());
                self.go(next);
                assert(state_of(*self, *variables, *output) =~= before.apply(change)->Next_0);
                None
            },
            Effect::Bind { name, value, next } => {
                variables.bind(name, value);
                self.go(next);
                assert(state_of(*self, *variables, *output) =~= before.apply(change)->Next_0);
                None
            },
            Effect::Branch { fresh, condition, text, next } => {
                output.append(text.as_str());
                self.go(next);
                self.turn(fresh, condition);
                assert(state_of(*self, *variables, *output) =~= before.apply(change)->Next_0);
                None
            },
            Effect::Reset { text, next } => {
                output.append(text.as_str());
                self.go(next);
                self.conditions = Vec::new();
                self.taken = false;
                assert(state_of(*self, *variables, *output) =~= before.apply(change)->Next_0);
                None
            },
            Effect::Enter { variable, first, last, body, end } => {
                self.answers = Vec::new();
                self.waiting = false;
                self.position = Position {
                    pc: body,
                    frame: Some(
                        Frame {
                            bound: variable.is_none(),
                            variable,
                            current: first,
                            last,
                            body,
                            end,
                        },
                    ),
                    halted: false,
                };
                assert(self@.answers =~= Seq::<Answer>::empty());
                assert(state_of(*self, *variables, *output) =~= before.apply(change)->Next_0);
                None
            },
            Effect::Halt { text } => {
                output.append(text.as_str());
                self.answers = Vec::new();
                self.waiting = false;
                self.position = Position { pc: self.program.len(), frame: None, halted: true };
                assert(self@.answers =~= Seq::<Answer>::empty());
                assert(state_of(*self, *variables, *output) =~= before.apply(change)->Next_0);
                None
            },
        }
    }

    /// Reads the next statement and makes its change.
    fn execute(&mut self, variables: &mut Environment, output: &mut String) -> (r: Option<Request>)
        requires
            !old(self)@.halted,
            old(self)@.pc < old(self)@.limit(),
        ensures
            match state_of(*old(self), *old(variables), *old(output)).apply(
                old(self)@.site().statement(old(variables)@, old(self)@.answers),
            ) {
                Progress::Ask(need) => {
                    &&& r matches Some(request)
                    &&& request@ == need
                    &&& state_of(*final(self), *final(variables), *final(output)) == state_of(
                        *old(self),
                        *old(variables),
                        *old(output),
                    )
                },
                Progress::Next(then) => {
                    &&& r is None
                    &&& state_of(*final(self), *final(variables), *final(output)) == then
                },
            },
    {
        proof {
            use_type_invariant(&*self);
        }
        let spot = Spot {
            at: self.position.pc,
            limit: match &self.position.frame {
                Some(frame) => frame.end,
                None => self.program.len(),
            },
            active: self.active(),
            announce: self.announce,
            nested: self.position.frame.is_some(),
            counter: match &self.position.frame {
                Some(frame) => if frame.variable.is_some() {
                    Some(frame.current)
                } else {
                    None
                },
                None => None,
            },
        };
        assert(spot.site(self.program@) == self@.site());
        let effect = statement(&self.program, &spot, variables, &self.answers);
        proof {
            lemma_statement_suits(self@.site(), variables@, self@.answers);
        }
        self.apply(effect, variables, output)
    }

    /// Takes one step. Returns the request where the machine cannot go on,
    /// and nothing where it has.
    pub fn step(&mut self, variables: &mut Environment, output: &mut String) -> (r: Option<Request>)
        ensures
            match state_of(*old(self), *old(variables), *old(output)).step() {
                Progress::Ask(need) => {
                    &&& r matches Some(request)
                    &&& request@ == need
                    &&& state_of(*final(self), *final(variables), *final(output)) == state_of(
                        *old(self),
                        *old(variables),
                        *old(output),
                    )
                },
                Progress::Next(then) => {
                    &&& r is None
                    &&& state_of(*final(self), *final(variables), *final(output)) == then
                },
            },
            old(self)@.wf(),
            final(self)@.wf(),
    {
        proof {
            use_type_invariant(&*self);
            lemma_step_advances(state_of(*self, *variables, *output));
        }
        if self.position.halted {
            return Some(Request::Done);
        }
        let in_loop = match &self.position.frame {
            Some(frame) => Some(
                (
                    frame.current,
                    frame.last,
                    frame.body,
                    frame.end,
                    frame.bound,
                    frame.variable.is_some(),
                ),
            ),
            None => None,
        };
        match in_loop {
            Some((current, last, body, end, bound, named)) => {
                if !bound {
                    let bits = if !named {
                        Ok(None)
                    } else if self.answers.len() == 0 {
                        return Some(Request::Widen(current));
                    } else {
                        match &self.answers[0] {
                            Reply::Number(bits) => Ok(Some(*bits)),
                            _ => Err(()),
                        }
                    };
                    match bits {
                        Ok(bits) => {
                            let mut position = Position { pc: 0, frame: None, halted: false };
                            std::mem::swap(&mut position, &mut self.position);
                            let variable = match position.frame {
                                Some(frame) => frame.variable,
                                None => None,
                            };
                            match (&variable, bits) {
                                (Some(name), Some(bits)) => {
                                    variables.bind(name.clone(), Value::Num(bits));
                                },
                                _ => {},
                            }
                            self.answers = Vec::new();
                            self.waiting = false;
                            self.position = Position {
                                pc: position.pc,
                                frame: Some(
                                    Frame { variable, current, last, body, end, bound: true },
                                ),
                                halted: false,
                            };
                            proof {
                                assert(self@.answers =~= Seq::<Answer>::empty());
                            }
                            None
                        },
                        Err(_) => {
                            let line = record_of("[ERROR: InvalidValue]: The operation has no result");
                            output.append(line.as_str());
                            self.leave(end);
                            None
                        },
                    }
                } else if self.position.pc >= end {
                    if current < last {
                        let mut position = Position { pc: 0, frame: None, halted: false };
                        std::mem::swap(&mut position, &mut self.position);
                        let variable = match position.frame {
                            Some(frame) => frame.variable,
                            None => None,
                        };
                        self.answers = Vec::new();
                        self.waiting = false;
                        self.position = Position {
                            pc: body,
                            frame: Some(
                                Frame {
                                    bound: variable.is_none(),
                                    variable,
                                    current: current + 1,
                                    last,
                                    body,
                                    end,
                                },
                            ),
                            halted: false,
                        };
                        proof {
                            assert(self@.answers =~= Seq::<Answer>::empty());
                        }
                        None
                    } else {
                        proof {
                            assert(output@ + Seq::<char>::empty() =~= output@);
                        }
                        self.leave(end);
                        None
                    }
                } else {
                    self.execute(variables, output)
                }
            },
            None => {
                if self.position.pc >= self.program.len() {
                    Some(Request::Done)
                } else {
                    self.execute(variables, output)
                }
            },
        }
    }
}

/// Runs the machine's program until the host has to answer a request or
/// the program is done, and returns the request: `Done` at the end. The
/// statements write to `output` and bind in `variables`.
pub fn run_interpreter(machine: &mut Machine, variables: &mut Environment, output: &mut String) -> (request:
    Request)
    ensures
        (state_of(*final(machine), *final(variables), *final(output)), request@) == state_of(
            *old(machine),
            *old(variables),
            *old(output),
        ).run(),
        keeps_names(old(variables)@, final(variables)@),
        old(output)@.is_prefix_of(final(output)@),
        final(machine)@.program == old(machine)@.program,
        old(machine)@.wf(),
        final(machine)@.wf(),
{
    proof {
        use_type_invariant(&*machine);
        lemma_run_keeps(state_of(*machine, *variables, *output));
    }
    loop
        invariant
            state_of(*machine, *variables, *output).run() == state_of(
                *old(machine),
                *old(variables),
                *old(output),
            ).run(),
            keeps_names(
                old(variables)@,
                state_of(*old(machine), *old(variables), *old(output)).run().0.env,
            ),
            old(output)@.is_prefix_of(
                state_of(*old(machine), *old(variables), *old(output)).run().0.output,
            ),
            state_of(*old(machine), *old(variables), *old(output)).run().0.control.program == old(
                machine,
            )@.program,
            state_of(*old(machine), *old(variables), *old(output)).run().0.control.wf(),
            old(machine)@.wf(),
        decreases machine@.ahead(), machine@.passes(), machine@.rest(),
    {
        proof {
            use_type_invariant(&*machine);
            lemma_step_advances(state_of(*machine, *variables, *output));
        }
        match machine.step(variables, output) {
            Some(request) => {
                machine.settle(!matches!(request, Request::Done));
                return request;
            },
            None => {},
        }
    }
}

impl Machine {
    /// Notes whether a request is out.
    fn settle(&mut self, waiting: bool)
        ensures
            final(self)@ == (Control { waiting, ..old(self)@ }),
    {
        proof {
            use_type_invariant(&*self);
        }
        self.waiting = waiting;
    }
}

} // verus!

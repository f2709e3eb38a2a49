//! What holds of every run: laws of the machine, each proved from the
//! definitions that the contracts of the library speak in.

use vstd::prelude::*;
use crate::expr::msg_no_result;
use crate::host::{Answer, Need};
use crate::interpreter::{
    branched, gate, lemma_step_advances, taken_after, Control, Loop, Progress, State,
};
use crate::statement::{
    msg_reassign_text, msg_unbound_print, record, text_value, Change, Site,
};
use crate::syntax::{
    brace_open, is_name, is_quoted, kw_declare, kw_loop, kw_print, kw_reassign, lit_false,
    lit_true, range_bounds, sign_assign, truth_literal, ty_bool, ty_number, ty_text,
};
use crate::value::{truth_text, Datum};

verus! {

/// Whether `after` binds every name that `before` binds.
pub open spec fn keeps_names(before: Map<Seq<char>, Datum>, after: Map<Seq<char>, Datum>) -> bool {
    forall|name: Seq<char>| before.dom().contains(name) ==> #[trigger] after.dom().contains(name)
}

/// A change never unbinds a name and never takes back output: the state
/// that it leads to binds what was bound, and its output begins with what
/// the output was.
pub proof fn lemma_apply_keeps(state: State, change: Change)
    ensures
        match state.apply(change) {
            Progress::Ask(_) => true,
            Progress::Next(then) => keeps_names(state.env, then.env) && state.output.is_prefix_of(
                then.output,
            ),
        },
{
    match state.apply(change) {
        Progress::Ask(_) => {},
        Progress::Next(then) => {
            assert(state.output.is_prefix_of(then.output)) by {
                match change {
                    Change::Say { text, .. } => {
                        assert(state.output =~= (state.output + text).subrange(
                            0,
                            state.output.len() as int,
                        ));
                    },
                    Change::Branch { text, .. } => {
                        assert(state.output =~= (state.output + text).subrange(
                            0,
                            state.output.len() as int,
                        ));
                    },
                    Change::Reset { text, .. } => {
                        assert(state.output =~= (state.output + text).subrange(
                            0,
                            state.output.len() as int,
                        ));
                    },
                    Change::Halt { text } => {
                        assert(state.output =~= (state.output + text).subrange(
                            0,
                            state.output.len() as int,
                        ));
                    },
                    _ => {
                        assert(state.output =~= state.output.subrange(
                            0,
                            state.output.len() as int,
                        ));
                    },
                }
            }
        },
    }
}

/// A step never unbinds a name and never takes back output.
pub proof fn lemma_step_keeps(state: State)
    ensures
        match state.step() {
            Progress::Ask(_) => true,
            Progress::Next(then) => keeps_names(state.env, then.env) && state.output.is_prefix_of(
                then.output,
            ),
        },
{
    let control = state.control;
    lemma_apply_keeps(state, control.site().statement(state.env, control.answers));
    match state.step() {
        Progress::Ask(_) => {},
        Progress::Next(then) => {
            if !control.halted && control.frame is Some {
                let frame = control.frame->0;
                if !frame.bound || control.pc >= frame.end {
                    assert(state.output =~= (state.output + then.output.skip(
                        state.output.len() as int,
                    )).subrange(0, state.output.len() as int));
                    assert(then.output =~= state.output + then.output.skip(
                        state.output.len() as int,
                    ));
                }
            }
        },
    }
}

/// The environment outlives the run, and the output is only ever added to:
/// whatever the program and whatever the host answers, the state in which a
/// run stops binds every name that was bound when it began, and its output
/// begins with what the output was. The program itself is never changed.
pub proof fn lemma_run_keeps(state: State)
    requires
        state.control.wf(),
    ensures
        keeps_names(state.env, state.run().0.env),
        state.output.is_prefix_of(state.run().0.output),
        state.run().0.control.program == state.control.program,
        state.run().0.control.wf(),
    decreases state.control.ahead(), state.control.passes(), state.control.rest(),
{
    lemma_step_advances(state);
    lemma_step_keeps(state);
    match state.step() {
        Progress::Ask(_) => {
            assert(state.output =~= state.output.subrange(0, state.output.len() as int));
        },
        Progress::Next(then) => {
            lemma_run_keeps(then);
            let last = then.run().0;
            assert(state.output =~= last.output.subrange(0, state.output.len() as int)) by {
                assert(then.output =~= last.output.subrange(0, then.output.len() as int));
                assert(state.output =~= then.output.subrange(0, state.output.len() as int));
            }
        },
    }
}

/// Whether `text` is made of whole lines: it is empty, or its last character
/// ends a line.
pub open spec fn whole_lines(text: Seq<char>) -> bool {
    text.len() == 0 || text.last() == '\n'
}

/// What `after` holds behind the first characters, as many as `before` has.
pub open spec fn written(before: Seq<char>, after: Seq<char>) -> Seq<char> {
    after.skip(before.len() as int)
}

/// A record is a whole line, whatever its text.
pub proof fn lemma_record_is_a_line(text: Seq<char>)
    ensures
        whole_lines(record(text)),
        record(text).len() == text.len() + 1,
{
    reveal_strlit("\n");
}

/// What a statement writes is made of whole lines.
pub proof fn lemma_statement_writes_lines(site: Site, env: Map<Seq<char>, Datum>, answers: Seq<Answer>)
    ensures
        match site.statement(env, answers) {
            Change::Say { text, .. } => whole_lines(text),
            Change::Branch { text, .. } => whole_lines(text),
            Change::Reset { text, .. } => whole_lines(text),
            Change::Halt { text } => whole_lines(text),
            _ => true,
        },
{
    assert forall|text: Seq<char>| whole_lines(#[trigger] record(text)) by {
        lemma_record_is_a_line(text);
    }
}

/// What a step writes is made of whole lines.
pub proof fn lemma_step_writes_lines(state: State)
    ensures
        match state.step() {
            Progress::Ask(_) => true,
            Progress::Next(then) => then.output == state.output + written(
                state.output,
                then.output,
            ) && whole_lines(written(state.output, then.output)),
        },
{
    let control = state.control;
    lemma_statement_writes_lines(control.site(), state.env, control.answers);
    lemma_record_is_a_line(msg_no_result());
    match state.step() {
        Progress::Ask(_) => {},
        Progress::Next(then) => {
            let change = control.site().statement(state.env, control.answers);
            if !control.halted && control.frame is Some && (!control.frame->0.bound || control.pc
                >= control.frame->0.end) {
                let frame = control.frame->0;
                if !frame.bound && frame.variable is Some && !(control.answers[0] is Number) {
                    assert((state.output + record(msg_no_result())).skip(
                        state.output.len() as int,
                    ) =~= record(msg_no_result()));
                } else {
                    assert(then.output =~= state.output + Seq::<char>::empty());
                    assert(then.output.skip(state.output.len() as int) =~= Seq::<char>::empty());
                }
            } else {
                match change {
                    Change::Say { text, .. } => {
                        assert((state.output + text).skip(state.output.len() as int) =~= text);
                    },
                    Change::Branch { text, .. } => {
                        assert((state.output + text).skip(state.output.len() as int) =~= text);
                    },
                    Change::Reset { text, .. } => {
                        assert((state.output + text).skip(state.output.len() as int) =~= text);
                    },
                    Change::Halt { text } => {
                        assert((state.output + text).skip(state.output.len() as int) =~= text);
                    },
                    _ => {
                        assert(then.output =~= state.output + Seq::<char>::empty());
                        assert(then.output.skip(state.output.len() as int) =~= Seq::<char>::empty());
                    },
                }
            }
        },
    }
}

/// The output grows by whole lines only: whatever the program and whatever
/// the host answers, what a run adds to the output is empty or ends with the
/// end of a line.
pub proof fn lemma_run_writes_lines(state: State)
    requires
        state.control.wf(),
    ensures
        state.run().0.output == state.output + written(state.output, state.run().0.output),
        whole_lines(written(state.output, state.run().0.output)),
    decreases state.control.ahead(), state.control.passes(), state.control.rest(),
{
    lemma_step_advances(state);
    lemma_step_writes_lines(state);
    match state.step() {
        Progress::Ask(_) => {
            assert(state.output.skip(state.output.len() as int) =~= Seq::<char>::empty());
            assert(state.output =~= state.output + Seq::<char>::empty());
        },
        Progress::Next(then) => {
            lemma_run_writes_lines(then);
            let last = then.run().0.output;
            let first = written(state.output, then.output);
            let second = written(then.output, last);
            assert(last =~= state.output + (first + second));
            assert(written(state.output, last) =~= first + second);
            if second.len() > 0 {
                assert((first + second).last() == second.last());
            } else {
                assert(first + second =~= first);
            }
        },
    }
}

/// A run stops only where the machine cannot go on: in the state that it
/// stops in, the next step asks for the very thing that the run returned.
pub proof fn lemma_run_stops_at_request(state: State)
    requires
        state.control.wf(),
    ensures
        state.run().0.step() == Progress::Ask(state.run().1),
        state.run().0.control.waiting == !(state.run().1 is Done),
    decreases state.control.ahead(), state.control.passes(), state.control.rest(),
{
    lemma_step_advances(state);
    match state.step() {
        Progress::Ask(need) => {
            let stopped = state.run().0;
            assert(stopped.control.site() == state.control.site());
        },
        Progress::Next(then) => {
            lemma_run_stops_at_request(then);
        },
    }
}

/// Running a machine that waits for its host changes nothing: a second run
/// without a reply in between stops in the same state with the same request.
pub proof fn lemma_run_waits(state: State)
    requires
        state.control.wf(),
    ensures
        state.run().0.run() == state.run(),
{
    lemma_run_keeps(state);
    lemma_run_stops_at_request(state);
    let stopped = state.run().0;
    let need = state.run().1;
    assert(stopped.control == (Control { waiting: !(need is Done), ..stopped.control }));
}

/// A reply is taken exactly once: the machine takes the reply to the request
/// that is out, and drops any other until it has asked again.
pub proof fn lemma_reply_is_taken_once(control: Control, first: Answer, second: Answer)
    requires
        control.waiting,
    ensures
        control.answered(first).answers == control.answers.push(first),
        control.answered(first).answered(second) == control.answered(first),
{
}

/// Of the three branches of a chain, `FUWA first`, `FUWAMOCO second` and
/// `MOCO`, exactly one is open, whatever the two conditions are and whatever
/// came before the chain; and where the first condition holds, it is the
/// first branch.
pub proof fn lemma_chain_takes_one_branch(first: bool, second: bool, taken: bool)
    ensures
        ({
            let one = gate(true, first, taken);
            let after_one = taken_after(true, first, taken);
            let two = gate(false, second, after_one);
            let after_two = taken_after(false, second, after_one);
            let three = gate(false, true, after_two);
            &&& one || two || three
            &&& !(one && two) && !(one && three) && !(two && three)
            &&& first ==> one && !two && !three
        }),
{
}

/// Whether a branch has been taken before the branch `upto` of a chain
/// whose branches have the conditions `conditions`, the first being that of
/// `FUWA`. `before` is what was noted before the chain began.
pub open spec fn chain_taken(conditions: Seq<bool>, before: bool, upto: int) -> bool
    decreases upto,
{
    if upto <= 0 {
        before
    } else {
        taken_after(upto == 1, conditions[upto - 1], chain_taken(conditions, before, upto - 1))
    }
}

/// Whether the branch `at` of a chain is open.
pub open spec fn chain_gate(conditions: Seq<bool>, before: bool, at: int) -> bool {
    gate(at == 0, conditions[at], chain_taken(conditions, before, at))
}

/// Within a chain, a branch has been taken exactly where one of the
/// conditions so far held.
pub proof fn lemma_chain_taken(conditions: Seq<bool>, before: bool, upto: int)
    requires
        1 <= upto <= conditions.len(),
    ensures
        chain_taken(conditions, before, upto) <==> exists|k: int| 0 <= k < upto && conditions[k],
    decreases upto,
{
    if upto > 1 {
        lemma_chain_taken(conditions, before, upto - 1);
        if chain_taken(conditions, before, upto - 1) {
            let k = choose|k: int| 0 <= k < upto - 1 && conditions[k];
            assert(0 <= k < upto && conditions[k]);
        }
    }
    if conditions[upto - 1] {
        assert(0 <= upto - 1 < upto && conditions[upto - 1]);
    }
}

/// In a chain of any length, the branch that is open is the first whose
/// condition holds: so no two branches are open, and where a condition
/// holds, as it does in a chain that ends with `MOCO`, one branch is.
pub proof fn lemma_chain_opens_first_that_holds(conditions: Seq<bool>, before: bool)
    ensures
        forall|at: int|
            0 <= at < conditions.len() ==> (#[trigger] chain_gate(conditions, before, at) <==> (
            conditions[at] && forall|k: int| 0 <= k < at ==> !conditions[k])),
        forall|i: int, j: int|
            0 <= i < j < conditions.len() ==> !(#[trigger] chain_gate(conditions, before, i)
                && #[trigger] chain_gate(conditions, before, j)),
        (exists|k: int| 0 <= k < conditions.len() && conditions[k]) ==> exists|at: int|
            0 <= at < conditions.len() && chain_gate(conditions, before, at),
{
    assert forall|at: int| 0 <= at < conditions.len() implies (#[trigger] chain_gate(
        conditions,
        before,
        at,
    ) <==> (conditions[at] && forall|k: int| 0 <= k < at ==> !conditions[k])) by {
        if at > 0 {
            lemma_chain_taken(conditions, before, at);
        }
    }
    if exists|k: int| 0 <= k < conditions.len() && conditions[k] {
        let first = first_that_holds(conditions, 0);
        lemma_first_that_holds(conditions, 0);
        assert(chain_gate(conditions, before, first));
    }
}

/// The index of the first condition from `from` on that holds, or the
/// length where none does.
pub open spec fn first_that_holds(conditions: Seq<bool>, from: int) -> int
    decreases conditions.len() - from,
{
    if from >= conditions.len() || (0 <= from && conditions[from]) {
        from
    } else {
        first_that_holds(conditions, from + 1)
    }
}

proof fn lemma_first_that_holds(conditions: Seq<bool>, from: int)
    requires
        0 <= from <= conditions.len(),
    ensures
        from <= first_that_holds(conditions, from) <= conditions.len(),
        forall|k: int| from <= k < first_that_holds(conditions, from) ==> !conditions[k],
        first_that_holds(conditions, from) < conditions.len() ==> conditions[first_that_holds(
            conditions,
            from,
        )],
    decreases conditions.len() - from,
{
    if from >= conditions.len() || conditions[from] {
    } else {
        lemma_first_that_holds(conditions, from + 1);
    }
}

/// Whether two values are of one type.
pub open spec fn same_type(a: Datum, b: Datum) -> bool {
    ||| a is Bool && b is Bool
    ||| a is Text && b is Text
    ||| a is Num && b is Num
}

/// A variable keeps its type for as long as it is only reassigned: where a
/// reassignment binds, the name was bound before, to a value of the type of
/// the new one.
pub proof fn lemma_reassignment_keeps_type(site: Site, env: Map<Seq<char>, Datum>, answers: Seq<Answer>)
    ensures
        match site.reassign(env, answers) {
            Change::Bind { name, value, .. } => env.dom().contains(name) && same_type(
                env[name],
                value,
            ),
            _ => true,
        },
{
}

/// A declaration binds a value of the type that it names.
pub proof fn lemma_declaration_gives_type(site: Site, env: Map<Seq<char>, Datum>, answers: Seq<Answer>)
    ensures
        match site.declare(env, answers) {
            Change::Bind { name, value, .. } => {
                &&& name == site.token(2)
                &&& is_name(name)
                &&& site.token(1) == ty_text() ==> value is Text
                &&& site.token(1) == ty_bool() ==> value is Bool
                &&& site.token(1) == ty_number() ==> value is Num
            },
            _ => true,
        },
{
    lemma_keywords_differ();
}

/// Once a branch has begun, statements are executed exactly where its gate
/// is open: it has become the innermost condition.
pub proof fn lemma_branch_gates(state: State, fresh: bool, condition: bool, text: Seq<char>, next: int)
    ensures
        state.apply(Change::Branch { fresh, condition, text, next }) matches Progress::Next(then)
            && then.control.active() == gate(fresh, condition, state.control.taken)
            && then.control.taken == taken_after(fresh, condition, state.control.taken),
{
}

/// A later branch of a chain takes the place of the branch before it, so
/// that a chain, however long, holds one place among the conditions.
pub proof fn lemma_branch_replaces(conditions: Seq<bool>, open: bool, later: bool)
    ensures
        branched(branched(conditions, true, open), false, later) == conditions.push(later),
{
    assert(conditions.push(open).drop_last() =~= conditions);
}

/// Whether `state` is about to execute a statement that begins with
/// `keyword` and has `count` tokens.
pub open spec fn about_to(state: State, keyword: Seq<char>, count: int) -> bool {
    let control = state.control;
    &&& control.wf()
    &&& !control.halted
    &&& control.active()
    &&& control.pc + count <= control.limit()
    &&& (control.frame is Some ==> control.frame->0.bound)
    &&& control.site().token(0) == keyword
}

/// The keywords that the laws below tell apart are different words.
proof fn lemma_keywords_differ()
    ensures
        kw_declare() != kw_reassign(),
        kw_declare() != kw_print(),
        kw_reassign() != kw_print(),
        ty_text() != ty_bool(),
        ty_text() != ty_number(),
        ty_bool() != ty_number(),
        lit_true() != lit_false(),
        kw_loop() != kw_declare(),
        kw_loop() != kw_reassign(),
        kw_loop() != kw_print(),
{
    reveal_strlit("PONDE");
    assert(kw_loop().len() == 5);
    reveal_strlit("WA");
    reveal_strlit("CO");
    reveal_strlit("BAU");
    reveal_strlit("KIRA");
    reveal_strlit("BAULEAN");
    reveal_strlit("MOE");
    reveal_strlit("FLUFFY");
    reveal_strlit("FUZZY");
    assert(kw_declare().len() != kw_print().len());
    assert(kw_reassign().len() != kw_print().len());
    assert(kw_declare()[0] != kw_reassign()[0]);
    assert(ty_text()[0] != ty_bool()[0]);
    assert(ty_text()[0] != ty_number()[0]);
    assert(ty_bool()[0] != ty_number()[0]);
    assert(lit_true()[1] != lit_false()[1]);
}

/// Reassigning a variable that holds text to anything but text is refused:
/// where `CO name = value` is executed, `name` holds text, and `value` is
/// neither a quoted string nor a variable that holds text, the output gains
/// the line that says so and every variable stays as it was.
pub proof fn lemma_text_stays_text(state: State)
    requires
        about_to(state, kw_reassign(), 4),
        state.control.site().token(2) == sign_assign(),
        state.env.dom().contains(state.control.site().token(1)),
        state.env[state.control.site().token(1)] is Text,
        text_value(state.control.site().token(3), state.env) is None,
    ensures
        state.step() == Progress::Next(state.said(record(msg_reassign_text()), state.control.pc + 4)),
        state.said(record(msg_reassign_text()), state.control.pc + 4).env == state.env,
{
    lemma_keywords_differ();
}

/// Printing a name that is not bound gives one line that says so, and the
/// run goes on with the statement behind: nothing is bound or unbound, and
/// the machine has not ended.
pub proof fn lemma_unbound_print_goes_on(state: State)
    requires
        about_to(state, kw_print(), 2),
        !is_quoted(state.control.site().token(1)),
        !state.env.dom().contains(state.control.site().token(1)),
    ensures
        state.step() == Progress::Next(
            state.said(
                record(msg_unbound_print(state.control.site().token(1))),
                state.control.pc + 2,
            ),
        ),
        state.said(
            record(msg_unbound_print(state.control.site().token(1))),
            state.control.pc + 2,
        ).control.halted == false,
        state.said(
            record(msg_unbound_print(state.control.site().token(1))),
            state.control.pc + 2,
        ).env == state.env,
{
    lemma_keywords_differ();
}

/// Declaring a truth value with a literal and printing it gives the
/// literal's word: where `WA BAULEAN name = literal` and then `BAU name` are
/// executed, the output gains one line, `true` for `FLUFFY` and `false` for
/// `FUZZY`.
pub proof fn lemma_truth_literal_prints(state: State, literal: bool)
    requires
        about_to(state, kw_declare(), 7),
        state.control.site().token(1) == ty_bool(),
        is_name(state.control.site().token(2)),
        state.control.site().token(3) == sign_assign(),
        truth_literal(state.control.site().token(4)) == Some(literal),
        state.control.site().token(5) == kw_print(),
        state.control.site().token(6) == state.control.site().token(2),
    ensures
        state.step() matches Progress::Next(bound) && bound.step() matches Progress::Next(printed)
            && printed.output == state.output + record(truth_text(literal))
            && printed.env == state.env.insert(state.control.site().token(2), Datum::Bool(literal))
            && printed.control.pc == state.control.pc + 7,
{
    lemma_keywords_differ();
    let site = state.control.site();
    let name = site.token(2);
    let bound = State {
        control: state.control.at(state.control.pc + 5),
        env: state.env.insert(name, Datum::Bool(literal)),
        ..state
    };
    assert(state.step() == Progress::Next(bound));
    let then = bound.control.site();
    assert(then.token(0) == kw_print());
    assert(then.token(1) == name);
    assert(name[0] != '"');
    assert(bound.output + Seq::<char>::empty() =~= bound.output);
}

/// A number goes through the host both ways: where `WA MOE name = literal`
/// is executed on a token that is no bracketed expression, the machine asks
/// the host to read it; once the host has answered with a number, the name
/// is bound to that number; and where `BAU name` then is executed, the
/// machine asks the host to write the number out, and the output gains one
/// line, which holds what the host wrote.
pub proof fn lemma_number_is_read_and_written(state: State, bits: u64, written: Seq<char>)
    requires
        about_to(state, kw_declare(), 7),
        state.control.answers.len() == 0,
        state.control.site().token(1) == ty_number(),
        is_name(state.control.site().token(2)),
        state.control.site().token(3) == sign_assign(),
        !crate::syntax::is_bracketed(state.control.site().token(4)),
        state.control.site().token(5) == kw_print(),
        state.control.site().token(6) == state.control.site().token(2),
    ensures
        ({
            let name = state.control.site().token(2);
            let read = State {
                control: Control { answers: seq![Answer::Number(bits)], ..state.control },
                ..state
            };
            &&& state.step() == Progress::Ask(Need::Parse(state.control.site().token(4)))
            &&& read.step() matches Progress::Next(bound) && {
                let wrote = State {
                    control: Control { answers: seq![Answer::Text(written)], ..bound.control },
                    ..bound
                };
                &&& bound.env == state.env.insert(name, Datum::Num(bits))
                &&& bound.output == state.output
                &&& bound.step() == Progress::Ask(Need::Render(bits))
                &&& wrote.step() matches Progress::Next(printed) && printed.output == state.output
                    + record(written) && printed.env == bound.env
            }
        }),
{
    lemma_keywords_differ();
    let site = state.control.site();
    let name = site.token(2);
    let read = State {
        control: Control { answers: seq![Answer::Number(bits)], ..state.control },
        ..state
    };
    assert(read.control.site() == site);
    let bound = State {
        control: state.control.at(state.control.pc + 5),
        env: state.env.insert(name, Datum::Num(bits)),
        ..state
    };
    assert(read.control.at(state.control.pc + 5) == state.control.at(state.control.pc + 5));
    assert(read.step() == Progress::Next(bound));
    let then = bound.control.site();
    assert(then.token(0) == kw_print());
    assert(then.token(1) == name);
    assert(name[0] != '"');
    let wrote = State {
        control: Control { answers: seq![Answer::Text(written)], ..bound.control },
        ..bound
    };
    assert(wrote.control.site() == then);
}

/// A range whose first bound lies above its last runs no pass: where
/// `PONDE name first..last { body }` is executed and the host has cut the
/// bounds to `from` and `to` with `from > to`, the machine goes on behind the
/// closing brace, and neither the output nor any variable changes.
pub proof fn lemma_reversed_range_runs_no_pass(state: State, low: u64, high: u64, from: int, to: int)
    requires
        about_to(state, kw_loop(), 4),
        state.control.frame is None,
        is_name(state.control.site().token(1)),
        range_bounds(state.control.site().token(2)) is Some,
        state.control.site().token(3) == brace_open(),
        state.control.site().loop_end() < state.control.limit(),
        state.control.answers == seq![
            Answer::Number(low),
            Answer::Number(high),
            Answer::Integer(from),
            Answer::Integer(to),
        ],
        from > to,
    ensures
        state.step() matches Progress::Next(then) && then.output == state.output && then.env
            == state.env && then.control.pc == state.control.site().loop_end() + 1
            && then.control.frame is None,
{
    lemma_keywords_differ();
    assert(state.output + Seq::<char>::empty() =~= state.output);
}

/// A range whose first bound does not lie above its last begins a loop:
/// the machine goes into the body, with the first pass ahead and the
/// variable not yet bound, and asks the host for the number of that pass.
pub proof fn lemma_range_begins_at_first(state: State, low: u64, high: u64, from: int, to: int)
    requires
        about_to(state, kw_loop(), 4),
        state.control.frame is None,
        is_name(state.control.site().token(1)),
        range_bounds(state.control.site().token(2)) is Some,
        state.control.site().token(3) == brace_open(),
        state.control.site().loop_end() < state.control.limit(),
        state.control.answers == seq![
            Answer::Number(low),
            Answer::Number(high),
            Answer::Integer(from),
            Answer::Integer(to),
        ],
        from <= to,
    ensures
        state.step() matches Progress::Next(then) && then.output == state.output && then.env
            == state.env && then.control.pc == state.control.pc + 4 && then.control.frame
            == Some(
            Loop {
                variable: Some(state.control.site().token(1)),
                current: from,
                last: to,
                body: state.control.pc + 4,
                end: state.control.site().loop_end(),
                bound: false,
            },
        ) && then.step() == Progress::Ask(Need::Widen(from)),
{
    lemma_keywords_differ();
}

/// The passes of a loop are numbered one by one: at the end of a pass
/// that is not the last, the machine goes back to the beginning of the body
/// for the pass with the next number, and neither the output nor any
/// variable changes; in a loop over a range it then asks the host for the
/// number of that pass.
pub proof fn lemma_passes_count_up(state: State)
    requires
        state.control.wf(),
        state.control.frame matches Some(frame) && frame.bound && state.control.pc >= frame.end
            && frame.current < frame.last,
    ensures
        state.step() matches Progress::Next(then) && {
            &&& then.output == state.output
            &&& then.env == state.env
            &&& then.control.pc == state.control.frame->0.body
            &&& then.control.frame is Some
            &&& then.control.frame->0.current == state.control.frame->0.current + 1
            &&& then.control.frame->0.last == state.control.frame->0.last
            &&& then.control.frame->0.variable is Some ==> then.step() == Progress::Ask(
                Need::Widen(state.control.frame->0.current + 1),
            )
        },
{
}

/// After its last pass a loop is over: the machine goes on behind the
/// token that closes the body, and neither the output nor any variable
/// changes.
pub proof fn lemma_last_pass_leaves(state: State)
    requires
        state.control.wf(),
        state.control.frame matches Some(frame) && frame.bound && state.control.pc >= frame.end
            && frame.current == frame.last,
    ensures
        state.step() matches Progress::Next(then) && then.output == state.output && then.env
            == state.env && then.control.pc == state.control.frame->0.end + 1
            && then.control.frame is None,
{
    assert(state.output + Seq::<char>::empty() =~= state.output);
}

/// At the beginning of a pass of a loop over a range, the variable is bound
/// to the number that the host gives for the pass, and the body begins.
pub proof fn lemma_pass_binds_variable(state: State, bits: u64)
    requires
        state.control.wf(),
        state.control.frame matches Some(frame) && !frame.bound && frame.variable is Some,
        state.control.answers == seq![Answer::Number(bits)],
    ensures
        state.step() matches Progress::Next(then) && {
            &&& then.output == state.output
            &&& then.env == state.env.insert(state.control.frame->0.variable->0, Datum::Num(bits))
            &&& then.control.pc == state.control.pc
            &&& then.control.frame is Some
            &&& then.control.frame->0.bound
            &&& then.control.frame->0.current == state.control.frame->0.current
        },
{
}

} // verus!

//! The script evaluator.
//!
//! A script reads and writes variables in three scopes and calls methods of
//! plugins. A call to a plugin is work for the engine that runs the plugins, so
//! the evaluator never makes one: it is a function of the script, the scopes
//! and the replies that the plugins gave so far. Where it meets a call beyond
//! those replies it stops and names the call; the caller makes the call, adds
//! the reply, and evaluates again.

use crate::ast::{BinaryOp, Command, Expr, Line, LogicBinaryOp, Program, Ref, Text};
use crate::map::{lemma_values_of_insert, values_of, VarMap};
use crate::ops::{bin_logic, bin_val, logic_op, unary, unary_op, val_op, EvalError};
use crate::registry::Runtime;
use crate::value::{RawValue, Value};
use crate::wire::views;
use vstd::prelude::*;
use vstd::string::StringExecFns;

verus! {

/// What is worth a line in the log of an evaluation.
#[derive(Debug, Clone, Copy, PartialEq, Eq, Structural)]
pub enum Notice {
    /// A variable of the evaluation that is read but was never written.
    MissingVariable,
    /// A variable of the session that is read but was never written.
    MissingContextVariable,
    /// A resource that no layer holds.
    MissingResource,
    /// A call to a plugin that is not loaded.
    MissingNamespace,
    /// A call that the plugin could not answer.
    CallFailed,
    /// A statement that could not be evaluated.
    Failed(EvalError),
}

/// A line for the log: what happened, and the name it happened to. For a call
/// the namespace is given too.
#[derive(Debug)]
pub struct Diagnostic {
    pub notice: Notice,
    pub namespace: String,
    pub name: String,
}

/// What a diagnostic says.
pub struct DiagnosticView {
    pub notice: Notice,
    pub namespace: Seq<char>,
    pub name: Seq<char>,
}

impl View for Diagnostic {
    type V = DiagnosticView;

    open spec fn view(&self) -> DiagnosticView {
        DiagnosticView { notice: self.notice, namespace: self.namespace@, name: self.name@ }
    }
}

/// What each of a sequence of diagnostics says.
pub open spec fn diagnostic_views(log: Seq<Diagnostic>) -> Seq<DiagnosticView> {
    log.map_values(|d: Diagnostic| d@)
}

/// A diagnostic about a name in a namespace.
pub open spec fn line(notice: Notice, namespace: Seq<char>, name: Seq<char>) -> DiagnosticView {
    DiagnosticView { notice, namespace, name }
}

/// A diagnostic about a name.
pub open spec fn about(notice: Notice, name: Seq<char>) -> DiagnosticView {
    line(notice, Seq::empty(), name)
}

/// The answer of a plugin to a call.
#[derive(Debug)]
pub enum Reply {
    Returned(RawValue),
    Failed,
}

/// What a reply says.
pub enum ReplyView {
    Returned(Value),
    Failed,
}

impl View for Reply {
    type V = ReplyView;

    open spec fn view(&self) -> ReplyView {
        match self {
            Reply::Returned(value) => ReplyView::Returned(value@),
            Reply::Failed => ReplyView::Failed,
        }
    }
}

/// What each of a sequence of replies says.
pub open spec fn reply_views(replies: Seq<Reply>) -> Seq<ReplyView> {
    replies.map_values(|r: Reply| r@)
}

/// A call to a method of a plugin.
#[derive(Debug)]
pub struct CallRequest {
    /// The name of the plugin.
    pub namespace: String,
    /// The name of the method.
    pub name: String,
    pub args: Vec<RawValue>,
}

/// What a call asks.
pub struct CallView {
    pub namespace: Seq<char>,
    pub name: Seq<char>,
    pub args: Seq<Value>,
}

impl View for CallRequest {
    type V = CallView;

    open spec fn view(&self) -> CallView {
        CallView { namespace: self.namespace@, name: self.name@, args: views(self.args@) }
    }
}

/// What an evaluation reads and never changes.
pub struct Env {
    /// The layers of the resources. The first layer that holds a name decides.
    pub res: Seq<Map<Seq<char>, Value>>,
    /// The names of the loaded plugins.
    pub namespaces: Set<Seq<char>>,
    /// The replies of the plugins to the calls of this evaluation, in the order
    /// of the calls, as far as they are known.
    pub replies: Seq<ReplyView>,
}

/// What an evaluation changes as it goes.
pub struct State {
    /// The variables of the evaluation.
    pub vars: Map<Seq<char>, Value>,
    /// The variables of the session.
    pub locals: Map<Seq<char>, Value>,
    /// The log.
    pub log: Seq<DiagnosticView>,
    /// The number of replies that were used.
    pub used: nat,
    /// The calls that the used replies answered, in order.
    pub asked: Seq<CallView>,
    /// The names of the variables of the session that were assigned to.
    pub written: Set<Seq<char>>,
}

/// How the evaluation of an expression ends.
pub enum Flow {
    /// With a value.
    Value(Value),
    /// With a failure.
    Fail(EvalError),
    /// At a call whose reply is not known.
    Call(CallView),
}

/// How the evaluation of a list of expressions ends.
pub enum ListFlow {
    Values(Seq<Value>),
    Fail(EvalError),
    Call(CallView),
}

/// The end of an evaluation: the state it left, and what it ended with.
pub struct Eval {
    pub state: State,
    pub flow: Flow,
}

/// The end of an evaluation.
pub open spec fn ended(state: State, flow: Flow) -> Eval {
    Eval { state, flow }
}

impl State {
    /// The state with one more line in the log.
    pub open spec fn noting(self, line: DiagnosticView) -> State {
        State { log: self.log.push(line), ..self }
    }

    /// The end of an evaluation that gives `value` in this state.
    pub open spec fn giving(self, value: Value) -> Eval {
        Eval { state: self, flow: Flow::Value(value) }
    }

    /// The end of an evaluation that fails in this state.
    pub open spec fn failing(self, error: EvalError) -> Eval {
        Eval { state: self, flow: Flow::Fail(error) }
    }
}

/// The value of a resource: that of the first layer that holds the name.
pub open spec fn resource(res: Seq<Map<Seq<char>, Value>>, name: Seq<char>) -> Option<Value>
    decreases res.len(),
{
    if res.len() == 0 {
        None
    } else if res[0].dom().contains(name) {
        Some(res[0][name])
    } else {
        resource(res.skip(1), name)
    }
}

/// What a name holds in a scope, or `Unit` and a line in the log where it holds
/// nothing.
pub open spec fn read(found: Option<Value>, missing: Notice, name: Seq<char>, state: State) -> Eval {
    match found {
        Some(value) => state.giving(value),
        None => state.noting(about(missing, name)).giving(Value::Unit),
    }
}

/// What a map holds under a name.
pub open spec fn held(map: Map<Seq<char>, Value>, name: Seq<char>) -> Option<Value> {
    if map.dom().contains(name) {
        Some(map[name])
    } else {
        None
    }
}

/// The value of a reference.
pub open spec fn eval_ref(r: Ref, env: Env, state: State) -> Eval {
    match r {
        Ref::Var(name) => read(held(state.vars, name@), Notice::MissingVariable, name@, state),
        Ref::Ctx(name) => read(
            held(state.locals, name@),
            Notice::MissingContextVariable,
            name@,
            state,
        ),
        Ref::Res(name) => read(resource(env.res, name@), Notice::MissingResource, name@, state),
    }
}

/// An assignment: the value goes into the scope that the target names, and the
/// assignment itself is worth `Unit`. A resource cannot be assigned to, nor
/// anything that is no reference.
pub open spec fn assign(target: Expr, value: Value, state: State) -> Eval {
    match target {
        Expr::Ref(Ref::Var(name)) => State {
            vars: state.vars.insert(name@, value),
            ..state
        }.giving(Value::Unit),
        Expr::Ref(Ref::Ctx(name)) => State {
            locals: state.locals.insert(name@, value),
            written: state.written.insert(name@),
            ..state
        }.giving(Value::Unit),
        Expr::Ref(Ref::Res(_)) => state.failing(EvalError::AssignToResource),
        _ => state.failing(EvalError::AssignTarget),
    }
}

/// The end of a call to a plugin, its arguments being evaluated. A plugin that
/// is not loaded and a call that fails are worth `Unit` and a line in the log.
/// A call whose reply is not known ends the evaluation there.
pub open spec fn dispatch(
    namespace: Seq<char>,
    name: Seq<char>,
    args: Seq<Value>,
    env: Env,
    state: State,
) -> Eval {
    if !env.namespaces.contains(namespace) {
        state.noting(line(Notice::MissingNamespace, namespace, name)).giving(Value::Unit)
    } else if state.used >= env.replies.len() {
        Eval { state, flow: Flow::Call(CallView { namespace, name, args }) }
    } else {
        let after = State {
            used: state.used + 1,
            asked: state.asked.push(CallView { namespace, name, args }),
            ..state
        };
        match env.replies[state.used as int] {
            ReplyView::Returned(value) => after.giving(value),
            ReplyView::Failed => after.noting(line(Notice::CallFailed, namespace, name)).giving(
                Value::Unit,
            ),
        }
    }
}

/// The name of the one built-in function.
pub open spec fn if_name() -> Seq<char> {
    seq!['i', 'f']
}

/// The value of an expression.
///
/// The operands of an operator are evaluated from left to right, before the
/// operator is applied; `&&` and `||` leave the right operand alone where the
/// left one decides. An assignment evaluates its right side only. The built-in
/// `if` evaluates its first argument, and then the second or the third and
/// never both; an argument that is not there is worth `Unit`. A call to a
/// plugin evaluates all arguments first. A failure and a pending call end the
/// evaluation of the expression at once.
pub open spec fn eval_expr(e: Expr, env: Env, state: State) -> Eval
    decreases e, 1nat,
{
    match e {
        Expr::Ref(r) => eval_ref(r, env, state),
        Expr::Const(value) => state.giving(value@),
        Expr::Unary(op, operand) => {
            let inner = eval_expr(*operand, env, state);
            match inner.flow {
                Flow::Value(value) => inner.state.giving(unary_op(op, value)),
                _ => inner,
            }
        },
        Expr::Binary(lhs, BinaryOp::Val(op), rhs) => eval_operands(e, env, state).bind(
            |l: Value, r: Value, after: State|
                match val_op(l, op, r) {
                    Ok(value) => after.giving(value),
                    Err(error) => after.failing(error),
                },
        ),
        Expr::Binary(lhs, BinaryOp::Inplace(op), rhs) => eval_operands(e, env, state).bind(
            |l: Value, r: Value, after: State|
                match val_op(l, op, r) {
                    Ok(value) => assign(*lhs, value, after),
                    Err(error) => after.failing(error),
                },
        ),
        Expr::Binary(lhs, BinaryOp::Assign, rhs) => {
            let right = eval_expr(*rhs, env, state);
            match right.flow {
                Flow::Value(value) => assign(*lhs, value, right.state),
                _ => right,
            }
        },
        Expr::Binary(lhs, BinaryOp::Logic(op), rhs) => {
            let left = eval_expr(*lhs, env, state);
            match left.flow {
                Flow::Value(l) => if op is And && !l.as_bool() {
                    left.state.giving(Value::Bool(false))
                } else if op is Or && l.as_bool() {
                    left.state.giving(Value::Bool(true))
                } else {
                    let right = eval_expr(*rhs, env, left.state);
                    match right.flow {
                        Flow::Value(r) => right.state.giving(Value::Bool(logic_op(l, op, r))),
                        _ => right,
                    }
                },
                _ => left,
            }
        },
        Expr::Call(namespace, name, args) => if namespace@.len() == 0 {
            if name@ == if_name() {
                let condition = eval_at(args@, 0, env, state);
                match condition.flow {
                    Flow::Value(c) => eval_at(
                        args@,
                        if c.as_bool() {
                            1
                        } else {
                            2
                        },
                        env,
                        condition.state,
                    ),
                    _ => condition,
                }
            } else {
                state.failing(EvalError::UnknownIntrinsic)
            }
        } else {
            let evaluated = eval_list(args@, 0, env, state, Seq::empty());
            match evaluated.1 {
                ListFlow::Values(values) => dispatch(namespace@, name@, values, env, evaluated.0),
                ListFlow::Fail(error) => evaluated.0.failing(error),
                ListFlow::Call(call) => Eval { state: evaluated.0, flow: Flow::Call(call) },
            }
        },
    }
}

/// The two operands of a binary expression, evaluated from left to right.
pub open spec fn eval_operands(e: Expr, env: Env, state: State) -> Operands
    decreases e, 0nat,
{
    match e {
        Expr::Binary(lhs, _, rhs) => {
            let left = eval_expr(*lhs, env, state);
            match left.flow {
                Flow::Value(l) => {
                    let right = eval_expr(*rhs, env, left.state);
                    match right.flow {
                        Flow::Value(r) => Operands::Both(l, r, right.state),
                        _ => Operands::Ended(right),
                    }
                },
                _ => Operands::Ended(left),
            }
        },
        _ => Operands::Ended(state.giving(Value::Unit)),
    }
}

/// The value of the expression at `index` of a list, or `Unit` where the list
/// is shorter.
pub open spec fn eval_at(list: Seq<Expr>, index: int, env: Env, state: State) -> Eval
    decreases list, 0nat,
{
    if 0 <= index < list.len() {
        eval_expr(list[index], env, state)
    } else {
        state.giving(Value::Unit)
    }
}

/// The values of the expressions of a list from `index` on, evaluated from left
/// to right, after the values in `done`.
pub open spec fn eval_list(
    list: Seq<Expr>,
    index: int,
    env: Env,
    state: State,
    done: Seq<Value>,
) -> (State, ListFlow)
    decreases list, list.len() - index,
{
    if 0 <= index < list.len() {
        let first = eval_expr(list[index], env, state);
        match first.flow {
            Flow::Value(value) => eval_list(list, index + 1, env, first.state, done.push(value)),
            Flow::Fail(error) => (first.state, ListFlow::Fail(error)),
            Flow::Call(call) => (first.state, ListFlow::Call(call)),
        }
    } else {
        (state, ListFlow::Values(done))
    }
}

/// Two operands, or the end that came before both were there.
pub enum Operands {
    Both(Value, Value, State),
    Ended(Eval),
}

impl Operands {
    /// What follows the operands.
    pub open spec fn bind(self, then: spec_fn(Value, Value, State) -> Eval) -> Eval {
        match self {
            Operands::Both(l, r, state) => then(l, r, state),
            Operands::Ended(end) => end,
        }
    }
}

/// The end of the statements of a program from `index` on, `last` being the
/// value of the statement before. A statement that fails is worth `Unit` and a
/// line in the log, and the statements after it are evaluated all the same. A
/// pending call ends the program there.
pub open spec fn eval_statements(
    statements: Seq<Expr>,
    index: int,
    env: Env,
    state: State,
    last: Value,
) -> Eval
    decreases statements.len() - index,
{
    if 0 <= index < statements.len() {
        let one = eval_expr(statements[index], env, state);
        match one.flow {
            Flow::Value(value) => eval_statements(statements, index + 1, env, one.state, value),
            Flow::Fail(error) => eval_statements(
                statements,
                index + 1,
                env,
                one.state.noting(about(Notice::Failed(error), Seq::empty())),
                Value::Unit,
            ),
            Flow::Call(_) => one,
        }
    } else {
        state.giving(last)
    }
}

/// The end of a program: the variables of the evaluation are emptied, the
/// statements are evaluated in order, and the value is that of the last one,
/// or `Unit` for a program without statements.
pub open spec fn eval_program(program: Program, env: Env, state: State) -> Eval {
    eval_statements(program.0@, 0, env, State { vars: Map::empty(), ..state }, Value::Unit)
}

/// Whether a character is white space, as Unicode defines it.
pub open spec fn is_white_space(c: char) -> bool {
    let code = c as u32;
    ||| 0x09 <= code <= 0x0d
    ||| code == 0x20
    ||| code == 0x85
    ||| code == 0xa0
    ||| code == 0x1680
    ||| 0x2000 <= code <= 0x200a
    ||| code == 0x2028
    ||| code == 0x2029
    ||| code == 0x202f
    ||| code == 0x205f
    ||| code == 0x3000
}

/// A text without the white space at its start.
pub open spec fn trim_start(text: Seq<char>) -> Seq<char>
    decreases text.len(),
{
    if text.len() > 0 && is_white_space(text[0]) {
        trim_start(text.skip(1))
    } else {
        text
    }
}

/// A text without the white space at its end.
pub open spec fn trim_end(text: Seq<char>) -> Seq<char>
    decreases text.len(),
{
    if text.len() > 0 && is_white_space(text.last()) {
        trim_end(text.drop_last())
    } else {
        text
    }
}

/// A text without the white space at its start and at its end.
pub open spec fn trim(text: Seq<char>) -> Seq<char> {
    trim_end(trim_start(text))
}

/// A text without the white space at its start and at its end, by `str::trim`
/// of std. Trusted: that std trims the characters with the Unicode property
/// `White_Space`, as its documentation says, and that those are the ones that
/// `is_white_space` lists.
#[verifier::external_body]
fn trimmed(text: &str) -> (r: String)
    ensures
        r@ == trim(text@),
{
    text.trim().to_owned()
}

/// The end of the pieces of a text from `index` on, `text` being what the
/// pieces before have given. A piece of characters gives itself, a program
/// gives its value as text, and another command gives nothing.
pub open spec fn eval_lines(lines: Seq<Line>, index: int, env: Env, state: State, text: Seq<char>) -> Eval
    decreases lines.len() - index,
{
    if 0 <= index < lines.len() {
        match lines[index] {
            Line::Str(piece) => eval_lines(lines, index + 1, env, state, text + piece@),
            Line::Cmd(Command::Exec(program)) => {
                let one = eval_program(program, env, state);
                match one.flow {
                    Flow::Value(value) => eval_lines(
                        lines,
                        index + 1,
                        env,
                        one.state,
                        text + value.as_str(),
                    ),
                    _ => one,
                }
            },
            Line::Cmd(_) => eval_lines(lines, index + 1, env, state, text),
        }
    } else {
        state.giving(Value::Str(trim(text)))
    }
}

/// The end of a text: its pieces put together, without the white space at the
/// start and at the end.
pub open spec fn eval_text(text: Text, env: Env, state: State) -> Eval {
    eval_lines(text.0@, 0, env, state, Seq::empty())
}

/// What each variable of each layer of resources holds.
pub open spec fn layer_views(res: Seq<VarMap>) -> Seq<Map<Seq<char>, Value>> {
    res.map_values(|layer: VarMap| values_of(layer@))
}

/// What an evaluation reads: the registry, the resources, and the replies so
/// far.
#[verifier::reject_recursive_types(H)]
pub struct Scene<'a, H> {
    pub runtime: &'a Runtime<H>,
    pub res: &'a Vec<VarMap>,
    pub replies: &'a Vec<Reply>,
}

impl<'a, H> View for Scene<'a, H> {
    type V = Env;

    open spec fn view(&self) -> Env {
        Env {
            res: layer_views(self.res@),
            namespaces: self.runtime@.modules.dom(),
            replies: reply_views(self.replies@),
        }
    }
}

/// What an evaluation changes: the two scopes that scripts write to, the log,
/// and the number of replies used, with the calls that they answered.
pub struct Run {
    pub vars: VarMap,
    pub locals: VarMap,
    pub log: Vec<Diagnostic>,
    pub used: usize,
    pub asked: Ghost<Seq<CallView>>,
    pub written: Ghost<Set<Seq<char>>>,
}

impl View for Run {
    type V = State;

    open spec fn view(&self) -> State {
        State {
            vars: values_of(self.vars@),
            locals: values_of(self.locals@),
            log: diagnostic_views(self.log@),
            used: self.used as nat,
            asked: self.asked@,
            written: self.written@,
        }
    }
}

/// How the evaluation of an expression ended.
#[derive(Debug)]
pub enum Step {
    Value(RawValue),
    Fail(EvalError),
    Call(CallRequest),
}

impl View for Step {
    type V = Flow;

    open spec fn view(&self) -> Flow {
        match self {
            Step::Value(value) => Flow::Value(value@),
            Step::Fail(error) => Flow::Fail(*error),
            Step::Call(call) => Flow::Call(call@),
        }
    }
}

impl Run {
    /// The start of an evaluation with these variables: no line in the log, and
    /// no reply used.
    pub fn new(vars: VarMap, locals: VarMap) -> (r: Run)
        ensures
            r.vars == vars,
            r.locals == locals,
            r@.log == Seq::<DiagnosticView>::empty(),
            r@.used == 0,
            r@.asked == Seq::<CallView>::empty(),
            r@.written == Set::<Seq<char>>::empty(),
    {
        let r = Run {
            vars,
            locals,
            log: Vec::new(),
            used: 0,
            asked: Ghost(Seq::empty()),
            written: Ghost(Set::empty()),
        };
        assert(diagnostic_views(r.log@) =~= Seq::<DiagnosticView>::empty());
        r
    }

    /// Adds a line to the log.
    fn note(&mut self, notice: Notice, namespace: &str, name: &str)
        ensures
            final(self)@ == old(self)@.noting(line(notice, namespace@, name@)),
    {
        let ghost before = diagnostic_views(self.log@);
        let line = Diagnostic { notice, namespace: namespace.to_owned(), name: name.to_owned() };
        self.log.push(line);
        assert(diagnostic_views(self.log@) =~= before.push(line@));
    }
}

/// What was found under a name, as a value.
pub open spec fn found_view(found: Option<RawValue>) -> Option<Value> {
    match found {
        Some(value) => Some(value@),
        None => None,
    }
}

/// What a scope holds under a name.
fn look_up(scope: &VarMap, name: &str) -> (r: Option<RawValue>)
    ensures
        found_view(r) == held(values_of(scope@), name@),
{
    match scope.get(name) {
        Some(value) => Some(value.clone()),
        None => None,
    }
}

/// The value that was found under a name, or `Unit` and a line in the log.
fn read_found(found: Option<RawValue>, missing: Notice, name: &str, run: &mut Run) -> (r: Step)
    ensures
        ended(final(run)@, r@) == read(found_view(found), missing, name@, old(run)@),
{
    match found {
        Some(value) => Step::Value(value),
        None => {
            proof {
                reveal_strlit("");
            }
            run.note(missing, "", name);
            assert(""@ =~= Seq::<char>::empty());
            Step::Value(RawValue::Unit)
        },
    }
}

/// The value of a resource.
fn find_resource(res: &Vec<VarMap>, name: &str) -> (r: Option<RawValue>)
    ensures
        found_view(r) == resource(layer_views(res@), name@),
{
    let mut i: usize = 0;
    proof {
        assert(layer_views(res@).skip(0) =~= layer_views(res@));
    }
    while i < res.len()
        invariant
            i <= res@.len(),
            resource(layer_views(res@), name@) == resource(
                layer_views(res@).skip(i as int),
                name@,
            ),
        decreases res@.len() - i,
    {
        proof {
            let rest = layer_views(res@).skip(i as int);
            assert(rest[0] == values_of(res@[i as int]@));
            assert(rest.skip(1) =~= layer_views(res@).skip(i + 1));
        }
        match look_up(&res[i], name) {
            Some(value) => {
                return Some(value);
            },
            None => {},
        }
        i += 1;
    }
    None
}

/// The value of a reference.
fn eval_reference<H>(r: &Ref, scene: &Scene<H>, run: &mut Run) -> (step: Step)
    ensures
        ended(final(run)@, step@) == eval_ref(*r, scene@, old(run)@),
{
    match r {
        Ref::Var(name) => {
            let found = look_up(&run.vars, name.as_str());
            read_found(found, Notice::MissingVariable, name.as_str(), run)
        },
        Ref::Ctx(name) => {
            let found = look_up(&run.locals, name.as_str());
            read_found(found, Notice::MissingContextVariable, name.as_str(), run)
        },
        Ref::Res(name) => {
            let found = find_resource(scene.res, name.as_str());
            read_found(found, Notice::MissingResource, name.as_str(), run)
        },
    }
}

/// Puts a value where the target of an assignment names.
fn assign_value(target: &Expr, value: RawValue, run: &mut Run) -> (step: Step)
    ensures
        ended(final(run)@, step@) == assign(*target, value@, old(run)@),
{
    match target {
        Expr::Ref(Ref::Var(name)) => {
            proof {
                lemma_values_of_insert(run.vars@, name@, value);
            }
            run.vars.insert(name.clone(), value);
            Step::Value(RawValue::Unit)
        },
        Expr::Ref(Ref::Ctx(name)) => {
            proof {
                lemma_values_of_insert(run.locals@, name@, value);
                run.written@ = run.written@.insert(name@);
            }
            run.locals.insert(name.clone(), value);
            Step::Value(RawValue::Unit)
        },
        Expr::Ref(Ref::Res(_)) => Step::Fail(EvalError::AssignToResource),
        _ => Step::Fail(EvalError::AssignTarget),
    }
}

/// Ends a call to a plugin, its arguments being evaluated.
fn dispatch_call<H>(
    namespace: &str,
    name: &str,
    args: Vec<RawValue>,
    scene: &Scene<H>,
    run: &mut Run,
) -> (step: Step)
    ensures
        ended(final(run)@, step@) == dispatch(
            namespace@,
            name@,
            views(args@),
            scene@,
            old(run)@,
        ),
{
    if !scene.runtime.modules.contains_key(namespace) {
        run.note(Notice::MissingNamespace, namespace, name);
        Step::Value(RawValue::Unit)
    } else if run.used >= scene.replies.len() {
        Step::Call(CallRequest { namespace: namespace.to_owned(), name: name.to_owned(), args })
    } else {
        let reply = &scene.replies[run.used];
        run.used = run.used + 1;
        proof {
            run.asked@ = run.asked@.push(
                CallView { namespace: namespace@, name: name@, args: views(args@) },
            );
        }
        match reply {
            Reply::Returned(value) => Step::Value(value.clone()),
            Reply::Failed => {
                run.note(Notice::CallFailed, namespace, name);
                Step::Value(RawValue::Unit)
            },
        }
    }
}

/// Two operands, or how the evaluation ended before both were there.
enum Pair {
    Both(RawValue, RawValue),
    Ended(Step),
}

impl Pair {
    spec fn view_in(self, state: State) -> Operands {
        match self {
            Pair::Both(l, r) => Operands::Both(l@, r@, state),
            Pair::Ended(step) => Operands::Ended(ended(state, step@)),
        }
    }
}

/// How the evaluation of a list of expressions ended.
enum ListStep {
    Values(Vec<RawValue>),
    Fail(EvalError),
    Call(CallRequest),
}

impl ListStep {
    spec fn view(self) -> ListFlow {
        match self {
            ListStep::Values(values) => ListFlow::Values(views(values@)),
            ListStep::Fail(error) => ListFlow::Fail(error),
            ListStep::Call(call) => ListFlow::Call(call@),
        }
    }
}

/// Whether a name is that of the built-in `if`.
fn is_if(name: &str) -> (r: bool)
    ensures
        r == (name@ == if_name()),
{
    let len = name.unicode_len();
    if len != 2 {
        return false;
    }
    let r = name.get_char(0) == 'i' && name.get_char(1) == 'f';
    proof {
        if r {
            assert(name@ =~= if_name());
        }
    }
    r
}

/// Evaluates an expression.
pub fn eval<H>(e: &Expr, scene: &Scene<H>, run: &mut Run) -> (step: Step)
    ensures
        ended(final(run)@, step@) == eval_expr(*e, scene@, old(run)@),
    decreases e, 1nat,
{
    match e {
        Expr::Ref(r) => eval_reference(r, scene, run),
        Expr::Const(value) => Step::Value(value.clone()),
        Expr::Unary(op, operand) => match eval(operand, scene, run) {
            Step::Value(value) => Step::Value(unary(op, &value)),
            other => other,
        },
        Expr::Binary(lhs, BinaryOp::Val(op), rhs) => match eval_pair(e, scene, run) {
            Pair::Both(l, r) => match bin_val(&l, op, &r) {
                Ok(value) => Step::Value(value),
                Err(error) => Step::Fail(error),
            },
            Pair::Ended(step) => step,
        },
        Expr::Binary(lhs, BinaryOp::Inplace(op), rhs) => match eval_pair(e, scene, run) {
            Pair::Both(l, r) => match bin_val(&l, op, &r) {
                Ok(value) => assign_value(lhs, value, run),
                Err(error) => Step::Fail(error),
            },
            Pair::Ended(step) => step,
        },
        Expr::Binary(lhs, BinaryOp::Assign, rhs) => match eval(rhs, scene, run) {
            Step::Value(value) => assign_value(lhs, value, run),
            other => other,
        },
        Expr::Binary(lhs, BinaryOp::Logic(op), rhs) => match eval(lhs, scene, run) {
            Step::Value(l) => {
                let decided = match op {
                    LogicBinaryOp::And => !l.get_bool(),
                    LogicBinaryOp::Or => l.get_bool(),
                    _ => false,
                };
                if decided {
                    Step::Value(RawValue::Bool(l.get_bool()))
                } else {
                    match eval(rhs, scene, run) {
                        Step::Value(r) => Step::Value(RawValue::Bool(bin_logic(&l, op, &r))),
                        other => other,
                    }
                }
            },
            other => other,
        },
        Expr::Call(namespace, name, args) => {
            if namespace.as_str().is_empty() {
                if is_if(name.as_str()) {
                    match eval_index(args, 0, scene, run) {
                        Step::Value(condition) => {
                            let branch: usize = if condition.get_bool() {
                                1
                            } else {
                                2
                            };
                            eval_index(args, branch, scene, run)
                        },
                        other => other,
                    }
                } else {
                    Step::Fail(EvalError::UnknownIntrinsic)
                }
            } else {
                let done: Vec<RawValue> = Vec::new();
                assert(views(done@) =~= Seq::<Value>::empty());
                match eval_all(args, 0, scene, run, done) {
                    ListStep::Values(values) => dispatch_call(
                        namespace.as_str(),
                        name.as_str(),
                        values,
                        scene,
                        run,
                    ),
                    ListStep::Fail(error) => Step::Fail(error),
                    ListStep::Call(call) => Step::Call(call),
                }
            }
        },
    }
}

/// Evaluates the two operands of a binary expression.
fn eval_pair<H>(e: &Expr, scene: &Scene<H>, run: &mut Run) -> (pair: Pair)
    ensures
        pair.view_in(final(run)@) == eval_operands(*e, scene@, old(run)@),
    decreases e, 0nat,
{
    match e {
        Expr::Binary(lhs, _, rhs) => match eval(lhs, scene, run) {
            Step::Value(l) => match eval(rhs, scene, run) {
                Step::Value(r) => Pair::Both(l, r),
                other => Pair::Ended(other),
            },
            other => Pair::Ended(other),
        },
        _ => Pair::Ended(Step::Value(RawValue::Unit)),
    }
}

/// Evaluates the expression at `index` of a list, if there is one.
fn eval_index<H>(list: &Vec<Expr>, index: usize, scene: &Scene<H>, run: &mut Run) -> (step: Step)
    ensures
        ended(final(run)@, step@) == eval_at(list@, index as int, scene@, old(run)@),
    decreases list@, 0nat,
{
    if index < list.len() {
        eval(&list[index], scene, run)
    } else {
        Step::Value(RawValue::Unit)
    }
}

/// Evaluates the expressions of a list from `index` on.
fn eval_all<H>(
    list: &Vec<Expr>,
    index: usize,
    scene: &Scene<H>,
    run: &mut Run,
    done: Vec<RawValue>,
) -> (r: ListStep)
    ensures
        (final(run)@, r@) == eval_list(list@, index as int, scene@, old(run)@, views(done@)),
    decreases list@, list@.len() - index,
{
    if index < list.len() {
        match eval(&list[index], scene, run) {
            Step::Value(value) => {
                let mut done = done;
                let ghost before = views(done@);
                done.push(value);
                assert(views(done@) =~= before.push(value@));
                eval_all(list, index + 1, scene, run, done)
            },
            Step::Fail(error) => ListStep::Fail(error),
            Step::Call(call) => ListStep::Call(call),
        }
    } else {
        ListStep::Values(done)
    }
}

/// Evaluates a program.
pub fn eval_program_in<H>(program: &Program, scene: &Scene<H>, run: &mut Run) -> (step: Step)
    ensures
        ended(final(run)@, step@) == eval_program(*program, scene@, old(run)@),
        !(step@ is Fail),
{
    run.vars.clear();
    proof {
        assert(values_of(run.vars@) =~= Map::<Seq<char>, Value>::empty());
    }
    let mut last = RawValue::Unit;
    let mut i: usize = 0;
    while i < program.0.len()
        invariant
            i <= program.0@.len(),
            eval_program(*program, scene@, old(run)@) == eval_statements(
                program.0@,
                i as int,
                scene@,
                run@,
                last@,
            ),
        decreases program.0@.len() - i,
    {
        match eval(&program.0[i], scene, run) {
            Step::Value(value) => {
                last = value;
            },
            Step::Fail(error) => {
                proof {
                    reveal_strlit("");
                    assert(""@ =~= Seq::<char>::empty());
                }
                run.note(Notice::Failed(error), "", "");
                last = RawValue::Unit;
            },
            Step::Call(call) => {
                return Step::Call(call);
            },
        }
        i += 1;
    }
    Step::Value(last)
}

/// Evaluates a text.
pub fn eval_text_in<H>(text: &Text, scene: &Scene<H>, run: &mut Run) -> (step: Step)
    ensures
        ended(final(run)@, step@) == eval_text(*text, scene@, old(run)@),
        !(step@ is Fail),
{
    let mut joined = String::new();
    let mut i: usize = 0;
    while i < text.0.len()
        invariant
            i <= text.0@.len(),
            eval_text(*text, scene@, old(run)@) == eval_lines(
                text.0@,
                i as int,
                scene@,
                run@,
                joined@,
            ),
        decreases text.0@.len() - i,
    {
        match &text.0[i] {
            Line::Str(piece) => {
                joined.append(piece.as_str());
            },
            Line::Cmd(Command::Exec(program)) => match eval_program_in(program, scene, run) {
                Step::Value(value) => {
                    joined.append(value.get_str().as_str());
                },
                other => {
                    return other;
                },
            },
            Line::Cmd(_) => {},
        }
        i += 1;
    }
    Step::Value(RawValue::Str(trimmed(joined.as_str())))
}

/// Something of a script that can be evaluated.
pub trait Callable {
    /// How the evaluation ends.
    spec fn meaning(&self, env: Env, state: State) -> Eval;

    /// Evaluates it.
    fn call<H>(&self, scene: &Scene<H>, run: &mut Run) -> (step: Step)
        ensures
            ended(final(run)@, step@) == self.meaning(scene@, old(run)@),
    ;
}

impl Callable for Expr {
    open spec fn meaning(&self, env: Env, state: State) -> Eval {
        eval_expr(*self, env, state)
    }

    fn call<H>(&self, scene: &Scene<H>, run: &mut Run) -> (step: Step) {
        eval(self, scene, run)
    }
}

impl Callable for Ref {
    open spec fn meaning(&self, env: Env, state: State) -> Eval {
        eval_ref(*self, env, state)
    }

    fn call<H>(&self, scene: &Scene<H>, run: &mut Run) -> (step: Step) {
        eval_reference(self, scene, run)
    }
}

impl Callable for Program {
    open spec fn meaning(&self, env: Env, state: State) -> Eval {
        eval_program(*self, env, state)
    }

    fn call<H>(&self, scene: &Scene<H>, run: &mut Run) -> (step: Step) {
        eval_program_in(self, scene, run)
    }
}

impl Callable for Text {
    open spec fn meaning(&self, env: Env, state: State) -> Eval {
        eval_text(*self, env, state)
    }

    fn call<H>(&self, scene: &Scene<H>, run: &mut Run) -> (step: Step) {
        eval_text_in(self, scene, run)
    }
}

impl<T: Callable> Callable for Option<T> {
    open spec fn meaning(&self, env: Env, state: State) -> Eval {
        match self {
            Some(inner) => inner.meaning(env, state),
            None => state.giving(Value::Unit),
        }
    }

    fn call<H>(&self, scene: &Scene<H>, run: &mut Run) -> (step: Step) {
        match self {
            Some(inner) => inner.call(scene, run),
            None => Step::Value(RawValue::Unit),
        }
    }
}

/// How an evaluation ended.
#[derive(Debug)]
pub enum Outcome {
    /// With a value, and these lines for the log.
    Done(RawValue, Vec<Diagnostic>),
    /// With a failure, and these lines for the log.
    Failed(EvalError, Vec<Diagnostic>),
    /// At a call whose reply is not known. Nothing has changed: the caller
    /// makes the call, adds the reply to the replies, and evaluates again.
    Suspended(CallRequest),
}

impl Outcome {
    /// What the evaluation ended with.
    pub open spec fn flow(self) -> Flow {
        match self {
            Outcome::Done(value, _) => Flow::Value(value@),
            Outcome::Failed(error, _) => Flow::Fail(error),
            Outcome::Suspended(call) => Flow::Call(call@),
        }
    }

    /// The lines for the log.
    pub open spec fn log(self) -> Seq<DiagnosticView> {
        match self {
            Outcome::Done(_, log) => diagnostic_views(log@),
            Outcome::Failed(_, log) => diagnostic_views(log@),
            Outcome::Suspended(_) => Seq::empty(),
        }
    }
}

/// The variables of a script, in their three scopes, and the registry of the
/// plugins that the script can call.
#[verifier::reject_recursive_types(H)]
pub struct VarTable<'a, H> {
    /// The registry of the plugins.
    pub runtime: &'a Runtime<H>,
    /// The resources, layer by layer. The first layer that holds a name
    /// decides.
    pub res: &'a Vec<VarMap>,
    /// The variables of the session.
    pub locals: &'a mut VarMap,
    /// The variables of the evaluation.
    pub vars: VarMap,
}

impl<'a, H> VarTable<'a, H> {
    /// A table without variables of the evaluation.
    pub fn new(runtime: &'a Runtime<H>, res: &'a Vec<VarMap>, locals: &'a mut VarMap) -> (r: Self)
        ensures
            r.runtime == runtime,
            r.res == res,
            *r.locals == *old(locals),
            *final(r.locals) == *final(locals),
            r.vars@ == Map::<Seq<char>, RawValue>::empty(),
    {
        VarTable { runtime, res, locals, vars: VarMap::new() }
    }

    /// What an evaluation with these replies reads.
    pub open spec fn env(&self, replies: Seq<Reply>) -> Env {
        Env {
            res: layer_views(self.res@),
            namespaces: self.runtime@.modules.dom(),
            replies: reply_views(replies),
        }
    }

    /// The state in which an evaluation begins.
    pub open spec fn start(&self) -> State {
        State {
            vars: values_of(self.vars@),
            locals: values_of(self.locals@),
            log: Seq::empty(),
            used: 0,
            asked: Seq::empty(),
            written: Set::empty(),
        }
    }

    /// Evaluates `c`, with the replies of the plugins to the calls that it
    /// makes, as far as they are known. An evaluation that ends at a call
    /// beyond the replies changes nothing.
    pub fn call<C: Callable>(&mut self, c: &C, replies: &Vec<Reply>) -> (r: Outcome)
        ensures
            final(self).runtime == old(self).runtime,
            final(self).res == old(self).res,
            r.flow() == c.meaning(old(self).env(replies@), old(self).start()).flow,
            r is Suspended ==> final(self).start() == old(self).start(),
            !(r is Suspended) ==> final(self).start().vars == c.meaning(
                old(self).env(replies@),
                old(self).start(),
            ).state.vars && final(self).start().locals == c.meaning(
                old(self).env(replies@),
                old(self).start(),
            ).state.locals && r.log() == c.meaning(
                old(self).env(replies@),
                old(self).start(),
            ).state.log,
    {
        let scene = Scene { runtime: self.runtime, res: self.res, replies };
        let mut run = Run::new(self.vars.copy(), self.locals.copy());
        assert(run@ == self.start());
        match c.call(&scene, &mut run) {
            Step::Value(value) => {
                self.vars = run.vars;
                *self.locals = run.locals;
                Outcome::Done(value, run.log)
            },
            Step::Fail(error) => {
                self.vars = run.vars;
                *self.locals = run.locals;
                Outcome::Failed(error, run.log)
            },
            Step::Call(call) => Outcome::Suspended(call),
        }
    }
}

/// The built-in `if` evaluates its condition and then the branch that the
/// condition picks, and nothing of the other branch: the evaluation ends as the
/// picked branch ends in the state that the condition left.
pub proof fn lemma_if_is_lazy(e: Expr, env: Env, state: State)
    requires
        e matches Expr::Call(namespace, name, args) && namespace@.len() == 0 && name@ == if_name()
            && args@.len() == 3,
    ensures
        ({
            let args = e->Call_2@;
            let condition = eval_expr(args[0], env, state);
            eval_expr(e, env, state) == match condition.flow {
                Flow::Value(c) => eval_expr(
                    if c.as_bool() {
                        args[1]
                    } else {
                        args[2]
                    },
                    env,
                    condition.state,
                ),
                _ => condition,
            }
        }),
{
    let args = e->Call_2@;
    let condition = eval_expr(args[0], env, state);
    assert(eval_at(args, 0, env, state) == condition);
    match condition.flow {
        Flow::Value(c) => {
            assert(eval_at(args, 1, env, condition.state) == eval_expr(
                args[1],
                env,
                condition.state,
            ));
            assert(eval_at(args, 2, env, condition.state) == eval_expr(
                args[2],
                env,
                condition.state,
            ));
        },
        _ => {},
    }
}

/// A call to a plugin that is not loaded is worth `Unit` and a line in the log,
/// once its arguments are evaluated, and changes nothing else.
pub proof fn lemma_missing_namespace(e: Expr, env: Env, state: State)
    requires
        e matches Expr::Call(namespace, name, args) && namespace@.len() != 0
            && !env.namespaces.contains(namespace@),
        eval_list(e->Call_2@, 0, env, state, Seq::empty()).1 is Values,
    ensures
        eval_expr(e, env, state) == eval_list(e->Call_2@, 0, env, state, Seq::empty()).0.noting(
            line(Notice::MissingNamespace, e->Call_0@, e->Call_1@),
        ).giving(Value::Unit),
{
}

/// A statement that cannot be evaluated does not end the program: the
/// statements after it are evaluated in the state that it left, with one more
/// line in the log.
pub proof fn lemma_failure_is_contained(
    statements: Seq<Expr>,
    index: int,
    env: Env,
    state: State,
    last: Value,
)
    requires
        0 <= index < statements.len(),
        eval_expr(statements[index], env, state).flow is Fail,
    ensures
        ({
            let one = eval_expr(statements[index], env, state);
            eval_statements(statements, index, env, state, last) == eval_statements(
                statements,
                index + 1,
                env,
                one.state.noting(about(Notice::Failed(one.flow->Fail_0), Seq::empty())),
                Value::Unit,
            )
        }),
{
}

/// A program does not see the variables of the evaluation before it: it ends
/// the same whatever they hold. The variables of the session are what a later
/// program can see of an earlier one.
pub proof fn lemma_program_starts_afresh(
    program: Program,
    env: Env,
    state: State,
    vars: Map<Seq<char>, Value>,
)
    ensures
        eval_program(program, env, State { vars, ..state }) == eval_program(program, env, state),
{
}

/// Whether an evaluation knows every reply that another knows, in the same
/// place, and reads the same resources and the same registry.
pub open spec fn knows_more(more: Env, fewer: Env) -> bool {
    &&& more.res == fewer.res
    &&& more.namespaces == fewer.namespaces
    &&& fewer.replies.len() <= more.replies.len()
    &&& forall|i: int| 0 <= i < fewer.replies.len() ==> more.replies[i] == fewer.replies[i]
}

/// Whether a sequence of calls begins with another.
pub open spec fn begins_with(whole: Seq<CallView>, start: Seq<CallView>) -> bool {
    &&& start.len() <= whole.len()
    &&& forall|i: int| 0 <= i < start.len() ==> whole[i] == start[i]
}

impl State {
    /// Whether every reply that was used has its call.
    pub open spec fn consistent(self) -> bool {
        self.asked.len() == self.used
    }
}

/// What an evaluation that knows fewer replies says of one that knows more.
///
/// It uses the replies in order and none twice, and keeps the calls that were
/// answered before. Where it does not stop for a reply, the replies that it did
/// not use do not matter: the evaluation that knows more ends the same. Where it
/// stops, it has used all that it knows, and the call that it stops at is the
/// very call that the next reply answers in the evaluation that knows more.
pub open spec fn settled(end: Eval, with_more: Eval, begun: State, fewer: Env, more: Env) -> bool {
    &&& begun.used <= end.state.used <= fewer.replies.len()
    &&& end.state.consistent()
    &&& begins_with(end.state.asked, begun.asked)
    &&& !(end.flow is Call) ==> with_more == end
    &&& end.flow matches Flow::Call(call) ==> {
        &&& end.state.used == fewer.replies.len()
        &&& with_more.state.used <= more.replies.len()
        &&& with_more.state.consistent()
        &&& begins_with(with_more.state.asked, end.state.asked)
        &&& more.replies.len() > fewer.replies.len() ==> with_more.state.asked.len()
            > fewer.replies.len() && with_more.state.asked[fewer.replies.len() as int] == call
    }
}

/// An evaluation can be taken up again: it uses the replies in order, it stops
/// only for the first reply that it does not know, it does not depend on
/// replies that it does not use, and the call that it stops at is the call that
/// the next reply answers.
pub proof fn lemma_expr_replies(e: Expr, fewer: Env, more: Env, state: State)
    requires
        knows_more(more, fewer),
        state.used <= fewer.replies.len(),
        state.consistent(),
    ensures
        settled(eval_expr(e, fewer, state), eval_expr(e, more, state), state, fewer, more),
    decreases e, 1nat,
{
    match e {
        Expr::Ref(_) => {},
        Expr::Const(_) => {},
        Expr::Unary(_, operand) => {
            lemma_expr_replies(*operand, fewer, more, state);
        },
        Expr::Binary(lhs, BinaryOp::Val(_), rhs) => {
            lemma_operands_replies(e, fewer, more, state);
        },
        Expr::Binary(lhs, BinaryOp::Inplace(_), rhs) => {
            lemma_operands_replies(e, fewer, more, state);
        },
        Expr::Binary(lhs, BinaryOp::Assign, rhs) => {
            lemma_expr_replies(*rhs, fewer, more, state);
        },
        Expr::Binary(lhs, BinaryOp::Logic(_), rhs) => {
            lemma_expr_replies(*lhs, fewer, more, state);
            let left = eval_expr(*lhs, fewer, state);
            let left_more = eval_expr(*lhs, more, state);
            if left.flow is Value {
                lemma_expr_replies(*rhs, fewer, more, left.state);
            }
            if left_more.flow is Value {
                lemma_expr_replies(*rhs, more, more, left_more.state);
            }
        },
        Expr::Call(namespace, name, args) => {
            if namespace@.len() == 0 {
                if name@ == if_name() {
                    lemma_at_replies(args@, 0, fewer, more, state);
                    let condition = eval_at(args@, 0, fewer, state);
                    let condition_more = eval_at(args@, 0, more, state);
                    if condition.flow is Value {
                        lemma_at_replies(args@, 1, fewer, more, condition.state);
                        lemma_at_replies(args@, 2, fewer, more, condition.state);
                    }
                    if condition_more.flow is Value {
                        lemma_at_replies(args@, 1, more, more, condition_more.state);
                        lemma_at_replies(args@, 2, more, more, condition_more.state);
                    }
                }
            } else {
                lemma_list_replies(args@, 0, fewer, more, state, Seq::empty());
            }
        },
    }
}

/// How the evaluation of two operands ended, as the end of an evaluation.
pub open spec fn operands_end(operands: Operands) -> Eval {
    match operands {
        Operands::Both(_, _, after) => after.giving(Value::Unit),
        Operands::Ended(end) => end,
    }
}

/// The same of the two operands of a binary expression.
proof fn lemma_operands_replies(e: Expr, fewer: Env, more: Env, state: State)
    requires
        knows_more(more, fewer),
        state.used <= fewer.replies.len(),
        state.consistent(),
        e is Binary,
    ensures
        settled(
            operands_end(eval_operands(e, fewer, state)),
            operands_end(eval_operands(e, more, state)),
            state,
            fewer,
            more,
        ),
        !(operands_end(eval_operands(e, fewer, state)).flow is Call) ==> eval_operands(
            e,
            more,
            state,
        ) == eval_operands(e, fewer, state),
        eval_operands(e, fewer, state) matches Operands::Ended(end) ==> !(end.flow is Value),
    decreases e, 0nat,
{
    match e {
        Expr::Binary(lhs, _, rhs) => {
            lemma_expr_replies(*lhs, fewer, more, state);
            let left = eval_expr(*lhs, fewer, state);
            let left_more = eval_expr(*lhs, more, state);
            if left.flow is Value {
                lemma_expr_replies(*rhs, fewer, more, left.state);
            }
            if left_more.flow is Value {
                lemma_expr_replies(*rhs, more, more, left_more.state);
            }
        },
        _ => {},
    }
}

/// The same of the expression at an index of a list.
proof fn lemma_at_replies(list: Seq<Expr>, index: int, fewer: Env, more: Env, state: State)
    requires
        knows_more(more, fewer),
        state.used <= fewer.replies.len(),
        state.consistent(),
    ensures
        settled(
            eval_at(list, index, fewer, state),
            eval_at(list, index, more, state),
            state,
            fewer,
            more,
        ),
    decreases list, 0nat,
{
    if 0 <= index < list.len() {
        lemma_expr_replies(list[index], fewer, more, state);
    }
}

/// How the evaluation of a list ended, as the end of an evaluation.
pub open spec fn list_end(end: (State, ListFlow)) -> Eval {
    match end.1 {
        ListFlow::Values(_) => end.0.giving(Value::Unit),
        ListFlow::Fail(error) => end.0.failing(error),
        ListFlow::Call(call) => ended(end.0, Flow::Call(call)),
    }
}

/// The same of the expressions of a list.
proof fn lemma_list_replies(
    list: Seq<Expr>,
    index: int,
    fewer: Env,
    more: Env,
    state: State,
    done: Seq<Value>,
)
    requires
        knows_more(more, fewer),
        state.used <= fewer.replies.len(),
        state.consistent(),
    ensures
        settled(
            list_end(eval_list(list, index, fewer, state, done)),
            list_end(eval_list(list, index, more, state, done)),
            state,
            fewer,
            more,
        ),
        !(eval_list(list, index, fewer, state, done).1 is Call) ==> eval_list(
            list,
            index,
            more,
            state,
            done,
        ) == eval_list(list, index, fewer, state, done),
    decreases list, list.len() - index,
{
    if 0 <= index < list.len() {
        lemma_expr_replies(list[index], fewer, more, state);
        let first = eval_expr(list[index], fewer, state);
        let first_more = eval_expr(list[index], more, state);
        match first.flow {
            Flow::Value(value) => {
                lemma_list_replies(list, index + 1, fewer, more, first.state, done.push(value));
            },
            _ => {},
        }
        match first_more.flow {
            Flow::Value(value) => {
                lemma_list_replies(
                    list,
                    index + 1,
                    more,
                    more,
                    first_more.state,
                    done.push(value),
                );
            },
            _ => {},
        }
    }
}

/// The same of the statements of a program.
proof fn lemma_statements_replies(
    statements: Seq<Expr>,
    index: int,
    fewer: Env,
    more: Env,
    state: State,
    last: Value,
)
    requires
        knows_more(more, fewer),
        state.used <= fewer.replies.len(),
        state.consistent(),
    ensures
        settled(
            eval_statements(statements, index, fewer, state, last),
            eval_statements(statements, index, more, state, last),
            state,
            fewer,
            more,
        ),
    decreases statements.len() - index,
{
    if 0 <= index < statements.len() {
        lemma_expr_replies(statements[index], fewer, more, state);
        let one = eval_expr(statements[index], fewer, state);
        let one_more = eval_expr(statements[index], more, state);
        match one.flow {
            Flow::Value(value) => {
                lemma_statements_replies(statements, index + 1, fewer, more, one.state, value);
            },
            Flow::Fail(error) => {
                lemma_statements_replies(
                    statements,
                    index + 1,
                    fewer,
                    more,
                    one.state.noting(about(Notice::Failed(error), Seq::empty())),
                    Value::Unit,
                );
            },
            Flow::Call(_) => {},
        }
        match one_more.flow {
            Flow::Value(value) => {
                lemma_statements_replies(
                    statements,
                    index + 1,
                    more,
                    more,
                    one_more.state,
                    value,
                );
            },
            Flow::Fail(error) => {
                lemma_statements_replies(
                    statements,
                    index + 1,
                    more,
                    more,
                    one_more.state.noting(about(Notice::Failed(error), Seq::empty())),
                    Value::Unit,
                );
            },
            Flow::Call(_) => {},
        }
    }
}

/// A program can be taken up again: its evaluation uses the replies in order,
/// stops only for the first reply that it does not know, does not depend on
/// replies that it does not use, and stops at the call that the next reply
/// answers. So a caller that evaluates again with one more reply, each time
/// the evaluation stops, gets one call further each time, and no call is made
/// twice or left out.
pub proof fn lemma_program_replies(program: Program, fewer: Env, more: Env, state: State)
    requires
        knows_more(more, fewer),
        state.used <= fewer.replies.len(),
        state.consistent(),
    ensures
        settled(
            eval_program(program, fewer, state),
            eval_program(program, more, state),
            state,
            fewer,
            more,
        ),
{
    lemma_statements_replies(
        program.0@,
        0,
        fewer,
        more,
        State { vars: Map::empty(), ..state },
        Value::Unit,
    );
}

/// The same of the pieces of a text.
proof fn lemma_lines_replies(
    lines: Seq<Line>,
    index: int,
    fewer: Env,
    more: Env,
    state: State,
    text: Seq<char>,
)
    requires
        knows_more(more, fewer),
        state.used <= fewer.replies.len(),
        state.consistent(),
    ensures
        settled(
            eval_lines(lines, index, fewer, state, text),
            eval_lines(lines, index, more, state, text),
            state,
            fewer,
            more,
        ),
    decreases lines.len() - index,
{
    if 0 <= index < lines.len() {
        match lines[index] {
            Line::Str(piece) => {
                lemma_lines_replies(lines, index + 1, fewer, more, state, text + piece@);
            },
            Line::Cmd(Command::Exec(program)) => {
                lemma_program_replies(program, fewer, more, state);
                let one = eval_program(program, fewer, state);
                let one_more = eval_program(program, more, state);
                match one.flow {
                    Flow::Value(value) => {
                        lemma_lines_replies(
                            lines,
                            index + 1,
                            fewer,
                            more,
                            one.state,
                            text + value.as_str(),
                        );
                    },
                    _ => {},
                }
                match one_more.flow {
                    Flow::Value(value) => {
                        lemma_lines_replies(
                            lines,
                            index + 1,
                            more,
                            more,
                            one_more.state,
                            text + value.as_str(),
                        );
                    },
                    _ => {},
                }
            },
            Line::Cmd(_) => {
                lemma_lines_replies(lines, index + 1, fewer, more, state, text);
            },
        }
    }
}

/// A text can be taken up again, as a program can.
pub proof fn lemma_text_replies(text: Text, fewer: Env, more: Env, state: State)
    requires
        knows_more(more, fewer),
        state.used <= fewer.replies.len(),
        state.consistent(),
    ensures
        settled(eval_text(text, fewer, state), eval_text(text, more, state), state, fewer, more),
{
    lemma_lines_replies(text.0@, 0, fewer, more, state, Seq::empty());
}

/// What an evaluation leaves of the variables of the session: none is ever
/// taken away, and every variable that the evaluation did not assign to holds
/// what it held.
pub open spec fn keeps_locals(begun: State, end: State) -> bool {
    &&& begun.written.subset_of(end.written)
    &&& forall|name: Seq<char>|
        !end.written.contains(name) ==> #[trigger] held(end.locals, name) == held(
            begun.locals,
            name,
        )
    &&& forall|name: Seq<char>|
        begun.locals.dom().contains(name) ==> #[trigger] end.locals.dom().contains(name)
}

/// What two evaluations leave, one after the other, the two leave together.
proof fn lemma_keeps_chain(begun: State, between: State, end: State)
    requires
        keeps_locals(begun, between),
        keeps_locals(between, end),
    ensures
        keeps_locals(begun, end),
{
    assert forall|name: Seq<char>| !end.written.contains(name) implies #[trigger] held(
        end.locals,
        name,
    ) == held(begun.locals, name) by {
        assert(!between.written.contains(name));
        assert(held(between.locals, name) == held(begun.locals, name));
    }
    assert forall|name: Seq<char>| begun.locals.dom().contains(name) implies #[trigger] end.locals.dom().contains(
        name,
    ) by {
        assert(between.locals.dom().contains(name));
    }
}

/// An assignment leaves every variable of the session but the one that it
/// names.
proof fn lemma_assign_keeps(target: Expr, value: Value, state: State)
    ensures
        keeps_locals(state, assign(target, value, state).state),
{
}

/// The evaluation of an expression changes only the variables of the session
/// that it assigns to, and takes none away.
pub proof fn lemma_expr_keeps_locals(e: Expr, env: Env, state: State)
    ensures
        keeps_locals(state, eval_expr(e, env, state).state),
    decreases e, 1nat,
{
    match e {
        Expr::Ref(_) => {},
        Expr::Const(_) => {},
        Expr::Unary(_, operand) => {
            lemma_expr_keeps_locals(*operand, env, state);
        },
        Expr::Binary(lhs, BinaryOp::Val(_), rhs) => {
            lemma_operands_keep_locals(e, env, state);
        },
        Expr::Binary(lhs, BinaryOp::Inplace(op), rhs) => {
            lemma_operands_keep_locals(e, env, state);
            match eval_operands(e, env, state) {
                Operands::Both(l, r, after) => {
                    match val_op(l, op, r) {
                        Ok(value) => {
                            lemma_assign_keeps(*lhs, value, after);
                            lemma_keeps_chain(state, after, assign(*lhs, value, after).state);
                        },
                        Err(_) => {},
                    }
                },
                Operands::Ended(_) => {},
            }
        },
        Expr::Binary(lhs, BinaryOp::Assign, rhs) => {
            lemma_expr_keeps_locals(*rhs, env, state);
            let right = eval_expr(*rhs, env, state);
            match right.flow {
                Flow::Value(value) => {
                    lemma_assign_keeps(*lhs, value, right.state);
                    lemma_keeps_chain(state, right.state, assign(*lhs, value, right.state).state);
                },
                _ => {},
            }
        },
        Expr::Binary(lhs, BinaryOp::Logic(_), rhs) => {
            lemma_expr_keeps_locals(*lhs, env, state);
            let left = eval_expr(*lhs, env, state);
            if left.flow is Value {
                lemma_expr_keeps_locals(*rhs, env, left.state);
                lemma_keeps_chain(state, left.state, eval_expr(*rhs, env, left.state).state);
            }
        },
        Expr::Call(namespace, name, args) => {
            if namespace@.len() == 0 {
                if name@ == if_name() {
                    lemma_at_keeps_locals(args@, 0, env, state);
                    let condition = eval_at(args@, 0, env, state);
                    if condition.flow is Value {
                        lemma_at_keeps_locals(args@, 1, env, condition.state);
                        lemma_at_keeps_locals(args@, 2, env, condition.state);
                        lemma_keeps_chain(
                            state,
                            condition.state,
                            eval_at(args@, 1, env, condition.state).state,
                        );
                        lemma_keeps_chain(
                            state,
                            condition.state,
                            eval_at(args@, 2, env, condition.state).state,
                        );
                    }
                }
            } else {
                lemma_list_keeps_locals(args@, 0, env, state, Seq::empty());
                let evaluated = eval_list(args@, 0, env, state, Seq::empty());
                match evaluated.1 {
                    ListFlow::Values(values) => {
                        lemma_keeps_chain(
                            state,
                            evaluated.0,
                            dispatch(namespace@, name@, values, env, evaluated.0).state,
                        );
                    },
                    _ => {},
                }
            }
        },
    }
}

/// The same of the two operands of a binary expression.
proof fn lemma_operands_keep_locals(e: Expr, env: Env, state: State)
    requires
        e is Binary,
    ensures
        keeps_locals(state, operands_end(eval_operands(e, env, state)).state),
    decreases e, 0nat,
{
    match e {
        Expr::Binary(lhs, _, rhs) => {
            lemma_expr_keeps_locals(*lhs, env, state);
            let left = eval_expr(*lhs, env, state);
            if left.flow is Value {
                lemma_expr_keeps_locals(*rhs, env, left.state);
                lemma_keeps_chain(state, left.state, eval_expr(*rhs, env, left.state).state);
            }
        },
        _ => {},
    }
}

/// The same of the expression at an index of a list.
proof fn lemma_at_keeps_locals(list: Seq<Expr>, index: int, env: Env, state: State)
    ensures
        keeps_locals(state, eval_at(list, index, env, state).state),
    decreases list, 0nat,
{
    if 0 <= index < list.len() {
        lemma_expr_keeps_locals(list[index], env, state);
    }
}

/// The same of the expressions of a list.
proof fn lemma_list_keeps_locals(
    list: Seq<Expr>,
    index: int,
    env: Env,
    state: State,
    done: Seq<Value>,
)
    ensures
        keeps_locals(state, eval_list(list, index, env, state, done).0),
    decreases list, list.len() - index,
{
    if 0 <= index < list.len() {
        lemma_expr_keeps_locals(list[index], env, state);
        let first = eval_expr(list[index], env, state);
        match first.flow {
            Flow::Value(value) => {
                lemma_list_keeps_locals(list, index + 1, env, first.state, done.push(value));
                lemma_keeps_chain(
                    state,
                    first.state,
                    eval_list(list, index + 1, env, first.state, done.push(value)).0,
                );
            },
            _ => {},
        }
    }
}

/// The same of the statements of a program.
proof fn lemma_statements_keep_locals(
    statements: Seq<Expr>,
    index: int,
    env: Env,
    state: State,
    last: Value,
)
    ensures
        keeps_locals(state, eval_statements(statements, index, env, state, last).state),
    decreases statements.len() - index,
{
    if 0 <= index < statements.len() {
        lemma_expr_keeps_locals(statements[index], env, state);
        let one = eval_expr(statements[index], env, state);
        match one.flow {
            Flow::Value(value) => {
                lemma_statements_keep_locals(statements, index + 1, env, one.state, value);
                lemma_keeps_chain(
                    state,
                    one.state,
                    eval_statements(statements, index + 1, env, one.state, value).state,
                );
            },
            Flow::Fail(error) => {
                let noted = one.state.noting(about(Notice::Failed(error), Seq::empty()));
                lemma_statements_keep_locals(statements, index + 1, env, noted, Value::Unit);
                lemma_keeps_chain(state, one.state, noted);
                lemma_keeps_chain(
                    state,
                    noted,
                    eval_statements(statements, index + 1, env, noted, Value::Unit).state,
                );
            },
            Flow::Call(_) => {},
        }
    }
}

/// The variables of the session outlive an evaluation: a program takes none of
/// them away, and every one that no evaluated assignment names holds after the
/// program what it held before. The variables of the evaluation are emptied
/// instead.
pub proof fn lemma_program_keeps_locals(program: Program, env: Env, state: State)
    ensures
        keeps_locals(state, eval_program(program, env, state).state),
{
    let fresh = State { vars: Map::empty(), ..state };
    lemma_statements_keep_locals(program.0@, 0, env, fresh, Value::Unit);
    lemma_keeps_chain(state, fresh, eval_program(program, env, state).state);
}

/// The same of the pieces of a text.
proof fn lemma_lines_keep_locals(
    lines: Seq<Line>,
    index: int,
    env: Env,
    state: State,
    text: Seq<char>,
)
    ensures
        keeps_locals(state, eval_lines(lines, index, env, state, text).state),
    decreases lines.len() - index,
{
    if 0 <= index < lines.len() {
        match lines[index] {
            Line::Str(piece) => {
                lemma_lines_keep_locals(lines, index + 1, env, state, text + piece@);
            },
            Line::Cmd(Command::Exec(program)) => {
                lemma_program_keeps_locals(program, env, state);
                let one = eval_program(program, env, state);
                match one.flow {
                    Flow::Value(value) => {
                        lemma_lines_keep_locals(
                            lines,
                            index + 1,
                            env,
                            one.state,
                            text + value.as_str(),
                        );
                        lemma_keeps_chain(
                            state,
                            one.state,
                            eval_lines(lines, index + 1, env, one.state, text + value.as_str()).state,
                        );
                    },
                    _ => {},
                }
            },
            Line::Cmd(_) => {
                lemma_lines_keep_locals(lines, index + 1, env, state, text);
            },
        }
    }
}

/// The variables of the session outlive the evaluation of a text, as they
/// outlive that of a program.
pub proof fn lemma_text_keeps_locals(text: Text, env: Env, state: State)
    ensures
        keeps_locals(state, eval_text(text, env, state).state),
{
    lemma_lines_keep_locals(text.0@, 0, env, state, Seq::empty());
}

} // verus!

//! The may-throw analysis of expressions and statements. A module's syntax
//! is held as an arena of nodes whose children come before them; the
//! analysis computes, for each node and environment, the flow of its
//! evaluation: how it may finish (normally, by return, by throw, or by a
//! break or continue), each with an environment and a value.
use crate::bindings::BindingFacts;
use crate::env::{bind, env_clone, env_entries, lookup, Env};
use crate::error::{builtin_view, unknown_view, ErrorTypeView, EscErrorType};
use crate::flow::{flow_join_view, Completion, CompletionView, Flow, StateView, State, label_view};
use crate::set::{is_plain_primitive, Types};
use crate::value::{bottom_view, join_view, Value, ValueView};
use vstd::prelude::*;

verus! {

/// How a local read finds a value when the environment does not bind the
/// symbol: by the declaration of the symbol.
#[derive(Debug)]
pub enum EscDeclared {
    /// Not a variable declarator: nothing is known.
    Other,
    /// A variable declarator without an initializer.
    Uninitialized,
    /// A variable declarator initialized by the expression at this node.
    Initializer(usize),
}

/// `&&`, `||` and `??`.
#[derive(Debug)]
pub enum EscLogical {
    And,
    Or,
    Coalesce,
}

/// The unary operators, by what they yield.
#[derive(Debug)]
pub enum EscUnary {
    Not,
    Typeof,
    Void,
    Delete,
    /// `-`, `+` and `~`.
    Numeric,
}

/// The binary operators, by what they yield and when they may throw.
#[derive(Debug)]
pub enum EscBinary {
    /// `==`, `!=`, `<`, `<=`, `>` and `>=`.
    Compare,
    /// `===` and `!==`.
    Strict,
    In,
    /// `instanceof`.
    InstanceOf,
    Plus,
    /// The other arithmetic and bitwise operators.
    Arithmetic,
}

/// A `try` statement: its block, its handler with the handler's parameter,
/// and its `finally` block.
#[derive(Debug)]
pub struct EscTry {
    pub block: Vec<usize>,
    /// `None` without a handler; otherwise the node of the parameter's
    /// pattern, if it has one, and the handler's body.
    pub handler: Option<(Option<usize>, Vec<usize>)>,
    pub finalizer: Option<Vec<usize>>,
}

/// A `while`, `do`-`while` or `for` loop, or the iteration of a `for`-`of`
/// or `for`-`in` loop: its test, its update and its body, whether the body
/// runs before the first test, and the label of the statement it stands
/// in, if any.
#[derive(Debug)]
pub struct EscLoop {
    pub test: Option<usize>,
    pub update: Option<usize>,
    pub body: usize,
    pub do_first: bool,
    /// Without a test: whether the loop may stop before any iteration (it
    /// iterates over a collection) rather than only by a jump.
    pub optional: bool,
    pub label: Option<String>,
}

/// A `for`-`of` or `for`-`in` loop: the iterated expression, the pattern
/// bound to the elements, and the iteration, which has neither test nor
/// update and may stop before any round.
#[derive(Debug)]
pub struct EscForEach {
    pub right: usize,
    pub target: usize,
    /// `for`-`of`, else `for`-`in`.
    pub of: bool,
    pub iteration: EscLoop,
}

/// What an `instanceof` test of a local tells in the branches of an `if`:
/// the local's symbol, the types the right operand may denote, and whether
/// the test holds in the consequent (false when it is negated).
#[derive(Debug)]
pub struct EscNarrowing {
    pub symbol: u32,
    pub bases: Vec<EscErrorType>,
    pub sense: bool,
}

/// The operator of an assignment.
#[derive(Debug)]
pub enum EscAssignOp {
    /// `=`.
    Plain,
    /// `&&=`, `||=` and `??=`.
    Logical,
    /// The arithmetic and bitwise compound operators; whether it is `+=`.
    Compound(bool),
}

/// An assignment: its target (an identifier, with its symbol if it has one,
/// or another target), the operands of a member target, its operator and
/// its right-hand side.
#[derive(Debug)]
pub struct EscAssign {
    pub target: Option<Option<u32>>,
    pub member: Option<(usize, Option<usize>)>,
    pub op: EscAssignOp,
    pub right: usize,
}

/// A call or `new` expression.
#[derive(Debug)]
pub struct EscCallExpr {
    /// The analyzer's facts about the call, by index; `None` when the call
    /// graph has no entry for it.
    pub call: Option<usize>,
    pub callee: usize,
    /// Whether the callee is `super`.
    pub super_callee: bool,
    /// When the callee is a member expression: its object and, if
    /// computed, its key expression.
    pub member: Option<(usize, Option<usize>)>,
    /// The arguments, each with whether it is spread.
    pub arguments: Vec<(usize, bool)>,
    pub new: bool,
    pub optional: bool,
}

/// One node of a module's syntax, as far as the analysis reads it.
#[derive(Debug)]
pub enum EscSyntax {
    /// A read of a local symbol.
    Local(u32, EscDeclared),
    /// A read of a name that no declaration binds.
    Global(String),
    Boolean(bool),
    Null,
    /// A string literal, and whether it is empty.
    Str(bool),
    /// A numeric literal, and whether it is zero or not a number.
    Number(bool),
    BigInt,
    RegExp,
    /// A function or arrow function expression.
    Function,
    /// `this`, `super` or `import.meta`.
    Opaque,
    Sequence(Vec<usize>),
    Conditional(usize, usize, usize),
    Logical(EscLogical, usize, usize),
    /// `typeof` of a name that no declaration binds.
    TypeofUnbound,
    Unary(EscUnary, usize),
    /// A binary expression; for `instanceof`, whether the types it tests
    /// against are all known.
    Binary(EscBinary, usize, usize, bool),
    Await(usize),
    Call(EscCallExpr),
    /// An expression whose evaluation is not modelled: it may be anything
    /// and may throw anything.
    Unknown,
    Block(Vec<usize>),
    Expression(usize),
    /// A variable declaration: each declarator's symbol, if its target is
    /// an identifier with one, and its initializer.
    Declare(Vec<(Option<u32>, Option<usize>)>),
    Throw(usize),
    Return(Option<usize>),
    If(usize, usize, Option<usize>),
    /// An `if` whose test is an `instanceof` of a local, possibly negated:
    /// the test, the branches, and the narrowing it allows.
    IfNarrowing(usize, usize, Option<usize>, EscNarrowing),
    Try(EscTry),
    Loop(EscLoop),
    /// A binding pattern that binds the symbol, if any, to the value it is
    /// given.
    Bind(Option<u32>),
    /// A pattern with a default: the pattern, and the default expression.
    BindDefault(usize, usize),
    /// An object pattern: each property's computed key expression, if
    /// computed, and value pattern; and the rest pattern.
    BindObject(Vec<(Option<usize>, usize)>, Option<usize>),
    /// An array pattern: its element patterns and its rest pattern.
    BindArray(Vec<usize>, Option<usize>),
    /// A variable declarator whose target is the pattern at the first node,
    /// with its initializer.
    DeclarePattern(usize, Option<usize>),
    ForEach(EscForEach),
    /// A template literal: its embedded expressions.
    Template(Vec<usize>),
    /// An array literal: its elements, each with whether it is spread.
    Array(Vec<(usize, bool)>),
    /// An object literal: its properties, each with its computed key
    /// expression, if computed, its value, and whether it is a spread (whose
    /// value is the spread argument).
    Object(Vec<(Option<usize>, usize, bool)>),
    /// An assignment.
    Assign(EscAssign),
    /// `++` or `--` of a local or a name no declaration binds: the node that
    /// reads it, and the local's symbol, if any.
    Update(usize, Option<u32>),
    /// A `switch` statement: its discriminant, and each case's test (none
    /// for `default`) and body.
    Switch(usize, Vec<(Option<usize>, usize)>),
    Break(Option<String>),
    Continue(Option<String>),
    Labeled(String, usize),
    /// A statement that evaluates nothing: empty, `debugger`, a function or
    /// type declaration.
    Empty,
    /// A statement whose evaluation is not modelled.
    UnknownStatement,
}

/// The mathematical value of a flow.
pub type FlowView = Map<CompletionView, StateView>;

/// A non-global value of the given types, possibly falsy or truthy.
pub open spec fn of_types_view(types: Set<ErrorTypeView>) -> ValueView {
    ValueView { types, nonglobal: true, truth: 3, ..bottom_view() }
}

/// A value of the builtin type `name` with the given truth bits.
pub open spec fn builtin_value(name: Seq<char>, truth: u8) -> ValueView {
    ValueView { types: Set::empty().insert(builtin_view(name)), nonglobal: true, truth, ..bottom_view() }
}

/// A value about which nothing is known.
pub open spec fn unknown_value() -> ValueView {
    of_types_view(Set::empty().insert(unknown_view()))
}

/// A flow that finishes with one completion.
pub open spec fn one_view(kind: CompletionView, env: Map<u32, ValueView>, value: ValueView) -> FlowView {
    Map::empty().insert(kind, StateView { env, value })
}

/// A flow that finishes normally.
pub open spec fn normal_view(env: Map<u32, ValueView>, value: ValueView) -> FlowView {
    one_view(CompletionView::Normal, env, value)
}

/// A flow that may also throw `types` in `env`, unless `types` is empty.
pub open spec fn throw_view(m: FlowView, env: Map<u32, ValueView>, types: Set<ErrorTypeView>) -> FlowView {
    if types.is_empty() {
        m
    } else {
        crate::flow::flow_add_view(m, CompletionView::Throw, StateView { env, value: of_types_view(types) })
    }
}

/// An evaluation about which nothing is known: any value, or a throw of
/// anything.
pub open spec fn unknown_flow(env: Map<u32, ValueView>) -> FlowView {
    throw_view(normal_view(env, unknown_value()), env, Set::empty().insert(unknown_view()))
}

/// Continues the normal completion of `m` with `next`, which is what the
/// continuation gives for `m`'s normal state.
pub open spec fn after(m: FlowView, next: FlowView) -> FlowView {
    if m.contains_key(CompletionView::Normal) {
        flow_join_view(m.remove(CompletionView::Normal), next)
    } else {
        m
    }
}

/// The normal state of a flow.
pub open spec fn normal_of(m: FlowView) -> StateView {
    m[CompletionView::Normal]
}

/// The value `undefined`.
pub open spec fn undefined_value() -> ValueView {
    builtin_value("undefined"@, 1)
}

/// A boolean known to be `b`.
pub open spec fn boolean_value(b: bool) -> ValueView {
    builtin_value("boolean"@, if b { 2 } else { 1 })
}

/// Whether every type of a value is `undefined`, `null`, `boolean`,
/// `number` or `string`.
pub open spec fn plain(v: ValueView) -> bool {
    forall|t: ErrorTypeView| v.types.contains(t) ==> is_plain_primitive(t)
}

/// Whether the right operand of a logical expression runs, and whether the
/// left value is a result, for a left value `v`.
pub open spec fn logical_branches(op: EscLogical, v: ValueView) -> (bool, bool) {
    match op {
        EscLogical::And => (v.truth & 2 != 0, v.truth & 1 != 0),
        EscLogical::Or => (v.truth & 1 != 0, v.truth & 2 != 0),
        EscLogical::Coalesce => (
            v.types.contains(builtin_view("null"@)) || v.types.contains(builtin_view("undefined"@)) || v.types.contains(unknown_view()),
            exists|t: ErrorTypeView| v.types.contains(t) && t != builtin_view("null"@) && t != builtin_view("undefined"@),
        ),
    }
}

/// `??` runs its right operand whenever the left value may be `null` or
/// `undefined` (or anything), and gives the left value whenever it may be
/// something else; `&&` and `||` run the right operand exactly when the
/// left value may be truthy, respectively falsy.
pub proof fn law_logical_branches(v: ValueView)
    ensures
        v.types.contains(builtin_view("undefined"@)) || v.types.contains(builtin_view("null"@)) || v.types.contains(unknown_view())
            ==> logical_branches(EscLogical::Coalesce, v).0,
        !v.types.contains(builtin_view("undefined"@)) && !v.types.contains(builtin_view("null"@)) && !v.types.contains(unknown_view())
            ==> !logical_branches(EscLogical::Coalesce, v).0,
        forall|t: ErrorTypeView| v.types.contains(t) && t != builtin_view("undefined"@) && t != builtin_view("null"@)
            ==> logical_branches(EscLogical::Coalesce, v).1,
        v.truth == 1 ==> !logical_branches(EscLogical::And, v).0 && logical_branches(EscLogical::And, v).1
            && logical_branches(EscLogical::Or, v).0 && !logical_branches(EscLogical::Or, v).1,
        v.truth == 2 ==> logical_branches(EscLogical::And, v).0 && !logical_branches(EscLogical::And, v).1
            && !logical_branches(EscLogical::Or, v).0 && logical_branches(EscLogical::Or, v).1,
        v.truth == 3 ==> logical_branches(EscLogical::And, v) == (true, true) && logical_branches(EscLogical::Or, v) == (true, true),
{
    assert((1u8 & 2u8) == 0u8 && (1u8 & 1u8) == 1u8 && (2u8 & 2u8) == 2u8 && (2u8 & 1u8) == 0u8 && (3u8 & 2u8) == 2u8 && (3u8 & 1u8) == 1u8) by (bit_vector);
}

/// When operators may throw: strict equality never; `in` always may;
/// `instanceof` only against types not all known; comparisons, `+` and the
/// arithmetic operators exactly when an operand may be something other than
/// `undefined`, `null`, a boolean, a number or a string. `!`, `typeof` and
/// `void` never throw, `delete` may, and the numeric unary operators throw
/// exactly when their operand is not such a primitive.
pub proof fn law_operator_safety(l: ValueView, r: ValueView, known: bool)
    ensures
        binary_safe(EscBinary::Strict, l, r, known),
        !binary_safe(EscBinary::In, l, r, known),
        binary_safe(EscBinary::InstanceOf, l, r, known) == known,
        binary_safe(EscBinary::Compare, l, r, known) == ((forall|t: ErrorTypeView| l.types.contains(t) ==> is_plain_primitive(t))
            && (forall|t: ErrorTypeView| r.types.contains(t) ==> is_plain_primitive(t))),
        binary_safe(EscBinary::Plus, l, r, known) == binary_safe(EscBinary::Compare, l, r, known),
        binary_safe(EscBinary::Arithmetic, l, r, known) == binary_safe(EscBinary::Compare, l, r, known),
        unary_safe(EscUnary::Not, l) && unary_safe(EscUnary::Typeof, l) && unary_safe(EscUnary::Void, l),
        !unary_safe(EscUnary::Delete, l),
        unary_safe(EscUnary::Numeric, l) == (forall|t: ErrorTypeView| l.types.contains(t) ==> is_plain_primitive(t)),
{
}

/// What operators give: comparisons a boolean; `+` a number, and also a
/// string when an operand may be a string or is not a plain primitive;
/// `!` swaps whether its operand may be falsy or truthy.
pub proof fn law_operator_values(l: ValueView, r: ValueView)
    ensures
        binary_value(EscBinary::Compare, l, r).types == Set::empty().insert(builtin_view("boolean"@)),
        binary_value(EscBinary::Strict, l, r).types == Set::empty().insert(builtin_view("boolean"@)),
        binary_value(EscBinary::Plus, l, r).types.contains(builtin_view("number"@)),
        l.types.contains(builtin_view("string"@)) || r.types.contains(builtin_view("string"@))
            ==> binary_value(EscBinary::Plus, l, r).types.contains(builtin_view("string"@)),
        l.truth == 1 ==> unary_value(EscUnary::Not, l).truth == 2,
        l.truth == 2 ==> unary_value(EscUnary::Not, l).truth == 1,
        l.truth == 3 ==> unary_value(EscUnary::Not, l).truth == 3,
{
    assert((((1u8 & 1u8) << 1u8) | ((1u8 & 2u8) >> 1u8)) == 2u8 && (((2u8 & 1u8) << 1u8) | ((2u8 & 2u8) >> 1u8)) == 1u8
        && (((3u8 & 1u8) << 1u8) | ((3u8 & 2u8) >> 1u8)) == 3u8) by (bit_vector);
}

/// Awaiting a promise may reject with its deferred errors and settles to
/// what it resolves to; awaiting a value that is neither a promise nor
/// unknown cannot throw and gives the value's own types.
pub proof fn law_await(env: Map<u32, ValueView>, v: ValueView)
    ensures
        v.types.contains(builtin_view("Promise"@)) && !v.deferred.is_empty()
            ==> await_view(env, v).contains_key(CompletionView::Throw)
                && v.deferred.subset_of(await_view(env, v)[CompletionView::Throw].value.types),
        !v.types.contains(builtin_view("Promise"@)) && !v.types.contains(unknown_view())
            ==> !await_view(env, v).contains_key(CompletionView::Throw),
        !v.types.contains(builtin_view("Promise"@)) && !v.types.contains(unknown_view()) && v.awaited.is_empty() && !v.types.is_empty()
            ==> await_view(env, v).contains_key(CompletionView::Normal)
                && await_view(env, v)[CompletionView::Normal].value.types == v.types,
{
    let settled = v.types.remove(builtin_view("Promise"@)).union(v.awaited);
    if !v.types.contains(builtin_view("Promise"@)) {
        assert(v.types.remove(builtin_view("Promise"@)) =~= v.types);
        if v.awaited.is_empty() {
            assert(settled =~= v.types);
        }
    }
    if v.types.contains(builtin_view("Promise"@)) && !v.deferred.is_empty() {
        let base = if settled.is_empty() { Map::<CompletionView, StateView>::empty() } else { normal_view(env, of_types_view(settled)) };
        assert(!base.contains_key(CompletionView::Throw));
        let promised = throw_view(base, env, v.deferred);
        assert(promised[CompletionView::Throw].value.types == v.deferred);
        if v.types.contains(unknown_view()) {
            let w = throw_view(promised, env, Set::empty().insert(unknown_view()));
            assert(w[CompletionView::Throw].value.types == v.deferred.union(Set::empty().insert(unknown_view())));
        }
    }
}

/// A parameter given `v`: an optional one without a default may also be
/// `undefined`; with a default, a value that is surely `undefined` is
/// replaced by what the default gives, and one that cannot be `undefined`
/// (nor unknown) is kept without running the default.
pub proof fn law_param_values(a: &Analyzer, t: Seq<EscSyntax>, n: int, p: EscParam, v: ValueView, env: Map<u32, ValueView>)
    ensures
        p.optional && p.initializer is None ==> param_values_view(a, t, n, p, v, env).contains_key(CompletionView::Normal)
            && normal_of(param_values_view(a, t, n, p, v, env)).value.types == v.types.insert(builtin_view("undefined"@)),
        !p.optional && p.initializer is None ==> param_values_view(a, t, n, p, v, env) == normal_view(env, v),
        p.initializer is Some && v.types == Set::empty().insert(builtin_view("undefined"@))
            ==> param_values_view(a, t, n, p, v, env) == sub_view(a, t, n, p.initializer->0 as int, env),
        p.initializer is Some && !p.optional && !v.types.contains(builtin_view("undefined"@)) && !v.types.contains(unknown_view()) && !v.types.is_empty()
            ==> param_values_view(a, t, n, p, v, env) == normal_view(env, v),
{
    if p.optional && p.initializer is None {
        assert(join_view(v, undefined_value()).types =~= v.types.insert(builtin_view("undefined"@)));
    }
    if p.initializer is Some && v.types == Set::empty().insert(builtin_view("undefined"@)) {
        let i = p.initializer->0;
        let v1 = if p.optional { join_view(v, undefined_value()) } else { v };
        assert(v1.types =~= Set::empty().insert(builtin_view("undefined"@)));
        assert(v1.types.remove(builtin_view("undefined"@)) =~= Set::<ErrorTypeView>::empty());
        let m = sub_view(a, t, n, i as int, env);
        assert(flow_join_view(Map::empty(), m) =~= m);
    }
    if p.initializer is Some && !p.optional && !v.types.contains(builtin_view("undefined"@)) && !v.types.contains(unknown_view()) && !v.types.is_empty() {
        assert(v.types.remove(builtin_view("undefined"@)) =~= v.types);
        let kept = ValueView { types: v.types.remove(builtin_view("undefined"@)), ..v };
        assert(kept == v);
    }
}

/// The value of a unary expression whose operand has value `v`.
pub open spec fn unary_value(op: EscUnary, v: ValueView) -> ValueView {
    match op {
        EscUnary::Not => builtin_value("boolean"@, (((v.truth & 1) << 1u8) | ((v.truth & 2) >> 1u8)) as u8),
        EscUnary::Typeof => builtin_value("string"@, 2),
        EscUnary::Void => undefined_value(),
        EscUnary::Delete => builtin_value("boolean"@, 3),
        EscUnary::Numeric => builtin_value("number"@, 3),
    }
}

/// Whether a unary expression cannot throw, for an operand of value `v`.
pub open spec fn unary_safe(op: EscUnary, v: ValueView) -> bool {
    match op {
        EscUnary::Not | EscUnary::Typeof | EscUnary::Void => true,
        EscUnary::Delete => false,
        EscUnary::Numeric => plain(v),
    }
}

/// The value of a binary expression with operands of values `l` and `r`.
pub open spec fn binary_value(op: EscBinary, l: ValueView, r: ValueView) -> ValueView {
    match op {
        EscBinary::Plus => if !plain(l) || !plain(r) || l.types.contains(builtin_view("string"@)) || r.types.contains(builtin_view("string"@)) {
            join_view(builtin_value("number"@, 3), builtin_value("string"@, 3))
        } else {
            builtin_value("number"@, 3)
        },
        EscBinary::Arithmetic => builtin_value("number"@, 3),
        _ => builtin_value("boolean"@, 3),
    }
}

/// Whether a binary expression cannot throw.
pub open spec fn binary_safe(op: EscBinary, l: ValueView, r: ValueView, known: bool) -> bool {
    match op {
        EscBinary::Strict => true,
        EscBinary::In => false,
        EscBinary::InstanceOf => known,
        _ => plain(l) && plain(r),
    }
}

/// What awaiting a value `v` gives in `env`: the types it may settle to,
/// and the rejections of a promise or anything, for an unknown value.
pub open spec fn await_view(env: Map<u32, ValueView>, v: ValueView) -> FlowView {
    let settled = v.types.remove(builtin_view("Promise"@)).union(v.awaited);
    let base = if settled.is_empty() { Map::empty() } else { normal_view(env, of_types_view(settled)) };
    let promised = if v.types.contains(builtin_view("Promise"@)) { throw_view(base, env, v.deferred) } else { base };
    if v.types.contains(unknown_view()) { throw_view(promised, env, Set::empty().insert(unknown_view())) } else { promised }
}

/// Joins the flow of `b` when `cond` holds.
pub open spec fn join_if(m: FlowView, cond: bool, b: FlowView) -> FlowView {
    if cond { flow_join_view(m, b) } else { m }
}

/// The flow of a throw of value `v` in `env`: none when `v` has no type.
pub open spec fn throw_value_view(env: Map<u32, ValueView>, v: ValueView) -> FlowView {
    if v.types.is_empty() { Map::empty() } else { one_view(CompletionView::Throw, env, of_types_view(v.types)) }
}

/// Replaces the value of the normal completion.
pub open spec fn with_value(m: FlowView, v: ValueView) -> FlowView {
    if m.contains_key(CompletionView::Normal) {
        m.insert(CompletionView::Normal, StateView { env: m[CompletionView::Normal].env, value: v })
    } else {
        m
    }
}

/// Binds `symbol`, if any, to `v` in `env`.
pub open spec fn bound(env: Map<u32, ValueView>, symbol: Option<u32>, v: ValueView) -> Map<u32, ValueView> {
    match symbol {
        Some(s) => env.insert(s, v),
        None => env,
    }
}

/// Whether a labelled statement turns a break to its label into a normal
/// completion.
pub open spec fn close_label_view(m: FlowView, label: Seq<char>) -> FlowView {
    let b = CompletionView::Break(Some(label));
    if m.contains_key(b) {
        crate::flow::flow_add_view(m.remove(b), CompletionView::Normal, m[b])
    } else {
        m
    }
}

impl Analyzer {
    /// Whether the analyzer knows symbol `s`.
    pub open spec fn knows(&self, s: u32) -> bool {
        s < self.bindings.mutated_view().len() && s < self.bindings.flags().len()
    }
}

/// Whether the children of every node come before it and every symbol is
/// known to the analyzer.
pub open spec fn node_wf(a: &Analyzer, t: Seq<EscSyntax>, n: int) -> bool {
    match t[n] {
        EscSyntax::Local(s, d) => a.knows(s) && (d matches EscDeclared::Initializer(i) ==> i < n),
        EscSyntax::Sequence(items) => forall|k: int| 0 <= k < items@.len() ==> #[trigger] items@[k] < n,
        EscSyntax::Conditional(x, y, z) => x < n && y < n && z < n,
        EscSyntax::Logical(_, x, y) => x < n && y < n,
        EscSyntax::Unary(_, x) => x < n,
        EscSyntax::Binary(_, x, y, _) => x < n && y < n,
        EscSyntax::Await(x) => x < n,
        EscSyntax::Call(c) => call_wf(a, c, n),
        EscSyntax::Block(items) => forall|k: int| 0 <= k < items@.len() ==> #[trigger] items@[k] < n,
        EscSyntax::Expression(x) => x < n,
        EscSyntax::Declare(ds) => forall|k: int| 0 <= k < ds@.len() ==> (#[trigger] ds@[k]).1.unwrap_or(0) < n
            && (ds@[k].0 matches Some(s) ==> a.knows(s)),
        EscSyntax::Throw(x) => x < n,
        EscSyntax::Return(x) => x.unwrap_or(0) < n,
        EscSyntax::If(x, y, z) => x < n && y < n && z.unwrap_or(0) < n,
        EscSyntax::IfNarrowing(x, y, z, _) => x < n && y < n && z.unwrap_or(0) < n,
        EscSyntax::Try(tr) => try_wf(a, tr, n),
        EscSyntax::Loop(l) => loop_wf(l, n),
        EscSyntax::Bind(s) => s matches Some(s) ==> a.knows(s),
        EscSyntax::BindDefault(x, d) => x < n && d < n,
        EscSyntax::BindObject(props, rest) => rest.unwrap_or(0) < n
            && forall|k: int| 0 <= k < props@.len() ==> (#[trigger] props@[k]).0.unwrap_or(0) < n && props@[k].1 < n,
        EscSyntax::BindArray(elems, rest) => rest.unwrap_or(0) < n && forall|k: int| 0 <= k < elems@.len() ==> #[trigger] elems@[k] < n,
        EscSyntax::DeclarePattern(x, init) => x < n && init.unwrap_or(0) < n,
        EscSyntax::ForEach(f) => for_each_wf(f, n),
        EscSyntax::Template(items) => forall|k: int| 0 <= k < items@.len() ==> #[trigger] items@[k] < n,
        EscSyntax::Array(elems) => forall|k: int| 0 <= k < elems@.len() ==> (#[trigger] elems@[k]).0 < n,
        EscSyntax::Object(props) => forall|k: int| 0 <= k < props@.len() ==> (#[trigger] props@[k]).0.unwrap_or(0) < n && props@[k].1 < n,
        EscSyntax::Assign(x) => x.right < n && (x.member matches Some(m) ==> m.0 < n && m.1.unwrap_or(0) < n)
            && (x.target matches Some(Some(s)) ==> a.knows(s)),
        EscSyntax::Update(x, s) => x < n && (s matches Some(s) ==> a.knows(s)),
        EscSyntax::Switch(d, cases) => d < n && forall|k: int| 0 <= k < cases@.len() ==> (#[trigger] cases@[k]).0.unwrap_or(0) < n && cases@[k].1 < n,
        EscSyntax::Labeled(_, x) => x < n,
        _ => true,
    }
}

/// The well-formedness of a `try` node at `n`.
pub open spec fn try_wf(a: &Analyzer, tr: EscTry, n: int) -> bool {
    &&& forall|k: int| 0 <= k < tr.block@.len() ==> #[trigger] tr.block@[k] < n
    &&& tr.handler matches Some(h) ==> (forall|k: int| 0 <= k < h.1@.len() ==> #[trigger] h.1@[k] < n)
        && h.0.unwrap_or(0) < n
    &&& tr.finalizer matches Some(f) ==> forall|k: int| 0 <= k < f@.len() ==> #[trigger] f@[k] < n
}

/// The well-formedness of a loop node at `n`: its parts come before it,
/// and a loop whose body runs first has a test.
pub open spec fn loop_wf(l: EscLoop, n: int) -> bool {
    &&& l.test.unwrap_or(0) < n
    &&& l.update.unwrap_or(0) < n
    &&& l.body < n
    &&& l.do_first ==> l.test is Some
}

/// The well-formedness of a `for`-`of` or `for`-`in` node at `n`.
pub open spec fn for_each_wf(f: EscForEach, n: int) -> bool {
    &&& f.right < n
    &&& f.target < n
    &&& loop_wf(f.iteration, n)
    &&& f.iteration.test is None
    &&& f.iteration.update is None
    &&& !f.iteration.do_first
    &&& f.iteration.optional
}

/// The well-formedness of a call node at `n`.
pub open spec fn call_wf(a: &Analyzer, c: EscCallExpr, n: int) -> bool {
    &&& c.callee < n
    &&& c.member matches Some(m) ==> m.0 < n && m.1.unwrap_or(0) < n
    &&& forall|k: int| 0 <= k < c.arguments@.len() ==> (#[trigger] c.arguments@[k]).0 < n
    &&& c.call.unwrap_or(0) < a.calls@.len() || c.call is None
}

/// Whether every node of the syntax is well formed.
pub open spec fn syntax_wf(a: &Analyzer, t: Seq<EscSyntax>) -> bool {
    forall|n: int| 0 <= n < t.len() ==> node_wf(a, t, n)
}

/// How many list items node `n` holds, over all its lists.
pub open spec fn width(t: Seq<EscSyntax>, n: int) -> nat {
    if 0 <= n < t.len() {
        match t[n] {
            EscSyntax::Sequence(items) => items@.len(),
            EscSyntax::Block(items) => items@.len(),
            EscSyntax::Declare(ds) => ds@.len(),
            EscSyntax::Call(c) => c.arguments@.len(),
            EscSyntax::Try(tr) => try_width(tr),
            EscSyntax::Switch(_, cases) => cases@.len(),
            EscSyntax::BindObject(props, _) => props@.len(),
            EscSyntax::BindArray(elems, _) => elems@.len(),
            EscSyntax::ForEach(_) => 2,
            EscSyntax::Template(items) => items@.len(),
            EscSyntax::Array(elems) => elems@.len(),
            EscSyntax::Object(props) => props@.len(),
            EscSyntax::Assign(_) => 2,
            _ => 0,
        }
    } else {
        0
    }
}

/// How many list items a `try` statement holds.
pub open spec fn try_width(tr: EscTry) -> nat {
    tr.block@.len() + match tr.handler {
        Some(h) => h.1@.len(),
        None => 0,
    } + match tr.finalizer {
        Some(f) => f@.len(),
        None => 0,
    }
}

/// The flow of node `c`, a child of node `n`.
pub open spec fn sub_view(a: &Analyzer, t: Seq<EscSyntax>, n: int, c: int, env: Map<u32, ValueView>) -> FlowView
    decreases n, 0nat, 0nat,
{
    if 0 <= c < n && n <= t.len() {
        eval_view(a, t, c, env)
    } else {
        Map::empty()
    }
}

/// Runs the nodes `items[k..]`, children of node `n`, one after another
/// from the normal completion of `m`.
pub open spec fn list_view(a: &Analyzer, t: Seq<EscSyntax>, n: int, items: Seq<usize>, k: int, m: FlowView) -> FlowView
    decreases n, items.len() - k + 1, 0nat,
{
    if 0 <= k < items.len() {
        list_view(a, t, n, items, k + 1, after(m, sub_view(a, t, n, items[k] as int, normal_of(m).env)))
    } else {
        m
    }
}

/// Runs the declarators `ds[k..]` of node `n` from the normal completion of `m`.
pub open spec fn declare_view(a: &Analyzer, t: Seq<EscSyntax>, n: int, ds: Seq<(Option<u32>, Option<usize>)>, k: int, m: FlowView) -> FlowView
    decreases n, ds.len() - k + 1, 0nat,
{
    if 0 <= k < ds.len() {
        let env = normal_of(m).env;
        let init = match ds[k].1 {
            Some(i) => sub_view(a, t, n, i as int, env),
            None => normal_view(env, undefined_value()),
        };
        let next = after(init, normal_view(bound(normal_of(init).env, ds[k].0, normal_of(init).value), undefined_value()));
        declare_view(a, t, n, ds, k + 1, after(m, next))
    } else {
        m
    }
}

/// The value a local read of `s` finds outside the environment.
pub open spec fn declared_value(a: &Analyzer, t: Seq<EscSyntax>, n: int, s: u32, d: EscDeclared, env: Map<u32, ValueView>) -> Option<ValueView>
    decreases n, 1nat, 0nat,
{
    let found = match d {
        EscDeclared::Other => Some(unknown_value()),
        EscDeclared::Uninitialized => Some(undefined_value()),
        EscDeclared::Initializer(i) => {
            let f = sub_view(a, t, n, i as int, env);
            if f.contains_key(CompletionView::Normal) { Some(normal_of(f).value) } else { None }
        },
    };
    match found {
        Some(v) => Some(if a.bindings.mutated_view()[s as int] { join_view(v, unknown_value()) } else { v }),
        None => None,
    }
}

/// The flow of evaluating node `n` of the syntax `t` in `env`.
pub open spec fn eval_view(a: &Analyzer, t: Seq<EscSyntax>, n: int, env: Map<u32, ValueView>) -> FlowView
    decreases n, width(t, n) + 4, 0nat,
{
    if !(0 <= n < t.len()) {
        Map::empty()
    } else {
        match t[n] {
            EscSyntax::Local(s, d) => if env.contains_key(s) {
                normal_view(env, env[s])
            } else {
                match declared_value(a, t, n, s, d, env) {
                    Some(v) => normal_view(env, v),
                    None => Map::empty(),
                }
            },
            EscSyntax::Global(name) => global_read_view(a, name@, env),
            EscSyntax::Boolean(b) => normal_view(env, boolean_value(b)),
            EscSyntax::Null => normal_view(env, builtin_value("null"@, 1)),
            EscSyntax::Str(empty) => normal_view(env, builtin_value("string"@, if empty { 1 } else { 2 })),
            EscSyntax::Number(falsy) => normal_view(env, builtin_value("number"@, if falsy { 1 } else { 2 })),
            EscSyntax::BigInt => normal_view(env, builtin_value("bigint"@, 3)),
            EscSyntax::RegExp => normal_view(env, builtin_value("RegExp"@, 2)),
            EscSyntax::Function => normal_view(env, builtin_value("Function"@, 2)),
            EscSyntax::Opaque => normal_view(env, unknown_value()),
            EscSyntax::Sequence(items) => list_view(a, t, n, items@, 0, normal_view(env, undefined_value())),
            EscSyntax::Conditional(x, y, z) => {
                let m = sub_view(a, t, n, x as int, env);
                let st = normal_of(m);
                after(m, join_if(join_if(Map::empty(), st.value.truth & 2 != 0, sub_view(a, t, n, y as int, st.env)), st.value.truth & 1 != 0, sub_view(a, t, n, z as int, st.env)))
            },
            EscSyntax::Logical(op, x, y) => {
                let m = sub_view(a, t, n, x as int, env);
                let st = normal_of(m);
                let b = logical_branches(op, st.value);
                after(m, join_if(join_if(Map::empty(), b.0, sub_view(a, t, n, y as int, st.env)), b.1, normal_view(st.env, st.value)))
            },
            EscSyntax::TypeofUnbound => normal_view(env, builtin_value("string"@, 3)),
            EscSyntax::Unary(op, x) => {
                let m = sub_view(a, t, n, x as int, env);
                let st = normal_of(m);
                let f = normal_view(st.env, unary_value(op, st.value));
                after(m, if unary_safe(op, st.value) { f } else { throw_view(f, st.env, Set::empty().insert(unknown_view())) })
            },
            EscSyntax::Binary(op, x, y, known) => {
                let m = sub_view(a, t, n, x as int, env);
                let l = normal_of(m);
                let m2 = sub_view(a, t, n, y as int, l.env);
                let r = normal_of(m2);
                let f = normal_view(r.env, binary_value(op, l.value, r.value));
                after(m, after(m2, if binary_safe(op, l.value, r.value, known) { f } else { throw_view(f, r.env, Set::empty().insert(unknown_view())) }))
            },
            EscSyntax::Await(x) => {
                let m = sub_view(a, t, n, x as int, env);
                after(m, await_view(normal_of(m).env, normal_of(m).value))
            },
            EscSyntax::Call(c) => call_view(a, t, n, c, env),
            EscSyntax::Unknown => unknown_flow(env),
            EscSyntax::Block(items) => list_view(a, t, n, items@, 0, normal_view(env, undefined_value())),
            EscSyntax::Expression(x) => with_value(sub_view(a, t, n, x as int, env), undefined_value()),
            EscSyntax::Declare(ds) => declare_view(a, t, n, ds@, 0, normal_view(env, undefined_value())),
            EscSyntax::Throw(x) => {
                let m = sub_view(a, t, n, x as int, env);
                after(m, throw_value_view(normal_of(m).env, normal_of(m).value))
            },
            EscSyntax::Return(x) => {
                let m = match x {
                    Some(i) => sub_view(a, t, n, i as int, env),
                    None => normal_view(env, undefined_value()),
                };
                after(m, one_view(CompletionView::Return, normal_of(m).env, normal_of(m).value))
            },
            EscSyntax::If(x, y, z) => {
                let m = sub_view(a, t, n, x as int, env);
                let st = normal_of(m);
                let other = match z {
                    Some(i) => sub_view(a, t, n, i as int, st.env),
                    None => normal_view(st.env, undefined_value()),
                };
                after(m, join_if(join_if(Map::empty(), st.value.truth & 2 != 0, sub_view(a, t, n, y as int, st.env)), st.value.truth & 1 != 0, other))
            },
            EscSyntax::IfNarrowing(x, y, z, w) => {
                let m = sub_view(a, t, n, x as int, env);
                let st = normal_of(m);
                let yes = if st.value.truth & 2 != 0 {
                    match narrowed_env(a, w, st.env, true) {
                        Some(e) => sub_view(a, t, n, y as int, e),
                        None => Map::empty(),
                    }
                } else {
                    Map::empty()
                };
                let no = if st.value.truth & 1 != 0 {
                    match narrowed_env(a, w, st.env, false) {
                        Some(e) => match z {
                            Some(i) => sub_view(a, t, n, i as int, e),
                            None => normal_view(e, undefined_value()),
                        },
                        None => Map::empty(),
                    }
                } else {
                    Map::empty()
                };
                after(m, flow_join_view(flow_join_view(Map::empty(), yes), no))
            },
            EscSyntax::Try(tr) => try_view(a, t, n, tr, env),
            EscSyntax::Loop(l) => loop_iter_view(a, t, n, l, env, Map::empty(), LOOP_FUEL as nat),
            EscSyntax::Switch(d, cases) => switch_view(a, t, n, d, cases@, env),
            EscSyntax::DeclarePattern(x, init) => {
                let m = match init {
                    Some(i) => sub_view(a, t, n, i as int, env),
                    None => normal_view(env, undefined_value()),
                };
                after(m, sub_bind_view(a, t, n, x as int, normal_of(m).env, normal_of(m).value))
            },
            EscSyntax::Bind(_) | EscSyntax::BindDefault(..) | EscSyntax::BindObject(..) | EscSyntax::BindArray(..) => normal_view(env, undefined_value()),
            EscSyntax::ForEach(f) => for_each_view(a, t, n, f, env),
            EscSyntax::Template(items) => with_value(list_view(a, t, n, items@, 0, normal_view(env, undefined_value())), builtin_value("string"@, 3)),
            EscSyntax::Array(elems) => with_value(args_view(a, t, n, elems@, 0, normal_view(env, undefined_value())), builtin_value("Array"@, 2)),
            EscSyntax::Object(props) => with_value(props_view(a, t, n, props@, 0, normal_view(env, undefined_value())), builtin_value("object"@, 2)),
            EscSyntax::Assign(x) => assign_view(a, t, n, x, env),
            EscSyntax::Update(x, s) => {
                let m = sub_view(a, t, n, x as int, env);
                let st = normal_of(m);
                let f = normal_view(bound(st.env, s, builtin_value("number"@, 3)), builtin_value("number"@, 3));
                after(m, if plain(st.value) { f } else { throw_view(f, bound(st.env, s, builtin_value("number"@, 3)), Set::empty().insert(unknown_view())) })
            },
            EscSyntax::Break(l) => one_view(CompletionView::Break(label_view(l)), env, undefined_value()),
            EscSyntax::Continue(l) => one_view(CompletionView::Continue(label_view(l)), env, undefined_value()),
            EscSyntax::Labeled(l, x) => close_label_view(sub_view(a, t, n, x as int, env), l@),
            EscSyntax::Empty => normal_view(env, undefined_value()),
            EscSyntax::UnknownStatement => unknown_flow(env),
        }
    }
}

/// Whether the project assigns to the standard global `name`.
pub open spec fn assigns(a: &Analyzer, name: Seq<char>) -> bool {
    a.modified_globals@.map_values(|g: String| g@).contains(name)
}

/// The standard global at `path`, unless the project assigns to
/// `globalThis` or to the global's root object.
pub open spec fn analyzer_global(a: &Analyzer, path: Seq<char>) -> Option<crate::globals::GlobalView> {
    if assigns(a, "globalThis"@) || assigns(a, crate::resolve::before_dot(path)) {
        None
    } else {
        crate::globals::spec_get(path)
    }
}

/// The value of a standard global: functions and objects are tracked by
/// their path and are truthy.
pub open spec fn global_value(g: crate::globals::GlobalView) -> ValueView {
    if g.value_type != "Function"@ && g.value_type != "object"@ {
        builtin_value(g.value_type, 3)
    } else {
        ValueView {
            types: Set::empty().insert(builtin_view(g.value_type)),
            globals: Set::empty().insert(g.path),
            nonglobal: false,
            truth: 2,
            ..bottom_view()
        }
    }
}

/// The flow of reading a name that no declaration binds.
pub open spec fn global_read_view(a: &Analyzer, name: Seq<char>, env: Map<u32, ValueView>) -> FlowView {
    match analyzer_global(a, name) {
        Some(g) => throw_view(normal_view(env, global_value(g)), env, g.read_errors.to_set()),
        None => if name == "undefined"@ {
            normal_view(env, undefined_value())
        } else if name == "NaN"@ || name == "Infinity"@ {
            normal_view(env, builtin_value("number"@, 3))
        } else if crate::globals::spec_get(name) is Some {
            normal_view(env, unknown_value())
        } else {
            throw_view(normal_view(env, unknown_value()), env, Set::empty().insert(builtin_view("ReferenceError"@)))
        },
    }
}

/// The flow of a member expression's operands: its object, then its
/// computed key if any.
pub open spec fn member_view(a: &Analyzer, t: Seq<EscSyntax>, n: int, m: (usize, Option<usize>), env: Map<u32, ValueView>) -> FlowView
    decreases n, 1nat, 0nat,
{
    let f = sub_view(a, t, n, m.0 as int, env);
    match m.1 {
        Some(k) => after(f, sub_view(a, t, n, k as int, normal_of(f).env)),
        None => f,
    }
}

/// Evaluates the arguments `args[k..]` of node `n` from the normal
/// completion of `m`; a spread argument may also run anything.
pub open spec fn args_view(a: &Analyzer, t: Seq<EscSyntax>, n: int, args: Seq<(usize, bool)>, k: int, m: FlowView) -> FlowView
    decreases n, args.len() - k + 1, 0nat,
{
    if 0 <= k < args.len() {
        let f = after(m, sub_view(a, t, n, args[k].0 as int, normal_of(m).env));
        let g = if args[k].1 { after(f, unknown_flow(normal_of(f).env)) } else { f };
        args_view(a, t, n, args, k + 1, g)
    } else {
        m
    }
}

/// The flow of a call expression: the callee, or only the operands of a
/// statically linked member callee, then the arguments, then the call.
pub open spec fn call_view(a: &Analyzer, t: Seq<EscSyntax>, n: int, c: EscCallExpr, env: Map<u32, ValueView>) -> FlowView
    decreases n, c.arguments@.len() + 3, 0nat,
{
    let facts = match c.call {
        Some(i) => Some(a.calls@[i as int]),
        None => None,
    };
    let linked = facts matches Some(f) && !f.unresolved && f.global_calls@.len() == 0 && c.member is Some;
    let m0 = if linked { member_view(a, t, n, c.member->0, env) } else { sub_view(a, t, n, c.callee as int, env) };
    let m1 = args_view(a, t, n, c.arguments@, 0, m0);
    let m2 = after(m1, invoke_view(a, facts, c.new, c.super_callee, normal_of(m1).env));
    if c.optional { flow_join_view(m2, normal_view(env, undefined_value())) } else { m2 }
}

/// Whether every key of `env` is a symbol whose writes are known.
pub open spec fn keys_known(a: &Analyzer, env: Map<u32, ValueView>) -> bool {
    forall|k: u32| env.contains_key(k) ==> k < a.bindings.flags().len()
}

/// The environment after a call: each binding that other functions write
/// is widened.
pub open spec fn widened_env(a: &Analyzer, env: Map<u32, ValueView>) -> Map<u32, ValueView> {
    if keys_known(a, env) { crate::bindings::widen_view(a.bindings.flags(), env) } else { env }
}

/// The types of the primitive values that a constructor's result cannot be.
pub open spec fn primitive_result(t: ErrorTypeView) -> bool {
    t == builtin_view("undefined"@) || t == builtin_view("null"@) || t == builtin_view("number"@)
        || t == builtin_view("string"@) || t == builtin_view("boolean"@) || t == builtin_view("bigint"@)
        || t == builtin_view("symbol"@)
}

/// The value a `new` or `super` call of a function with returned value `v`
/// gives: a primitive or unknown result stands for the instance, of the
/// types `fallback`.
pub open spec fn instance_value(v: ValueView, fallback: Set<ErrorTypeView>) -> ValueView {
    let kept = v.types.filter(|t: ErrorTypeView| !primitive_result(t));
    let uses_instance = (exists|t: ErrorTypeView| v.types.contains(t) && primitive_result(t)) || v.types.contains(unknown_view());
    ValueView { types: if uses_instance { kept.union(fallback) } else { kept }, truth: 2, ..v }
}

/// The flows that the standard globals `paths[k..]` of a call add to `m`.
pub open spec fn globals_fold(a: &Analyzer, paths: Seq<Seq<char>>, new: bool, env: Map<u32, ValueView>, k: int, m: FlowView) -> FlowView
    decreases paths.len() - k,
{
    if 0 <= k < paths.len() {
        let add = match analyzer_global(a, paths[k]) {
            None => unknown_flow(env),
            Some(g) => match (if new { g.construct } else { g.call }) {
                Some(model) => throw_view(normal_view(env, builtin_value(model.returns, 3)), env, model.errors.to_set()),
                None => one_view(CompletionView::Throw, env, builtin_value("TypeError"@, 3)),
            },
        };
        globals_fold(a, paths, new, env, k + 1, flow_join_view(m, add))
    } else {
        m
    }
}

/// The flows that the functions `targets[k..]` of a call add to `m`.
pub open spec fn targets_fold(f: EscCallFacts, new: bool, super_call: bool, env: Map<u32, ValueView>, k: int, m: FlowView) -> FlowView
    decreases f.targets@.len() - k,
{
    if 0 <= k < f.targets@.len() {
        let tf = f.targets@[k];
        let s = tf.summary@;
        let next = if tf.is_async || tf.is_generator {
            if new {
                flow_join_view(m, one_view(CompletionView::Throw, env, builtin_value("TypeError"@, 3)))
            } else {
                flow_join_view(m, normal_view(env, ValueView {
                    deferred: s.errors,
                    awaited: s.returned.types,
                    truth: 2,
                    ..builtin_value(if tf.is_async { "Promise"@ } else { "Generator"@ }, 3)
                }))
            }
        } else {
            let thrown = throw_view(m, env, s.errors);
            if s.completes {
                let fallback = if f.constructed_types@.is_empty() { Set::empty().insert(tf.own_type@) } else { f.constructed_types@ };
                let v = if new || super_call { instance_value(s.returned, fallback) } else { s.returned };
                flow_join_view(thrown, normal_view(env, v))
            } else {
                thrown
            }
        };
        targets_fold(f, new, super_call, env, k + 1, next)
    } else {
        m
    }
}

/// Whether every type is a declared one.
pub open spec fn all_declared(types: Set<ErrorTypeView>) -> bool {
    forall|t: ErrorTypeView| types.contains(t) ==> t is Node
}

/// The flow of invoking a call with the facts `facts` in `env`.
pub open spec fn invoke_view(a: &Analyzer, facts: Option<EscCallFacts>, new: bool, super_call: bool, env: Map<u32, ValueView>) -> FlowView {
    match facts {
        None => unknown_flow(env),
        Some(f) => {
            let may_call = f.unresolved || f.targets@.len() > 0;
            let e = if may_call { widened_env(a, env) } else { env };
            if !new && !super_call && !f.constructed_types@.is_empty() && all_declared(f.constructed_types@) {
                let thrown = one_view(CompletionView::Throw, e, builtin_value("TypeError"@, 3));
                if may_call { flow_join_view(thrown, unknown_flow(e)) } else { thrown }
            } else {
                let g = globals_fold(a, f.global_calls@.map_values(|p: String| p@), new, e, 0, Map::empty());
                let g2 = if f.unresolved { flow_join_view(g, unknown_flow(e)) } else { g };
                let g3 = if f.targets@.len() == 0 && !f.constructed_types@.is_empty() && f.global_calls@.len() == 0 {
                    flow_join_view(g2, normal_view(e, ValueView { truth: 2, ..of_types_view(f.constructed_types@) }))
                } else {
                    g2
                };
                targets_fold(f, new, super_call, e, 0, g3)
            }
        },
    }
}

/// The flow of a `catch` handler for the thrown state `th`.
pub open spec fn caught_view(a: &Analyzer, t: Seq<EscSyntax>, n: int, h: (Option<usize>, Vec<usize>), th: StateView) -> FlowView
    decreases n, h.1@.len() + 2, 0nat,
{
    let caught = match h.0 {
        Some(p) => sub_bind_view(a, t, n, p as int, th.env, of_types_view(th.value.types)),
        None => normal_view(th.env, undefined_value()),
    };
    after(caught, list_view(a, t, n, h.1@, 0, normal_view(normal_of(caught).env, undefined_value())))
}

/// What a `finally` block `f` of node `n` leaves of the pending
/// completions `pending[k..]`, added to `result`.
pub open spec fn finally_fold(run: spec_fn(Map<u32, ValueView>) -> FlowView, pending: Seq<(CompletionView, StateView)>, k: int, result: FlowView) -> FlowView
    decreases pending.len() - k,
{
    if 0 <= k < pending.len() {
        let st = pending[k].1;
        finally_fold(run, pending, k + 1, crate::flow::finish_pending_view(result, pending[k].0, st, run(st.env)))
    } else {
        result
    }
}

/// What running the `finally` block `f` of node `n` gives from an environment.
pub open spec fn finally_run(a: &Analyzer, t: Seq<EscSyntax>, n: int, f: Seq<usize>) -> spec_fn(Map<u32, ValueView>) -> FlowView
    decreases n, f.len() + 2, 0nat,
{
    |e: Map<u32, ValueView>| list_view(a, t, n, f, 0, normal_view(e, undefined_value()))
}

#[verifier::spinoff_prover]
proof fn lemma_finally_run(a: &Analyzer, t: Seq<EscSyntax>, n: int, f: Seq<usize>, e: Map<u32, ValueView>)
    ensures
        finally_run(a, t, n, f)(e) == list_view(a, t, n, f, 0, normal_view(e, undefined_value())),
{
    reveal_with_fuel(finally_run, 2);
}

/// Whether `s` lists the completions of `m`, each once.
pub open spec fn lists(s: Seq<(CompletionView, StateView)>, m: FlowView) -> bool {
    &&& forall|i: int, j: int| 0 <= i < j < s.len() ==> s[i].0 != s[j].0
    &&& forall|i: int| 0 <= i < s.len() ==> m.contains_key(#[trigger] s[i].0) && m[s[i].0] == s[i].1
    &&& forall|c: CompletionView| #[trigger] m.contains_key(c) ==> exists|i: int| 0 <= i < s.len() && s[i].0 == c
}

/// The flow of a `try` statement.
pub open spec fn try_view(a: &Analyzer, t: Seq<EscSyntax>, n: int, tr: EscTry, env: Map<u32, ValueView>) -> FlowView
    decreases n, try_width(tr) + 3, 0nat,
{
    let m0 = list_view(a, t, n, tr.block@, 0, normal_view(env, undefined_value()));
    let m1 = match tr.handler {
        Some(h) => if m0.contains_key(CompletionView::Throw) {
            flow_join_view(m0.remove(CompletionView::Throw), caught_view(a, t, n, h, m0[CompletionView::Throw]))
        } else {
            m0
        },
        None => m0,
    };
    match tr.finalizer {
        None => m1,
        Some(f) => {
            let pending = choose|s: Seq<(CompletionView, StateView)>| lists(s, m1);
            finally_fold(finally_run(a, t, n, f@), pending, 0, Map::empty())
        },
    }
}

/// Binds pattern `c`, a child of node `n`, to `value` in `env`.
pub open spec fn sub_bind_view(a: &Analyzer, t: Seq<EscSyntax>, n: int, c: int, env: Map<u32, ValueView>, value: ValueView) -> FlowView
    decreases n, 0nat, 0nat,
{
    if 0 <= c < n && n <= t.len() {
        bind_view(a, t, c, env, value)
    } else {
        Map::empty()
    }
}

/// Binds the properties `props[k..]` of the object pattern `p`, one after
/// another from the normal completion of `m`: a computed key runs, and the
/// value pattern takes a value about which nothing is known.
pub open spec fn bind_props_view(a: &Analyzer, t: Seq<EscSyntax>, p: int, props: Seq<(Option<usize>, usize)>, k: int, m: FlowView) -> FlowView
    decreases p, props.len() - k + 1, 0nat,
{
    if 0 <= k < props.len() {
        let keyed = match props[k].0 {
            Some(x) => after(m, sub_view(a, t, p, x as int, normal_of(m).env)),
            None => m,
        };
        bind_props_view(a, t, p, props, k + 1, after(keyed, sub_bind_view(a, t, p, props[k].1 as int, normal_of(keyed).env, unknown_value())))
    } else {
        m
    }
}

/// Binds the elements `elems[k..]` of the array pattern `p`, each to a
/// value about which nothing is known.
pub open spec fn bind_elems_view(a: &Analyzer, t: Seq<EscSyntax>, p: int, elems: Seq<usize>, k: int, m: FlowView) -> FlowView
    decreases p, elems.len() - k + 1, 0nat,
{
    if 0 <= k < elems.len() {
        bind_elems_view(a, t, p, elems, k + 1, after(m, sub_bind_view(a, t, p, elems[k] as int, normal_of(m).env, unknown_value())))
    } else {
        m
    }
}

/// Binds the rest pattern, if any, of pattern `p` to a value about which
/// nothing is known.
pub open spec fn bind_rest_view(a: &Analyzer, t: Seq<EscSyntax>, p: int, rest: Option<usize>, m: FlowView) -> FlowView
    decreases p, 1nat, 0nat,
{
    match rest {
        Some(r) => after(m, sub_bind_view(a, t, p, r as int, normal_of(m).env, unknown_value())),
        None => m,
    }
}

/// The flow of binding pattern `p` to `value` in `env`. Destructuring may
/// run anything, and gives its targets values about which nothing is
/// known; a default runs and binds its value, besides the value given.
pub open spec fn bind_view(a: &Analyzer, t: Seq<EscSyntax>, p: int, env: Map<u32, ValueView>, value: ValueView) -> FlowView
    decreases p, width(t, p) + 3, 0nat,
{
    if !(0 <= p < t.len()) {
        Map::empty()
    } else {
        match t[p] {
            EscSyntax::Bind(s) => normal_view(bound(env, s, value), undefined_value()),
            EscSyntax::BindDefault(x, d) => {
                let m = sub_view(a, t, p, d as int, env);
                flow_join_view(sub_bind_view(a, t, p, x as int, env, value), after(m, sub_bind_view(a, t, p, x as int, normal_of(m).env, normal_of(m).value)))
            },
            EscSyntax::BindObject(props, rest) => bind_rest_view(a, t, p, rest, bind_props_view(a, t, p, props@, 0, unknown_flow(env))),
            EscSyntax::BindArray(elems, rest) => bind_rest_view(a, t, p, rest, bind_elems_view(a, t, p, elems@, 0, unknown_flow(env))),
            _ => Map::empty(),
        }
    }
}

/// The environment in the branch where the `instanceof` test is
/// `outcome`: the local keeps only the types the test allows there; `None`
/// when it keeps none, so the branch cannot run. A local the environment
/// does not bind is left as it is.
pub open spec fn narrowed_env(a: &Analyzer, w: EscNarrowing, env: Map<u32, ValueView>, outcome: bool) -> Option<Map<u32, ValueView>> {
    if env.contains_key(w.symbol) {
        let v = env[w.symbol];
        let kept = v.types.filter(|t: ErrorTypeView| crate::subtype::narrow_keeps(a.super_types@, t, crate::set::views(w.bases@), outcome == w.sense));
        if kept == Set::<ErrorTypeView>::empty() {
            None
        } else {
            Some(env.insert(w.symbol, ValueView { types: kept, ..v }))
        }
    } else {
        Some(env)
    }
}

/// Evaluates the properties `props[k..]` of an object literal, node `n`,
/// one after another from the normal completion of `m`: a computed key,
/// then the value; a spread may also run anything.
pub open spec fn props_view(a: &Analyzer, t: Seq<EscSyntax>, n: int, props: Seq<(Option<usize>, usize, bool)>, k: int, m: FlowView) -> FlowView
    decreases n, props.len() - k + 1, 0nat,
{
    if 0 <= k < props.len() {
        let keyed = match props[k].0 {
            Some(x) => after(m, sub_view(a, t, n, x as int, normal_of(m).env)),
            None => m,
        };
        let valued = after(keyed, sub_view(a, t, n, props[k].1 as int, normal_of(keyed).env));
        let g = if props[k].2 { after(valued, unknown_flow(normal_of(valued).env)) } else { valued };
        props_view(a, t, n, props, k + 1, g)
    } else {
        m
    }
}

/// Stores `value` into an assignment's target in `env`: a local takes the
/// value; any other target may run anything.
pub open spec fn store_view(target: Option<Option<u32>>, env: Map<u32, ValueView>, value: ValueView) -> FlowView {
    match target {
        Some(s) => normal_view(bound(env, s, value), value),
        None => with_value(unknown_flow(env), value),
    }
}

/// What a compound assignment computes from the old value `l` and the right
/// value `r`: a number, or for `+=` on a string or an object also a string.
pub open spec fn compound_value(plus: bool, l: ValueView, r: ValueView) -> ValueView {
    if plus && (l.types.contains(builtin_view("string"@)) || r.types.contains(builtin_view("string"@)) || !(plain(l) && plain(r))) {
        join_view(builtin_value("number"@, 3), builtin_value("string"@, 3))
    } else {
        builtin_value("number"@, 3)
    }
}

/// The flow of an assignment: the operands of a member target, then the
/// right-hand side, then the store; a compound operator on values other
/// than plain primitives may run anything.
pub open spec fn assign_view(a: &Analyzer, t: Seq<EscSyntax>, n: int, x: EscAssign, env: Map<u32, ValueView>) -> FlowView
    decreases n, 5nat, 0nat,
{
    let m0 = match x.member {
        Some(mm) => member_view(a, t, n, mm, env),
        None => normal_view(env, undefined_value()),
    };
    let st0 = normal_of(m0);
    let left = match x.target {
        Some(Some(s)) => if st0.env.contains_key(s) { st0.env[s] } else { unknown_value() },
        _ => unknown_value(),
    };
    let m1 = sub_view(a, t, n, x.right as int, st0.env);
    let st1 = normal_of(m1);
    let stored = match x.op {
        EscAssignOp::Plain => store_view(x.target, st1.env, st1.value),
        EscAssignOp::Logical => store_view(x.target, st1.env, unknown_value()),
        EscAssignOp::Compound(plus) => {
            let f = store_view(x.target, st1.env, compound_value(plus, left, st1.value));
            if plain(left) && plain(st1.value) { f } else { throw_view(f, st1.env, Set::empty().insert(unknown_view())) }
        },
    };
    after(m0, after(m1, stored))
}

/// Whether values of these types can be iterated without running
/// anything: arrays, strings and generators.
pub open spec fn iterable(types: Set<ErrorTypeView>) -> bool {
    forall|t: ErrorTypeView| types.contains(t) ==> t == builtin_view("Array"@) || t == builtin_view("string"@) || t == builtin_view("Generator"@)
}

/// The flow of a `for`-`of` or `for`-`in` loop: the iterated expression
/// runs, the target is bound once to an element (of the iterated value's
/// element types for `for`-`of`, a string for `for`-`in`), and the loop
/// runs; iterating may throw the iterated value's deferred errors, and
/// anything unless it is surely an array, a string or a generator
/// (anything at all for `for`-`in`).
pub open spec fn for_each_view(a: &Analyzer, t: Seq<EscSyntax>, n: int, f: EscForEach, env: Map<u32, ValueView>) -> FlowView
    decreases n, 5nat, 0nat,
{
    let m = sub_view(a, t, n, f.right as int, env);
    let st = normal_of(m);
    let element = if !f.of {
        builtin_value("string"@, 3)
    } else if st.value.elements.is_empty() {
        unknown_value()
    } else {
        of_types_view(st.value.elements)
    };
    let errors = if !f.of {
        Set::empty().insert(unknown_view())
    } else if iterable(st.value.types) {
        st.value.deferred
    } else {
        st.value.deferred.insert(unknown_view())
    };
    let bound = sub_bind_view(a, t, n, f.target as int, st.env, element);
    let inner = after(bound, loop_iter_view(a, t, n, f.iteration, normal_of(bound).env, Map::empty(), LOOP_FUEL as nat));
    after(m, throw_view(inner, st.env, errors))
}

/// A `break` without a label completes a `switch` normally.
pub open spec fn close_break_view(m: FlowView) -> FlowView {
    let b = CompletionView::Break(None);
    if m.contains_key(b) {
        crate::flow::flow_add_view(m.remove(b), CompletionView::Normal, m[b])
    } else {
        m
    }
}

/// Runs the tests of the cases `cases[k..upto]` of node `n`, one after
/// another from the normal completion of `m`.
pub open spec fn case_tests_view(a: &Analyzer, t: Seq<EscSyntax>, n: int, cases: Seq<(Option<usize>, usize)>, k: int, upto: int, m: FlowView) -> FlowView
    decreases n, cases.len() + 1, upto - k,
{
    if 0 <= k < upto && k < cases.len() {
        let m2 = match cases[k].0 {
            Some(x) => after(m, sub_view(a, t, n, x as int, normal_of(m).env)),
            None => m,
        };
        case_tests_view(a, t, n, cases, k + 1, upto, m2)
    } else {
        m
    }
}

/// Runs the bodies of the cases `cases[k..]` of node `n`, falling through
/// from one to the next, from the normal completion of `m`.
pub open spec fn case_bodies_view(a: &Analyzer, t: Seq<EscSyntax>, n: int, cases: Seq<(Option<usize>, usize)>, k: int, m: FlowView) -> FlowView
    decreases n, cases.len() + 1, cases.len() - k,
{
    if 0 <= k < cases.len() {
        case_bodies_view(a, t, n, cases, k + 1, after(m, sub_view(a, t, n, cases[k].1 as int, normal_of(m).env)))
    } else {
        m
    }
}

/// How many tests run before the body of case `start` is entered: those up
/// to it, or all of them for `default`.
pub open spec fn tests_before(cases: Seq<(Option<usize>, usize)>, start: int) -> int {
    if cases[start].0 is None { cases.len() as int } else { start + 1 }
}

/// Adds to `result` the flows of entering the `switch` at the cases
/// `cases[start..]` from `env`: the tests run, then the bodies from the
/// entered case on, and a `break` leaves the `switch`.
pub open spec fn cases_fold_view(a: &Analyzer, t: Seq<EscSyntax>, n: int, cases: Seq<(Option<usize>, usize)>, env: Map<u32, ValueView>, start: int, result: FlowView) -> FlowView
    decreases n, cases.len() + 2, cases.len() - start,
{
    if 0 <= start < cases.len() {
        let tested = case_tests_view(a, t, n, cases, 0, tests_before(cases, start), normal_view(env, undefined_value()));
        let branch = close_break_view(case_bodies_view(a, t, n, cases, start, tested));
        cases_fold_view(a, t, n, cases, env, start + 1, flow_join_view(result, branch))
    } else {
        result
    }
}

/// Whether every case has a test: no `default`.
pub open spec fn all_tested(cases: Seq<(Option<usize>, usize)>) -> bool {
    forall|k: int| 0 <= k < cases.len() ==> (#[trigger] cases[k]).0 is Some
}

/// The flow of a `switch` statement with discriminant `d`.
pub open spec fn switch_view(a: &Analyzer, t: Seq<EscSyntax>, n: int, d: usize, cases: Seq<(Option<usize>, usize)>, env: Map<u32, ValueView>) -> FlowView
    decreases n, cases.len() + 3, 0nat,
{
    let m = sub_view(a, t, n, d as int, env);
    let st = normal_of(m);
    let entered = cases_fold_view(a, t, n, cases, st.env, 0, Map::empty());
    let all = if all_tested(cases) {
        flow_join_view(entered, case_tests_view(a, t, n, cases, 0, cases.len() as int, normal_view(st.env, undefined_value())))
    } else {
        entered
    };
    after(m, all)
}

/// How many iterations a loop's analysis may take before it gives up and
/// lets the loop do anything.
pub const LOOP_FUEL: u64 = 0xffff_ffff_ffff_ffffu64;

/// The flow of a loop's test from the head environment `head`: a body that
/// runs first, or a loop without a test, enters the body (a loop over a
/// collection may also stop).
pub open spec fn loop_cond_view(a: &Analyzer, t: Seq<EscSyntax>, n: int, l: EscLoop, head: Map<u32, ValueView>) -> FlowView
    decreases n, 1nat, 0nat,
{
    if l.do_first {
        normal_view(head, boolean_value(true))
    } else {
        match l.test {
            Some(x) => sub_view(a, t, n, x as int, head),
            None => normal_view(head, if l.optional { builtin_value("boolean"@, 3) } else { boolean_value(true) }),
        }
    }
}

/// `result` with the loop's normal exit when the test `f` may be falsy.
pub open spec fn loop_exit_view(result: FlowView, f: FlowView) -> FlowView {
    if f.contains_key(CompletionView::Normal) && normal_of(f).value.truth & 1 != 0 {
        crate::flow::flow_add_view(result, CompletionView::Normal, StateView { env: normal_of(f).env, value: undefined_value() })
    } else {
        result
    }
}

/// The flow of one run of the body after the test `f`, when it may be truthy.
pub open spec fn loop_iteration_view(a: &Analyzer, t: Seq<EscSyntax>, n: int, l: EscLoop, f: FlowView) -> FlowView
    decreases n, 1nat, 0nat,
{
    let st = normal_of(f);
    after(f, if st.value.truth & 2 != 0 { sub_view(a, t, n, l.body as int, st.env) } else { Map::empty() })
}

/// The flow of the update, and for a body that runs first the test, from
/// the back edge's environment `env`.
pub open spec fn loop_update_view(a: &Analyzer, t: Seq<EscSyntax>, n: int, l: EscLoop, env: Map<u32, ValueView>) -> FlowView
    decreases n, 1nat, 0nat,
{
    let u = match l.update {
        Some(x) => sub_view(a, t, n, x as int, env),
        None => normal_view(env, undefined_value()),
    };
    if l.do_first {
        match l.test {
            Some(x) => after(u, sub_view(a, t, n, x as int, normal_of(u).env)),
            None => u,
        }
    } else {
        u
    }
}

/// What of the update's flow `f` goes back to the head: for a body that
/// runs first, only a test that may be truthy.
pub open spec fn loop_continue_view(f: FlowView, do_first: bool) -> FlowView {
    if do_first {
        let st = normal_of(f);
        after(f, if st.value.truth & 2 != 0 { normal_view(st.env, undefined_value()) } else { Map::empty() })
    } else {
        f
    }
}

/// One round of a loop from the head environment `head`, with the
/// completions `result` found so far: the test and the body run, breaks
/// become exits and continues join the back edge, and the update runs.
/// Gives the completions found, and the next head when something comes
/// back.
pub open spec fn loop_round_view(a: &Analyzer, t: Seq<EscSyntax>, n: int, l: EscLoop, head: Map<u32, ValueView>, result: FlowView) -> (FlowView, Option<Map<u32, ValueView>>)
    decreases n, 1nat, 1nat,
{
    let cond = loop_cond_view(a, t, n, l, head);
    let r1 = loop_exit_view(result, cond);
    let c = crate::flow::close_iteration_view(loop_iteration_view(a, t, n, l, cond), label_view(l.label), r1);
    match c.1 {
        None => (c.0, None),
        Some(b) => {
            let f2 = loop_update_view(a, t, n, l, b.env);
            let r2 = if l.do_first { loop_exit_view(c.0, f2) } else { c.0 };
            let fl = loop_continue_view(f2, l.do_first);
            let r3 = flow_join_view(r2, fl.remove(CompletionView::Normal));
            if fl.contains_key(CompletionView::Normal) {
                (r3, Some(crate::env::join_env_view(head, normal_of(fl).env)))
            } else {
                (r3, None)
            }
        },
    }
}

/// The flow of a loop from the head environment `head`, with the
/// completions `result` found so far: rounds run until nothing comes back
/// or the head no longer changes. With no fuel left, the loop may do
/// anything.
pub open spec fn loop_iter_view(a: &Analyzer, t: Seq<EscSyntax>, n: int, l: EscLoop, head: Map<u32, ValueView>, result: FlowView, fuel: nat) -> FlowView
    decreases n, 2nat, fuel,
{
    if fuel == 0 {
        flow_join_view(result, unknown_flow(head))
    } else {
        let round = loop_round_view(a, t, n, l, head, result);
        match round.1 {
            None => round.0,
            Some(h2) => if h2 == head {
                round.0
            } else {
                loop_iter_view(a, t, n, l, h2, round.0, (fuel - 1) as nat)
            },
        }
    }
}

/// A parameter of a function: its pattern, whether it is optional, and its
/// default, if any.
#[derive(Debug)]
pub struct EscParam {
    pub pattern: usize,
    pub optional: bool,
    pub initializer: Option<usize>,
}

/// A function as the analysis reads it: its parameters, its rest
/// parameter's pattern, and its body: a block, or for an arrow function
/// with an expression body, that expression.
#[derive(Debug)]
pub struct EscFunction {
    pub params: Vec<EscParam>,
    pub rest: Option<usize>,
    pub body: usize,
    pub expression_body: bool,
}

/// Whether the parts of a function come before node `n`.
pub open spec fn function_wf(f: EscFunction, n: int) -> bool {
    &&& f.rest.unwrap_or(0) < n
    &&& f.body < n
    &&& forall|k: int| 0 <= k < f.params@.len() ==> (#[trigger] f.params@[k]).pattern < n && f.params@[k].initializer.unwrap_or(0) < n
}

/// The values a parameter may take when it is given `v` in `env`: an
/// optional one may also be `undefined`; with a default, `undefined` is
/// replaced by what the default gives.
pub open spec fn param_values_view(a: &Analyzer, t: Seq<EscSyntax>, n: int, p: EscParam, v: ValueView, env: Map<u32, ValueView>) -> FlowView {
    let v1 = if p.optional { join_view(v, undefined_value()) } else { v };
    match p.initializer {
        None => normal_view(env, v1),
        Some(i) => {
            let defaulted = v1.types.contains(builtin_view("undefined"@)) || v1.types.contains(unknown_view());
            let kept = ValueView { types: v1.types.remove(builtin_view("undefined"@)), ..v1 };
            let base = if !kept.types.is_empty() { normal_view(env, kept) } else { Map::empty() };
            if defaulted { flow_join_view(base, sub_view(a, t, n, i as int, env)) } else { base }
        },
    }
}

/// Binds the parameters `ps[k..]` to the values `vs[k..]`, one after
/// another from the normal completion of `m`.
pub open spec fn params_view(a: &Analyzer, t: Seq<EscSyntax>, n: int, ps: Seq<EscParam>, vs: Seq<ValueView>, k: int, m: FlowView) -> FlowView
    decreases ps.len() - k,
{
    if 0 <= k < ps.len() {
        let vals = param_values_view(a, t, n, ps[k], vs[k], normal_of(m).env);
        params_view(a, t, n, ps, vs, k + 1, after(m, after(vals, sub_bind_view(a, t, n, ps[k].pattern as int, normal_of(vals).env, normal_of(vals).value))))
    } else {
        m
    }
}

/// The flow of a function, node `n`, whose parameters are given `vs`: from
/// an empty environment, the parameters are bound, the rest parameter is
/// bound to an array, and the body runs; an expression body returns its
/// value.
pub open spec fn function_view(a: &Analyzer, t: Seq<EscSyntax>, n: int, f: EscFunction, vs: Seq<ValueView>) -> FlowView {
    let m = params_view(a, t, n, f.params@, vs, 0, normal_view(Map::empty(), undefined_value()));
    let m2 = match f.rest {
        Some(r) => after(m, sub_bind_view(a, t, n, r as int, normal_of(m).env, builtin_value("Array"@, 3))),
        None => m,
    };
    let st = normal_of(m2);
    after(m2, if f.expression_body {
        let e = sub_view(a, t, n, f.body as int, st.env);
        after(e, one_view(CompletionView::Return, normal_of(e).env, normal_of(e).value))
    } else {
        sub_view(a, t, n, f.body as int, st.env)
    })
}

/// The view of an optional environment.
pub open spec fn option_env_view(e: Option<Env>) -> Option<Map<u32, ValueView>> {
    match e {
        Some(e) => Some(env_entries(e)),
        None => None,
    }
}

/// The views of a sequence of values.
pub open spec fn value_views(vs: Seq<Value>) -> Seq<ValueView> {
    vs.map_values(|v: Value| v@)
}

/// What the analysis knows of one function a call may reach.
#[derive(Debug)]
pub struct EscTargetFacts {
    /// The function's summary.
    pub summary: crate::flow::Summary,
    pub is_async: bool,
    pub is_generator: bool,
    /// The type of an instance the function constructs by itself.
    pub own_type: EscErrorType,
}

/// What the analysis knows of one call.
#[derive(Debug)]
pub struct EscCallFacts {
    pub targets: Vec<EscTargetFacts>,
    /// Additional targets may exist.
    pub unresolved: bool,
    /// The declared types that a `new` of this call constructs.
    pub constructed_types: Types,
    /// The standard globals this call may reach, by path.
    pub global_calls: Vec<String>,
}

/// What the analysis of one module reads: the bindings that calls may
/// change, the standard globals the project assigns to, the facts of each
/// call, and the supertypes of declared classes.
#[derive(Debug)]
pub struct Analyzer {
    pub bindings: BindingFacts,
    pub modified_globals: Vec<String>,
    pub calls: Vec<EscCallFacts>,
    /// The direct supertypes of declared classes, for `instanceof`.
    pub super_types: crate::subtype::EscSuperTypes,
}

/// Splits the normal completion off a flow.
#[verifier::spinoff_prover]
fn split(flow: Flow) -> (r: (Option<State>, Flow))
    ensures
        r.0 is Some <==> flow@.contains_key(CompletionView::Normal),
        r.0 matches Some(st) ==> st@ == flow@[CompletionView::Normal],
        r.1@ == flow@.remove(CompletionView::Normal),
{
    let mut f = flow;
    let st = f.take(&Completion::Normal);
    (st, f)
}

/// The join of two flows.
#[verifier::spinoff_prover]
fn joined(a: Flow, b: Flow) -> (r: Flow)
    ensures
        r@ == flow_join_view(a@, b@),
{
    let mut a = a;
    a.join(b);
    a
}

#[verifier::spinoff_prover]
proof fn lemma_after_none(m: FlowView)
    requires
        !m.contains_key(CompletionView::Normal),
    ensures
        forall|next: FlowView| #[trigger] after(m, next) == m.remove(CompletionView::Normal),
{
    assert(m.remove(CompletionView::Normal) =~= m);
}

/// A value of the builtin type `name` with the given truth bits.
#[verifier::spinoff_prover]
fn builtin_with(name: &str, truth: u8) -> (r: Value)
    ensures
        r@ == builtin_value(name@, truth),
{
    let mut v = Value::builtin(name);
    v.truth = truth;
    v
}

/// An evaluation about which nothing is known.
#[verifier::spinoff_prover]
pub fn unknown_of(env: Env) -> (r: Flow)
    ensures
        r@ == unknown_flow(env_entries(env)),
{
    let e = env_clone(&env);
    let mut types = Types::new();
    types.insert(EscErrorType::unknown());
    assert(types@ =~= Set::empty().insert(unknown_view()));
    Flow::normal(env, Value::unknown()).possible_throw(&e, types)
}

/// A set of one type.
#[verifier::spinoff_prover]
fn single(t: EscErrorType) -> (r: Types)
    ensures
        r@ == Set::empty().insert(t@),
{
    let mut types = Types::new();
    types.insert(t);
    assert(types@ =~= Set::empty().insert(t@));
    types
}

impl Analyzer {
    /// Evaluates node `n` of `tree` in `env`.
    #[verifier::spinoff_prover]
    pub fn eval(&self, tree: &Vec<EscSyntax>, n: usize, env: Env) -> (r: Flow)
        requires
            syntax_wf(self, tree@),
            n < tree@.len(),
        ensures
            r@ == eval_view(self, tree@, n as int, env_entries(env)),
        decreases n, width(tree@, n as int) + 5,
    {
        proof {
            assert(node_wf(self, tree@, n as int));
        }
        match &tree[n] {
            EscSyntax::Call(c) => self.call_expression(tree, n, c, env),
            EscSyntax::Try(tr) => self.try_statement(tree, n, tr, env),
            EscSyntax::Loop(l) => self.loop_statement(tree, n, l, env),
            EscSyntax::Switch(d, cases) => self.switch_statement(tree, n, *d, cases, env),
            EscSyntax::IfNarrowing(x, y, z, w) => self.if_narrowing(tree, n, *x, *y, *z, w, env),
            EscSyntax::ForEach(f) => self.for_each_statement(tree, n, f, env),
            EscSyntax::Template(items) => self.list(tree, n, items, Flow::normal(env, Value::undefined())).value(builtin_with("string", 3)),
            EscSyntax::Array(elems) => self.arguments(tree, n, elems, Flow::normal(env, Value::undefined())).value(builtin_with("Array", 2)),
            EscSyntax::Object(props) => self.object_props(tree, n, props, Flow::normal(env, Value::undefined())).value(builtin_with("object", 2)),
            EscSyntax::Assign(x) => self.assignment(tree, n, x, env),
            EscSyntax::Update(x, s) => {
                let m = self.sub(tree, n, *x, env);
                let ghost mv = m@;
                let (st, rest) = split(m);
                match st {
                    None => {
                        proof { lemma_after_none(mv); }
                        rest
                    },
                    Some(st) => {
                        let safe = st.value.plain_primitive();
                        let mut e = st.env;
                        match s {
                            Some(sym) => {
                                bind(&mut e, *sym, builtin_with("number", 3));
                            },
                            None => {},
                        }
                        let throw_env = env_clone(&e);
                        let f = Flow::normal(e, builtin_with("number", 3));
                        let g = if safe { f } else { f.possible_throw(&throw_env, single(EscErrorType::unknown())) };
                        joined(rest, g)
                    },
                }
            },
            EscSyntax::DeclarePattern(x, init) => {
                let m = match init {
                    Some(i) => self.sub(tree, n, *i, env),
                    None => Flow::normal(env, Value::undefined()),
                };
                let ghost mv = m@;
                let (st, rest) = split(m);
                match st {
                    None => {
                        proof { lemma_after_none(mv); }
                        rest
                    },
                    Some(st) => joined(rest, self.sub_bind(tree, n, *x, st.env, st.value)),
                }
            },
            EscSyntax::Sequence(_) | EscSyntax::Conditional(..) | EscSyntax::Logical(..) | EscSyntax::Unary(..)
                | EscSyntax::Binary(..) | EscSyntax::Await(_) => self.eval_operator(tree, n, env),
            EscSyntax::Block(_) | EscSyntax::Expression(_) | EscSyntax::Declare(_) | EscSyntax::Throw(_)
                | EscSyntax::Return(_) | EscSyntax::If(..) | EscSyntax::Labeled(..) => self.eval_statement(tree, n, env),
            _ => self.eval_leaf(tree, n, env),
        }
    }

    /// Evaluates a node without children to run: a read, a literal, a jump or an unmodelled node.
    #[verifier::spinoff_prover]
    fn eval_leaf(&self, tree: &Vec<EscSyntax>, n: usize, env: Env) -> (r: Flow)
        requires
            syntax_wf(self, tree@),
            n < tree@.len(),
            tree@[n as int] is Local || tree@[n as int] is Global || tree@[n as int] is Boolean || tree@[n as int] is Null || tree@[n as int] is Str || tree@[n as int] is Number || tree@[n as int] is BigInt || tree@[n as int] is RegExp || tree@[n as int] is Function || tree@[n as int] is Opaque || tree@[n as int] is TypeofUnbound || tree@[n as int] is Unknown || tree@[n as int] is UnknownStatement || tree@[n as int] is Break || tree@[n as int] is Continue || tree@[n as int] is Empty || tree@[n as int] is Bind || tree@[n as int] is BindDefault || tree@[n as int] is BindObject || tree@[n as int] is BindArray,
        ensures
            r@ == eval_view(self, tree@, n as int, env_entries(env)),
        decreases n, width(tree@, n as int) + 4,
    {
        proof {
            assert(node_wf(self, tree@, n as int));
        }
        match &tree[n] {
            EscSyntax::Local(s, d) => {
                match lookup(&env, *s) {
                    Some(v) => {
                        let v = v.duplicate();
                        Flow::normal(env, v)
                    },
                    None => {
                        match self.declared(tree, n, *s, d, &env) {
                            Some(v) => Flow::normal(env, v),
                            None => Flow::empty(),
                        }
                    },
                }
            },
            EscSyntax::Global(name) => self.read_global(name.as_str(), env),
            EscSyntax::Boolean(b) => Flow::normal(env, Value::boolean(*b)),
            EscSyntax::Null => Flow::normal(env, builtin_with("null", 1)),
            EscSyntax::Str(empty) => Flow::normal(env, builtin_with("string", if *empty { 1 } else { 2 })),
            EscSyntax::Number(falsy) => Flow::normal(env, builtin_with("number", if *falsy { 1 } else { 2 })),
            EscSyntax::BigInt => Flow::normal(env, builtin_with("bigint", 3)),
            EscSyntax::RegExp => Flow::normal(env, builtin_with("RegExp", 2)),
            EscSyntax::Function => Flow::normal(env, builtin_with("Function", 2)),
            EscSyntax::Opaque => Flow::normal(env, Value::unknown()),
            EscSyntax::TypeofUnbound => Flow::normal(env, builtin_with("string", 3)),
            EscSyntax::Unknown => unknown_of(env),
            EscSyntax::UnknownStatement => unknown_of(env),
            EscSyntax::Break(l) => Flow::one(Completion::Break(copy_label(l)), env, Value::undefined()),
            EscSyntax::Continue(l) => Flow::one(Completion::Continue(copy_label(l)), env, Value::undefined()),
            EscSyntax::Empty => Flow::normal(env, Value::undefined()),
            EscSyntax::Bind(_) | EscSyntax::BindDefault(..) | EscSyntax::BindObject(..) | EscSyntax::BindArray(..) => Flow::normal(env, Value::undefined()),

            _ => Flow::empty(),
        }
    }

    /// Evaluates an operator node.
    #[verifier::spinoff_prover]
    fn eval_operator(&self, tree: &Vec<EscSyntax>, n: usize, env: Env) -> (r: Flow)
        requires
            syntax_wf(self, tree@),
            n < tree@.len(),
            tree@[n as int] is Sequence || tree@[n as int] is Conditional || tree@[n as int] is Logical || tree@[n as int] is Unary || tree@[n as int] is Binary || tree@[n as int] is Await,
        ensures
            r@ == eval_view(self, tree@, n as int, env_entries(env)),
        decreases n, width(tree@, n as int) + 4,
    {
        proof {
            assert(node_wf(self, tree@, n as int));
        }
        match &tree[n] {
            EscSyntax::Sequence(items) => self.list(tree, n, items, Flow::normal(env, Value::undefined())),
            EscSyntax::Conditional(x, y, z) => {
                let m = self.sub(tree, n, *x, env);
                let ghost mv = m@;
                let (st, rest) = split(m);
                match st {
                    None => {
                        proof { lemma_after_none(mv); }
                        rest
                    },
                    Some(st) => {
                        let mut f = Flow::empty();
                        if st.value.truth & 2 != 0 {
                            f.join(self.sub(tree, n, *y, env_clone(&st.env)));
                        }
                        if st.value.truth & 1 != 0 {
                            f.join(self.sub(tree, n, *z, env_clone(&st.env)));
                        }
                        joined(rest, f)
                    },
                }
            },
            EscSyntax::Logical(op, x, y) => {
                let m = self.sub(tree, n, *x, env);
                let ghost mv = m@;
                let (st, rest) = split(m);
                match st {
                    None => {
                        proof { lemma_after_none(mv); }
                        rest
                    },
                    Some(st) => {
                        let (right, left) = logical_of(op, &st.value);
                        let mut f = Flow::empty();
                        if right {
                            f.join(self.sub(tree, n, *y, env_clone(&st.env)));
                        }
                        if left {
                            f.join(Flow::normal(st.env, st.value));
                        }
                        joined(rest, f)
                    },
                }
            },
            EscSyntax::Unary(op, x) => {
                let m = self.sub(tree, n, *x, env);
                let ghost mv = m@;
                let (st, rest) = split(m);
                match st {
                    None => {
                        proof { lemma_after_none(mv); }
                        rest
                    },
                    Some(st) => {
                        let v = unary_of(op, &st.value);
                        let safe = match op {
                            EscUnary::Not | EscUnary::Typeof | EscUnary::Void => true,
                            EscUnary::Delete => false,
                            EscUnary::Numeric => st.value.plain_primitive(),
                        };
                        let e = env_clone(&st.env);
                        let f = Flow::normal(st.env, v);
                        let f = if safe { f } else { f.possible_throw(&e, single(EscErrorType::unknown())) };
                        joined(rest, f)
                    },
                }
            },
            EscSyntax::Binary(op, x, y, known) => {
                let m = self.sub(tree, n, *x, env);
                let ghost mv = m@;
                let (l, rest) = split(m);
                match l {
                    None => {
                        proof { lemma_after_none(mv); }
                        rest
                    },
                    Some(l) => {
                        let m2 = self.sub(tree, n, *y, env_clone(&l.env));
                        let ghost mv2 = m2@;
                        let (r, rest2) = split(m2);
                        let inner = match r {
                            None => {
                                proof { lemma_after_none(mv2); }
                                rest2
                            },
                            Some(r) => {
                                let v = binary_of(op, &l.value, &r.value);
                                let safe = match op {
                                    EscBinary::Strict => true,
                                    EscBinary::In => false,
                                    EscBinary::InstanceOf => *known,
                                    _ => l.value.plain_primitive() && r.value.plain_primitive(),
                                };
                                let e = env_clone(&r.env);
                                let f = Flow::normal(r.env, v);
                                let f = if safe { f } else { f.possible_throw(&e, single(EscErrorType::unknown())) };
                                joined(rest2, f)
                            },
                        };
                        joined(rest, inner)
                    },
                }
            },
            EscSyntax::Await(x) => {
                let m = self.sub(tree, n, *x, env);
                let ghost mv = m@;
                let (st, rest) = split(m);
                match st {
                    None => {
                        proof { lemma_after_none(mv); }
                        rest
                    },
                    Some(st) => joined(rest, awaited(st)),
                }
            },
            _ => Flow::empty(),
        }
    }

    /// Evaluates a statement node.
    #[verifier::spinoff_prover]
    fn eval_statement(&self, tree: &Vec<EscSyntax>, n: usize, env: Env) -> (r: Flow)
        requires
            syntax_wf(self, tree@),
            n < tree@.len(),
            tree@[n as int] is Block || tree@[n as int] is Expression || tree@[n as int] is Declare || tree@[n as int] is Throw || tree@[n as int] is Return || tree@[n as int] is If || tree@[n as int] is Labeled,
        ensures
            r@ == eval_view(self, tree@, n as int, env_entries(env)),
        decreases n, width(tree@, n as int) + 4,
    {
        proof {
            assert(node_wf(self, tree@, n as int));
        }
        match &tree[n] {
            EscSyntax::Block(items) => self.list(tree, n, items, Flow::normal(env, Value::undefined())),
            EscSyntax::Expression(x) => self.sub(tree, n, *x, env).value(Value::undefined()),
            EscSyntax::Declare(ds) => self.declare(tree, n, ds, Flow::normal(env, Value::undefined())),
            EscSyntax::Throw(x) => {
                let m = self.sub(tree, n, *x, env);
                let ghost mv = m@;
                let (st, rest) = split(m);
                match st {
                    None => {
                        proof { lemma_after_none(mv); }
                        rest
                    },
                    Some(st) => {
                        let f = if st.value.types.is_empty() {
                            Flow::empty()
                        } else {
                            Flow::one(Completion::Throw, st.env, Value::of_types(st.value.types))
                        };
                        joined(rest, f)
                    },
                }
            },
            EscSyntax::Return(x) => {
                let m = match x {
                    Some(i) => self.sub(tree, n, *i, env),
                    None => Flow::normal(env, Value::undefined()),
                };
                let ghost mv = m@;
                let (st, rest) = split(m);
                match st {
                    None => {
                        proof { lemma_after_none(mv); }
                        rest
                    },
                    Some(st) => joined(rest, Flow::one(Completion::Return, st.env, st.value)),
                }
            },
            EscSyntax::If(x, y, z) => {
                let m = self.sub(tree, n, *x, env);
                let ghost mv = m@;
                let (st, rest) = split(m);
                match st {
                    None => {
                        proof { lemma_after_none(mv); }
                        rest
                    },
                    Some(st) => {
                        let mut f = Flow::empty();
                        if st.value.truth & 2 != 0 {
                            f.join(self.sub(tree, n, *y, env_clone(&st.env)));
                        }
                        if st.value.truth & 1 != 0 {
                            let other = match z {
                                Some(i) => self.sub(tree, n, *i, env_clone(&st.env)),
                                None => Flow::normal(env_clone(&st.env), Value::undefined()),
                            };
                            f.join(other);
                        }
                        joined(rest, f)
                    },
                }
            },
            EscSyntax::Labeled(l, x) => self.sub(tree, n, *x, env).close_label(l.as_str()),
            _ => Flow::empty(),
        }
    }

    /// Evaluates node `c`, a child of node `n`.
    #[verifier::spinoff_prover]
    fn sub(&self, tree: &Vec<EscSyntax>, n: usize, c: usize, env: Env) -> (r: Flow)
        requires
            syntax_wf(self, tree@),
            n < tree@.len(),
            c < n,
        ensures
            r@ == sub_view(self, tree@, n as int, c as int, env_entries(env)),
        decreases n, 0nat,
    {
        self.eval(tree, c, env)
    }

    /// Runs the nodes `items`, children of node `n`, one after another.
    #[verifier::spinoff_prover]
    fn list(&self, tree: &Vec<EscSyntax>, n: usize, items: &Vec<usize>, m: Flow) -> (r: Flow)
        requires
            syntax_wf(self, tree@),
            n < tree@.len(),
            forall|k: int| 0 <= k < items@.len() ==> #[trigger] items@[k] < n,
        ensures
            r@ == list_view(self, tree@, n as int, items@, 0, m@),
        decreases n, items@.len() + 1,
    {
        let ghost m0 = m@;
        let mut flow = m;
        let mut k: usize = 0;
        while k < items.len()
            invariant
                syntax_wf(self, tree@),
                n < tree@.len(),
                forall|k: int| 0 <= k < items@.len() ==> #[trigger] items@[k] < n,
                0 <= k <= items@.len(),
                list_view(self, tree@, n as int, items@, 0, m0) == list_view(self, tree@, n as int, items@, k as int, flow@),
            decreases items@.len() - k,
        {
            let ghost fv = flow@;
            let (st, rest) = split(flow);
            flow = match st {
                None => {
                    proof { lemma_after_none(fv); }
                    rest
                },
                Some(st) => {
                    let next = self.sub(tree, n, items[k], st.env);
                    joined(rest, next)
                },
            };
            k = k + 1;
        }
        flow
    }
}

/// Whether the right operand of a logical expression runs, and whether the
/// left value is a result.
#[verifier::spinoff_prover]
fn logical_of(op: &EscLogical, v: &Value) -> (r: (bool, bool))
    ensures
        r == logical_branches(*op, v@),
{
    match op {
        EscLogical::And => (v.truth & 2 != 0, v.truth & 1 != 0),
        EscLogical::Or => (v.truth & 1 != 0, v.truth & 2 != 0),
        EscLogical::Coalesce => {
            let right = v.types.contains(&EscErrorType::builtin("null")) || v.types.contains(&EscErrorType::builtin("undefined"))
                || v.types.contains(&EscErrorType::unknown());
            let mut rest = v.types.duplicate();
            rest.remove(&EscErrorType::builtin("null"));
            rest.remove(&EscErrorType::builtin("undefined"));
            let left = !rest.is_empty();
            proof {
                if left {
                    if !(exists|t: ErrorTypeView| rest@.contains(t)) {
                        assert(rest@ =~= Set::<ErrorTypeView>::empty());
                    }
                    let t = choose|t: ErrorTypeView| rest@.contains(t);
                    assert(v@.types.contains(t) && t != builtin_view("null"@) && t != builtin_view("undefined"@));
                } else {
                    assert forall|t: ErrorTypeView| !(v@.types.contains(t) && t != builtin_view("null"@) && t != builtin_view("undefined"@)) by {
                        if v@.types.contains(t) && t != builtin_view("null"@) && t != builtin_view("undefined"@) {
                            assert(rest@.contains(t));
                        }
                    }
                }
            }
            (right, left)
        },
    }
}

/// The value of a unary expression.
#[verifier::spinoff_prover]
fn unary_of(op: &EscUnary, v: &Value) -> (r: Value)
    ensures
        r@ == unary_value(*op, v@),
{
    match op {
        EscUnary::Not => builtin_with("boolean", ((v.truth & 1) << 1u8) | ((v.truth & 2) >> 1u8)),
        EscUnary::Typeof => builtin_with("string", 2),
        EscUnary::Void => Value::undefined(),
        EscUnary::Delete => builtin_with("boolean", 3),
        EscUnary::Numeric => builtin_with("number", 3),
    }
}

/// The value of a binary expression.
#[verifier::spinoff_prover]
fn binary_of(op: &EscBinary, l: &Value, r: &Value) -> (out: Value)
    ensures
        out@ == binary_value(*op, l@, r@),
{
    match op {
        EscBinary::Plus => {
            let mut v = builtin_with("number", 3);
            if !l.plain_primitive() || !r.plain_primitive() || l.types.contains(&EscErrorType::builtin("string"))
                || r.types.contains(&EscErrorType::builtin("string")) {
                v.join(builtin_with("string", 3));
            }
            v
        },
        EscBinary::Arithmetic => builtin_with("number", 3),
        _ => builtin_with("boolean", 3),
    }
}

/// What awaiting the value of `st` gives.
#[verifier::spinoff_prover]
fn awaited(st: State) -> (r: Flow)
    ensures
        r@ == await_view(st@.env, st@.value),
{
    let promise = st.value.types.contains(&EscErrorType::builtin("Promise"));
    let unknown = st.value.types.contains(&EscErrorType::unknown());
    let mut types = st.value.types.duplicate();
    types.remove(&EscErrorType::builtin("Promise"));
    types.join(st.value.awaited.duplicate());
    let e = env_clone(&st.env);
    let mut f = if types.is_empty() {
        Flow::empty()
    } else {
        Flow::normal(env_clone(&st.env), Value::of_types(types))
    };
    if promise {
        f = f.possible_throw(&e, st.value.deferred.duplicate());
    }
    if unknown {
        f = f.possible_throw(&e, single(EscErrorType::unknown()));
    }
    f
}

/// The set of the types of a vector.
#[verifier::spinoff_prover]
fn types_of(v: &Vec<EscErrorType>) -> (r: Types)
    ensures
        r@ == crate::set::views(v@).to_set(),
{
    let mut r = Types::new();
    let mut k: usize = 0;
    assert(crate::set::views(v@.take(0)).to_set() =~= Set::<ErrorTypeView>::empty());
    while k < v.len()
        invariant
            0 <= k <= v@.len(),
            r@ == crate::set::views(v@.take(k as int)).to_set(),
        decreases v@.len() - k,
    {
        r.insert(v[k].duplicate());
        proof {
            assert(v@.take(k + 1) =~= v@.take(k as int).push(v@[k as int]));
            crate::set::lemma_views_push(v@.take(k as int), v@[k as int]);
        }
        k = k + 1;
    }
    assert(v@.take(k as int) =~= v@);
    r
}

/// The value a `new` or `super` call gives for a returned value `v`.
#[verifier::spinoff_prover]
fn instance_of(v: &Value, fallback: Types) -> (r: Value)
    ensures
        r@ == instance_value(v@, fallback@),
{
    let mut r = v.duplicate();
    let ghost t0 = r.types@;
    let had = r.types.contains(&EscErrorType::builtin("undefined")) || r.types.contains(&EscErrorType::builtin("null"))
        || r.types.contains(&EscErrorType::builtin("number")) || r.types.contains(&EscErrorType::builtin("string"))
        || r.types.contains(&EscErrorType::builtin("boolean")) || r.types.contains(&EscErrorType::builtin("bigint"))
        || r.types.contains(&EscErrorType::builtin("symbol"));
    let uses = had || r.types.contains(&EscErrorType::unknown());
    r.types.remove(&EscErrorType::builtin("undefined"));
    r.types.remove(&EscErrorType::builtin("null"));
    r.types.remove(&EscErrorType::builtin("number"));
    r.types.remove(&EscErrorType::builtin("string"));
    r.types.remove(&EscErrorType::builtin("boolean"));
    r.types.remove(&EscErrorType::builtin("bigint"));
    r.types.remove(&EscErrorType::builtin("symbol"));
    proof {
        assert(r.types@ =~= t0.filter(|t: ErrorTypeView| !primitive_result(t)));
        let p = exists|t: ErrorTypeView| t0.contains(t) && primitive_result(t);
        if p {
            let t = choose|t: ErrorTypeView| t0.contains(t) && primitive_result(t);
            assert(had);
        }
        if had {
            if t0.contains(builtin_view("undefined"@)) { assert(primitive_result(builtin_view("undefined"@))); }
            else if t0.contains(builtin_view("null"@)) { assert(primitive_result(builtin_view("null"@))); }
            else if t0.contains(builtin_view("number"@)) { assert(primitive_result(builtin_view("number"@))); }
            else if t0.contains(builtin_view("string"@)) { assert(primitive_result(builtin_view("string"@))); }
            else if t0.contains(builtin_view("boolean"@)) { assert(primitive_result(builtin_view("boolean"@))); }
            else if t0.contains(builtin_view("bigint"@)) { assert(primitive_result(builtin_view("bigint"@))); }
            else { assert(primitive_result(builtin_view("symbol"@))); }
            assert(p);
        }
    }
    if uses {
        r.types.join(fallback);
    }
    r.truth = 2;
    r
}

/// Whether every type of a set is declared.
#[verifier::spinoff_prover]
fn all_declared_of(types: &Types) -> (r: bool)
    ensures
        r == all_declared(types@),
{
    let v = types.to_vec();
    let mut k: usize = 0;
    while k < v.len()
        invariant
            0 <= k <= v@.len(),
            crate::set::views(v@).to_set() == types@,
            forall|j: int| 0 <= j < k ==> v@[j]@ is Node,
        decreases v@.len() - k,
    {
        if v[k].builtin_name().is_some() {
            assert(crate::set::views(v@)[k as int] == v@[k as int]@);
            assert(types@.contains(v@[k as int]@));
            return false;
        }
        k = k + 1;
    }
    proof {
        assert forall|t: ErrorTypeView| types@.contains(t) implies t is Node by {
            let j = choose|j: int| 0 <= j < v@.len() && crate::set::views(v@)[j] == t;
            assert(crate::set::views(v@)[j] == v@[j]@);
        }
    }
    true
}

/// Whether every type is an array, a string or a generator.
#[verifier::spinoff_prover]
fn iterable_of(types: &Types) -> (r: bool)
    ensures
        r == iterable(types@),
{
    let v = types.to_vec();
    let array = EscErrorType::builtin("Array");
    let string = EscErrorType::builtin("string");
    let generator = EscErrorType::builtin("Generator");
    let mut k: usize = 0;
    while k < v.len()
        invariant
            0 <= k <= v@.len(),
            crate::set::views(v@).to_set() == types@,
            array@ == builtin_view("Array"@),
            string@ == builtin_view("string"@),
            generator@ == builtin_view("Generator"@),
            forall|j: int| 0 <= j < k ==> #[trigger] v@[j]@ == builtin_view("Array"@) || v@[j]@ == builtin_view("string"@) || v@[j]@ == builtin_view("Generator"@),
        decreases v@.len() - k,
    {
        if !v[k].same(&array) && !v[k].same(&string) && !v[k].same(&generator) {
            assert(crate::set::views(v@)[k as int] == v@[k as int]@);
            assert(types@.contains(v@[k as int]@));
            return false;
        }
        k = k + 1;
    }
    proof {
        assert forall|t: ErrorTypeView| types@.contains(t) implies t == builtin_view("Array"@) || t == builtin_view("string"@) || t == builtin_view("Generator"@) by {
            let j = choose|j: int| 0 <= j < v@.len() && crate::set::views(v@)[j] == t;
            assert(crate::set::views(v@)[j] == v@[j]@);
        }
    }
    true
}

impl Analyzer {
    /// The values a parameter may take when it is given `v` in `env`.
    #[verifier::spinoff_prover]
    fn param_values(&self, tree: &Vec<EscSyntax>, n: usize, p: &EscParam, v: Value, env: Env) -> (r: Flow)
        requires
            syntax_wf(self, tree@),
            n < tree@.len(),
            p.initializer.unwrap_or(0) < n,
        ensures
            r@ == param_values_view(self, tree@, n as int, *p, v@, env_entries(env)),
    {
        let mut v1 = v;
        if p.optional {
            v1.join(Value::undefined());
        }
        match p.initializer {
            None => Flow::normal(env, v1),
            Some(i) => {
                let mut kept = v1;
                let had_undefined = kept.types.remove(&EscErrorType::builtin("undefined"));
                let defaulted = had_undefined || kept.types.contains(&EscErrorType::unknown());
                let mut base = Flow::empty();
                if !kept.types.is_empty() {
                    base = Flow::normal(env_clone(&env), kept);
                }
                if defaulted {
                    joined(base, self.sub(tree, n, i, env))
                } else {
                    base
                }
            },
        }
    }

    /// The flow of function `f`, node `n`, whose parameters are given
    /// `values`.
    #[verifier::spinoff_prover]
    pub fn function_flow(&self, tree: &Vec<EscSyntax>, n: usize, f: &EscFunction, values: Vec<Value>) -> (r: Flow)
        requires
            syntax_wf(self, tree@),
            n < tree@.len(),
            function_wf(*f, n as int),
            values@.len() == f.params@.len(),
        ensures
            r@ == function_view(self, tree@, n as int, *f, value_views(values@)),
    {
        let ghost vs = value_views(values@);
        let ghost m0 = normal_view(Map::empty(), undefined_value());
        let mut flow = Flow::normal(crate::env::empty_env(), Value::undefined());
        let mut rest_values = values;
        let mut k: usize = 0;
        while k < f.params.len()
            invariant
                syntax_wf(self, tree@),
                n < tree@.len(),
                function_wf(*f, n as int),
                vs.len() == f.params@.len(),
                0 <= k <= f.params@.len(),
                value_views(rest_values@) == vs.skip(k as int),
                params_view(self, tree@, n as int, f.params@, vs, 0, m0) == params_view(self, tree@, n as int, f.params@, vs, k as int, flow@),
            decreases f.params@.len() - k,
        {
            let ghost before = rest_values@;
            proof {
                assert(vs.skip(k as int).len() > 0);
                assert(value_views(before).len() == before.len());
            }
            let v = rest_values.remove(0);
            proof {
                assert(value_views(before)[0] == vs.skip(k as int)[0]);
                assert(value_views(before)[0] == before[0]@);
                assert(v@ == vs[k as int]);
                assert(value_views(rest_values@) =~= value_views(before).drop_first());
                assert(vs.skip(k as int).drop_first() =~= vs.skip(k + 1));
            }
            let p = &f.params[k];
            assert(p.pattern < n && p.initializer.unwrap_or(0) < n);
            let ghost fv = flow@;
            let (st, others) = split(flow);
            flow = match st {
                None => {
                    proof { lemma_after_none(fv); }
                    others
                },
                Some(st) => {
                    let vals = self.param_values(tree, n, p, v, st.env);
                    let ghost vv = vals@;
                    let (vst, vrest) = split(vals);
                    let bound = match vst {
                        None => {
                            proof { lemma_after_none(vv); }
                            vrest
                        },
                        Some(vst) => joined(vrest, self.sub_bind(tree, n, p.pattern, vst.env, vst.value)),
                    };
                    joined(others, bound)
                },
            };
            k = k + 1;
        }
        let m2 = match f.rest {
            Some(r) => {
                let ghost fv = flow@;
                let (st, others) = split(flow);
                match st {
                    None => {
                        proof { lemma_after_none(fv); }
                        others
                    },
                    Some(st) => joined(others, self.sub_bind(tree, n, r, st.env, Value::builtin("Array"))),
                }
            },
            None => flow,
        };
        let ghost mv = m2@;
        let (st, others) = split(m2);
        match st {
            None => {
                proof { lemma_after_none(mv); }
                others
            },
            Some(st) => {
                let body = if f.expression_body {
                    let e = self.sub(tree, n, f.body, st.env);
                    let ghost ev = e@;
                    let (est, erest) = split(e);
                    match est {
                        None => {
                            proof { lemma_after_none(ev); }
                            erest
                        },
                        Some(est) => joined(erest, Flow::one(Completion::Return, est.env, est.value)),
                    }
                } else {
                    self.sub(tree, n, f.body, st.env)
                };
                joined(others, body)
            },
        }
    }

    /// The summary of function `f`, node `n`: `None` when no call reaches
    /// it, otherwise the values its parameters are given.
    pub fn function_summary(&self, tree: &Vec<EscSyntax>, n: usize, f: &EscFunction, values: Option<Vec<Value>>, is_async: bool) -> (r: crate::flow::Summary)
        requires
            syntax_wf(self, tree@),
            n < tree@.len(),
            function_wf(*f, n as int),
            values matches Some(vs) ==> vs@.len() == f.params@.len(),
        ensures
            values is None ==> r@ == (crate::flow::SummaryView { errors: Set::empty(), returned: bottom_view(), completes: false }),
            values matches Some(vs) ==> r@ == crate::flow::flow_summary_view(function_view(self, tree@, n as int, *f, value_views(vs@)), is_async),
    {
        match values {
            None => crate::flow::Summary::new(),
            Some(vs) => crate::flow::Summary::of_flow(self.function_flow(tree, n, f, vs), is_async),
        }
    }

    /// The value a local read of `s` finds outside the environment.
    #[verifier::spinoff_prover]
    fn declared(&self, tree: &Vec<EscSyntax>, n: usize, s: u32, d: &EscDeclared, env: &Env) -> (r: Option<Value>)
        requires
            syntax_wf(self, tree@),
            n < tree@.len(),
            self.knows(s),
            d matches EscDeclared::Initializer(i) ==> i < n,
        ensures
            match r {
                Some(v) => declared_value(self, tree@, n as int, s, *d, env_entries(*env)) == Some(v@),
                None => declared_value(self, tree@, n as int, s, *d, env_entries(*env)) is None,
            },
        decreases n, 1nat,
    {
        let found = match d {
            EscDeclared::Other => Some(Value::unknown()),
            EscDeclared::Uninitialized => Some(Value::undefined()),
            EscDeclared::Initializer(i) => {
                let mut f = self.sub(tree, n, *i, env_clone(env));
                match f.take(&Completion::Normal) {
                    Some(st) => Some(st.value),
                    None => None,
                }
            },
        };
        match found {
            Some(v) => {
                let mut v = v;
                if self.bindings.is_mutated(s) {
                    v.join(Value::unknown());
                }
                Some(v)
            },
            None => None,
        }
    }

    /// Whether the project assigns to the standard global `name`.
    #[verifier::spinoff_prover]
    fn assigns_global(&self, name: &str) -> (r: bool)
        ensures
            r == assigns(self, name@),
    {
        let ghost views = self.modified_globals@.map_values(|g: String| g@);
        let mut i: usize = 0;
        while i < self.modified_globals.len()
            invariant
                0 <= i <= self.modified_globals@.len(),
                views == self.modified_globals@.map_values(|g: String| g@),
                forall|j: int| 0 <= j < i ==> views[j] != name@,
            decreases self.modified_globals@.len() - i,
        {
            if crate::text::str_eq(self.modified_globals[i].as_str(), name) {
                assert(views[i as int] == name@);
                return true;
            }
            i = i + 1;
        }
        false
    }

    /// The standard global at `path`, unless the project assigns to it.
    #[verifier::spinoff_prover]
    fn global_of(&self, path: &str) -> (r: Option<crate::globals::EscGlobal>)
        ensures
            crate::globals::global_view(r) == analyzer_global(self, path@),
    {
        let root = crate::resolve::before_first_dot(path);
        if self.assigns_global("globalThis") || self.assigns_global(root.as_str()) {
            None
        } else {
            crate::globals::EscGlobals::get(path)
        }
    }

    /// Reads a name that no declaration binds.
    #[verifier::spinoff_prover]
    fn read_global(&self, name: &str, env: Env) -> (r: Flow)
        ensures
            r@ == global_read_view(self, name@, env_entries(env)),
    {
        let e = env_clone(&env);
        match self.global_of(name) {
            Some(g) => {
                let v = Value::global(&g);
                let errors = types_of(&g.read_errors);
                Flow::normal(env, v).possible_throw(&e, errors)
            },
            None => {
                if crate::text::str_eq(name, "undefined") {
                    Flow::normal(env, Value::undefined())
                } else if crate::text::str_eq(name, "NaN") || crate::text::str_eq(name, "Infinity") {
                    Flow::normal(env, builtin_with("number", 3))
                } else if crate::globals::EscGlobals::get(name).is_some() {
                    Flow::normal(env, Value::unknown())
                } else {
                    Flow::normal(env, Value::unknown()).possible_throw(&e, single(EscErrorType::builtin("ReferenceError")))
                }
            },
        }
    }

    /// Runs the declarators `ds` of node `n` one after another.
    #[verifier::spinoff_prover]
    fn declare(&self, tree: &Vec<EscSyntax>, n: usize, ds: &Vec<(Option<u32>, Option<usize>)>, m: Flow) -> (r: Flow)
        requires
            syntax_wf(self, tree@),
            n < tree@.len(),
            forall|k: int| 0 <= k < ds@.len() ==> (#[trigger] ds@[k]).1.unwrap_or(0) < n,
        ensures
            r@ == declare_view(self, tree@, n as int, ds@, 0, m@),
        decreases n, ds@.len() + 1,
    {
        let ghost m0 = m@;
        let mut flow = m;
        let mut k: usize = 0;
        while k < ds.len()
            invariant
                syntax_wf(self, tree@),
                n < tree@.len(),
                forall|k: int| 0 <= k < ds@.len() ==> (#[trigger] ds@[k]).1.unwrap_or(0) < n,
                0 <= k <= ds@.len(),
                declare_view(self, tree@, n as int, ds@, 0, m0) == declare_view(self, tree@, n as int, ds@, k as int, flow@),
            decreases ds@.len() - k,
        {
            let ghost fv = flow@;
            let (st, rest) = split(flow);
            flow = match st {
                None => {
                    proof { lemma_after_none(fv); }
                    rest
                },
                Some(st) => {
                    assert(ds@[k as int].1.unwrap_or(0) < n);
                    let init = match ds[k].1 {
                        Some(i) => self.sub(tree, n, i, st.env),
                        None => Flow::normal(st.env, Value::undefined()),
                    };
                    let ghost iv = init@;
                    let (ist, irest) = split(init);
                    let next = match ist {
                        None => {
                            proof { lemma_after_none(iv); }
                            irest
                        },
                        Some(ist) => {
                            let mut e = ist.env;
                            match ds[k].0 {
                                Some(sym) => {
                                    bind(&mut e, sym, ist.value);
                                },
                                None => {},
                            }
                            joined(irest, Flow::normal(e, Value::undefined()))
                        },
                    };
                    joined(rest, next)
                },
            };
            k = k + 1;
        }
        flow
    }
}

/// The optional facts of a call, by value.
pub open spec fn facts_view(f: Option<&EscCallFacts>) -> Option<EscCallFacts> {
    match f {
        Some(f) => Some(*f),
        None => None,
    }
}

impl Analyzer {
    /// Evaluates a call expression, node `n`.
    #[verifier::spinoff_prover]
    pub fn call_expression(&self, tree: &Vec<EscSyntax>, n: usize, c: &EscCallExpr, env: Env) -> (r: Flow)
        requires
            syntax_wf(self, tree@),
            n < tree@.len(),
            call_wf(self, *c, n as int),
        ensures
            r@ == call_view(self, tree@, n as int, *c, env_entries(env)),
        decreases n, c.arguments@.len() + 3,
    {
        let facts: Option<&EscCallFacts> = match c.call {
            Some(i) => Some(&self.calls[i]),
            None => None,
        };
        let linked = match facts {
            Some(f) => !f.unresolved && f.global_calls.len() == 0 && c.member.is_some(),
            None => false,
        };
        let start = env_clone(&env);
        let m0 = if linked {
            match &c.member {
                Some(m) => self.member(tree, n, m, env),
                None => Flow::empty(),
            }
        } else {
            self.sub(tree, n, c.callee, env)
        };
        let m1 = self.arguments(tree, n, &c.arguments, m0);
        let ghost mv = m1@;
        let (st, rest) = split(m1);
        let m2 = match st {
            None => {
                proof { lemma_after_none(mv); }
                rest
            },
            Some(st) => joined(rest, self.invoke_facts(facts, c.new, c.super_callee, st.env)),
        };
        if c.optional {
            joined(m2, Flow::normal(start, Value::undefined()))
        } else {
            m2
        }
    }

    /// Evaluates the operands of a member expression, children of node `n`.
    #[verifier::spinoff_prover]
    fn member(&self, tree: &Vec<EscSyntax>, n: usize, m: &(usize, Option<usize>), env: Env) -> (r: Flow)
        requires
            syntax_wf(self, tree@),
            n < tree@.len(),
            m.0 < n,
            m.1.unwrap_or(0) < n,
        ensures
            r@ == member_view(self, tree@, n as int, *m, env_entries(env)),
        decreases n, 1nat,
    {
        let f = self.sub(tree, n, m.0, env);
        match m.1 {
            Some(k) => {
                let ghost fv = f@;
                let (st, rest) = split(f);
                match st {
                    None => {
                        proof { lemma_after_none(fv); }
                        rest
                    },
                    Some(st) => joined(rest, self.sub(tree, n, k, st.env)),
                }
            },
            None => f,
        }
    }

    /// Evaluates the arguments `args`, children of node `n`, one after another.
    #[verifier::spinoff_prover]
    fn arguments(&self, tree: &Vec<EscSyntax>, n: usize, args: &Vec<(usize, bool)>, m: Flow) -> (r: Flow)
        requires
            syntax_wf(self, tree@),
            n < tree@.len(),
            forall|k: int| 0 <= k < args@.len() ==> (#[trigger] args@[k]).0 < n,
        ensures
            r@ == args_view(self, tree@, n as int, args@, 0, m@),
        decreases n, args@.len() + 1,
    {
        let ghost m0 = m@;
        let mut flow = m;
        let mut k: usize = 0;
        while k < args.len()
            invariant
                syntax_wf(self, tree@),
                n < tree@.len(),
                forall|k: int| 0 <= k < args@.len() ==> (#[trigger] args@[k]).0 < n,
                0 <= k <= args@.len(),
                args_view(self, tree@, n as int, args@, 0, m0) == args_view(self, tree@, n as int, args@, k as int, flow@),
            decreases args@.len() - k,
        {
            let ghost fv = flow@;
            let (st, rest) = split(flow);
            let f = match st {
                None => {
                    proof { lemma_after_none(fv); }
                    rest
                },
                Some(st) => {
                    assert(args@[k as int].0 < n);
                    joined(rest, self.sub(tree, n, args[k].0, st.env))
                },
            };
            flow = if args[k].1 {
                let ghost gv = f@;
                let (st2, rest2) = split(f);
                match st2 {
                    None => {
                        proof { lemma_after_none(gv); }
                        rest2
                    },
                    Some(st2) => joined(rest2, unknown_of(st2.env)),
                }
            } else {
                f
            };
            k = k + 1;
        }
        flow
    }

    /// Widens the bindings that other functions write, where every binding
    /// is a symbol whose writes are known.
    #[verifier::spinoff_prover]
    fn widen_env(&self, env: &mut Env)
        ensures
            env_entries(*final(env)) == widened_env(self, env_entries(*old(env))),
    {
        let count = self.bindings.symbol_count();
        let keys = crate::env::env_keys(env);
        let mut k: usize = 0;
        let mut known = true;
        while k < keys.len()
            invariant
                0 <= k <= keys@.len(),
                known == forall|j: int| 0 <= j < k ==> (keys@[j] as int) < count,
            decreases keys@.len() - k,
        {
            if keys[k] as usize >= count {
                known = false;
            }
            k = k + 1;
        }
        proof {
            if known {
                assert forall|key: u32| env_entries(*env).contains_key(key) implies key < self.bindings.flags().len() by {
                    assert(keys@.contains(key));
                    let j = choose|j: int| 0 <= j < keys@.len() && keys@[j] == key;
                }
            } else {
                let j = choose|j: int| 0 <= j < keys@.len() && !((keys@[j] as int) < count);
                assert(env_entries(*env).contains_key(keys@[j]));
            }
        }
        if known {
            self.bindings.widen(env);
        }
    }

    /// Invokes the call with facts number `call`, if any, in `env`.
    #[verifier::spinoff_prover]
    pub fn invoke(&self, call: Option<usize>, new: bool, super_call: bool, env: Env) -> (r: Flow)
        requires
            call.unwrap_or(0) < self.calls@.len() || call is None,
        ensures
            r@ == invoke_view(self, match call {
                Some(i) => Some(self.calls@[i as int]),
                None => None,
            }, new, super_call, env_entries(env)),
    {
        let facts: Option<&EscCallFacts> = match call {
            Some(i) => Some(&self.calls[i]),
            None => None,
        };
        self.invoke_facts(facts, new, super_call, env)
    }

    #[verifier::spinoff_prover]
    fn invoke_facts(&self, facts: Option<&EscCallFacts>, new: bool, super_call: bool, env: Env) -> (r: Flow)
        ensures
            r@ == invoke_view(self, facts_view(facts), new, super_call, env_entries(env)),
    {
        let f = match facts {
            None => {
                return unknown_of(env);
            },
            Some(f) => f,
        };
        let may_call = f.unresolved || f.targets.len() > 0;
        let mut env = env;
        if may_call {
            self.widen_env(&mut env);
        }
        if !new && !super_call && !f.constructed_types.is_empty() && all_declared_of(&f.constructed_types) {
            let thrown = Flow::one(Completion::Throw, env_clone(&env), builtin_with("TypeError", 3));
            if may_call {
                return joined(thrown, unknown_of(env));
            }
            return thrown;
        }
        let ghost e = env_entries(env);
        let ghost paths = f.global_calls@.map_values(|p: String| p@);
        let mut flow = Flow::empty();
        let mut k: usize = 0;
        while k < f.global_calls.len()
            invariant
                e == env_entries(env),
                paths == f.global_calls@.map_values(|p: String| p@),
                0 <= k <= f.global_calls@.len(),
                globals_fold(self, paths, new, e, 0, Map::empty()) == globals_fold(self, paths, new, e, k as int, flow@),
            decreases f.global_calls@.len() - k,
        {
            let add = match self.global_of(f.global_calls[k].as_str()) {
                None => unknown_of(env_clone(&env)),
                Some(g) => {
                    let model = if new { &g.construct } else { &g.call };
                    match model {
                        Some(mm) => Flow::normal(env_clone(&env), builtin_with(mm.returns.as_str(), 3)).possible_throw(&env, types_of(&mm.errors)),
                        None => Flow::one(Completion::Throw, env_clone(&env), builtin_with("TypeError", 3)),
                    }
                },
            };
            assert(paths[k as int] == f.global_calls@[k as int]@);
            flow.join(add);
            k = k + 1;
        }
        if f.unresolved {
            flow.join(unknown_of(env_clone(&env)));
        }
        if f.targets.len() == 0 && !f.constructed_types.is_empty() && f.global_calls.len() == 0 {
            let mut v = Value::of_types(f.constructed_types.duplicate());
            v.truth = 2;
            flow.join(Flow::normal(env_clone(&env), v));
        }
        let ghost g3 = flow@;
        let mut j: usize = 0;
        while j < f.targets.len()
            invariant
                e == env_entries(env),
                0 <= j <= f.targets@.len(),
                targets_fold(*f, new, super_call, e, 0, g3) == targets_fold(*f, new, super_call, e, j as int, flow@),
            decreases f.targets@.len() - j,
        {
            let tf = &f.targets[j];
            if tf.is_async || tf.is_generator {
                if new {
                    flow.join(Flow::one(Completion::Throw, env_clone(&env), builtin_with("TypeError", 3)));
                } else {
                    let mut v = builtin_with(if tf.is_async { "Promise" } else { "Generator" }, 3);
                    v.deferred = tf.summary.errors.duplicate();
                    v.awaited = tf.summary.returned.types.duplicate();
                    v.truth = 2;
                    flow.join(Flow::normal(env_clone(&env), v));
                }
            } else {
                flow = flow.possible_throw(&env, tf.summary.errors.duplicate());
                if tf.summary.completes {
                    let v = if new || super_call {
                        let fallback = if f.constructed_types.is_empty() {
                            single(tf.own_type.duplicate())
                        } else {
                            f.constructed_types.duplicate()
                        };
                        instance_of(&tf.summary.returned, fallback)
                    } else {
                        tf.summary.returned.duplicate()
                    };
                    flow.join(Flow::normal(env_clone(&env), v));
                }
            }
            j = j + 1;
        }
        flow
    }

    /// Evaluates a `try` statement, node `n`.
    #[verifier::spinoff_prover]
    fn try_statement(&self, tree: &Vec<EscSyntax>, n: usize, tr: &EscTry, env: Env) -> (r: Flow)
        requires
            syntax_wf(self, tree@),
            n < tree@.len(),
            try_wf(self, *tr, n as int),
        ensures
            r@ == try_view(self, tree@, n as int, *tr, env_entries(env)),
        decreases n, try_width(*tr) + 3,
    {
        let m0 = self.list(tree, n, &tr.block, Flow::normal(env, Value::undefined()));
        let m1 = match &tr.handler {
            Some(h) => {
                let mut m = m0;
                let ghost mv = m@;
                match m.take(&Completion::Throw) {
                    Some(th) => {
                        let caught = self.caught(tree, n, h, th);
                        joined(m, caught)
                    },
                    None => {
                        assert(m@ =~= mv);
                        m
                    },
                }
            },
            None => m0,
        };
        match &tr.finalizer {
            None => m1,
            Some(f) => {
                let ghost mv1 = m1@;
                let r = self.finally(tree, n, f, m1);
                proof {
                    let run = finally_run(self, tree@, n as int, f@);
                    let s = choose|s: Seq<(CompletionView, StateView)>| lists(s, mv1) && r@ == finally_fold(run, s, 0, Map::empty());
                    let pending = choose|s: Seq<(CompletionView, StateView)>| lists(s, mv1);
                    lemma_fold_perm(run, s, pending, mv1, Map::empty());
                }
                r
            },
        }
    }

    /// The environment in the branch where the `instanceof` test `w` is
    /// `outcome`.
    #[verifier::spinoff_prover]
    fn narrow(&self, w: &EscNarrowing, env: Env, outcome: bool) -> (r: Option<Env>)
        ensures
            option_env_view(r) == narrowed_env(self, *w, env_entries(env), outcome),
    {
        match lookup(&env, w.symbol) {
            None => Some(env),
            Some(v) => {
                let ghost vv = v@;
                let kept = crate::subtype::narrow_types(&v.types, &w.bases, &self.super_types, outcome == w.sense);
                match kept {
                    None => {
                        assert(vv.types.filter(|t: ErrorTypeView| crate::subtype::narrow_keeps(self.super_types@, t, crate::set::views(w.bases@), outcome == w.sense)) =~= Set::<ErrorTypeView>::empty());
                        None
                    },
                    Some(k) => {
                        assert(k@ =~= vv.types.filter(|t: ErrorTypeView| crate::subtype::narrow_keeps(self.super_types@, t, crate::set::views(w.bases@), outcome == w.sense)));
                        let mut nv = v.duplicate();
                        nv.types = k;
                        assert(nv@ == (ValueView { types: k@, ..vv }));
                        let mut e = env;
                        bind(&mut e, w.symbol, nv);
                        Some(e)
                    },
                }
            },
        }
    }

    /// Evaluates an `if` that narrows by an `instanceof` test, node `n`.
    #[verifier::spinoff_prover]
    fn if_narrowing(&self, tree: &Vec<EscSyntax>, n: usize, x: usize, y: usize, z: Option<usize>, w: &EscNarrowing, env: Env) -> (r: Flow)
        requires
            syntax_wf(self, tree@),
            n < tree@.len(),
            tree@[n as int] == EscSyntax::IfNarrowing(x, y, z, *w),
            x < n,
            y < n,
            z.unwrap_or(0) < n,
        ensures
            r@ == eval_view(self, tree@, n as int, env_entries(env)),
        decreases n, 4nat,
    {
        let m = self.sub(tree, n, x, env);
        let ghost mv = m@;
        let (st, rest) = split(m);
        match st {
            None => {
                proof { lemma_after_none(mv); }
                rest
            },
            Some(st) => {
                let yes = if st.value.truth & 2 != 0 {
                    match self.narrow(w, env_clone(&st.env), true) {
                        Some(e) => self.sub(tree, n, y, e),
                        None => Flow::empty(),
                    }
                } else {
                    Flow::empty()
                };
                let no = if st.value.truth & 1 != 0 {
                    match self.narrow(w, env_clone(&st.env), false) {
                        Some(e) => match z {
                            Some(i) => self.sub(tree, n, i, e),
                            None => Flow::normal(e, Value::undefined()),
                        },
                        None => Flow::empty(),
                    }
                } else {
                    Flow::empty()
                };
                let mut f = Flow::empty();
                f.join(yes);
                f.join(no);
                joined(rest, f)
            },
        }
    }

    /// Evaluates the properties of an object literal, node `n`, from `m`.
    #[verifier::spinoff_prover]
    fn object_props(&self, tree: &Vec<EscSyntax>, n: usize, props: &Vec<(Option<usize>, usize, bool)>, m: Flow) -> (r: Flow)
        requires
            syntax_wf(self, tree@),
            n < tree@.len(),
            forall|k: int| 0 <= k < props@.len() ==> (#[trigger] props@[k]).0.unwrap_or(0) < n && props@[k].1 < n,
        ensures
            r@ == props_view(self, tree@, n as int, props@, 0, m@),
        decreases n, props@.len() + 1,
    {
        let ghost m0 = m@;
        let mut flow = m;
        let mut k: usize = 0;
        while k < props.len()
            invariant
                syntax_wf(self, tree@),
                n < tree@.len(),
                forall|k: int| 0 <= k < props@.len() ==> (#[trigger] props@[k]).0.unwrap_or(0) < n && props@[k].1 < n,
                0 <= k <= props@.len(),
                props_view(self, tree@, n as int, props@, 0, m0) == props_view(self, tree@, n as int, props@, k as int, flow@),
            decreases props@.len() - k,
        {
            assert(props@[k as int].0.unwrap_or(0) < n && props@[k as int].1 < n);
            let keyed = match props[k].0 {
                Some(x) => {
                    let ghost fv = flow@;
                    let (st, rest) = split(flow);
                    match st {
                        None => {
                            proof { lemma_after_none(fv); }
                            rest
                        },
                        Some(st) => joined(rest, self.sub(tree, n, x, st.env)),
                    }
                },
                None => flow,
            };
            let ghost kv = keyed@;
            let (st, rest) = split(keyed);
            let valued = match st {
                None => {
                    proof { lemma_after_none(kv); }
                    rest
                },
                Some(st) => joined(rest, self.sub(tree, n, props[k].1, st.env)),
            };
            flow = if props[k].2 {
                let ghost vv = valued@;
                let (st2, rest2) = split(valued);
                match st2 {
                    None => {
                        proof { lemma_after_none(vv); }
                        rest2
                    },
                    Some(st2) => joined(rest2, unknown_of(st2.env)),
                }
            } else {
                valued
            };
            k = k + 1;
        }
        flow
    }

    /// Stores `value` into an assignment's target in `env`.
    #[verifier::spinoff_prover]
    fn store(target: Option<Option<u32>>, env: Env, value: Value) -> (r: Flow)
        ensures
            r@ == store_view(target, env_entries(env), value@),
    {
        match target {
            Some(s) => {
                let mut e = env;
                let kept = value.duplicate();
                match s {
                    Some(sym) => {
                        bind(&mut e, sym, kept);
                    },
                    None => {},
                }
                Flow::normal(e, value)
            },
            None => unknown_of(env).value(value),
        }
    }

    /// Evaluates an assignment, node `n`.
    #[verifier::spinoff_prover]
    fn assignment(&self, tree: &Vec<EscSyntax>, n: usize, x: &EscAssign, env: Env) -> (r: Flow)
        requires
            syntax_wf(self, tree@),
            n < tree@.len(),
            x.right < n,
            x.member matches Some(m) ==> m.0 < n && m.1.unwrap_or(0) < n,
        ensures
            r@ == assign_view(self, tree@, n as int, *x, env_entries(env)),
        decreases n, 6nat,
    {
        let m0 = match &x.member {
            Some(mm) => self.member(tree, n, mm, env),
            None => Flow::normal(env, Value::undefined()),
        };
        let ghost m0v = m0@;
        let (st0, rest0) = split(m0);
        let st0 = match st0 {
            None => {
                proof { lemma_after_none(m0v); }
                return rest0;
            },
            Some(st0) => st0,
        };
        let left = match x.target {
            Some(Some(s)) => match lookup(&st0.env, s) {
                Some(v) => v.duplicate(),
                None => Value::unknown(),
            },
            _ => Value::unknown(),
        };
        let m1 = self.sub(tree, n, x.right, st0.env);
        let ghost m1v = m1@;
        let (st1, rest1) = split(m1);
        let inner = match st1 {
            None => {
                proof { lemma_after_none(m1v); }
                rest1
            },
            Some(st1) => {
                let stored = match x.op {
                    EscAssignOp::Plain => Self::store(x.target, st1.env, st1.value),
                    EscAssignOp::Logical => Self::store(x.target, st1.env, Value::unknown()),
                    EscAssignOp::Compound(plus) => {
                        let safe = left.plain_primitive() && st1.value.plain_primitive();
                        let mut value = builtin_with("number", 3);
                        if plus && (left.types.contains(&EscErrorType::builtin("string")) || st1.value.types.contains(&EscErrorType::builtin("string")) || !safe) {
                            value.join(builtin_with("string", 3));
                        }
                        let throw_env = env_clone(&st1.env);
                        let f = Self::store(x.target, st1.env, value);
                        if safe { f } else { f.possible_throw(&throw_env, single(EscErrorType::unknown())) }
                    },
                };
                joined(rest1, stored)
            },
        };
        joined(rest0, inner)
    }

    /// Evaluates a `for`-`of` or `for`-`in` loop, node `n`.
    #[verifier::spinoff_prover]
    fn for_each_statement(&self, tree: &Vec<EscSyntax>, n: usize, f: &EscForEach, env: Env) -> (r: Flow)
        requires
            syntax_wf(self, tree@),
            n < tree@.len(),
            for_each_wf(*f, n as int),
        ensures
            r@ == for_each_view(self, tree@, n as int, *f, env_entries(env)),
        decreases n, 6nat,
    {
        let m = self.sub(tree, n, f.right, env);
        let ghost mv = m@;
        let (st, rest) = split(m);
        let st = match st {
            None => {
                proof { lemma_after_none(mv); }
                return rest;
            },
            Some(st) => st,
        };
        let element = if !f.of {
            Value::builtin("string")
        } else if st.value.elements.is_empty() {
            Value::unknown()
        } else {
            Value::of_types(st.value.elements.duplicate())
        };
        let errors = if !f.of {
            single(EscErrorType::unknown())
        } else {
            let mut errors = st.value.deferred.duplicate();
            if !iterable_of(&st.value.types) {
                errors.insert(EscErrorType::unknown());
            }
            errors
        };
        let throw_env = env_clone(&st.env);
        let bound = self.sub_bind(tree, n, f.target, st.env, element);
        let ghost bv = bound@;
        let (bs, rest2) = split(bound);
        let inner = match bs {
            None => {
                proof { lemma_after_none(bv); }
                rest2
            },
            Some(bs) => joined(rest2, self.loop_statement(tree, n, &f.iteration, bs.env)),
        };
        joined(rest, inner.possible_throw(&throw_env, errors))
    }

    /// Binds pattern `c`, a child of node `n`, to `value` in `env`.
    #[verifier::spinoff_prover]
    fn sub_bind(&self, tree: &Vec<EscSyntax>, n: usize, c: usize, env: Env, value: Value) -> (r: Flow)
        requires
            syntax_wf(self, tree@),
            n < tree@.len(),
            c < n,
        ensures
            r@ == sub_bind_view(self, tree@, n as int, c as int, env_entries(env), value@),
        decreases n, 0nat,
    {
        self.bind(tree, c, env, value)
    }

    /// Binds pattern `p` to `value` in `env`.
    #[verifier::spinoff_prover]
    fn bind(&self, tree: &Vec<EscSyntax>, p: usize, env: Env, value: Value) -> (r: Flow)
        requires
            syntax_wf(self, tree@),
            p < tree@.len(),
        ensures
            r@ == bind_view(self, tree@, p as int, env_entries(env), value@),
        decreases p, width(tree@, p as int) + 3,
    {
        proof {
            assert(node_wf(self, tree@, p as int));
        }
        match &tree[p] {
            EscSyntax::Bind(s) => {
                let mut e = env;
                match s {
                    Some(sym) => {
                        bind(&mut e, *sym, value);
                    },
                    None => {},
                }
                Flow::normal(e, Value::undefined())
            },
            EscSyntax::BindDefault(x, d) => {
                let direct = self.sub_bind(tree, p, *x, env_clone(&env), value);
                let m = self.sub(tree, p, *d, env);
                let ghost mv = m@;
                let (st, rest) = split(m);
                let defaulted = match st {
                    None => {
                        proof { lemma_after_none(mv); }
                        rest
                    },
                    Some(st) => joined(rest, self.sub_bind(tree, p, *x, st.env, st.value)),
                };
                joined(direct, defaulted)
            },
            EscSyntax::BindObject(props, rest) => {
                let m = self.bind_props(tree, p, props, unknown_of(env));
                self.bind_rest(tree, p, *rest, m)
            },
            EscSyntax::BindArray(elems, rest) => {
                let m = self.bind_elems(tree, p, elems, unknown_of(env));
                self.bind_rest(tree, p, *rest, m)
            },
            _ => Flow::empty(),
        }
    }

    /// Binds the rest pattern, if any, of pattern `p`.
    #[verifier::spinoff_prover]
    fn bind_rest(&self, tree: &Vec<EscSyntax>, p: usize, rest: Option<usize>, m: Flow) -> (r: Flow)
        requires
            syntax_wf(self, tree@),
            p < tree@.len(),
            rest.unwrap_or(0) < p,
        ensures
            r@ == bind_rest_view(self, tree@, p as int, rest, m@),
        decreases p, 1nat,
    {
        match rest {
            Some(x) => {
                let ghost mv = m@;
                let (st, others) = split(m);
                match st {
                    None => {
                        proof { lemma_after_none(mv); }
                        others
                    },
                    Some(st) => joined(others, self.sub_bind(tree, p, x, st.env, Value::unknown())),
                }
            },
            None => m,
        }
    }

    /// Binds the properties of object pattern `p`.
    #[verifier::spinoff_prover]
    fn bind_props(&self, tree: &Vec<EscSyntax>, p: usize, props: &Vec<(Option<usize>, usize)>, m: Flow) -> (r: Flow)
        requires
            syntax_wf(self, tree@),
            p < tree@.len(),
            forall|k: int| 0 <= k < props@.len() ==> (#[trigger] props@[k]).0.unwrap_or(0) < p && props@[k].1 < p,
        ensures
            r@ == bind_props_view(self, tree@, p as int, props@, 0, m@),
        decreases p, props@.len() + 1,
    {
        let ghost m0 = m@;
        let mut flow = m;
        let mut k: usize = 0;
        while k < props.len()
            invariant
                syntax_wf(self, tree@),
                p < tree@.len(),
                forall|k: int| 0 <= k < props@.len() ==> (#[trigger] props@[k]).0.unwrap_or(0) < p && props@[k].1 < p,
                0 <= k <= props@.len(),
                bind_props_view(self, tree@, p as int, props@, 0, m0) == bind_props_view(self, tree@, p as int, props@, k as int, flow@),
            decreases props@.len() - k,
        {
            assert(props@[k as int].0.unwrap_or(0) < p && props@[k as int].1 < p);
            let keyed = match props[k].0 {
                Some(x) => {
                    let ghost fv = flow@;
                    let (st, rest) = split(flow);
                    match st {
                        None => {
                            proof { lemma_after_none(fv); }
                            rest
                        },
                        Some(st) => joined(rest, self.sub(tree, p, x, st.env)),
                    }
                },
                None => flow,
            };
            let ghost kv = keyed@;
            let (st, rest) = split(keyed);
            flow = match st {
                None => {
                    proof { lemma_after_none(kv); }
                    rest
                },
                Some(st) => joined(rest, self.sub_bind(tree, p, props[k].1, st.env, Value::unknown())),
            };
            k = k + 1;
        }
        flow
    }

    /// Binds the elements of array pattern `p`.
    #[verifier::spinoff_prover]
    fn bind_elems(&self, tree: &Vec<EscSyntax>, p: usize, elems: &Vec<usize>, m: Flow) -> (r: Flow)
        requires
            syntax_wf(self, tree@),
            p < tree@.len(),
            forall|k: int| 0 <= k < elems@.len() ==> #[trigger] elems@[k] < p,
        ensures
            r@ == bind_elems_view(self, tree@, p as int, elems@, 0, m@),
        decreases p, elems@.len() + 1,
    {
        let ghost m0 = m@;
        let mut flow = m;
        let mut k: usize = 0;
        while k < elems.len()
            invariant
                syntax_wf(self, tree@),
                p < tree@.len(),
                forall|k: int| 0 <= k < elems@.len() ==> #[trigger] elems@[k] < p,
                0 <= k <= elems@.len(),
                bind_elems_view(self, tree@, p as int, elems@, 0, m0) == bind_elems_view(self, tree@, p as int, elems@, k as int, flow@),
            decreases elems@.len() - k,
        {
            assert(elems@[k as int] < p);
            let ghost fv = flow@;
            let (st, rest) = split(flow);
            flow = match st {
                None => {
                    proof { lemma_after_none(fv); }
                    rest
                },
                Some(st) => joined(rest, self.sub_bind(tree, p, elems[k], st.env, Value::unknown())),
            };
            k = k + 1;
        }
        flow
    }

    /// Runs the tests of `cases[..upto]`, children of node `n`, from `m`.
    #[verifier::spinoff_prover]
    fn case_tests(&self, tree: &Vec<EscSyntax>, n: usize, cases: &Vec<(Option<usize>, usize)>, upto: usize, m: Flow) -> (r: Flow)
        requires
            syntax_wf(self, tree@),
            n < tree@.len(),
            forall|k: int| 0 <= k < cases@.len() ==> (#[trigger] cases@[k]).0.unwrap_or(0) < n && cases@[k].1 < n,
            upto <= cases@.len(),
        ensures
            r@ == case_tests_view(self, tree@, n as int, cases@, 0, upto as int, m@),
        decreases n, cases@.len() + 1,
    {
        let ghost m0 = m@;
        let mut flow = m;
        let mut k: usize = 0;
        while k < upto
            invariant
                syntax_wf(self, tree@),
                n < tree@.len(),
                forall|k: int| 0 <= k < cases@.len() ==> (#[trigger] cases@[k]).0.unwrap_or(0) < n && cases@[k].1 < n,
                upto <= cases@.len(),
                0 <= k <= upto,
                case_tests_view(self, tree@, n as int, cases@, 0, upto as int, m0) == case_tests_view(self, tree@, n as int, cases@, k as int, upto as int, flow@),
            decreases upto - k,
        {
            match cases[k].0 {
                Some(x) => {
                    assert(cases@[k as int].0.unwrap_or(0) < n);
                    let ghost fv = flow@;
                    let (st, rest) = split(flow);
                    flow = match st {
                        None => {
                            proof { lemma_after_none(fv); }
                            rest
                        },
                        Some(st) => joined(rest, self.sub(tree, n, x, st.env)),
                    };
                },
                None => {},
            }
            k = k + 1;
        }
        flow
    }

    /// Runs the bodies of `cases[start..]`, children of node `n`, from `m`.
    #[verifier::spinoff_prover]
    fn case_bodies(&self, tree: &Vec<EscSyntax>, n: usize, cases: &Vec<(Option<usize>, usize)>, start: usize, m: Flow) -> (r: Flow)
        requires
            syntax_wf(self, tree@),
            n < tree@.len(),
            forall|k: int| 0 <= k < cases@.len() ==> (#[trigger] cases@[k]).0.unwrap_or(0) < n && cases@[k].1 < n,
        ensures
            r@ == case_bodies_view(self, tree@, n as int, cases@, start as int, m@),
        decreases n, cases@.len() + 1,
    {
        let ghost m0 = m@;
        let mut flow = m;
        let mut k: usize = start;
        if k > cases.len() {
            return flow;
        }
        while k < cases.len()
            invariant
                syntax_wf(self, tree@),
                n < tree@.len(),
                forall|k: int| 0 <= k < cases@.len() ==> (#[trigger] cases@[k]).0.unwrap_or(0) < n && cases@[k].1 < n,
                start <= k <= cases@.len(),
                case_bodies_view(self, tree@, n as int, cases@, start as int, m0) == case_bodies_view(self, tree@, n as int, cases@, k as int, flow@),
            decreases cases@.len() - k,
        {
            assert(cases@[k as int].1 < n);
            let ghost fv = flow@;
            let (st, rest) = split(flow);
            flow = match st {
                None => {
                    proof { lemma_after_none(fv); }
                    rest
                },
                Some(st) => joined(rest, self.sub(tree, n, cases[k].1, st.env)),
            };
            k = k + 1;
        }
        flow
    }

    /// Evaluates a `switch` statement, node `n`, with discriminant `d`.
    #[verifier::spinoff_prover]
    fn switch_statement(&self, tree: &Vec<EscSyntax>, n: usize, d: usize, cases: &Vec<(Option<usize>, usize)>, env: Env) -> (r: Flow)
        requires
            syntax_wf(self, tree@),
            n < tree@.len(),
            d < n,
            forall|k: int| 0 <= k < cases@.len() ==> (#[trigger] cases@[k]).0.unwrap_or(0) < n && cases@[k].1 < n,
        ensures
            r@ == switch_view(self, tree@, n as int, d, cases@, env_entries(env)),
        decreases n, cases@.len() + 4,
    {
        let m = self.sub(tree, n, d, env);
        let ghost mv = m@;
        let (st, rest) = split(m);
        let st = match st {
            None => {
                proof { lemma_after_none(mv); }
                return rest;
            },
            Some(st) => st,
        };
        let ghost senv = st@.env;
        let mut result = Flow::empty();
        let mut start: usize = 0;
        while start < cases.len()
            invariant
                syntax_wf(self, tree@),
                n < tree@.len(),
                forall|k: int| 0 <= k < cases@.len() ==> (#[trigger] cases@[k]).0.unwrap_or(0) < n && cases@[k].1 < n,
                0 <= start <= cases@.len(),
                env_entries(st.env) == senv,
                cases_fold_view(self, tree@, n as int, cases@, senv, 0, Map::empty()) == cases_fold_view(self, tree@, n as int, cases@, senv, start as int, result@),
            decreases cases@.len() - start,
        {
            let upto = if cases[start].0.is_none() { cases.len() } else { start + 1 };
            assert(upto == tests_before(cases@, start as int));
            let tested = self.case_tests(tree, n, cases, upto, Flow::normal(env_clone(&st.env), Value::undefined()));
            let bodies = self.case_bodies(tree, n, cases, start, tested);
            let branch = bodies.close_break();
            result.join(branch);
            start = start + 1;
        }
        let mut tested_all = true;
        let mut k: usize = 0;
        while k < cases.len()
            invariant
                0 <= k <= cases@.len(),
                tested_all == forall|j: int| 0 <= j < k ==> (#[trigger] cases@[j]).0 is Some,
            decreases cases@.len() - k,
        {
            if cases[k].0.is_none() {
                tested_all = false;
            }
            k = k + 1;
        }
        if tested_all {
            let unmatched = self.case_tests(tree, n, cases, cases.len(), Flow::normal(st.env, Value::undefined()));
            result.join(unmatched);
        }
        joined(rest, result)
    }

    /// The flow of the test of loop `l`, node `n`, from the head `head`.
    #[verifier::spinoff_prover]
    fn loop_condition(&self, tree: &Vec<EscSyntax>, n: usize, l: &EscLoop, head: Env) -> (r: Flow)
        requires
            syntax_wf(self, tree@),
            n < tree@.len(),
            loop_wf(*l, n as int),
        ensures
            r@ == loop_cond_view(self, tree@, n as int, *l, env_entries(head)),
        decreases n, 1nat,
    {
        if l.do_first {
            Flow::normal(head, Value::boolean(true))
        } else {
            match l.test {
                Some(x) => self.sub(tree, n, x, head),
                None => Flow::normal(head, if l.optional { builtin_with("boolean", 3) } else { Value::boolean(true) }),
            }
        }
    }

    /// Adds the loop's normal exit to `result` when the test that completed
    /// normally in `st` may be falsy.
    #[verifier::spinoff_prover]
    fn loop_exit(result: &mut Flow, st: &State)
        ensures
            final(result)@ == (if st@.value.truth & 1 != 0 {
                crate::flow::flow_add_view(old(result)@, CompletionView::Normal, StateView { env: st@.env, value: undefined_value() })
            } else {
                old(result)@
            }),
    {
        if st.value.truth & 1 != 0 {
            result.add(Completion::Normal, State { env: env_clone(&st.env), value: Value::undefined() });
        }
    }

    /// The flow of the update of loop `l`, node `n`, and for a body that
    /// runs first its test, from the back edge's environment.
    #[verifier::spinoff_prover]
    fn loop_update(&self, tree: &Vec<EscSyntax>, n: usize, l: &EscLoop, env: Env) -> (r: Flow)
        requires
            syntax_wf(self, tree@),
            n < tree@.len(),
            loop_wf(*l, n as int),
        ensures
            r@ == loop_update_view(self, tree@, n as int, *l, env_entries(env)),
        decreases n, 1nat,
    {
        let u = match l.update {
            Some(x) => self.sub(tree, n, x, env),
            None => Flow::normal(env, Value::undefined()),
        };
        if l.do_first {
            match l.test {
                Some(x) => {
                    let ghost uv = u@;
                    let (st, rest) = split(u);
                    match st {
                        None => {
                            proof { lemma_after_none(uv); }
                            rest
                        },
                        Some(st) => joined(rest, self.sub(tree, n, x, st.env)),
                    }
                },
                None => u,
            }
        } else {
            u
        }
    }

    /// Evaluates loop `l`, node `n`, from `env`: iterates until nothing
    /// goes back to the head or the head no longer changes.
    #[verifier::spinoff_prover]
    fn loop_statement(&self, tree: &Vec<EscSyntax>, n: usize, l: &EscLoop, env: Env) -> (r: Flow)
        requires
            syntax_wf(self, tree@),
            n < tree@.len(),
            loop_wf(*l, n as int),
        ensures
            r@ == loop_iter_view(self, tree@, n as int, *l, env_entries(env), Map::empty(), LOOP_FUEL as nat),
        decreases n, 4nat,
    {
        let ghost start = env_entries(env);
        let mut head = env_clone(&env);
        let mut result = Flow::empty();
        let mut fuel: u64 = LOOP_FUEL;
        loop
            invariant
                syntax_wf(self, tree@),
                n < tree@.len(),
                loop_wf(*l, n as int),
                start == env_entries(env),
                loop_iter_view(self, tree@, n as int, *l, start, Map::empty(), LOOP_FUEL as nat)
                    == loop_iter_view(self, tree@, n as int, *l, env_entries(head), result@, fuel as nat),
            decreases fuel,
        {
            let ghost hv = env_entries(head);
            let ghost rv = result@;
            if fuel == 0 {
                let u = unknown_of(head);
                let r = joined(result, u);
                assert(r@ == loop_iter_view(self, tree@, n as int, *l, hv, rv, 0));
                return r;
            }
            let cond = self.loop_condition(tree, n, l, env_clone(&head));
            let ghost cv = cond@;
            let (st, rest) = split(cond);
            let iteration = match st {
                None => {
                    proof { lemma_after_none(cv); }
                    rest
                },
                Some(st) => {
                    Self::loop_exit(&mut result, &st);
                    if st.value.truth & 2 != 0 {
                        joined(rest, self.sub(tree, n, l.body, st.env))
                    } else {
                        joined(rest, Flow::empty())
                    }
                },
            };
            let ghost r1 = result@;
            assert(r1 == loop_exit_view(rv, cv));
            assert(iteration@ == loop_iteration_view(self, tree@, n as int, *l, cv));
            let back = iteration.close_iteration(copy_label(&l.label), &mut result);
            let ghost round = loop_round_view(self, tree@, n as int, *l, hv, rv);
            let b = match back {
                None => {
                    assert(round == (result@, None::<Map<u32, ValueView>>));
                    return result;
                },
                Some(b) => b,
            };
            let f2 = self.loop_update(tree, n, l, b.env);
            let ghost f2v = f2@;
            let fl = if l.do_first {
                let (st2, rest2) = split(f2);
                match st2 {
                    None => {
                        proof { lemma_after_none(f2v); }
                        rest2
                    },
                    Some(st2) => {
                        Self::loop_exit(&mut result, &st2);
                        if st2.value.truth & 2 != 0 {
                            joined(rest2, Flow::normal(st2.env, Value::undefined()))
                        } else {
                            joined(rest2, Flow::empty())
                        }
                    },
                }
            } else {
                f2
            };
            assert(fl@ == loop_continue_view(f2v, l.do_first));
            let (next, rest3) = split(fl);
            result.join(rest3);
            match next {
                None => {
                    assert(round == (result@, None::<Map<u32, ValueView>>));
                    return result;
                },
                Some(next) => {
                    let before = env_clone(&head);
                    crate::env::join_env(&mut head, next.env);
                    assert(round == (result@, Some(env_entries(head))));
                    if crate::env::env_same(&head, &before) {
                        return result;
                    }
                    fuel = fuel - 1;
                },
            }
        }
    }

    /// Runs a `catch` handler for the thrown state `th`.
    #[verifier::spinoff_prover]
    fn caught(&self, tree: &Vec<EscSyntax>, n: usize, h: &(Option<usize>, Vec<usize>), th: State) -> (r: Flow)
        requires
            syntax_wf(self, tree@),
            n < tree@.len(),
            forall|k: int| 0 <= k < h.1@.len() ==> #[trigger] h.1@[k] < n,
            h.0.unwrap_or(0) < n,
        ensures
            r@ == caught_view(self, tree@, n as int, *h, th@),
        decreases n, h.1@.len() + 2,
    {
        let caught = match h.0 {
            Some(p) => self.sub_bind(tree, n, p, th.env, Value::of_types(th.value.types)),
            None => Flow::normal(th.env, Value::undefined()),
        };
        let ghost cv = caught@;
        let (st, rest) = split(caught);
        match st {
            None => {
                proof { lemma_after_none(cv); }
                rest
            },
            Some(st) => joined(rest, self.list(tree, n, &h.1, Flow::normal(st.env, Value::undefined()))),
        }
    }
}

/// The views of a sequence of entries.
pub open spec fn entry_views(s: Seq<(Completion, State)>) -> Seq<(CompletionView, StateView)> {
    s.map_values(|e: (Completion, State)| (e.0@, e.1@))
}

/// The state a flow records for `c`, if any.
pub open spec fn at(m: FlowView, c: CompletionView) -> Option<StateView> {
    if m.contains_key(c) { Some(m[c]) } else { None }
}

/// Joins two optional states.
pub open spec fn oj(a: Option<StateView>, b: Option<StateView>) -> Option<StateView> {
    match (a, b) {
        (Some(x), Some(y)) => Some(crate::flow::join_state_view(x, y)),
        (Some(x), None) => Some(x),
        (None, y) => y,
    }
}

#[verifier::spinoff_prover]
proof fn lemma_state_join_ac(x: StateView, y: StateView, z: StateView)
    ensures
        crate::flow::join_state_view(x, y) == crate::flow::join_state_view(y, x),
        crate::flow::join_state_view(crate::flow::join_state_view(x, y), z) == crate::flow::join_state_view(x, crate::flow::join_state_view(y, z)),
{
    crate::env::law_join_env_commutative(x.env, y.env);
    crate::value::law_join_commutative(x.value, y.value);
    crate::env::law_join_env_associative(x.env, y.env, z.env);
    crate::value::law_join_associative(x.value, y.value, z.value);
}

#[verifier::spinoff_prover]
proof fn lemma_oj_assoc(a: Option<StateView>, b: Option<StateView>, c: Option<StateView>)
    ensures
        oj(oj(a, b), c) == oj(a, oj(b, c)),
{
    if a is Some && b is Some && c is Some {
        lemma_state_join_ac(a->0, b->0, c->0);
    }
}

#[verifier::spinoff_prover]
proof fn lemma_oj_comm(a: Option<StateView>, b: Option<StateView>)
    ensures
        oj(a, b) == oj(b, a),
{
    if a is Some && b is Some {
        lemma_state_join_ac(a->0, b->0, b->0);
    }
}

#[verifier::spinoff_prover]
proof fn lemma_at_ext(l: FlowView, r: FlowView)
    requires
        forall|c: CompletionView| #[trigger] at(l, c) == at(r, c),
    ensures
        l == r,
{
    assert forall|c: CompletionView| l.contains_key(c) == r.contains_key(c) by {
        assert(at(l, c) == at(r, c));
    }
    assert forall|c: CompletionView| #[trigger] l.contains_key(c) implies l[c] == r[c] by {
        assert(at(l, c) == at(r, c));
    }
    assert(l =~= r);
}

/// The contribution of a `finally` run to key `c`.
pub open spec fn pending_at(p: CompletionView, st: StateView, ff: FlowView, c: CompletionView) -> Option<StateView> {
    let x = if ff.contains_key(CompletionView::Normal) && c == p {
        Some(StateView { env: ff[CompletionView::Normal].env, value: st.value })
    } else {
        None
    };
    oj(x, at(ff.remove(CompletionView::Normal), c))
}

#[verifier::spinoff_prover]
proof fn lemma_finish_at(r: FlowView, p: CompletionView, st: StateView, ff: FlowView, c: CompletionView)
    ensures
        at(crate::flow::finish_pending_view(r, p, st, ff), c) == oj(at(r, c), pending_at(p, st, ff, c)),
{
    let x = if ff.contains_key(CompletionView::Normal) && c == p {
        Some(StateView { env: ff[CompletionView::Normal].env, value: st.value })
    } else {
        None
    };
    let g = at(ff.remove(CompletionView::Normal), c);
    lemma_oj_assoc(at(r, c), x, g);
}

#[verifier::spinoff_prover]
proof fn lemma_finish_commute(r: FlowView, p1: CompletionView, s1: StateView, f1: FlowView, p2: CompletionView, s2: StateView, f2: FlowView)
    ensures
        crate::flow::finish_pending_view(crate::flow::finish_pending_view(r, p1, s1, f1), p2, s2, f2)
            == crate::flow::finish_pending_view(crate::flow::finish_pending_view(r, p2, s2, f2), p1, s1, f1),
{
    let l = crate::flow::finish_pending_view(crate::flow::finish_pending_view(r, p1, s1, f1), p2, s2, f2);
    let rr = crate::flow::finish_pending_view(crate::flow::finish_pending_view(r, p2, s2, f2), p1, s1, f1);
    assert forall|c: CompletionView| #[trigger] at(l, c) == at(rr, c) by {
        lemma_finish_at(crate::flow::finish_pending_view(r, p1, s1, f1), p2, s2, f2, c);
        lemma_finish_at(r, p1, s1, f1, c);
        lemma_finish_at(crate::flow::finish_pending_view(r, p2, s2, f2), p1, s1, f1, c);
        lemma_finish_at(r, p2, s2, f2, c);
        let a = at(r, c);
        let x = pending_at(p1, s1, f1, c);
        let y = pending_at(p2, s2, f2, c);
        lemma_oj_assoc(a, x, y);
        lemma_oj_assoc(a, y, x);
        lemma_oj_comm(x, y);
    }
    lemma_at_ext(l, rr);
}

#[verifier::spinoff_prover]
proof fn lemma_fold_shift(run: spec_fn(Map<u32, ValueView>) -> FlowView, s: Seq<(CompletionView, StateView)>, k: int, r: FlowView)
    requires
        0 <= k <= s.len(),
    ensures
        finally_fold(run, s, k, r) == finally_fold(run, s.skip(k), 0, r),
    decreases s.len() - k,
{
    if k < s.len() {
        let st = s[k].1;
        let r2 = crate::flow::finish_pending_view(r, s[k].0, st, run(st.env));
        lemma_fold_shift(run, s, k + 1, r2);
        lemma_fold_shift(run, s.skip(k), 1, r2);
        assert(s.skip(k).skip(1) =~= s.skip(k + 1));
    } else {
        assert(s.skip(k).len() == 0);
    }
}

/// Moving the entry at `j` to the front changes nothing.
#[verifier::spinoff_prover]
proof fn lemma_fold_front(run: spec_fn(Map<u32, ValueView>) -> FlowView, s: Seq<(CompletionView, StateView)>, j: int, r: FlowView)
    requires
        0 <= j < s.len(),
    ensures
        finally_fold(run, s, 0, r) == finally_fold(run, seq![s[j]] + s.remove(j), 0, r),
    decreases j,
{
    if j > 0 {
        let e0 = s[0];
        let r1 = crate::flow::finish_pending_view(r, e0.0, e0.1, run(e0.1.env));
        let t = s.drop_first();
        lemma_fold_shift(run, s, 1, r1);
        assert(s.skip(1) =~= t);
        lemma_fold_front(run, t, j - 1, r1);
        let t2 = seq![t[j - 1]] + t.remove(j - 1);
        let ej = s[j];
        assert(t[j - 1] == ej);
        let r2 = crate::flow::finish_pending_view(r1, ej.0, ej.1, run(ej.1.env));
        let w = seq![ej] + s.remove(j);
        lemma_finish_commute(r, e0.0, e0.1, run(e0.1.env), ej.0, ej.1, run(ej.1.env));
        let r3 = crate::flow::finish_pending_view(r, ej.0, ej.1, run(ej.1.env));
        assert(r2 == crate::flow::finish_pending_view(r3, e0.0, e0.1, run(e0.1.env)));
        assert(finally_fold(run, s, 0, r) == finally_fold(run, s, 1, r1));
        assert(t2[0] == ej);
        assert(finally_fold(run, t2, 0, r1) == finally_fold(run, t2, 1, r2));
        lemma_fold_shift(run, t2, 1, r2);
        assert(t2.skip(1) =~= t.remove(j - 1));
        assert(w[0] == ej);
        assert(w[1] == e0);
        assert(finally_fold(run, w, 0, r) == finally_fold(run, w, 1, r3));
        assert(finally_fold(run, w, 1, r3) == finally_fold(run, w, 2, r2));
        lemma_fold_shift(run, w, 2, r2);
        assert(w.skip(2) =~= t.remove(j - 1));
    }
    else {
        assert(seq![s[0]] + s.remove(0) =~= s);
    }
}

/// Removing one entry of a listing lists the rest of the completions.
#[verifier::spinoff_prover]
proof fn lemma_lists_remove(s: Seq<(CompletionView, StateView)>, m: FlowView, j: int)
    requires
        lists(s, m),
        0 <= j < s.len(),
    ensures
        lists(s.remove(j), m.remove(s[j].0)),
{
    let b = s.remove(j);
    let m2 = m.remove(s[j].0);
    assert forall|i: int| 0 <= i < b.len() implies b[i] == s[if i < j { i } else { i + 1 }] by {}
    assert forall|i: int, k: int| 0 <= i < k < b.len() implies b[i].0 != b[k].0 by {
        let ii = if i < j { i } else { i + 1 };
        let kk = if k < j { k } else { k + 1 };
        assert(b[i] == s[ii]);
        assert(b[k] == s[kk]);
    }
    assert forall|i: int| 0 <= i < b.len() implies m2.contains_key(#[trigger] b[i].0) && m2[b[i].0] == b[i].1 by {
        let ii = if i < j { i } else { i + 1 };
        assert(b[i] == s[ii]);
        assert(ii != j);
        assert(s[ii].0 != s[j].0);
        assert(m.contains_key(s[ii].0));
    }
    assert forall|c: CompletionView| #[trigger] m2.contains_key(c) implies exists|i: int| 0 <= i < b.len() && b[i].0 == c by {
        assert(m.contains_key(c));
        let i = choose|i: int| 0 <= i < s.len() && s[i].0 == c;
        assert(i != j);
        if i < j {
            assert(b[i] == s[i]);
        } else {
            assert(b[i - 1] == s[i]);
        }
    }
}

/// Two listings of the same completions fold alike.
#[verifier::spinoff_prover]
proof fn lemma_fold_perm(run: spec_fn(Map<u32, ValueView>) -> FlowView, s: Seq<(CompletionView, StateView)>, s2: Seq<(CompletionView, StateView)>, m: FlowView, r: FlowView)
    requires
        lists(s, m),
        lists(s2, m),
    ensures
        finally_fold(run, s, 0, r) == finally_fold(run, s2, 0, r),
    decreases s.len(),
{
    if s.len() == 0 {
        if s2.len() > 0 {
            assert(m.contains_key(s2[0].0));
            let i = choose|i: int| 0 <= i < s.len() && s[i].0 == s2[0].0;
        }
    } else {
        let e = s[0];
        assert(m.contains_key(e.0));
        let j = choose|j: int| 0 <= j < s2.len() && s2[j].0 == e.0;
        assert(s2[j] == e);
        lemma_fold_front(run, s2, j, r);
        let m2 = m.remove(e.0);
        let a = s.remove(0);
        let b = s2.remove(j);
        lemma_lists_remove(s, m, 0);
        lemma_lists_remove(s2, m, j);
        let r1 = crate::flow::finish_pending_view(r, e.0, e.1, run(e.1.env));
        lemma_fold_perm(run, a, b, m2, r1);
        assert(finally_fold(run, s, 0, r) == finally_fold(run, s, 1, r1));
        lemma_fold_shift(run, s, 1, r1);
        assert(s.skip(1) =~= a);
        let w = seq![s2[j]] + b;
        assert(w[0] == e);
        assert(finally_fold(run, w, 0, r) == finally_fold(run, w, 1, r1));
        lemma_fold_shift(run, w, 1, r1);
        assert(w.skip(1) =~= b);
    }
}

#[verifier::spinoff_prover]
proof fn lemma_entries_list(s: Seq<(Completion, State)>)
    requires
        crate::flow::unique_completions(s),
    ensures
        lists(entry_views(s), crate::flow::flow_map(s)),
{
    let v = entry_views(s);
    assert forall|i: int| 0 <= i < v.len() implies crate::flow::flow_map(s).contains_key(#[trigger] v[i].0) && crate::flow::flow_map(s)[v[i].0] == v[i].1 by {
        crate::flow::lemma_flow_map_index(s, i);
    }
    assert forall|c: CompletionView| #[trigger] crate::flow::flow_map(s).contains_key(c) implies exists|i: int| 0 <= i < v.len() && v[i].0 == c by {
        crate::flow::lemma_flow_map_dom(s, c);
        let i = choose|i: int| 0 <= i < s.len() && s[i].0@ == c;
        assert(v[i].0 == c);
    }
}


impl Analyzer {
    /// Runs the `finally` block `f` of node `n` after each completion of `m`.
    #[verifier::spinoff_prover]
    fn finally(&self, tree: &Vec<EscSyntax>, n: usize, f: &Vec<usize>, m: Flow) -> (r: Flow)
        requires
            syntax_wf(self, tree@),
            n < tree@.len(),
            forall|k: int| 0 <= k < f@.len() ==> #[trigger] f@[k] < n,
        ensures
            exists|s: Seq<(CompletionView, StateView)>| lists(s, m@) && r@ == finally_fold(finally_run(self, tree@, n as int, f@), s, 0, Map::empty()),
        decreases n, f@.len() + 2,
    {
        let ghost run = finally_run(self, tree@, n as int, f@);
        let ghost mv = m@;
        let entries = m.into_entries();
        let ghost sv = entry_views(entries@);
        proof {
            lemma_entries_list(entries@);
        }
        let mut result = Flow::empty();
        let mut rest = entries;
        let mut k: usize = 0;
        let count = rest.len();
        let ghost total = count as nat;
        while rest.len() > 0
            invariant
                syntax_wf(self, tree@),
                n < tree@.len(),
                forall|k: int| 0 <= k < f@.len() ==> #[trigger] f@[k] < n,
                k + rest@.len() == total,
                total == sv.len(),
                total <= usize::MAX,
                run == finally_run(self, tree@, n as int, f@),
                entry_views(rest@) == sv.skip(k as int),
                finally_fold(run, sv, 0, Map::empty()) == finally_fold(run, sv, k as int, result@),
            decreases rest@.len(),
        {
            let ghost before = rest@;
            let (kind, st) = rest.remove(0);
            proof {
                assert(sv[k as int] == (kind@, st@)) by {
                    assert(entry_views(before)[0] == sv.skip(k as int)[0]);
                }
                assert(rest@ =~= before.drop_first());
                assert(entry_views(rest@) =~= entry_views(before).drop_first());
                assert(sv.skip(k as int).drop_first() =~= sv.skip(k + 1));
            }
            let ff = self.list(tree, n, f, Flow::normal(env_clone(&st.env), Value::undefined()));
            let ghost before_result = result@;
            let ghost stv = st@;
            Flow::finish_pending(&mut result, kind, st, ff);
            proof {
                lemma_finally_run(self, tree@, n as int, f@, stv.env);
                assert(ff@ == run(stv.env));
                assert(finally_fold(run, sv, k as int, before_result) == finally_fold(run, sv, k + 1, result@));
            }
            k = k + 1;
        }
        proof {
            assert(lists(sv, mv));
        }
        result
    }
}

/// A copy of a label.
#[verifier::spinoff_prover]
fn copy_label(l: &Option<String>) -> (r: Option<String>)
    ensures
        label_view(r) == label_view(*l),
{
    match l {
        Some(s) => Some(s.clone()),
        None => None,
    }
}

} // verus!

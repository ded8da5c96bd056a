//! Evaluation of expressions and rendering of the flat tree against an environment.
use crate::ast::{
    contents_model, BinaryOp, Block, BlockModel, Content, ContentModel, Expr, ExprModel, UnaryOp,
    Value, ValueModel,
};
use crate::environment::Environment;
use crate::number::{
    checked, number_text, scale, spec_add, spec_div, spec_mul, spec_neg, spec_rem, spec_sub,
    Number, NumberError,
};
use crate::text::string_from;
use vstd::prelude::*;
use vstd::string::StringExecFns;

verus! {

#[derive(Clone, Copy, Debug, PartialEq, Eq, Structural)]
pub enum EvalError {
    /// An operator that takes numbers met another value.
    ExpectedNumber,
    /// An operator or condition that takes booleans met another value.
    ExpectedBoolean,
    /// Indexing or `len` on a value that is not an array.
    ExpectedArray,
    NegativeIndex,
    IndexOutOfRange,
    UnknownFunction,
    /// `len` with other than one argument.
    WrongArity,
    /// An array (or an unresolved name) where text is needed.
    CannotRender,
    /// A loop variable that is already bound.
    AlreadyDefined,
    /// A loop over a name that is not bound.
    NotDefined,
    /// A loop over a value that is not an array.
    NotAnArray,
    /// Arithmetic out of range, or division by zero.
    Arithmetic(NumberError),
}

pub type Env = Map<Seq<char>, ValueModel>;

pub open spec fn is_numeric(op: BinaryOp) -> bool {
    match op {
        BinaryOp::Add | BinaryOp::Subtract | BinaryOp::Multiply | BinaryOp::Divide
        | BinaryOp::Modulo | BinaryOp::Equals | BinaryOp::NotEquals | BinaryOp::GreaterThan
        | BinaryOp::GreaterThanOrEquals | BinaryOp::LessThan | BinaryOp::LessThanOrEquals => true,
        _ => false,
    }
}

pub open spec fn number_value(r: Result<Number, NumberError>) -> Result<ValueModel, EvalError> {
    match r {
        Ok(n) => Ok(ValueModel::Number(n)),
        Err(e) => Err(EvalError::Arithmetic(e)),
    }
}

/// A numeric operator applied to two numbers.
pub open spec fn arithmetic(op: BinaryOp, a: Number, b: Number) -> Result<ValueModel, EvalError> {
    match op {
        BinaryOp::Add => number_value(spec_add(a, b)),
        BinaryOp::Subtract => number_value(spec_sub(a, b)),
        BinaryOp::Multiply => number_value(spec_mul(a, b)),
        BinaryOp::Divide => number_value(spec_div(a, b)),
        BinaryOp::Modulo => number_value(spec_rem(a, b)),
        BinaryOp::Equals => Ok(ValueModel::Boolean(a.scaled == b.scaled)),
        BinaryOp::NotEquals => Ok(ValueModel::Boolean(a.scaled != b.scaled)),
        BinaryOp::GreaterThan => Ok(ValueModel::Boolean(a.scaled > b.scaled)),
        BinaryOp::GreaterThanOrEquals => Ok(ValueModel::Boolean(a.scaled >= b.scaled)),
        BinaryOp::LessThan => Ok(ValueModel::Boolean(a.scaled < b.scaled)),
        _ => Ok(ValueModel::Boolean(a.scaled <= b.scaled)),
    }
}

/// The text a value renders as; `None` for an array or an unresolved name.
pub open spec fn display(v: ValueModel) -> Option<Seq<char>> {
    match v {
        ValueModel::Boolean(true) => Some(seq!['t', 'r', 'u', 'e']),
        ValueModel::Boolean(false) => Some(seq!['f', 'a', 'l', 's', 'e']),
        ValueModel::Number(n) => Some(number_text(n)),
        ValueModel::Str(s) => Some(s),
        ValueModel::Null => Some(seq!['n', 'u', 'l', 'l']),
        _ => None,
    }
}

/// The value of a name: its binding, or null where it has none.
pub open spec fn lookup(env: Env, name: Seq<char>) -> ValueModel {
    if env.contains_key(name) {
        env[name]
    } else {
        ValueModel::Null
    }
}

/// The built-in functions.
#[derive(Clone, Copy, Debug, PartialEq, Eq, Structural)]
pub enum Builtin {
    /// `len(array)`: the number of items.
    Len,
}

/// The built-in function called `name`, if there is one.
pub open spec fn builtin_named(name: Seq<char>) -> Option<Builtin> {
    if name == seq!['l', 'e', 'n'] {
        Some(Builtin::Len)
    } else {
        None
    }
}

pub open spec fn arity(f: Builtin) -> nat {
    match f {
        Builtin::Len => 1,
    }
}

/// A built-in function applied to the values of its arguments.
pub open spec fn apply_builtin(f: Builtin, args: Seq<ValueModel>) -> Result<ValueModel, EvalError> {
    match f {
        Builtin::Len => match args[0] {
            ValueModel::Array(items) => number_value(checked(items.len() * scale())),
            _ => Err(EvalError::ExpectedArray),
        },
    }
}

/// The value of an expression. Operands are evaluated left to right, and each is checked
/// for its type before the next is evaluated.
pub open spec fn eval(e: ExprModel, env: Env) -> Result<ValueModel, EvalError>
    decreases e,
{
    match e {
        ExprModel::Leaf(ValueModel::Variable(name)) => Ok(lookup(env, name)),
        ExprModel::Leaf(v) => Ok(v),
        ExprModel::Unary(UnaryOp::Dummy, x) => eval(*x, env),
        ExprModel::Unary(_, x) => match eval(*x, env) {
            Err(err) => Err(err),
            Ok(ValueModel::Number(n)) => number_value(spec_neg(n)),
            Ok(_) => Err(EvalError::ExpectedNumber),
        },
        ExprModel::Binary(op, l, r) => if is_numeric(op) {
            match eval(*l, env) {
                Err(err) => Err(err),
                Ok(ValueModel::Number(a)) => match eval(*r, env) {
                    Err(err) => Err(err),
                    Ok(ValueModel::Number(b)) => arithmetic(op, a, b),
                    Ok(_) => Err(EvalError::ExpectedNumber),
                },
                Ok(_) => Err(EvalError::ExpectedNumber),
            }
        } else if op == BinaryOp::And || op == BinaryOp::Or {
            match eval(*l, env) {
                Err(err) => Err(err),
                Ok(ValueModel::Boolean(a)) => match eval(*r, env) {
                    Err(err) => Err(err),
                    Ok(ValueModel::Boolean(b)) => Ok(
                        ValueModel::Boolean(
                            if op == BinaryOp::And {
                                a && b
                            } else {
                                a || b
                            },
                        ),
                    ),
                    Ok(_) => Err(EvalError::ExpectedBoolean),
                },
                Ok(_) => Err(EvalError::ExpectedBoolean),
            }
        } else if op == BinaryOp::Concat {
            match eval(*l, env) {
                Err(err) => Err(err),
                Ok(a) => match display(a) {
                    None => Err(EvalError::CannotRender),
                    Some(ta) => match eval(*r, env) {
                        Err(err) => Err(err),
                        Ok(b) => match display(b) {
                            None => Err(EvalError::CannotRender),
                            Some(tb) => Ok(ValueModel::Str(ta + tb)),
                        },
                    },
                },
            }
        } else {
            match eval(*l, env) {
                Err(err) => Err(err),
                Ok(ValueModel::Array(items)) => match eval(*r, env) {
                    Err(err) => Err(err),
                    Ok(ValueModel::Number(n)) => if n.scaled < 0 {
                        Err(EvalError::NegativeIndex)
                    } else if n.scaled as int / scale() >= items.len() {
                        Err(EvalError::IndexOutOfRange)
                    } else {
                        Ok(items[n.scaled as int / scale()])
                    },
                    Ok(_) => Err(EvalError::ExpectedNumber),
                },
                Ok(_) => Err(EvalError::ExpectedArray),
            }
        },
        ExprModel::Call(name, args) => match builtin_named(name) {
            None => Err(EvalError::UnknownFunction),
            Some(f) => if args.len() != arity(f) {
                Err(EvalError::WrongArity)
            } else {
                match eval(args[0], env) {
                    Err(err) => Err(err),
                    Ok(v) => apply_builtin(f, seq![v]),
                }
            },
        },
    }
}


// ---- executable evaluation ------------------------------------------------------------------

pub open spec fn value_result(r: Result<Value, EvalError>) -> Result<ValueModel, EvalError> {
    match r {
        Ok(v) => Ok(v@),
        Err(e) => Err(e),
    }
}

pub proof fn lemma_values_model(s: Seq<Value>)
    ensures
        crate::ast::values_model(s).len() == s.len(),
        forall|k: int| 0 <= k < s.len() ==> #[trigger] crate::ast::values_model(s)[k] == s[k]@,
    decreases s.len(),
{
    if s.len() > 0 {
        lemma_values_model(s.drop_last());
    }
}

pub proof fn lemma_exprs_model(s: Seq<Expr>)
    ensures
        crate::ast::exprs_model(s).len() == s.len(),
        forall|k: int| 0 <= k < s.len() ==> #[trigger] crate::ast::exprs_model(s)[k] == s[k]@,
    decreases s.len(),
{
    if s.len() > 0 {
        lemma_exprs_model(s.drop_last());
    }
}

fn apply_numeric(op: BinaryOp, a: Number, b: Number) -> (r: Result<Value, EvalError>)
    ensures
        value_result(r) == arithmetic(op, a, b),
{
    let n = match op {
        BinaryOp::Add => a.plus(b),
        BinaryOp::Subtract => a.minus(b),
        BinaryOp::Multiply => a.times(b),
        BinaryOp::Divide => a.divided_by(b),
        BinaryOp::Modulo => a.remainder(b),
        BinaryOp::Equals => return Ok(Value::Boolean(a.scaled == b.scaled)),
        BinaryOp::NotEquals => return Ok(Value::Boolean(a.scaled != b.scaled)),
        BinaryOp::GreaterThan => return Ok(Value::Boolean(a.scaled > b.scaled)),
        BinaryOp::GreaterThanOrEquals => return Ok(Value::Boolean(a.scaled >= b.scaled)),
        BinaryOp::LessThan => return Ok(Value::Boolean(a.scaled < b.scaled)),
        _ => return Ok(Value::Boolean(a.scaled <= b.scaled)),
    };
    match n {
        Ok(n) => Ok(Value::Number(n)),
        Err(e) => Err(EvalError::Arithmetic(e)),
    }
}

/// The text a value renders as: numbers in decimal, booleans as `true` / `false`, strings
/// as they are, null as `null`.
pub fn display_text(v: &Value) -> (r: Result<String, EvalError>)
    ensures
        match display(v@) {
            Some(t) => r matches Ok(s) && s@ == t,
            None => r == Err::<String, EvalError>(EvalError::CannotRender),
        },
{
    match v {
        Value::Boolean(true) => {
            let w = vec!['t', 'r', 'u', 'e'];
            assert(w@ =~= seq!['t', 'r', 'u', 'e']);
            Ok(string_from(&w))
        },
        Value::Boolean(false) => {
            let w = vec!['f', 'a', 'l', 's', 'e'];
            assert(w@ =~= seq!['f', 'a', 'l', 's', 'e']);
            Ok(string_from(&w))
        },
        Value::Number(n) => Ok(string_from(&n.text())),
        Value::String(s) => Ok(s.clone()),
        Value::Null => {
            let w = vec!['n', 'u', 'l', 'l'];
            assert(w@ =~= seq!['n', 'u', 'l', 'l']);
            Ok(string_from(&w))
        },
        _ => Err(EvalError::CannotRender),
    }
}

/// Looks a function up by name.
pub fn lookup_builtin(name: &String) -> (r: Option<Builtin>)
    ensures
        r == builtin_named(name@),
{
    let s = name.as_str();
    if s.unicode_len() == 3 && s.get_char(0) == 'l' && s.get_char(1) == 'e' && s.get_char(2)
        == 'n' {
        assert(name@ =~= seq!['l', 'e', 'n']);
        Some(Builtin::Len)
    } else {
        None
    }
}

fn call_builtin(f: Builtin, arg: Value) -> (r: Result<Value, EvalError>)
    ensures
        value_result(r) == apply_builtin(f, seq![arg@]),
{
    match f {
        Builtin::Len => match arg {
            Value::Array(items) => {
                proof {
                    lemma_values_model(items@);
                }
                match Number::from_count(items.len()) {
                    Ok(n) => Ok(Value::Number(n)),
                    Err(err) => Err(EvalError::Arithmetic(err)),
                }
            },
            _ => Err(EvalError::ExpectedArray),
        },
    }
}

fn evaluate_binary_op(e: &Expr, env: &Environment) -> (r: Result<Value, EvalError>)
    requires
        e is BinaryOp,
    ensures
        value_result(r) == eval(e@, env@),
    decreases e, 0int,
{
    let Expr::BinaryOp { kind, lhs, rhs } = e else { return Err(EvalError::ExpectedNumber) };
    let kind = *kind;
    match kind {
        BinaryOp::And | BinaryOp::Or => {
            let a = match evaluate_expression(lhs, env) {
                Ok(Value::Boolean(a)) => a,
                Ok(_) => return Err(EvalError::ExpectedBoolean),
                Err(err) => return Err(err),
            };
            let b = match evaluate_expression(rhs, env) {
                Ok(Value::Boolean(b)) => b,
                Ok(_) => return Err(EvalError::ExpectedBoolean),
                Err(err) => return Err(err),
            };
            if matches!(kind, BinaryOp::And) {
                Ok(Value::Boolean(a && b))
            } else {
                Ok(Value::Boolean(a || b))
            }
        },
        BinaryOp::Concat => {
            let a = match evaluate_expression(lhs, env) {
                Ok(a) => a,
                Err(err) => return Err(err),
            };
            let ta = match display_text(&a) {
                Ok(t) => t,
                Err(err) => return Err(err),
            };
            let b = match evaluate_expression(rhs, env) {
                Ok(b) => b,
                Err(err) => return Err(err),
            };
            let tb = match display_text(&b) {
                Ok(t) => t,
                Err(err) => return Err(err),
            };
            Ok(Value::String(ta.concat(tb.as_str())))
        },
        BinaryOp::Index => {
            let items = match evaluate_expression(lhs, env) {
                Ok(Value::Array(items)) => items,
                Ok(_) => return Err(EvalError::ExpectedArray),
                Err(err) => return Err(err),
            };
            let n = match evaluate_expression(rhs, env) {
                Ok(Value::Number(n)) => n,
                Ok(_) => return Err(EvalError::ExpectedNumber),
                Err(err) => return Err(err),
            };
            if n.scaled < 0 {
                return Err(EvalError::NegativeIndex);
            }
            let index = n.whole();
            proof {
                lemma_values_model(items@);
            }
            if index >= items.len() as u64 {
                return Err(EvalError::IndexOutOfRange);
            }
            Ok(items[index as usize].duplicate())
        },
        _ => {
            let a = match evaluate_expression(lhs, env) {
                Ok(Value::Number(a)) => a,
                Ok(_) => return Err(EvalError::ExpectedNumber),
                Err(err) => return Err(err),
            };
            let b = match evaluate_expression(rhs, env) {
                Ok(Value::Number(b)) => b,
                Ok(_) => return Err(EvalError::ExpectedNumber),
                Err(err) => return Err(err),
            };
            apply_numeric(kind, a, b)
        },
    }
}

fn evaluate_unary_op(e: &Expr, env: &Environment) -> (r: Result<Value, EvalError>)
    requires
        e is UnaryOp,
    ensures
        value_result(r) == eval(e@, env@),
    decreases e, 0int,
{
    let Expr::UnaryOp { kind, value } = e else { return Err(EvalError::ExpectedNumber) };
    match kind {
        UnaryOp::Dummy => evaluate_expression(value, env),
        _ => match evaluate_expression(value, env) {
            Ok(Value::Number(n)) => match n.negated() {
                Ok(m) => Ok(Value::Number(m)),
                Err(err) => Err(EvalError::Arithmetic(err)),
            },
            Ok(_) => Err(EvalError::ExpectedNumber),
            Err(err) => Err(err),
        },
    }
}

/// Calls a built-in function by name.
fn evaluate_function_call(e: &Expr, env: &Environment) -> (r: Result<Value, EvalError>)
    requires
        e is Function,
    ensures
        value_result(r) == eval(e@, env@),
    decreases e, 0int,
{
    let Expr::Function { ident, arguments } = e else { return Err(EvalError::UnknownFunction) };
    proof {
        lemma_exprs_model(arguments@);
    }
    let f = match lookup_builtin(ident) {
        Some(f) => f,
        None => return Err(EvalError::UnknownFunction),
    };
    let n: usize = match f {
        Builtin::Len => 1,
    };
    if arguments.len() != n {
        return Err(EvalError::WrongArity);
    }
    proof {
        assert(decreases_to!(*arguments => arguments[0]));
    }
    match evaluate_expression(&arguments[0], env) {
        Ok(v) => call_builtin(f, v),
        Err(err) => Err(err),
    }
}

/// The value of an expression in an environment; a name without a binding is null.
pub fn evaluate_expression(e: &Expr, env: &Environment) -> (r: Result<Value, EvalError>)
    ensures
        value_result(r) == eval(e@, env@),
    decreases e, 1int,
{
    match e {
        Expr::BinaryOp { .. } => evaluate_binary_op(e, env),
        Expr::UnaryOp { .. } => evaluate_unary_op(e, env),
        Expr::Function { .. } => evaluate_function_call(e, env),
        Expr::Value(Value::Variable(name)) => match env.get(name.as_str()) {
            Some(v) => Ok(v.duplicate()),
            None => Ok(Value::Null),
        },
        Expr::Value(v) => Ok(v.duplicate()),
    }
}


// ---- rendering the flat tree ----------------------------------------------------------------

/// Rendered text, the position just past what was rendered, and the environment after it.
pub type Rendered = Result<(Seq<char>, int, Env), EvalError>;

/// As `Rendered`, with whether the node was a clause of a chain whose body rendered.
pub type Step = Result<(Seq<char>, int, Env, bool), EvalError>;

/// Position just past the `EndBlock` that closes the body starting at `pos`, counting
/// nested blocks; the end of the sequence where none does.
pub open spec fn skip_block(cs: Seq<ContentModel>, pos: int, depth: nat) -> int
    decreases cs.len() - pos,
{
    if pos < 0 || pos >= cs.len() {
        pos
    } else {
        match cs[pos] {
            ContentModel::EndBlock => if depth == 0 {
                pos + 1
            } else {
                skip_block(cs, pos + 1, (depth - 1) as nat)
            },
            ContentModel::Block(_) => skip_block(cs, pos + 1, depth + 1),
            _ => skip_block(cs, pos + 1, depth),
        }
    }
}

/// Binds `names[k..]`, each to its position.
pub open spec fn bind_keys(env: Env, names: Seq<Seq<char>>, k: int) -> Result<Env, EvalError>
    decreases names.len() - k,
{
    if k < 0 || k >= names.len() {
        Ok(env)
    } else {
        match checked(k * scale()) {
            Err(e) => Err(EvalError::Arithmetic(e)),
            Ok(n) => bind_keys(env.insert(names[k], ValueModel::Number(n)), names, k + 1),
        }
    }
}

pub open spec fn with_flag(r: Rendered, flag: bool) -> Step {
    match r {
        Ok((t, end, env)) => Ok((t, end, env, flag)),
        Err(e) => Err(e),
    }
}

/// Renders the nodes from `pos` up to the `EndBlock` that closes this level (consumed) or
/// the end of the sequence. `flag` tells whether the previous node was a clause of a chain
/// whose body rendered.
pub open spec fn augment_from(cs: Seq<ContentModel>, pos: int, env: Env, flag: bool) -> Rendered
    decreases cs.len() - pos, 2int, 0int,
{
    if pos < 0 || pos >= cs.len() {
        Ok((seq![], pos, env))
    } else if cs[pos] is EndBlock {
        Ok((seq![], pos + 1, env))
    } else {
        match augment_node(cs, pos, env, flag) {
            Err(e) => Err(e),
            Ok((text, next, env2, flag2)) => if next <= pos || next > cs.len() {
                Ok((text, next, env2))
            } else {
                match augment_from(cs, next, env2, flag2) {
                    Ok((rest, end, env3)) => Ok((text + rest, end, env3)),
                    Err(e) => Err(e),
                }
            },
        }
    }
}

/// An `if` clause, or an `else if` clause after clauses that did not render: the body
/// renders where the condition holds, and is skipped otherwise.
pub open spec fn conditional(cs: Seq<ContentModel>, pos: int, env: Env, c: ExprModel) -> Step
    decreases cs.len() - pos, 0int, 0int,
{
    if pos < 0 || pos >= cs.len() {
        Ok((seq![], pos + 1, env, false))
    } else {
        match eval(c, env) {
            Err(e) => Err(e),
            Ok(ValueModel::Boolean(true)) => with_flag(augment_from(cs, pos + 1, env, false), true),
            Ok(ValueModel::Boolean(false)) => Ok((seq![], skip_block(cs, pos + 1, 0), env, false)),
            Ok(_) => Err(EvalError::ExpectedBoolean),
        }
    }
}

/// Renders the body at `body` once per item from `i` on, with `element` bound to the item;
/// `end` is where the previous pass over the body stopped.
pub open spec fn for_each(
    cs: Seq<ContentModel>,
    body: int,
    element: Seq<char>,
    items: Seq<ValueModel>,
    i: int,
    env: Env,
    end: int,
) -> Rendered
    decreases cs.len() - body + 1, 0int, items.len() - i,
{
    if i < 0 || i >= items.len() || body < 1 || body > cs.len() {
        Ok((seq![], end, env))
    } else {
        match augment_from(cs, body, env.insert(element, items[i]), false) {
            Err(e) => Err(e),
            Ok((text, end2, env2)) => match for_each(cs, body, element, items, i + 1, env2, end2) {
                Ok((rest, end3, env3)) => Ok((text + rest, end3, env3)),
                Err(e) => Err(e),
            },
        }
    }
}

/// One node at `pos` and what it renders.
pub open spec fn augment_node(cs: Seq<ContentModel>, pos: int, env: Env, flag: bool) -> Step
    decreases cs.len() - pos, 1int, 0int,
{
    if pos < 0 || pos >= cs.len() {
        Ok((seq![], pos + 1, env, false))
    } else {
        match cs[pos] {
            ContentModel::Markup(t) => Ok((t, pos + 1, env, false)),
            ContentModel::Expression(e) => match eval(e, env) {
                Err(err) => Err(err),
                Ok(v) => match display(v) {
                    None => Err(EvalError::CannotRender),
                    Some(t) => Ok((t, pos + 1, env, false)),
                },
            },
            ContentModel::Keys(names) => match bind_keys(env, names, 0) {
                Ok(env2) => Ok((seq![], pos + 1, env2, false)),
                Err(e) => Err(e),
            },
            ContentModel::EndBlock => Ok((seq![], pos + 1, env, false)),
            ContentModel::Block(BlockModel::If(c)) => conditional(cs, pos, env, c),
            ContentModel::Block(BlockModel::ElseIf(c)) => if flag {
                Ok((seq![], skip_block(cs, pos + 1, 0), env, true))
            } else {
                conditional(cs, pos, env, c)
            },
            ContentModel::Block(BlockModel::Else) => if flag {
                Ok((seq![], skip_block(cs, pos + 1, 0), env, false))
            } else {
                with_flag(augment_from(cs, pos + 1, env, false), false)
            },
            ContentModel::Block(BlockModel::For(element, iterable)) => if env.contains_key(
                element,
            ) {
                Err(EvalError::AlreadyDefined)
            } else if !env.contains_key(iterable) {
                Err(EvalError::NotDefined)
            } else {
                match env[iterable] {
                    ValueModel::Array(items) => with_flag(
                        for_each(
                            cs,
                            pos + 1,
                            element,
                            items,
                            0,
                            env.insert(element, ValueModel::Null),
                            skip_block(cs, pos + 1, 0),
                        ),
                        false,
                    ),
                    _ => Err(EvalError::NotAnArray),
                }
            },
        }
    }
}

/// The text that a flat tree renders to, and the environment after it.
pub open spec fn render_contents(cs: Seq<ContentModel>, env: Env) -> Result<(Seq<char>, Env), EvalError> {
    match augment_from(cs, 0, env, false) {
        Ok((t, _, env2)) => Ok((t, env2)),
        Err(e) => Err(e),
    }
}


// ---- executable rendering -------------------------------------------------------------------

pub open spec fn after_text(pre: Seq<char>, r: Rendered) -> Rendered {
    match r {
        Ok((t, end, env)) => Ok((pre + t, end, env)),
        Err(e) => Err(e),
    }
}

/// Where `r` holds the exact outcome `m`: its text, position and environment.
pub open spec fn rendered_as(
    r: Result<(String, usize), EvalError>,
    m: Rendered,
    env: Env,
    lo: int,
    hi: int,
) -> bool {
    match m {
        Ok((t, end, e2)) => r matches Ok((s, k)) && s@ == t && k == end && env == e2 && lo <= k
            <= hi,
        Err(e) => r == Err::<(String, usize), EvalError>(e),
    }
}

fn skip_block_from(cs: &Vec<Content>, pos: usize) -> (r: usize)
    requires
        pos <= cs.len(),
    ensures
        r == skip_block(contents_model(cs@), pos as int, 0),
        pos <= r <= cs.len(),
{
    let ghost m = contents_model(cs@);
    let mut p = pos;
    let mut depth: usize = 0;
    while p < cs.len()
        invariant
            pos <= p <= cs.len(),
            depth <= p - pos,
            m == contents_model(cs@),
            skip_block(m, pos as int, 0) == skip_block(m, p as int, depth as nat),
        decreases cs.len() - p,
    {
        assert(m[p as int] == cs@[p as int]@);
        match &cs[p] {
            Content::EndBlock => {
                if depth == 0 {
                    return p + 1;
                }
                depth = depth - 1;
            },
            Content::Block(_) => {
                depth = depth + 1;
            },
            _ => {},
        }
        p = p + 1;
    }
    p
}

fn bind_keys_in(names: &Vec<String>, env: &mut Environment) -> (r: Result<(), EvalError>)
    ensures
        match bind_keys(old(env)@, crate::ast::names_model(names@), 0) {
            Ok(e2) => r is Ok && final(env)@ == e2,
            Err(e) => r == Err::<(), EvalError>(e),
        },
{
    let ghost ns = crate::ast::names_model(names@);
    let mut k: usize = 0;
    while k < names.len()
        invariant
            k <= names.len(),
            ns == crate::ast::names_model(names@),
            bind_keys(old(env)@, ns, 0) == bind_keys(env@, ns, k as int),
        decreases names.len() - k,
    {
        let n = match Number::from_count(k) {
            Ok(n) => n,
            Err(e) => return Err(EvalError::Arithmetic(e)),
        };
        env.insert(names[k].clone(), Value::Number(n));
        k = k + 1;
    }
    Ok(())
}

/// Renders the nodes from `pos` up to the `EndBlock` that closes this level (consumed) or
/// the end; returns the text and the position just past what was rendered.
pub fn augment(cs: &Vec<Content>, pos: usize, env: &mut Environment) -> (r: Result<
    (String, usize),
    EvalError,
>)
    requires
        pos <= cs.len(),
    ensures
        rendered_as(
            r,
            augment_from(contents_model(cs@), pos as int, old(env)@, false),
            final(env)@,
            pos as int,
            cs.len() as int,
        ),
    decreases cs.len() - pos, 2int, 0int,
{
    let ghost m = contents_model(cs@);
    let mut out = String::new();
    let mut p = pos;
    let mut flag = false;
    loop
        invariant
            pos <= p <= cs.len(),
            m == contents_model(cs@),
            augment_from(m, pos as int, old(env)@, false) == after_text(
                out@,
                augment_from(m, p as int, env@, flag),
            ),
        decreases cs.len() - p,
    {
        if p >= cs.len() {
            assert(out@ + seq![] =~= out@);
            return Ok((out, p));
        }
        assert(m[p as int] == cs@[p as int]@);
        if matches!(cs[p], Content::EndBlock) {
            assert(out@ + seq![] =~= out@);
            return Ok((out, p + 1));
        }
        match augment_one(cs, p, env, flag) {
            Err(e) => {
                return Err(e);
            },
            Ok((text, next, f)) => {
                let ghost before = out@;
                out.append(text.as_str());
                proof {
                    match augment_from(m, next as int, env@, f) {
                        Ok((rest, _, _)) => {
                            assert(before + (text@ + rest) =~= out@ + rest);
                        },
                        Err(_) => {},
                    }
                }
                p = next;
                flag = f;
            },
        }
    }
}

fn augment_one(cs: &Vec<Content>, pos: usize, env: &mut Environment, flag: bool) -> (r: Result<
    (String, usize, bool),
    EvalError,
>)
    requires
        pos < cs.len(),
    ensures
        match augment_node(contents_model(cs@), pos as int, old(env)@, flag) {
            Ok((t, next, e2, f2)) => r matches Ok((s, k, f)) && s@ == t && k == next && f == f2
                && final(env)@ == e2 && pos < k <= cs.len(),
            Err(e) => r == Err::<(String, usize, bool), EvalError>(e),
        },
    decreases cs.len() - pos, 1int, 0int,
{
    let ghost m = contents_model(cs@);
    assert(m[pos as int] == cs@[pos as int]@);
    match &cs[pos] {
        Content::Markup(t) => Ok((t.clone(), pos + 1, false)),
        Content::Expression(e) => {
            let v = match evaluate_expression(e, env) {
                Ok(v) => v,
                Err(err) => return Err(err),
            };
            match display_text(&v) {
                Ok(t) => Ok((t, pos + 1, false)),
                Err(err) => Err(err),
            }
        },
        Content::Keys(names) => match bind_keys_in(names, env) {
            Ok(()) => Ok((String::new(), pos + 1, false)),
            Err(err) => Err(err),
        },
        Content::EndBlock => Ok((String::new(), pos + 1, false)),
        Content::Block(Block::If { condition }) => augment_if(cs, pos, env, condition),
        Content::Block(Block::ElseIf { condition }) => {
            if flag {
                Ok((String::new(), skip_block_from(cs, pos + 1), true))
            } else {
                augment_if(cs, pos, env, condition)
            }
        },
        Content::Block(Block::Else) => {
            if flag {
                Ok((String::new(), skip_block_from(cs, pos + 1), false))
            } else {
                match augment(cs, pos + 1, env) {
                    Ok((t, end)) => Ok((t, end, false)),
                    Err(err) => Err(err),
                }
            }
        },
        Content::Block(Block::For { element, iterable }) => {
            assert(m[pos as int] == ContentModel::Block(BlockModel::For(element@, iterable@)));
            match augment_for(cs, pos, env, element, iterable) {
                Ok((t, end)) => Ok((t, end, false)),
                Err(err) => Err(err),
            }
        },
    }
}

fn augment_if(cs: &Vec<Content>, pos: usize, env: &mut Environment, condition: &Expr) -> (r: Result<
    (String, usize, bool),
    EvalError,
>)
    requires
        pos < cs.len(),
    ensures
        match conditional(contents_model(cs@), pos as int, old(env)@, condition@) {
            Ok((t, next, e2, f2)) => r matches Ok((s, k, f)) && s@ == t && k == next && f == f2
                && final(env)@ == e2 && pos < k <= cs.len(),
            Err(e) => r == Err::<(String, usize, bool), EvalError>(e),
        },
    decreases cs.len() - pos, 0int, 0int,
{
    match evaluate_expression(condition, env) {
        Ok(Value::Boolean(true)) => match augment(cs, pos + 1, env) {
            Ok((t, end)) => Ok((t, end, true)),
            Err(err) => Err(err),
        },
        Ok(Value::Boolean(false)) => Ok((String::new(), skip_block_from(cs, pos + 1), false)),
        Ok(_) => Err(EvalError::ExpectedBoolean),
        Err(err) => Err(err),
    }
}

fn augment_for(
    cs: &Vec<Content>,
    pos: usize,
    env: &mut Environment,
    element: &String,
    iterable: &String,
) -> (r: Result<(String, usize), EvalError>)
    requires
        pos < cs.len(),
        contents_model(cs@)[pos as int] == ContentModel::Block(
            BlockModel::For(element@, iterable@),
        ),
    ensures
        match augment_node(contents_model(cs@), pos as int, old(env)@, false) {
            Ok((t, next, e2, _)) => r matches Ok((s, k)) && s@ == t && k == next && final(env)@
                == e2 && pos < k <= cs.len(),
            Err(e) => r == Err::<(String, usize), EvalError>(e),
        },
    decreases cs.len() - pos, 0int, 0int,
{
    let ghost m = contents_model(cs@);
    if env.contains(element.as_str()) {
        return Err(EvalError::AlreadyDefined);
    }
    let array = match env.get(iterable.as_str()) {
        None => return Err(EvalError::NotDefined),
        Some(v) => v.duplicate(),
    };
    let items = match array {
        Value::Array(items) => items,
        _ => return Err(EvalError::NotAnArray),
    };
    let ghost im = crate::ast::values_model(items@);
    proof {
        lemma_values_model(items@);
    }
    env.insert(element.clone(), Value::Null);
    let ghost env1 = env@;
    let body = pos + 1;
    let mut end = skip_block_from(cs, body);
    let ghost end0 = end;
    let mut out = String::new();
    let mut i: usize = 0;
    assert(augment_node(m, pos as int, old(env)@, false) == with_flag(
        for_each(m, body as int, element@, im, 0, env1, end0 as int),
        false,
    ));
    while i < items.len()
        invariant
            augment_node(m, pos as int, old(env)@, false) == with_flag(
                for_each(m, body as int, element@, im, 0, env1, end0 as int),
                false,
            ),
            body == pos + 1,
            pos < cs.len(),
            body <= end <= cs.len(),
            i <= items.len(),
            m == contents_model(cs@),
            im == crate::ast::values_model(items@),
            im.len() == items.len(),
            forall|k: int| 0 <= k < items.len() ==> #[trigger] im[k] == items@[k]@,
            for_each(m, body as int, element@, im, 0, env1, end0 as int) == after_text(
                out@,
                for_each(m, body as int, element@, im, i as int, env@, end as int),
            ),
        decreases items.len() - i,
    {
        let ghost env_before = env@;
        env.insert(element.clone(), items[i].duplicate());
        assert(env@ == env_before.insert(element@, im[i as int]));
        match augment(cs, body, env) {
            Err(e) => {
                assert(for_each(m, body as int, element@, im, i as int, env_before, end as int)
                    == Err::<(Seq<char>, int, Env), EvalError>(e));
                return Err(e);
            },
            Ok((t, e2)) => {
                let ghost before = out@;
                out.append(t.as_str());
                proof {
                    match for_each(m, body as int, element@, im, i + 1, env@, e2 as int) {
                        Ok((rest, _, _)) => {
                            assert(before + (t@ + rest) =~= out@ + rest);
                        },
                        Err(_) => {},
                    }
                }
                end = e2;
            },
        }
        i = i + 1;
    }
    assert(out@ + seq![] =~= out@);
    Ok((out, end))
}

/// Renders a whole flat tree; bindings that it makes stay in the environment.
pub fn render(cs: &Vec<Content>, env: &mut Environment) -> (r: Result<String, EvalError>)
    ensures
        match render_contents(contents_model(cs@), old(env)@) {
            Ok((t, e2)) => r matches Ok(s) && s@ == t && final(env)@ == e2,
            Err(e) => r == Err::<String, EvalError>(e),
        },
{
    match augment(cs, 0, env) {
        Ok((t, _)) => Ok(t),
        Err(e) => Err(e),
    }
}


/// Indexing an array: a negative index is an error; otherwise the index is truncated toward
/// zero and must lie within the array.
pub proof fn law_index_bounds(l: ExprModel, r: ExprModel, items: Seq<ValueModel>, n: Number, env: Env)
    requires
        eval(l, env) == Ok::<ValueModel, EvalError>(ValueModel::Array(items)),
        eval(r, env) == Ok::<ValueModel, EvalError>(ValueModel::Number(n)),
    ensures
        n.scaled < 0 ==> eval(
            ExprModel::Binary(BinaryOp::Index, Box::new(l), Box::new(r)),
            env,
        ) == Err::<ValueModel, EvalError>(EvalError::NegativeIndex),
        n.scaled >= 0 && n.scaled / 1000000 < items.len() ==> eval(
            ExprModel::Binary(BinaryOp::Index, Box::new(l), Box::new(r)),
            env,
        ) == Ok::<ValueModel, EvalError>(items[n.scaled / 1000000]),
        n.scaled >= 0 && n.scaled / 1000000 >= items.len() ==> eval(
            ExprModel::Binary(BinaryOp::Index, Box::new(l), Box::new(r)),
            env,
        ) == Err::<ValueModel, EvalError>(EvalError::IndexOutOfRange),
{
}

} // verus!

//! One pass of the engine: source text and environment in, rendered text and the optional
//! base template out.
use crate::ast::{BlockModel, ContentModel, ExprModel, ValueModel};
use crate::environment::Environment;
use crate::lexer::{lex_document, LexError, Lexer};
use crate::parser::{parse_document, path_model, ParseError, Parser};
use crate::template::{
    augment_from, augment_node, conditional, display, eval, render, render_contents, skip_block,
    Env, EvalError,
};
use vstd::prelude::*;

verus! {

#[derive(Clone, Copy, Debug, PartialEq, Eq, Structural)]
pub enum TemplateError {
    Lex(LexError),
    Parse(ParseError),
    Eval(EvalError),
}

/// Rendered text, the base template named by the source, and the environment afterwards.
pub type Pass = Result<(Seq<char>, Option<Seq<char>>, Env), TemplateError>;

pub open spec fn template_pass(src: Seq<char>, env: Env) -> Pass {
    match lex_document(src) {
        Err(e) => Err(TemplateError::Lex(e)),
        Ok(docs) => match parse_document(docs) {
            Err(e) => Err(TemplateError::Parse(e)),
            Ok((cs, base)) => match render_contents(cs, env) {
                Err(e) => Err(TemplateError::Eval(e)),
                Ok((text, env2)) => Ok((text, base, env2)),
            },
        },
    }
}

/// Lexes, parses and renders `contents` against `environment`. Returns the text and the
/// base template that the source names with `@base`, if any; the caller renders that base
/// next, with the text bound to `slot`.
pub fn template_a_file(contents: &str, environment: &mut Environment) -> (r: Result<
    (String, Option<String>),
    TemplateError,
>)
    ensures
        match template_pass(contents@, old(environment)@) {
            Ok((text, base, env2)) => r matches Ok((s, b)) && s@ == text && path_model(b) == base
                && final(environment)@ == env2,
            Err(e) => r == Err::<(String, Option<String>), TemplateError>(e),
        },
{
    let mut lexer = Lexer::new(contents);
    let docs = match lexer.execute() {
        Ok(d) => d,
        Err(e) => return Err(TemplateError::Lex(e)),
    };
    let parser = Parser::new();
    let (tree, base) = match parser.execute(docs) {
        Ok(p) => p,
        Err(e) => return Err(TemplateError::Parse(e)),
    };
    match render(&tree, environment) {
        Ok(text) => Ok((text, base)),
        Err(e) => Err(TemplateError::Eval(e)),
    }
}

/// A pass depends on the source text and the environment alone: repeating it on the same
/// source with an equal environment gives the same text, base template and environment.
pub proof fn law_pass_is_repeatable(src1: Seq<char>, src2: Seq<char>, env1: Env, env2: Env)
    requires
        src1 == src2,
        env1 == env2,
    ensures
        template_pass(src1, env1) == template_pass(src2, env2),
{
}

/// A name without a binding evaluates to null, and an expression node holding only that
/// name renders as `null` and leaves the environment as it was.
pub proof fn law_unbound_name_renders_null(name: Seq<char>, env: Env)
    requires
        !env.contains_key(name),
    ensures
        eval(ExprModel::Leaf(ValueModel::Variable(name)), env) == Ok::<ValueModel, EvalError>(
            ValueModel::Null,
        ),
        render_contents(
            seq![ContentModel::Expression(ExprModel::Leaf(ValueModel::Variable(name)))],
            env,
        ) == Ok::<(Seq<char>, Env), EvalError>((seq!['n', 'u', 'l', 'l'], env)),
{
    let cs = seq![ContentModel::Expression(ExprModel::Leaf(ValueModel::Variable(name)))];
    assert(display(ValueModel::Null) == Some(seq!['n', 'u', 'l', 'l']));
    reveal_with_fuel(crate::template::augment_from, 2);
    assert(seq!['n', 'u', 'l', 'l'] + Seq::<char>::empty() =~= seq!['n', 'u', 'l', 'l']);
}


/// The nodes of `{#if c1}a{:else if c2}b{:else}c{/}`.
pub open spec fn chain(c1: ExprModel, c2: ExprModel, a: Seq<char>, b: Seq<char>, c: Seq<char>) -> Seq<
    ContentModel,
> {
    seq![
        ContentModel::Block(BlockModel::If(c1)),
        ContentModel::Markup(a),
        ContentModel::EndBlock,
        ContentModel::Block(BlockModel::ElseIf(c2)),
        ContentModel::Markup(b),
        ContentModel::EndBlock,
        ContentModel::Block(BlockModel::Else),
        ContentModel::Markup(c),
        ContentModel::EndBlock,
    ]
}

proof fn lemma_chain_shape(c1: ExprModel, c2: ExprModel, a: Seq<char>, b: Seq<char>, c: Seq<char>)
    ensures
        ({
            let cs = chain(c1, c2, a, b, c);
            &&& cs.len() == 9
            &&& cs[0] == ContentModel::Block(BlockModel::If(c1))
            &&& cs[1] == ContentModel::Markup(a)
            &&& cs[2] == ContentModel::EndBlock
            &&& cs[3] == ContentModel::Block(BlockModel::ElseIf(c2))
            &&& cs[4] == ContentModel::Markup(b)
            &&& cs[5] == ContentModel::EndBlock
            &&& cs[6] == ContentModel::Block(BlockModel::Else)
            &&& cs[7] == ContentModel::Markup(c)
            &&& cs[8] == ContentModel::EndBlock
            &&& skip_block(cs, 1, 0) == 3
            &&& skip_block(cs, 4, 0) == 6
            &&& skip_block(cs, 7, 0) == 9
        }),
{
    let cs = chain(c1, c2, a, b, c);
    assert(skip_block(cs, 2, 0) == 3);
    assert(skip_block(cs, 5, 0) == 6);
    assert(skip_block(cs, 8, 0) == 9);
}

/// A clause body of plain markup `m` at `k`, closed at `k + 1`.
proof fn lemma_markup_body(cs: Seq<ContentModel>, k: int, m: Seq<char>, env: Env)
    requires
        0 <= k,
        k + 1 < cs.len(),
        cs[k] == ContentModel::Markup(m),
        cs[k + 1] == ContentModel::EndBlock,
    ensures
        augment_from(cs, k, env, false) == Ok::<(Seq<char>, int, Env), EvalError>((m, k + 2, env)),
{
    assert(augment_from(cs, k + 1, env, false) == Ok::<(Seq<char>, int, Env), EvalError>(
        (Seq::<char>::empty(), k + 2, env),
    ));
    assert(augment_node(cs, k, env, false) == Ok::<(Seq<char>, int, Env, bool), EvalError>(
        (m, k + 1, env, false),
    ));
    assert(m + Seq::<char>::empty() =~= m);
}

/// From the `else` clause at 6 to the end.
proof fn lemma_chain_else(c1: ExprModel, c2: ExprModel, a: Seq<char>, b: Seq<char>, c: Seq<char>, env: Env)
    ensures
        augment_from(chain(c1, c2, a, b, c), 6, env, false) == Ok::<(Seq<char>, int, Env), EvalError>(
            (c, 9, env),
        ),
        augment_from(chain(c1, c2, a, b, c), 6, env, true) == Ok::<(Seq<char>, int, Env), EvalError>(
            (Seq::<char>::empty(), 9, env),
        ),
{
    let cs = chain(c1, c2, a, b, c);
    let e = Seq::<char>::empty();
    lemma_chain_shape(c1, c2, a, b, c);
    lemma_markup_body(cs, 7, c, env);
    assert(augment_from(cs, 9, env, false) == Ok::<(Seq<char>, int, Env), EvalError>((e, 9, env)));
    assert(augment_node(cs, 6, env, false) == Ok::<(Seq<char>, int, Env, bool), EvalError>(
        (c, 9, env, false),
    ));
    assert(augment_node(cs, 6, env, true) == Ok::<(Seq<char>, int, Env, bool), EvalError>(
        (e, 9, env, false),
    ));
    assert(c + e =~= c);
    assert(e + e =~= e);
}

/// From the `else if` clause at 3 to the end.
proof fn lemma_chain_else_if(
    c1: ExprModel,
    c2: ExprModel,
    y: bool,
    a: Seq<char>,
    b: Seq<char>,
    c: Seq<char>,
    env: Env,
)
    requires
        eval(c2, env) == Ok::<ValueModel, EvalError>(ValueModel::Boolean(y)),
    ensures
        augment_from(chain(c1, c2, a, b, c), 3, env, false) == Ok::<(Seq<char>, int, Env), EvalError>(
            (
                if y {
                    b
                } else {
                    c
                },
                9,
                env,
            ),
        ),
{
    let cs = chain(c1, c2, a, b, c);
    let e = Seq::<char>::empty();
    lemma_chain_shape(c1, c2, a, b, c);
    lemma_chain_else(c1, c2, a, b, c, env);
    lemma_markup_body(cs, 4, b, env);
    if y {
        assert(conditional(cs, 3, env, c2) == Ok::<(Seq<char>, int, Env, bool), EvalError>(
            (b, 6, env, true),
        ));
        assert(augment_node(cs, 3, env, false) == conditional(cs, 3, env, c2));
        assert(b + e =~= b);
    } else {
        assert(conditional(cs, 3, env, c2) == Ok::<(Seq<char>, int, Env, bool), EvalError>(
            (e, 6, env, false),
        ));
        assert(augment_node(cs, 3, env, false) == conditional(cs, 3, env, c2));
        assert(e + c =~= c);
    }
}

/// From the `else if` clause at 3 to the end, after the `if` clause rendered.
proof fn lemma_chain_else_if_skipped(c1: ExprModel, c2: ExprModel, a: Seq<char>, b: Seq<char>, c: Seq<char>, env: Env)
    ensures
        augment_from(chain(c1, c2, a, b, c), 3, env, true) == Ok::<(Seq<char>, int, Env), EvalError>(
            (Seq::<char>::empty(), 9, env),
        ),
{
    let cs = chain(c1, c2, a, b, c);
    let e = Seq::<char>::empty();
    lemma_chain_shape(c1, c2, a, b, c);
    lemma_chain_else(c1, c2, a, b, c, env);
    assert(augment_node(cs, 3, env, true) == Ok::<(Seq<char>, int, Env, bool), EvalError>(
        (e, 6, env, true),
    ));
    assert(e + e =~= e);
}

/// Exactly one clause of an `if` / `else if` / `else` chain renders: the first whose
/// condition holds, else the `else` clause. Conditions after the one that holds are not
/// evaluated, and the environment is left as it was.
pub proof fn law_one_clause_renders(
    c1: ExprModel,
    c2: ExprModel,
    x: bool,
    y: bool,
    a: Seq<char>,
    b: Seq<char>,
    c: Seq<char>,
    env: Env,
)
    requires
        eval(c1, env) == Ok::<ValueModel, EvalError>(ValueModel::Boolean(x)),
        x || eval(c2, env) == Ok::<ValueModel, EvalError>(ValueModel::Boolean(y)),
    ensures
        render_contents(chain(c1, c2, a, b, c), env) == Ok::<(Seq<char>, Env), EvalError>(
            (
                if x {
                    a
                } else if y {
                    b
                } else {
                    c
                },
                env,
            ),
        ),
{
    let cs = chain(c1, c2, a, b, c);
    let e = Seq::<char>::empty();
    lemma_chain_shape(c1, c2, a, b, c);
    lemma_markup_body(cs, 1, a, env);
    if x {
        lemma_chain_else_if_skipped(c1, c2, a, b, c, env);
        assert(conditional(cs, 0, env, c1) == Ok::<(Seq<char>, int, Env, bool), EvalError>(
            (a, 3, env, true),
        ));
        assert(augment_node(cs, 0, env, false) == conditional(cs, 0, env, c1));
        assert(a + e =~= a);
    } else {
        lemma_chain_else_if(c1, c2, y, a, b, c, env);
        assert(conditional(cs, 0, env, c1) == Ok::<(Seq<char>, int, Env, bool), EvalError>(
            (e, 3, env, false),
        ));
        assert(augment_node(cs, 0, env, false) == conditional(cs, 0, env, c1));
        assert(e + b =~= b);
        assert(e + c =~= c);
    }
}

} // verus!

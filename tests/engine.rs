use templet::ast::Value;
use templet::engine::{template_a_file, TemplateError};
use templet::environment::Environment;
use templet::number::Number;
use templet::parser::ParseError;
use templet::seed::parse_argument;
use templet::template::EvalError;

fn num(n: i64) -> Value {
    Value::Number(Number { scaled: n * 1_000_000 })
}

fn render_with(source: &str, env: &mut Environment) -> Result<String, TemplateError> {
    template_a_file(source, env).map(|(text, _)| text)
}

fn render(source: &str) -> Result<String, TemplateError> {
    let mut env = Environment::new();
    render_with(source, &mut env)
}

fn with_list(items: Vec<Value>) -> Environment {
    let mut env = Environment::new();
    env.insert("list".to_owned(), Value::Array(items));
    env
}

#[test]
fn evaluates_addition() {
    assert_eq!(render("{2+3}"), Ok("5".to_owned()));
}

#[test]
fn same_level_operators_group_to_the_right() {
    assert_eq!(render("{2-3-4}"), Ok("3".to_owned()));
    assert_eq!(render("{8/4/2}"), Ok("4".to_owned()));
}

#[test]
fn exactly_one_branch_of_a_chain_renders() {
    assert_eq!(render("{#if false}A{:else if true}B{:else}C{/}"), Ok("B".to_owned()));
    assert_eq!(render("{#if true}A{:else if true}B{:else}C{/}"), Ok("A".to_owned()));
    assert_eq!(render("{#if false}A{:else if false}B{:else}C{/}"), Ok("C".to_owned()));
    assert_eq!(render("{#if false}A{/}"), Ok("".to_owned()));
}

#[test]
fn for_loop_over_seeded_array() {
    let mut env = with_list(vec![num(1), num(2), num(3)]);
    assert_eq!(render_with("{#for x in list}{x}{/}", &mut env), Ok("123".to_owned()));
}

#[test]
fn for_loop_over_empty_array_skips_body() {
    let mut env = with_list(vec![]);
    assert_eq!(render_with("a{#for x in list}{x}{/}b", &mut env), Ok("ab".to_owned()));
}

#[test]
fn for_loop_binding_outlives_the_loop() {
    let mut env = with_list(vec![num(1), num(2)]);
    assert_eq!(render_with("{#for x in list}.{/}{x}", &mut env), Ok("..2".to_owned()));
}

#[test]
fn for_loop_errors() {
    let mut env = with_list(vec![num(1)]);
    env.insert("x".to_owned(), num(0));
    assert_eq!(
        render_with("{#for x in list}{/}", &mut env),
        Err(TemplateError::Eval(EvalError::AlreadyDefined))
    );
    assert_eq!(
        render("{#for x in nothing}{/}"),
        Err(TemplateError::Eval(EvalError::NotDefined))
    );
    let mut env = Environment::new();
    env.insert("n".to_owned(), num(3));
    assert_eq!(
        render_with("{#for x in n}{/}", &mut env),
        Err(TemplateError::Eval(EvalError::NotAnArray))
    );
}

#[test]
fn indexing_and_bounds() {
    let mut env = with_list(vec![num(10), num(20)]);
    assert_eq!(render_with("{list[0]}", &mut env), Ok("10".to_owned()));
    assert_eq!(render_with("{list[1.9]}", &mut env), Ok("20".to_owned()));
    assert_eq!(
        render_with("{list[-1]}", &mut env),
        Err(TemplateError::Eval(EvalError::NegativeIndex))
    );
    assert_eq!(
        render_with("{list[2]}", &mut env),
        Err(TemplateError::Eval(EvalError::IndexOutOfRange))
    );
}

#[test]
fn chained_indexing() {
    let mut env = with_list(vec![Value::Array(vec![num(5), num(6)]), num(7)]);
    assert_eq!(render_with("{list[0][1]}", &mut env), Ok("6".to_owned()));
}

#[test]
fn repeated_passes_give_the_same_output() {
    let source = "{#for x in list}{x * 2}{/}{len(list)}";
    let mut first = with_list(vec![num(1), num(2), num(3)]);
    let mut second = with_list(vec![num(1), num(2), num(3)]);
    let a = render_with(source, &mut first);
    let b = render_with(source, &mut second);
    assert_eq!(a, Ok("2463".to_owned()));
    assert_eq!(a, b);
}

#[test]
fn unresolved_variable_renders_null() {
    assert_eq!(render("{missing}"), Ok("null".to_owned()));
}

#[test]
fn number_formatting() {
    assert_eq!(render("{1/3}"), Ok("0.333333".to_owned()));
    assert_eq!(render("{2.5*2}"), Ok("5".to_owned()));
    assert_eq!(render("{0.5-2}"), Ok("-1.5".to_owned()));
    assert_eq!(render("{7%3}"), Ok("1".to_owned()));
    assert_eq!(render("{-7%3}"), Ok("-1".to_owned()));
    assert_eq!(render("{1.250}"), Ok("1.25".to_owned()));
    assert_eq!(render("{0.000001}"), Ok("0.000001".to_owned()));
}

#[test]
fn arithmetic_errors() {
    assert_eq!(
        render("{1/0}"),
        Err(TemplateError::Eval(EvalError::Arithmetic(templet::number::NumberError::DivisionByZero)))
    );
    assert_eq!(
        render("{9000000000000*9000000000000}"),
        Err(TemplateError::Eval(EvalError::Arithmetic(templet::number::NumberError::OutOfRange)))
    );
}

#[test]
fn comparisons_and_logic() {
    assert_eq!(render("{1 < 2}"), Ok("true".to_owned()));
    assert_eq!(render("{2 <= 1}"), Ok("false".to_owned()));
    assert_eq!(render("{3 = 3 & 1 != 2}"), Ok("true".to_owned()));
    assert_eq!(render("{false | 1 >= 2}"), Ok("false".to_owned()));
    assert_eq!(render("{1 & true}"), Err(TemplateError::Eval(EvalError::ExpectedBoolean)));
    assert_eq!(render("{true + 1}"), Err(TemplateError::Eval(EvalError::ExpectedNumber)));
}

#[test]
fn not_negates_numbers() {
    assert_eq!(render("{!3}"), Ok("-3".to_owned()));
    assert_eq!(render("{-(2+3)}"), Ok("-5".to_owned()));
    assert_eq!(render("{!true}"), Err(TemplateError::Eval(EvalError::ExpectedNumber)));
}

#[test]
fn concatenation_uses_display_text() {
    assert_eq!(render("{\"a\" ++ 1 ++ true}"), Ok("a1true".to_owned()));
    assert_eq!(render("{\"x\" ++ missing}"), Ok("xnull".to_owned()));
    let mut env = with_list(vec![]);
    assert_eq!(
        render_with("{\"a\" ++ list}", &mut env),
        Err(TemplateError::Eval(EvalError::CannotRender))
    );
}

#[test]
fn len_builtin() {
    let mut env = with_list(vec![num(1), num(2), num(3), num(4), num(5)]);
    assert_eq!(
        render_with("{#if len(list) > 4 & true}and {\"yes \" ++ \"it works\"}.{:else}no{/}", &mut env),
        Ok("and yes it works.".to_owned())
    );
    assert_eq!(render("{size(1)}"), Err(TemplateError::Eval(EvalError::UnknownFunction)));
    assert_eq!(render_with("{len(list, list)}", &mut env), Err(TemplateError::Eval(EvalError::WrongArity)));
    assert_eq!(render("{len(3)}"), Err(TemplateError::Eval(EvalError::ExpectedArray)));
}

#[test]
fn rendering_an_array_fails() {
    let mut env = with_list(vec![num(1)]);
    assert_eq!(render_with("{list}", &mut env), Err(TemplateError::Eval(EvalError::CannotRender)));
}

#[test]
fn keys_bind_positions() {
    assert_eq!(render("{@keys a b c}{a}{b}{c}"), Ok("012".to_owned()));
}

#[test]
fn base_template_is_reported() {
    let mut env = Environment::new();
    assert_eq!(
        template_a_file("{@base \"layout.html\"}body", &mut env),
        Ok(("body".to_owned(), Some("layout.html".to_owned())))
    );
    assert_eq!(
        render("{@base \"a\"}{@base \"b\"}"),
        Err(TemplateError::Parse(ParseError::DuplicateBase))
    );
    assert_eq!(render("{@base 3}"), Err(TemplateError::Parse(ParseError::BaseNotString)));
}

#[test]
fn slot_carries_child_output() {
    let mut env = Environment::new();
    env.insert("slot".to_owned(), Value::String("child".to_owned()));
    assert_eq!(render_with("<main>{slot}</main>", &mut env), Ok("<main>child</main>".to_owned()));
}

#[test]
fn nested_blocks_are_skipped_as_a_whole() {
    assert_eq!(
        render("{#if false}{#if true}x{:else}y{/}z{:else}w{/}"),
        Ok("w".to_owned())
    );
}

#[test]
fn parse_errors() {
    assert_eq!(render("{(1+2}"), Err(TemplateError::Parse(ParseError::MissingParen)));
    assert_eq!(render("{a[1}"), Err(TemplateError::Parse(ParseError::MissingBracket)));
    assert_eq!(render("{}"), Err(TemplateError::Parse(ParseError::ExpectedValue)));
    assert_eq!(render("{*}"), Err(TemplateError::Parse(ParseError::UnexpectedToken)));
    assert_eq!(render("{#for 1 in list}{/}"), Err(TemplateError::Parse(ParseError::ExpectedIdentifier)));
    assert_eq!(render("{#for x on list}{/}"), Err(TemplateError::Parse(ParseError::ExpectedIn)));
    assert_eq!(render("{#while x}"), Err(TemplateError::Parse(ParseError::ExpectedBlock)));
    assert_eq!(render("{:if x}"), Err(TemplateError::Parse(ParseError::ExpectedElse)));
    assert_eq!(render("{@other}"), Err(TemplateError::Parse(ParseError::ExpectedStatement)));
    assert_eq!(render("{@keys a 1}"), Err(TemplateError::Parse(ParseError::ExpectedIdentifier)));
}

#[test]
fn lexical_errors_surface() {
    assert_eq!(
        render("{$}"),
        Err(TemplateError::Lex(templet::lexer::LexError::UnexpectedCharacter('$')))
    );
}

#[test]
fn for_loop_over_command_line_array() {
    let mut env = Environment::new();
    let (name, value) = parse_argument("list=[1,2,3]").unwrap();
    env.insert(name, value);
    assert_eq!(render_with("{#for x in list}{x}{/}", &mut env), Ok("123".to_owned()));
}

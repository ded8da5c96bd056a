use templet::ast::{BinaryOp, Content, Expr, Value};
use templet::lexer::Lexer;
use templet::number::Number;
use templet::parser::Parser;

#[test]
fn parses_binary_op() {
    let mut lexer = Lexer::new("{2+x}");
    let docs = lexer.execute().unwrap();
    let (tree, base) = Parser::new().execute(docs).unwrap();
    assert!(base.is_none());
    assert_eq!(tree.len(), 3);
    match &tree[1] {
        Content::Expression(Expr::BinaryOp { kind, lhs, rhs }) => {
            assert_eq!(*kind, BinaryOp::Add);
            assert!(matches!(**lhs, Expr::Value(Value::Number(Number { scaled: 2_000_000 }))));
            assert!(matches!(&**rhs, Expr::Value(Value::Variable(name)) if name == "x"));
        }
        other => panic!("unexpected node {:?}", other),
    }
}

#[test]
fn flat_tree_marks_block_ends() {
    let mut lexer = Lexer::new("{#if a}x{:else}y{/}");
    let docs = lexer.execute().unwrap();
    let (tree, _) = Parser::new().execute(docs).unwrap();
    let shape: Vec<&str> = tree
        .iter()
        .map(|c| match c {
            Content::Markup(_) => "markup",
            Content::Expression(_) => "expr",
            Content::Keys(_) => "keys",
            Content::Block(_) => "block",
            Content::EndBlock => "end",
        })
        .collect();
    assert_eq!(
        shape,
        vec!["markup", "block", "markup", "end", "block", "markup", "end", "markup"]
    );
}

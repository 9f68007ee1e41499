use std::collections::HashMap;

use rbfmt::fmt::node::{
    Arguments, Atom, InfixChain, InfixPrecedence, Kind, MessageCall, MethodChain, Node, Statements,
};
use rbfmt::fmt::trivia::{Comment, LeadingTrivia, LineTrivia, TrailingTrivia};

fn atom(text: &str) -> Node {
    Node::new(Kind::Atom(Atom(text.as_bytes().to_vec())))
}

fn infix(left: &str, op: &str, right: &str) -> Node {
    let mut chain = InfixChain::new(atom(left), InfixPrecedence::from_operator(op.as_bytes()));
    chain.append_right(op.as_bytes().to_vec(), atom(right));
    Node::new(Kind::InfixChain(chain))
}

/// `foo.bar(1, 2 + 3, 4)`
fn foo_bar_call() -> Node {
    let mut args = Arguments::new(Some(b"(".to_vec()), Some(b")".to_vec()));
    args.append_node(atom("1"));
    args.append_node(infix("2", "+", "3"));
    args.append_node(atom("4"));
    let call = MessageCall::new(LeadingTrivia::new(), Some(b".".to_vec()), b"bar".to_vec(), Some(args), None);
    let mut chain = MethodChain::with_receiver(atom("foo"));
    chain.append_message_call(TrailingTrivia::none(), call);
    Node::new(Kind::MethodChain(chain))
}

fn program(nodes: Vec<Node>) -> Node {
    let mut statements = Statements::new();
    for node in nodes {
        statements.append_node(node);
    }
    Node::new(Kind::Statements(statements))
}

fn text(bytes: Vec<u8>) -> String {
    String::from_utf8(bytes).unwrap()
}

#[test]
fn formats_an_atom_with_a_final_line_break() {
    let out = rbfmt::fmt::format(program(vec![atom("foo")]), HashMap::new(), 100);
    assert_eq!(text(out), "foo\n");
}

#[test]
fn formats_nothing_as_nothing() {
    let out = rbfmt::fmt::format(program(vec![]), HashMap::new(), 100);
    assert_eq!(text(out), "");
}

#[test]
fn formats_a_call_on_one_line_when_it_fits() {
    let out = rbfmt::fmt::format(program(vec![foo_bar_call()]), HashMap::new(), 100);
    assert_eq!(text(out), "foo.bar(1, 2 + 3, 4)\n");
}

#[test]
fn breaks_arguments_that_do_not_fit() {
    let out = rbfmt::fmt::format(program(vec![foo_bar_call()]), HashMap::new(), 10);
    assert_eq!(text(out), "foo.bar(\n  1,\n  2 + 3,\n  4,\n)\n");
}

#[test]
fn separates_statements_by_line_breaks() {
    let out = rbfmt::fmt::format(program(vec![atom("a"), atom("b")]), HashMap::new(), 100);
    assert_eq!(text(out), "a\nb\n");
}

#[test]
fn writes_a_trailing_comment_after_the_code() {
    let mut node = atom("foo");
    node.set_trailing_trivia(TrailingTrivia::new(Some(b"# note".to_vec())));
    let out = rbfmt::fmt::format(program(vec![node]), HashMap::new(), 100);
    assert_eq!(text(out), "foo # note\n");
}

#[test]
fn writes_leading_comments_on_their_own_lines() {
    let mut leading = LeadingTrivia::new();
    leading.append_line(LineTrivia::Comment(Comment::Oneline(b"# first".to_vec())));
    let mut node = atom("foo");
    node.prepend_leading_trivia(leading);
    let out = rbfmt::fmt::format(program(vec![node]), HashMap::new(), 100);
    assert_eq!(text(out), "# first\nfoo\n");
}

#[test]
fn infix_operators_get_spaces() {
    let out = rbfmt::fmt::format(program(vec![infix("a", "&&", "b")]), HashMap::new(), 100);
    assert_eq!(text(out), "a && b\n");
}

#[test]
fn precedence_of_operators() {
    assert_eq!(InfixPrecedence::from_operator(b"**"), InfixPrecedence::Power);
    assert_eq!(InfixPrecedence::from_operator(b"*"), InfixPrecedence::Mult);
    assert_eq!(InfixPrecedence::from_operator(b"-"), InfixPrecedence::Add);
    assert_eq!(InfixPrecedence::from_operator(b"<<"), InfixPrecedence::Shift);
    assert_eq!(InfixPrecedence::from_operator(b"<=>"), InfixPrecedence::Eq);
    assert_eq!(InfixPrecedence::from_operator(b"||"), InfixPrecedence::Or);
    assert_eq!(InfixPrecedence::from_operator(b"..."), InfixPrecedence::Range);
    assert_eq!(InfixPrecedence::from_operator(b"and"), InfixPrecedence::WordAndOr);
}

#[test]
fn readme_call_with_a_comment_breaks_its_arguments() {
    let mut args = Arguments::new(Some(b"(".to_vec()), Some(b")".to_vec()));
    args.append_node(atom("1"));
    args.append_node(atom("2"));
    let mut three = atom("3");
    three.set_trailing_trivia(TrailingTrivia::new(Some(b"# 4".to_vec())));
    args.append_node(three);
    let call = MessageCall::new(LeadingTrivia::new(), Some(b".".to_vec()), b"bar".to_vec(), Some(args), None);
    let mut chain = MethodChain::with_receiver(atom("foo"));
    chain.append_message_call(TrailingTrivia::none(), call);
    let mut leading = LeadingTrivia::new();
    leading.append_line(LineTrivia::Comment(Comment::Oneline(b"# a.rb".to_vec())));
    let mut node = Node::new(Kind::MethodChain(chain));
    node.prepend_leading_trivia(leading);
    let out = rbfmt::fmt::format(program(vec![node]), HashMap::new(), 100);
    assert_eq!(text(out), "# a.rb\nfoo.bar(\n  1,\n  2,\n  3, # 4\n)\n");
}

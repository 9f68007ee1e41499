use std::collections::HashMap;

use rbfmt::fmt::node::{
    Array, Assign, Atom, Conditional, Heredoc, HeredocIndentMode, HeredocOpening, HeredocPart, If, Kind,
    Node, Pos, Statements, StringLike, Ternary,
};
use rbfmt::fmt::node::{Arguments, Assoc, CallLike, MessageCall, MethodChain, Parens, Postmodifier, Prefix, RangeLike};
use rbfmt::fmt::node::{BlockBody, Case, CaseIn, CaseMatch, CaseWhen, Def, DefBody, Else, For, MethodParameters, While};
use rbfmt::fmt::node::{IndexCall, VirtualEnd};
use rbfmt::fmt::trivia::{Comment, LineTrivia};
use rbfmt::fmt::node::{DynStrPart, DynStringLike, EmbeddedStatements, EmbeddedVariable};
use rbfmt::fmt::node::{ArrayPattern, Block, BlockParameters, Lambda, MultiAssignTarget, Rescue};
use rbfmt::fmt::node::{Alias, AltPatternChain, Begin, ClassLike, ConstantPath, MatchAssign, PrePostExec, SingletonClass};
use rbfmt::fmt::trivia::{LeadingTrivia, TrailingTrivia};

fn atom(text: &str) -> Node {
    Node::new(Kind::Atom(Atom(text.as_bytes().to_vec())))
}

fn statements(nodes: Vec<Node>) -> Statements {
    let mut s = Statements::new();
    for node in nodes {
        s.append_node(node);
    }
    s
}

fn program(nodes: Vec<Node>) -> Node {
    Node::new(Kind::Statements(statements(nodes)))
}

fn run(node: Node, width: usize) -> String {
    String::from_utf8(rbfmt::fmt::format(program(vec![node]), HashMap::new(), width)).unwrap()
}

fn array(items: &[&str]) -> Node {
    let mut a = Array::new(Some(b"[".to_vec()), Some(b"]".to_vec()));
    for item in items {
        a.append_element(atom(item));
    }
    Node::new(Kind::Array(a))
}

#[test]
fn if_with_a_body() {
    let node = Node::new(Kind::If(If::new(true, Conditional::new(atom("a"), statements(vec![atom("b")])))));
    assert_eq!(run(node, 100), "if a\n  b\nend\n");
}

#[test]
fn unless_without_a_body() {
    let node = Node::new(Kind::If(If::new(false, Conditional::new(atom("a"), Statements::new()))));
    assert_eq!(run(node, 100), "unless a\nend\n");
}

#[test]
fn ternary_on_one_line() {
    let t = Ternary::new(atom("a"), TrailingTrivia::none(), atom("b"), atom("c"));
    assert_eq!(run(Node::new(Kind::Ternary(t)), 100), "a ? b : c\n");
}

#[test]
fn assignment_keeps_a_fitting_value_on_the_line() {
    let a = Assign::new(atom("x"), b"=".to_vec(), array(&["1", "2"]));
    assert_eq!(run(Node::new(Kind::Assign(a)), 100), "x = [1, 2]\n");
}

#[test]
fn array_on_one_line_when_it_fits() {
    assert_eq!(run(array(&["1", "2", "3"]), 100), "[1, 2, 3]\n");
}

#[test]
fn array_one_element_per_line_otherwise() {
    assert_eq!(run(array(&["aaaa", "bbbb"]), 8), "[\n  aaaa,\n  bbbb,\n]\n");
}

#[test]
fn squiggly_heredoc_body_is_reindented() {
    let opening = HeredocOpening::new(Pos(1), b"EOS".to_vec(), HeredocIndentMode::AllIndented);
    let body = Heredoc {
        id: b"EOS".to_vec(),
        indent_mode: HeredocIndentMode::AllIndented,
        parts: vec![
            HeredocPart::Str(StringLike::new(None, b"      foo\n".to_vec(), None)),
            HeredocPart::Str(StringLike::new(None, b"        bar\n".to_vec(), None)),
        ],
    };
    let mut map = HashMap::new();
    map.insert(1, body);
    let node = program(vec![Node::new(Kind::HeredocOpening(opening))]);
    let out = String::from_utf8(rbfmt::fmt::format(node, map, 100)).unwrap();
    assert_eq!(out, "<<~EOS\n  foo\n    bar\nEOS\n");
}

#[test]
fn plain_heredoc_body_is_kept() {
    let opening = HeredocOpening::new(Pos(1), b"EOS".to_vec(), HeredocIndentMode::NoIndent);
    let body = Heredoc {
        id: b"EOS".to_vec(),
        indent_mode: HeredocIndentMode::NoIndent,
        parts: vec![HeredocPart::Str(StringLike::new(None, b"   x\n".to_vec(), None))],
    };
    let mut map = HashMap::new();
    map.insert(1, body);
    let node = program(vec![Node::new(Kind::HeredocOpening(opening))]);
    let out = String::from_utf8(rbfmt::fmt::format(node, map, 100)).unwrap();
    assert_eq!(out, "<<EOS\n   x\nEOS\n");
}

#[test]
fn flat_assignment_of_a_call_with_a_string() {
    let mut args = Arguments::new(Some(b"(".to_vec()), Some(b")".to_vec()));
    args.append_node(Node::new(Kind::StringLike(StringLike::new(Some(b"\"".to_vec()), b"hi".to_vec(), Some(b"\"".to_vec())))));
    args.append_node(array(&["1"]));
    let call = MessageCall::new(LeadingTrivia::new(), Some(b".".to_vec()), b"puts".to_vec(), Some(args), None);
    let mut chain = MethodChain::with_receiver(atom("io"));
    chain.append_message_call(TrailingTrivia::none(), call);
    let assign = Assign::new(atom("x"), b"=".to_vec(), Node::new(Kind::MethodChain(chain)));
    assert_eq!(run(Node::new(Kind::Assign(assign)), 100), "x = io.puts(\"hi\", [1])\n");
}

#[test]
fn flat_hash_of_pairs_and_prefix() {
    let mut h = rbfmt::fmt::node::hash::Hash::new(b"{".to_vec(), b"}".to_vec(), true);
    h.append_element(Node::new(Kind::Assoc(Assoc::new(atom("a:"), None, Some(atom("1"))))));
    h.append_element(Node::new(Kind::Assoc(Assoc::new(atom(":b"), Some(b"=>".to_vec()), Some(atom("2"))))));
    assert_eq!(run(Node::new(Kind::Hash(h)), 100), "{ a: 1, :b => 2 }\n");
    let not = Prefix::new(b"!".to_vec(), Some(atom("x")), false);
    assert_eq!(run(Node::new(Kind::Prefix(not)), 100), "!x\n");
    let parens = Parens::new(statements(vec![atom("y")]));
    assert_eq!(run(Node::new(Kind::Parens(parens)), 100), "(y)\n");
}

#[test]
fn keyword_with_arguments_after_a_space() {
    let mut args = Arguments::new(None, None);
    args.append_node(atom("x"));
    let mut ret = CallLike::new(b"return".to_vec());
    ret.set_arguments(args);
    assert_eq!(run(Node::new(Kind::CallLike(ret)), 100), "return x\n");
    let mut paren_args = Arguments::new(Some(b"(".to_vec()), Some(b")".to_vec()));
    paren_args.append_node(atom("1"));
    paren_args.append_node(atom("2"));
    let mut y = CallLike::new(b"yield".to_vec());
    y.set_arguments(paren_args);
    assert_eq!(run(Node::new(Kind::CallLike(y)), 100), "yield(1, 2)\n");
}

#[test]
fn statements_one_per_line_with_indentation_in_a_body() {
    let node = Node::new(Kind::If(If::new(true, Conditional::new(atom("c"), statements(vec![atom("a"), atom("b")])))));
    assert_eq!(run(node, 100), "if c\n  a\n  b\nend\n");
}

#[test]
fn ranges_on_one_line() {
    let r = RangeLike::new(Some(atom("1")), b"..".to_vec(), Some(atom("10")));
    assert_eq!(run(Node::new(Kind::RangeLike(r)), 100), "1..10\n");
    let open_end = RangeLike::new(Some(atom("a")), b"...".to_vec(), None);
    assert_eq!(run(Node::new(Kind::RangeLike(open_end)), 100), "a...\n");
    let inner = RangeLike::new(None, b"..".to_vec(), Some(atom("b")));
    let outer = RangeLike::new(Some(atom("a")), b"..".to_vec(), Some(Node::new(Kind::RangeLike(inner))));
    assert_eq!(run(Node::new(Kind::RangeLike(outer)), 100), "a.. ..b\n");
}

#[test]
fn modifier_after_a_statement() {
    let p = Postmodifier::new(b"if".to_vec(), Conditional::new(atom("ready"), statements(vec![atom("go")])));
    assert_eq!(run(Node::new(Kind::Postmodifier(p)), 100), "go if ready\n");
    let u = Postmodifier::new(b"until".to_vec(), Conditional::new(infix_node("i", ">", "3"), statements(vec![atom("step")])));
    assert_eq!(run(Node::new(Kind::Postmodifier(u)), 100), "step until i > 3\n");
}

fn infix_node(left: &str, op: &str, right: &str) -> Node {
    let mut chain = rbfmt::fmt::node::InfixChain::new(atom(left), rbfmt::fmt::node::InfixPrecedence::from_operator(op.as_bytes()));
    chain.append_right(op.as_bytes().to_vec(), atom(right));
    Node::new(Kind::InfixChain(chain))
}

#[test]
fn nested_if_goes_one_level_deeper() {
    let inner = Node::new(Kind::If(If::new(true, Conditional::new(atom("b"), statements(vec![atom("c")])))));
    let outer = Node::new(Kind::If(If::new(true, Conditional::new(atom("a"), statements(vec![inner])))));
    assert_eq!(run(outer, 100), "if a\n  if b\n    c\n  end\nend\n");
}

fn when(conds: &[&str], body: Vec<Node>) -> CaseWhen {
    let mut w = CaseWhen::new(true);
    for cond in conds {
        w.append_condition(atom(cond));
    }
    w.set_body(statements(body));
    w
}

#[test]
fn case_with_one_line_branches() {
    let case = Case {
        predicate: Some(Box::new(atom("x"))),
        case_trailing: TrailingTrivia::none(),
        first_branch_leading: LeadingTrivia::new(),
        branches: vec![when(&["1", "2"], vec![atom("a")]), when(&["3"], vec![])],
        otherwise: Some(Else { keyword_trailing: TrailingTrivia::none(), body: statements(vec![atom("b")]) }),
    };
    assert_eq!(run(Node::new(Kind::Case(case)), 100), "case x\nwhen 1, 2 then a\nwhen 3\nelse\n  b\nend\n");
}

#[test]
fn case_branch_with_several_statements_breaks() {
    let case = Case {
        predicate: None,
        case_trailing: TrailingTrivia::none(),
        first_branch_leading: LeadingTrivia::new(),
        branches: vec![when(&["a"], vec![atom("b"), atom("c")])],
        otherwise: None,
    };
    assert_eq!(run(Node::new(Kind::Case(case)), 100), "case\nwhen a\n  b\n  c\nend\n");
}

#[test]
fn while_and_until_loops() {
    let w = While { is_while: true, content: Conditional::new(atom("go"), statements(vec![atom("step")])) };
    assert_eq!(run(Node::new(Kind::While(w)), 100), "while go\n  step\nend\n");
    let u = While { is_while: false, content: Conditional::new(atom("done"), Statements::new()) };
    assert_eq!(run(Node::new(Kind::While(u)), 100), "until done\nend\n");
}

#[test]
fn for_loop_over_a_collection() {
    let f = For { index: Box::new(atom("i")), collection: Box::new(array(&["1", "2"])), body: statements(vec![atom("p")]) };
    assert_eq!(run(Node::new(Kind::For(f)), 100), "for i in [1, 2]\n  p\nend\n");
}

#[test]
fn method_definitions() {
    let mut params = MethodParameters::new(Some(b"(".to_vec()), Some(b")".to_vec()));
    params.append_param(atom("a"));
    params.append_param(atom("b"));
    let mut d = Def::new(None, b"foo".to_vec());
    d.set_parameters(params);
    d.set_body(DefBody::Block { head_trailing: TrailingTrivia::none(), body: BlockBody::new(statements(vec![atom("a")])) });
    assert_eq!(run(Node::new(Kind::Def(d)), 100), "def foo(a, b)\n  a\nend\n");
    let mut short = Def::new(None, b"one".to_vec());
    short.set_body(DefBody::Short { body: Box::new(atom("1")) });
    assert_eq!(run(Node::new(Kind::Def(short)), 100), "def one = 1\n");
    let empty = Def::new(None, b"nothing".to_vec());
    assert_eq!(run(Node::new(Kind::Def(empty)), 100), "def nothing\nend\n");
}

#[test]
fn pattern_matching_case() {
    let mut first = CaseIn::new(true, atom("Integer"));
    first.set_body(statements(vec![atom("n")]));
    let second = CaseIn::new(true, atom("nil"));
    let case = CaseMatch {
        predicate: Some(Box::new(atom("v"))),
        case_trailing: TrailingTrivia::none(),
        first_branch_leading: LeadingTrivia::new(),
        branches: vec![first, second],
        otherwise: None,
    };
    assert_eq!(run(Node::new(Kind::CaseMatch(case)), 100), "case v\nin Integer then n\nin nil\nend\n");
}

fn path(parts: &[&str]) -> Node {
    let mut p = ConstantPath::new(Some(atom(parts[0])));
    for part in &parts[1..] {
        p.append_part(LeadingTrivia::new(), part.as_bytes().to_vec());
    }
    Node::new(Kind::ConstantPath(p))
}

#[test]
fn constant_paths_on_one_line() {
    assert_eq!(run(path(&["A", "B", "C"]), 100), "A::B::C\n");
    let top = ConstantPath::new(None);
    let mut top = top;
    top.append_part(LeadingTrivia::new(), b"Foo".to_vec());
    assert_eq!(run(Node::new(Kind::ConstantPath(top)), 100), "::Foo\n");
}

#[test]
fn classes_modules_and_singletons() {
    let class = ClassLike {
        keyword: b"class".to_vec(),
        name: Box::new(path(&["A", "B"])),
        superclass: Some(Box::new(atom("Base"))),
        head_trailing: TrailingTrivia::none(),
        body: BlockBody::new(statements(vec![atom("x")])),
    };
    assert_eq!(run(Node::new(Kind::ClassLike(class)), 100), "class A::B < Base\n  x\nend\n");
    let module = ClassLike {
        keyword: b"module".to_vec(),
        name: Box::new(atom("M")),
        superclass: None,
        head_trailing: TrailingTrivia::none(),
        body: BlockBody::new(Statements::new()),
    };
    assert_eq!(run(Node::new(Kind::ClassLike(module)), 100), "module M\nend\n");
    let single = SingletonClass { expression: Box::new(atom("self")), body: BlockBody::new(statements(vec![atom("y")])) };
    assert_eq!(run(Node::new(Kind::SingletonClass(single)), 100), "class << self\n  y\nend\n");
}

#[test]
fn begin_and_exec_blocks() {
    let b = Begin { keyword_trailing: TrailingTrivia::none(), body: BlockBody::new(statements(vec![atom("z")])) };
    assert_eq!(run(Node::new(Kind::Begin(b)), 100), "begin\n  z\nend\n");
    let flat = PrePostExec::new(b"BEGIN".to_vec(), statements(vec![atom("a")]), true);
    assert_eq!(run(Node::new(Kind::PrePostExec(flat)), 100), "BEGIN { a }\n");
    let broken = PrePostExec::new(b"END".to_vec(), statements(vec![atom("a")]), false);
    assert_eq!(run(Node::new(Kind::PrePostExec(broken)), 100), "END {\n  a\n}\n");
}

#[test]
fn alias_and_pattern_matches() {
    let a = Alias::new(atom(":new"), atom(":old"));
    assert_eq!(run(Node::new(Kind::Alias(a)), 100), "alias :new :old\n");
    let mut alt = AltPatternChain::new(atom("1"));
    alt.append_right(atom("2"));
    alt.append_right(atom("3"));
    let m = MatchAssign::new(atom("x"), b"in".to_vec(), Node::new(Kind::AltPatternChain(alt)));
    assert_eq!(run(Node::new(Kind::MatchAssign(m)), 100), "x in 1 | 2 | 3\n");
    let r = MatchAssign::new(atom("y"), b"=>".to_vec(), atom("z"));
    assert_eq!(run(Node::new(Kind::MatchAssign(r)), 100), "y => z\n");
}

#[test]
fn multiple_assignment_targets() {
    let mut t = MultiAssignTarget::new(None, None);
    t.append_target(atom("a"));
    t.append_target(atom("b"));
    let a = Assign::new(Node::new(Kind::MultiAssignTarget(t)), b"=".to_vec(), atom("pair"));
    assert_eq!(run(Node::new(Kind::Assign(a)), 100), "a, b = pair\n");
    let mut rest = MultiAssignTarget::new(Some(b"(".to_vec()), Some(b")".to_vec()));
    rest.append_target(atom("x"));
    rest.set_implicit_rest(true);
    let b = Assign::new(Node::new(Kind::MultiAssignTarget(rest)), b"=".to_vec(), atom("list"));
    assert_eq!(run(Node::new(Kind::Assign(b)), 100), "(x,) = list\n");
}

#[test]
fn blocks_and_lambdas_on_one_line() {
    let mut params = BlockParameters::new(b"|".to_vec(), b"|".to_vec());
    params.append_param(atom("x"));
    let mut block = Block::new(true, b"{".to_vec(), b"}".to_vec());
    block.set_parameters(params);
    block.set_body(BlockBody::new(statements(vec![atom("x")])));
    let call = MessageCall::new(LeadingTrivia::new(), Some(b".".to_vec()), b"each".to_vec(), None, Some(block));
    let mut chain = MethodChain::with_receiver(atom("list"));
    chain.append_message_call(TrailingTrivia::none(), call);
    assert_eq!(run(Node::new(Kind::MethodChain(chain)), 100), "list.each { |x| x }\n");
    let mut lparams = BlockParameters::new(b"(".to_vec(), b")".to_vec());
    lparams.append_param(atom("a"));
    lparams.append_param(atom("b"));
    let mut body = Block::new(true, b"{".to_vec(), b"}".to_vec());
    body.set_body(BlockBody::new(statements(vec![atom("a")])));
    let l = Lambda::new(Some(lparams), body);
    assert_eq!(run(Node::new(Kind::Lambda(l)), 100), "->(a, b) { a }\n");
}

#[test]
fn method_with_rescue_else_and_ensure() {
    let mut rescue = Rescue::new();
    rescue.append_exception(atom("Err"));
    rescue.append_exception(atom("Other"));
    rescue.set_reference(atom("e"));
    rescue.set_statements(statements(vec![atom("b")]));
    let mut body = BlockBody::new(statements(vec![atom("a")]));
    body.set_rescues(vec![rescue, Rescue::new()]);
    body.set_rescue_else(Else { keyword_trailing: TrailingTrivia::none(), body: statements(vec![atom("c")]) });
    body.set_ensure(Else { keyword_trailing: TrailingTrivia::none(), body: statements(vec![atom("d")]) });
    let mut d = Def::new(None, b"run".to_vec());
    d.set_body(DefBody::Block { head_trailing: TrailingTrivia::none(), body });
    assert_eq!(
        run(Node::new(Kind::Def(d)), 100),
        "def run\n  a\nrescue Err, Other => e\n  b\nrescue\nelse\n  c\nensure\n  d\nend\n"
    );
}

#[test]
fn array_patterns_on_one_line() {
    let mut p = ArrayPattern::new(Some(atom("Point")));
    p.append_element(atom("x"));
    p.append_element(atom("y"));
    p.finish_with(Some(b"[".to_vec()), Some(b"]".to_vec()));
    let m = MatchAssign::new(atom("v"), b"in".to_vec(), Node::new(Kind::ArrayPattern(p)));
    assert_eq!(run(Node::new(Kind::MatchAssign(m)), 100), "v in Point[x, y]\n");
}

#[test]
fn interpolated_string_argument() {
    let mut d = DynStringLike::new(Some(b"\"".to_vec()), Some(b"\"".to_vec()));
    d.append_part(DynStrPart::Str(StringLike::new(None, b"Hello ".to_vec(), None)));
    d.append_part(DynStrPart::Statements(EmbeddedStatements::new(b"#{".to_vec(), statements(vec![atom("name")]), b"}".to_vec())));
    d.append_part(DynStrPart::Variable(EmbeddedVariable::new(b"#".to_vec(), b"@x".to_vec())));
    let mut args = Arguments::new(None, None);
    args.append_node(Node::new(Kind::DynStringLike(d)));
    let mut puts = CallLike::new(b"puts".to_vec());
    puts.set_arguments(args);
    assert_eq!(run(Node::new(Kind::CallLike(puts)), 100), "puts \"Hello #{name}#@x\"\n");
}

#[test]
fn index_call_on_a_receiver() {
    let mut args = Arguments::new(Some(b"[".to_vec()), Some(b"]".to_vec()));
    args.append_node(atom("1"));
    let mut chain = MethodChain::with_receiver(atom("a"));
    chain.append_index_call(IndexCall::new(args, None));
    assert_eq!(run(Node::new(Kind::MethodChain(chain)), 100), "a[1]\n");
}

#[test]
fn comments_before_the_end_of_a_body() {
    let mut leading = LeadingTrivia::new();
    leading.append_line(LineTrivia::Comment(Comment::Oneline(b"# done".to_vec())));
    leading.append_line(LineTrivia::EmptyLine);
    let mut body = statements(vec![atom("b")]);
    body.set_virtual_end(Some(VirtualEnd::new(leading)));
    let node = Node::new(Kind::If(If::new(true, Conditional::new(atom("a"), body))));
    assert_eq!(run(node, 100), "if a\n  b\n  # done\nend\n");
}

#[test]
fn implicit_rest_of_an_array_pattern_gets_brackets() {
    // `v in b,` is written `v in [b,]`
    let mut p = ArrayPattern::new(None);
    p.append_element(atom("b"));
    p.append_element(atom(""));
    p.finish_with(None, None);
    let m = MatchAssign::new(atom("v"), b"in".to_vec(), Node::new(Kind::ArrayPattern(p)));
    assert_eq!(run(Node::new(Kind::MatchAssign(m)), 100), "v in [b,]\n");
}

#[test]
fn block_parameter_with_implicit_rest() {
    let mut params = BlockParameters::new(b"|".to_vec(), b"|".to_vec());
    params.append_param(atom("a"));
    params.append_param(atom(""));
    let mut block = Block::new(true, b"{".to_vec(), b"}".to_vec());
    block.set_parameters(params);
    block.set_body(BlockBody::new(statements(vec![atom("a")])));
    let call = MessageCall::new(LeadingTrivia::new(), Some(b".".to_vec()), b"each".to_vec(), None, Some(block));
    let mut chain = MethodChain::with_receiver(atom("list"));
    chain.append_message_call(TrailingTrivia::none(), call);
    assert_eq!(run(Node::new(Kind::MethodChain(chain)), 100), "list.each { |a,| a }\n");
}

#[test]
fn a_comment_puts_each_argument_on_its_own_line() {
    let mut args = Arguments::new(Some(b"(".to_vec()), Some(b")".to_vec()));
    args.append_node(atom("1"));
    args.append_node(atom("2"));
    let mut last = atom("3");
    last.set_trailing_trivia(TrailingTrivia::new(Some(b"# 4".to_vec())));
    args.append_node(last);
    let mut call = CallLike::new(b"bar".to_vec());
    call.set_arguments(args);
    assert_eq!(run(Node::new(Kind::CallLike(call)), 100), "bar(\n  1,\n  2,\n  3, # 4\n)\n");
}

#[test]
fn an_empty_program_gives_empty_text() {
    assert_eq!(String::from_utf8(rbfmt::fmt::format(program(vec![]), HashMap::new(), 100)).unwrap(), "");
    assert_eq!(run(atom("foo"), 100), "foo\n");
}

#[test]
fn a_comment_puts_each_array_element_on_its_own_line() {
    let mut a = Array::new(Some(b"[".to_vec()), Some(b"]".to_vec()));
    a.append_element(atom("1"));
    let mut second = atom("2");
    second.set_trailing_trivia(TrailingTrivia::new(Some(b"# two".to_vec())));
    a.append_element(second);
    a.append_element(atom("3"));
    assert_eq!(run(Node::new(Kind::Array(a)), 100), "[\n  1,\n  2, # two\n  3,\n]\n");
}

#[test]
fn a_comment_puts_each_method_parameter_on_its_own_line() {
    let mut params = MethodParameters::new(Some(b"(".to_vec()), Some(b")".to_vec()));
    let mut first = atom("a");
    first.set_trailing_trivia(TrailingTrivia::new(Some(b"# first".to_vec())));
    params.append_param(first);
    params.append_param(atom("b"));
    let mut d = Def::new(None, b"foo".to_vec());
    d.set_parameters(params);
    d.set_body(DefBody::Block { head_trailing: TrailingTrivia::none(), body: BlockBody::new(statements(vec![atom("a")])) });
    assert_eq!(run(Node::new(Kind::Def(d)), 100), "def foo(\n  a, # first\n  b\n)\n  a\nend\n");
}

#[test]
fn a_comment_after_the_predicate_puts_the_branches_on_their_own_lines() {
    let t = Ternary::new(atom("a"), TrailingTrivia::new(Some(b"# why".to_vec())), atom("b"), atom("c"));
    assert_eq!(run(Node::new(Kind::Ternary(t)), 100), "a ? # why\n  b\n: c\n");
}

use lisp_transpiler::ast::{ASTNode, ASTVisitor, VisitError};
use lisp_transpiler::data::LispDatum;
use lisp_transpiler::decimal::{integer_to_string, natural_to_string};
use lisp_transpiler::parse::Statement;
use lisp_transpiler::transpile::{
    expression, literal_expression, postamble, preamble, TranspilationVisitor,
};

const PREAMBLE: &str = "#include \"lisp.h\"int main() {";
const POSTAMBLE: &str = "}";

fn sym(name: &str) -> LispDatum {
    LispDatum::Symbol(name.to_string())
}

fn lit(datum: LispDatum) -> ASTNode {
    ASTNode::Literal(datum)
}

fn call(name: &str, arguments: Vec<ASTNode>) -> ASTNode {
    ASTNode::Call(Box::new(lit(sym(name))), arguments)
}

fn pair() -> LispDatum {
    LispDatum::Cons(Box::new(LispDatum::Integer(1)), Box::new(LispDatum::Nil))
}

fn body(visitor: &TranspilationVisitor) -> String {
    let text = visitor.finalize();
    assert!(text.starts_with(PREAMBLE));
    assert!(text.ends_with(POSTAMBLE));
    text[PREAMBLE.len()..text.len() - POSTAMBLE.len()].to_string()
}

#[test]
fn preamble_and_postamble_are_fixed() {
    assert_eq!(preamble(), PREAMBLE);
    assert_eq!(postamble(), POSTAMBLE);
}

#[test]
fn natural_numbers_in_decimal() {
    assert_eq!(natural_to_string(0), "0");
    assert_eq!(natural_to_string(9), "9");
    assert_eq!(natural_to_string(10), "10");
    assert_eq!(natural_to_string(1234567890), "1234567890");
    assert_eq!(natural_to_string(u64::MAX), "18446744073709551615");
}

#[test]
fn integers_in_decimal() {
    assert_eq!(integer_to_string(0), "0");
    assert_eq!(integer_to_string(5), "5");
    assert_eq!(integer_to_string(-1), "-1");
    assert_eq!(integer_to_string(-120), "-120");
    assert_eq!(integer_to_string(i64::MAX), "9223372036854775807");
    assert_eq!(integer_to_string(i64::MIN), "-9223372036854775808");
}

#[test]
fn integers_in_decimal_agree_with_the_standard_library() {
    let mut n: i64 = 1;
    for _ in 0..62 {
        assert_eq!(integer_to_string(n), n.to_string());
        assert_eq!(integer_to_string(-n), (-n).to_string());
        assert_eq!(integer_to_string(n - 1), (n - 1).to_string());
        n *= 2;
    }
}

#[test]
fn integer_literal() {
    assert_eq!(expression(&lit(LispDatum::Integer(5))), Ok("new_integer(5)".to_string()));
    assert_eq!(literal_expression(&LispDatum::Integer(-42)), Ok("new_integer(-42)".to_string()));
}

#[test]
fn nil_literal() {
    assert_eq!(expression(&lit(LispDatum::Nil)), Ok("get_nil()".to_string()));
}

#[test]
fn rational_literal() {
    assert_eq!(
        literal_expression(&LispDatum::Rational(-3, 4)),
        Ok("new_rational(-3, 4)".to_string())
    );
}

#[test]
fn real_literal() {
    assert_eq!(
        literal_expression(&LispDatum::Real("2.5".to_string())),
        Ok("new_real(2.5)".to_string())
    );
}

#[test]
fn complex_literal() {
    assert_eq!(
        literal_expression(&LispDatum::Complex("1.5".to_string(), "-2".to_string())),
        Ok("new_complex(1.5, -2)".to_string())
    );
}

#[test]
fn symbol_literal() {
    assert_eq!(literal_expression(&sym("foo")), Ok("new_symbol(foo)".to_string()));
}

#[test]
fn cons_literal_has_no_expression() {
    assert_eq!(literal_expression(&pair()), Err(VisitError::UnsupportedCons));
    assert_eq!(expression(&lit(pair())), Err(VisitError::UnsupportedCons));
}

#[test]
fn visit_of_a_cons_literal_fails_and_emits_nothing() {
    let mut visitor = TranspilationVisitor::new();
    assert_eq!(visitor.visit_literal(&lit(LispDatum::Integer(1))), Ok(()));
    assert_eq!(visitor.visit_literal(&lit(pair())), Err(VisitError::UnsupportedCons));
    assert_eq!(lit(pair()).accept(&mut visitor), Err(VisitError::UnsupportedCons));
    assert_eq!(body(&visitor), "new_integer(1)");
}

#[test]
fn call_with_two_arguments() {
    let node = call("add", vec![lit(LispDatum::Integer(1)), lit(LispDatum::Integer(2))]);
    assert_eq!(expression(&node), Ok("add(new_integer(1),new_integer(2),)".to_string()));
    let mut visitor = TranspilationVisitor::new();
    assert_eq!(visitor.visit_call(&node), Ok(()));
    assert_eq!(body(&visitor), "add(new_integer(1),new_integer(2),)");
}

#[test]
fn call_without_arguments() {
    assert_eq!(expression(&call("now", vec![])), Ok("now()".to_string()));
}

#[test]
fn call_with_one_argument_keeps_the_trailing_comma() {
    let node = call("neg", vec![lit(LispDatum::Nil)]);
    assert_eq!(expression(&node), Ok("neg(get_nil(),)".to_string()));
}

#[test]
fn nested_calls() {
    let inner = call("mul", vec![lit(LispDatum::Integer(2)), lit(sym("x"))]);
    let node = call("add", vec![inner, call("now", vec![]), lit(LispDatum::Rational(1, 2))]);
    assert_eq!(
        expression(&node),
        Ok("add(mul(new_integer(2),new_symbol(x),),now(),new_rational(1, 2),)".to_string())
    );
}

#[test]
fn call_whose_callee_is_not_a_symbol() {
    let by_number = ASTNode::Call(Box::new(lit(LispDatum::Integer(1))), vec![]);
    let by_call = ASTNode::Call(Box::new(call("f", vec![])), vec![]);
    let by_pair = ASTNode::Call(Box::new(lit(pair())), vec![]);
    for node in [by_number, by_call, by_pair] {
        assert_eq!(expression(&node), Err(VisitError::CalleeNotSymbol));
        let mut visitor = TranspilationVisitor::new();
        assert_eq!(visitor.visit_call(&node), Err(VisitError::CalleeNotSymbol));
        assert_eq!(node.accept(&mut visitor), Err(VisitError::CalleeNotSymbol));
        assert_eq!(body(&visitor), "");
    }
}

#[test]
fn callee_is_looked_at_before_the_arguments() {
    let node = ASTNode::Call(Box::new(lit(LispDatum::Nil)), vec![lit(pair())]);
    assert_eq!(expression(&node), Err(VisitError::CalleeNotSymbol));
}

#[test]
fn first_argument_without_expression_gives_the_error() {
    let bad_callee = ASTNode::Call(Box::new(lit(LispDatum::Integer(1))), vec![]);
    let cons_first = call("f", vec![lit(LispDatum::Integer(0)), lit(pair()), bad_callee]);
    assert_eq!(expression(&cons_first), Err(VisitError::UnsupportedCons));
    let bad_callee = ASTNode::Call(Box::new(lit(LispDatum::Integer(1))), vec![]);
    let callee_first = call("f", vec![bad_callee, lit(pair())]);
    assert_eq!(expression(&callee_first), Err(VisitError::CalleeNotSymbol));
}

#[test]
fn error_deep_in_an_argument_leaves_the_text_as_it_was() {
    let node = call("f", vec![lit(LispDatum::Integer(1)), call("g", vec![lit(pair())])]);
    let mut visitor = TranspilationVisitor::new();
    assert_eq!(visitor.visit_literal(&lit(LispDatum::Nil)), Ok(()));
    assert_eq!(visitor.visit_call(&node), Err(VisitError::UnsupportedCons));
    assert_eq!(body(&visitor), "get_nil()");
}

#[test]
fn visit_literal_refuses_a_call() {
    let mut visitor = TranspilationVisitor::new();
    assert_eq!(visitor.visit_literal(&call("f", vec![])), Err(VisitError::NotALiteral));
    assert_eq!(body(&visitor), "");
}

#[test]
fn visit_call_refuses_a_literal() {
    let mut visitor = TranspilationVisitor::new();
    assert_eq!(visitor.visit_call(&lit(LispDatum::Integer(1))), Err(VisitError::NotACall));
    assert_eq!(visitor.visit_call(&lit(pair())), Err(VisitError::NotACall));
    assert_eq!(body(&visitor), "");
}

#[test]
fn visits_append_in_order() {
    let mut visitor = TranspilationVisitor::new();
    assert_eq!(lit(LispDatum::Integer(1)).accept(&mut visitor), Ok(()));
    assert_eq!(call("f", vec![]).accept(&mut visitor), Ok(()));
    assert_eq!(lit(LispDatum::Nil).accept(&mut visitor), Ok(()));
    assert_eq!(body(&visitor), "new_integer(1)f()get_nil()");
}

#[test]
fn new_visitor_finalizes_to_the_empty_unit() {
    let visitor = TranspilationVisitor::new();
    assert_eq!(visitor.finalize(), "#include \"lisp.h\"int main() {}");
}

#[test]
fn finalize_gives_the_same_text_each_time() {
    let mut visitor = TranspilationVisitor::new();
    assert_eq!(call("f", vec![lit(LispDatum::Integer(1))]).accept(&mut visitor), Ok(()));
    let first = visitor.finalize();
    let second = visitor.finalize();
    assert_eq!(first, "#include \"lisp.h\"int main() {f(new_integer(1),)}");
    assert_eq!(first, second);
    assert_eq!(lit(LispDatum::Nil).accept(&mut visitor), Ok(()));
    assert_eq!(visitor.finalize(), "#include \"lisp.h\"int main() {f(new_integer(1),)get_nil()}");
}

#[test]
fn add_one_two_end_to_end() {
    let source = vec![Statement::List(vec![
        Statement::Terminal(sym("add")),
        Statement::Terminal(LispDatum::Integer(1)),
        Statement::Terminal(LispDatum::Integer(2)),
    ])];
    let nodes = ASTNode::from(source).unwrap();
    let mut visitor = TranspilationVisitor::new();
    for node in &nodes {
        assert_eq!(node.accept(&mut visitor), Ok(()));
    }
    let text = visitor.finalize();
    assert!(text.contains("add(new_integer(1),new_integer(2),)"));
    assert_eq!(text, "#include \"lisp.h\"int main() {add(new_integer(1),new_integer(2),)}");
}

struct Recorder {
    seen: Vec<&'static str>,
}

impl ASTVisitor for Recorder {
    fn visit_literal(&mut self, _node: &ASTNode) -> Result<(), VisitError> {
        self.seen.push("literal");
        Ok(())
    }

    fn visit_call(&mut self, _node: &ASTNode) -> Result<(), VisitError> {
        self.seen.push("call");
        Err(VisitError::NotACall)
    }
}

#[test]
fn accept_hands_each_kind_of_node_to_its_method() {
    let mut recorder = Recorder { seen: vec![] };
    assert_eq!(lit(LispDatum::Integer(1)).accept(&mut recorder), Ok(()));
    assert_eq!(call("f", vec![]).accept(&mut recorder), Err(VisitError::NotACall));
    assert_eq!(lit(pair()).accept(&mut recorder), Ok(()));
    assert_eq!(recorder.seen, vec!["literal", "call", "literal"]);
}

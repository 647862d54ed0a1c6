use lisp_transpiler::ast::VisitError;
use lisp_transpiler::data::LispDatum;
use lisp_transpiler::parse::Statement;
use lisp_transpiler::transpile::{transpile, TranspileError};

fn sym(name: &str) -> Statement {
    Statement::Terminal(LispDatum::Symbol(name.to_string()))
}

fn num(n: i64) -> Statement {
    Statement::Terminal(LispDatum::Integer(n))
}

#[test]
fn pass_over_nothing_gives_the_empty_unit() {
    assert_eq!(transpile(vec![]), Ok("#include \"lisp.h\"int main() {}".to_string()));
}

#[test]
fn pass_over_add_one_two() {
    let source = vec![Statement::List(vec![sym("add"), num(1), num(2)])];
    assert_eq!(
        transpile(source),
        Ok("#include \"lisp.h\"int main() {add(new_integer(1),new_integer(2),)}".to_string())
    );
}

#[test]
fn pass_renders_the_statements_in_order_with_nothing_in_between() {
    let source = vec![
        Statement::List(vec![sym("f"), Statement::List(vec![sym("g"), num(-7)])]),
        num(3),
        Statement::List(vec![]),
        Statement::List(vec![sym("h")]),
    ];
    assert_eq!(
        transpile(source),
        Ok("#include \"lisp.h\"int main() {f(g(new_integer(-7),),)new_integer(3)get_nil()h()}"
            .to_string())
    );
}

#[test]
fn pass_over_a_malformed_list_gives_the_builders_message() {
    let source = vec![num(1), Statement::List(vec![num(1), num(2)])];
    assert_eq!(
        transpile(source),
        Err(TranspileError::Build("first element of a list must be a symbol".to_string()))
    );
}

#[test]
fn pass_over_a_pair_gives_the_visitors_error() {
    let pair = LispDatum::Cons(Box::new(LispDatum::Nil), Box::new(LispDatum::Nil));
    let source = vec![num(1), Statement::List(vec![sym("f"), Statement::Terminal(pair)])];
    assert_eq!(transpile(source), Err(TranspileError::Render(VisitError::UnsupportedCons)));
}

#[test]
fn malformed_list_is_reported_before_any_pair() {
    let pair = LispDatum::Cons(Box::new(LispDatum::Nil), Box::new(LispDatum::Nil));
    let source = vec![Statement::Terminal(pair), Statement::List(vec![num(1)])];
    assert_eq!(
        transpile(source),
        Err(TranspileError::Build("first element of a list must be a symbol".to_string()))
    );
}

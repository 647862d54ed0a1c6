use vstd::prelude::*;
use crate::ast::{
    built, lemma_call_model, malformed_list_message, ASTNode, ASTVisitor, Ast, VisitError,
};
use crate::data::{Datum, LispDatum};
use crate::parse::{Sexp, Statement};
use crate::decimal::{integer_text, integer_to_string};

verus! {

/// The text that opens every program.
pub open spec fn preamble_text() -> Seq<char> {
    "#include \"lisp.h\"int main() {"@
}

/// The text that closes every program.
pub open spec fn postamble_text() -> Seq<char> {
    "}"@
}

/// The complete program around the statements `body`.
pub open spec fn finalized_text(body: Seq<char>) -> Seq<char> {
    preamble_text() + body + postamble_text()
}

/// The expression that builds a literal datum at run time, or the reason
/// why there is none.
pub open spec fn literal_text(datum: Datum) -> Result<Seq<char>, VisitError> {
    match datum {
        Datum::Cons(_, _) => Err(VisitError::UnsupportedCons),
        Datum::Complex(re, im) => Ok("new_complex("@ + re + ", "@ + im + ")"@),
        Datum::Real(x) => Ok("new_real("@ + x + ")"@),
        Datum::Rational(p, q) => Ok(
            "new_rational("@ + integer_text(p) + ", "@ + integer_text(q) + ")"@,
        ),
        Datum::Integer(n) => Ok("new_integer("@ + integer_text(n) + ")"@),
        Datum::Symbol(name) => Ok("new_symbol("@ + name + ")"@),
        Datum::Nil => Ok("get_nil()"@),
    }
}

/// `text` followed by what `rest` holds, or the error that `rest` is.
pub open spec fn followed_by(text: Seq<char>, rest: Result<Seq<char>, VisitError>) -> Result<
    Seq<char>,
    VisitError,
> {
    match rest {
        Ok(more) => Ok(text + more),
        Err(error) => Err(error),
    }
}

/// The expression that a node is rendered as: a literal as the call that
/// builds it, a call as the callee's name and, in parentheses, each
/// argument's expression followed by a comma.
pub open spec fn expression_text(node: Ast) -> Result<Seq<char>, VisitError>
    decreases node,
{
    match node {
        Ast::Literal(datum) => literal_text(datum),
        Ast::Call(callee, arguments) => match *callee {
            Ast::Literal(Datum::Symbol(name)) => match sequence_text(arguments, ","@) {
                Ok(inner) => Ok(name + "("@ + inner + ")"@),
                Err(error) => Err(error),
            },
            _ => Err(VisitError::CalleeNotSymbol),
        },
    }
}

/// The expressions of `nodes` from left to right, each followed by
/// `closing`, or the error of the first of them that has no expression.
pub open spec fn sequence_text(nodes: Seq<Ast>, closing: Seq<char>) -> Result<
    Seq<char>,
    VisitError,
>
    decreases nodes,
{
    if nodes.len() == 0 {
        Ok(Seq::empty())
    } else {
        match expression_text(nodes[0]) {
            Ok(first) => followed_by(first + closing, sequence_text(nodes.drop_first(), closing)),
            Err(error) => Err(error),
        }
    }
}

/// What stands between the parentheses of a call: the expression of each
/// argument, followed by a comma.
pub open spec fn arguments_text(arguments: Seq<Ast>) -> Result<Seq<char>, VisitError> {
    sequence_text(arguments, ","@)
}

/// What a sequence of nodes is rendered as when each is visited in turn:
/// the expression of each node, with nothing in between.
pub open spec fn body_text(nodes: Seq<Ast>) -> Result<Seq<char>, VisitError> {
    sequence_text(nodes, Seq::empty())
}

/// What a rendering holds, with the text as a sequence of characters.
pub open spec fn text_of(rendering: Result<String, VisitError>) -> Result<Seq<char>, VisitError> {
    match rendering {
        Ok(text) => Ok(text@),
        Err(error) => Err(error),
    }
}

pub fn preamble() -> (text: String)
    ensures
        text@ == preamble_text(),
{
    String::from_str("#include \"lisp.h\"int main() {")
}

pub fn postamble() -> (text: String)
    ensures
        text@ == postamble_text(),
{
    String::from_str("}")
}

/// Renders a literal datum as the expression that builds it at run time.
pub fn literal_expression(datum: &LispDatum) -> (rendering: Result<String, VisitError>)
    ensures
        text_of(rendering) == literal_text(datum@),
{
    match datum {
        LispDatum::Cons(_, _) => Err(VisitError::UnsupportedCons),
        LispDatum::Complex(re, im) => {
            let mut text = String::from_str("new_complex(");
            text.append(re.as_str());
            text.append(", ");
            text.append(im.as_str());
            text.append(")");
            Ok(text)
        },
        LispDatum::Real(x) => {
            let mut text = String::from_str("new_real(");
            text.append(x.as_str());
            text.append(")");
            Ok(text)
        },
        LispDatum::Rational(p, q) => {
            let mut text = String::from_str("new_rational(");
            text.append(integer_to_string(*p).as_str());
            text.append(", ");
            text.append(integer_to_string(*q).as_str());
            text.append(")");
            Ok(text)
        },
        LispDatum::Integer(n) => {
            let mut text = String::from_str("new_integer(");
            text.append(integer_to_string(*n).as_str());
            text.append(")");
            Ok(text)
        },
        LispDatum::Symbol(name) => {
            let mut text = String::from_str("new_symbol(");
            text.append(name.as_str());
            text.append(")");
            Ok(text)
        },
        LispDatum::Nil => Ok(String::from_str("get_nil()")),
    }
}

/// Renders a node as an expression of the target language.
pub fn expression(node: &ASTNode) -> (rendering: Result<String, VisitError>)
    ensures
        text_of(rendering) == expression_text(node@),
    decreases node,
{
    match node {
        ASTNode::Literal(datum) => literal_expression(datum),
        ASTNode::Call(callee, arguments) => {
            match &**callee {
                ASTNode::Literal(LispDatum::Symbol(name)) => {
                    let ghost models = arguments.deep_view();
                    proof {
                        lemma_call_model(**callee, *arguments);
                    }
                    let ghost mut inner: Seq<char> = Seq::empty();
                    let mut out = name.clone();
                    out.append("(");
                    let mut i: usize = 0;
                    assert(models.skip(0) =~= models);
                    while i < arguments.len()
                        invariant
                            i <= arguments.len(),
                            models == arguments.deep_view(),
                            node@ == Ast::Call(
                                Box::new(Ast::Literal(Datum::Symbol(name@))),
                                models,
                            ),
                            decreases_to!(node => arguments),
                            out@ == name@ + "("@ + inner,
                            arguments_text(models) == followed_by(
                                inner,
                                arguments_text(models.skip(i as int)),
                            ),
                        decreases arguments.len() - i,
                    {
                        let ghost rest = models.skip(i as int);
                        assert(rest[0] == arguments[i as int]@);
                        assert(rest.drop_first() =~= models.skip(i + 1));
                        match expression(&arguments[i]) {
                            Ok(text) => {
                                out.append(text.as_str());
                                out.append(",");
                                proof {
                                    let ghost after = arguments_text(models.skip(i + 1));
                                    if after is Ok {
                                        let more = after->Ok_0;
                                        assert(inner + (text@ + ","@ + more) =~= (inner + text@
                                            + ","@) + more);
                                    }
                                    inner = inner + text@ + ","@;
                                }
                            },
                            Err(error) => {
                                return Err(error);
                            },
                        }
                        i += 1;
                    }
                    out.append(")");
                    Ok(out)
                },
                _ => {
                    assert(!((**callee)@ matches Ast::Literal(Datum::Symbol(_)))) by {
                        if let ASTNode::Literal(datum) = **callee {
                            assert(!(datum@ is Symbol));
                        }
                    }
                    Err(VisitError::CalleeNotSymbol)
                },
            }
        },
    }
}

/// What a visit of `node` as a literal appends, or why it appends nothing.
pub open spec fn literal_visit_text(node: Ast) -> Result<Seq<char>, VisitError> {
    match node {
        Ast::Literal(datum) => literal_text(datum),
        Ast::Call(_, _) => Err(VisitError::NotALiteral),
    }
}

/// What a visit of `node` as a call appends, or why it appends nothing.
pub open spec fn call_visit_text(node: Ast) -> Result<Seq<char>, VisitError> {
    match node {
        Ast::Literal(_) => Err(VisitError::NotACall),
        Ast::Call(_, _) => expression_text(node),
    }
}

/// Whether `after` and `outcome` are what appending `rendering` to the
/// text `before` gives: the text grows by a rendering that is there, and
/// stays as it is when the rendering is an error, which is then the outcome.
pub open spec fn appended(
    before: Seq<char>,
    rendering: Result<Seq<char>, VisitError>,
    after: Seq<char>,
    outcome: Result<(), VisitError>,
) -> bool {
    match rendering {
        Ok(text) => outcome == Ok::<(), VisitError>(()) && after == before + text,
        Err(error) => outcome == Err::<(), VisitError>(error) && after == before,
    }
}

/// A visitor that renders the nodes it visits as statements of the target
/// language, one after the other.
pub struct TranspilationVisitor {
    content: String,
}

impl View for TranspilationVisitor {
    type V = Seq<char>;

    /// The text rendered so far.
    closed spec fn view(&self) -> Seq<char> {
        self.content@
    }
}

impl TranspilationVisitor {
    /// A visitor that has rendered nothing yet.
    pub fn new() -> (visitor: Self)
        ensures
            visitor@ == Seq::<char>::empty(),
    {
        TranspilationVisitor { content: String::new() }
    }

    /// The program that holds what was rendered so far. The visitor stays as
    /// it is, so that asking again gives the same text.
    pub fn finalize(&self) -> (text: String)
        ensures
            text@ == finalized_text(self@),
    {
        let mut text = preamble();
        text.append(self.content.as_str());
        text.append(postamble().as_str());
        text
    }

    fn append(&mut self, rendering: Result<String, VisitError>) -> (outcome: Result<(), VisitError>)
        ensures
            appended(old(self)@, text_of(rendering), final(self)@, outcome),
    {
        match rendering {
            Ok(text) => {
                self.content.append(text.as_str());
                Ok(())
            },
            Err(error) => Err(error),
        }
    }
}

impl ASTVisitor for TranspilationVisitor {
    open spec fn visited_literal(
        &self,
        node: &ASTNode,
        after: &Self,
        outcome: Result<(), VisitError>,
    ) -> bool {
        appended(self@, literal_visit_text(node@), after@, outcome)
    }

    open spec fn visited_call(
        &self,
        node: &ASTNode,
        after: &Self,
        outcome: Result<(), VisitError>,
    ) -> bool {
        appended(self@, call_visit_text(node@), after@, outcome)
    }

    /// Appends the expression that builds the literal `node`.
    fn visit_literal(&mut self, node: &ASTNode) -> (outcome: Result<(), VisitError>) {
        match node {
            ASTNode::Literal(datum) => self.append(literal_expression(datum)),
            ASTNode::Call(_, _) => Err(VisitError::NotALiteral),
        }
    }

    /// Appends the expression of the call `node`.
    fn visit_call(&mut self, node: &ASTNode) -> (outcome: Result<(), VisitError>) {
        match node {
            ASTNode::Literal(_) => Err(VisitError::NotACall),
            ASTNode::Call(_, _) => self.append(expression(node)),
        }
    }
}

/// Why a pass gave no program.
#[derive(Debug, PartialEq, Eq)]
pub enum TranspileError {
    /// The statements could not be built into nodes; the builder's message.
    Build(String),
    /// A node could not be rendered.
    Render(VisitError),
}

/// Whether `outcome` is what one pass over `statements` has to give: the
/// program around the rendering of the nodes that the statements are built
/// into, or the reason why there is none.
pub open spec fn is_transpilation_of(
    outcome: Result<String, TranspileError>,
    statements: Seq<Sexp>,
) -> bool {
    match outcome {
        Ok(text) => built(statements) matches Some(nodes) && body_text(nodes) matches Ok(body)
            && text@ == finalized_text(body),
        Err(TranspileError::Build(message)) => built(statements) is None && message@
            == malformed_list_message(),
        Err(TranspileError::Render(error)) => built(statements) matches Some(nodes) && body_text(
            nodes,
        ) == Err::<Seq<char>, VisitError>(error),
    }
}

/// One pass from statements to program: builds the nodes of the statements,
/// lets a fresh visitor render each of them in turn, and finalizes.
pub fn transpile(statements: Vec<Statement>) -> (outcome: Result<String, TranspileError>)
    ensures
        is_transpilation_of(outcome, statements.deep_view()),
{
    let ghost source = statements.deep_view();
    let nodes = match ASTNode::from(statements) {
        Ok(nodes) => nodes,
        Err(message) => {
            return Err(TranspileError::Build(message));
        },
    };
    let ghost models = nodes.deep_view();
    let mut visitor = TranspilationVisitor::new();
    let mut i: usize = 0;
    assert(models.skip(0) =~= models);
    while i < nodes.len()
        invariant
            i <= nodes.len(),
            models == nodes.deep_view(),
            source == statements.deep_view(),
            built(source) == Some(models),
            body_text(models) == followed_by(visitor@, body_text(models.skip(i as int))),
        decreases nodes.len() - i,
    {
        let ghost rest = models.skip(i as int);
        let ghost before = visitor@;
        assert(rest[0] == nodes[i as int]@);
        assert(rest.drop_first() =~= models.skip(i + 1));
        match nodes[i].accept(&mut visitor) {
            Ok(()) => {
                proof {
                    let text = expression_text(rest[0])->Ok_0;
                    if let Ok(more) = body_text(models.skip(i + 1)) {
                        assert(before + (text + more) =~= (before + text) + more);
                    }
                }
            },
            Err(error) => {
                return Err(TranspileError::Render(error));
            },
        }
        i += 1;
    }
    Ok(visitor.finalize())
}

/// A literal pair has no expression: rendering it, alone or by a visit, is
/// an error.
pub proof fn lemma_cons_literal_is_refused(head: Datum, tail: Datum)
    ensures
        ({
            let pair = Ast::Literal(Datum::Cons(Box::new(head), Box::new(tail)));
            &&& expression_text(pair) == Err::<Seq<char>, VisitError>(VisitError::UnsupportedCons)
            &&& literal_visit_text(pair) == Err::<Seq<char>, VisitError>(
                VisitError::UnsupportedCons,
            )
        }),
{
}

/// A visit never takes back or changes what was rendered before it: the
/// text before the visit is the beginning of the text after it, and a visit
/// that ends with an error leaves the text as it was.
pub proof fn lemma_visit_only_appends(
    before: Seq<char>,
    rendering: Result<Seq<char>, VisitError>,
    after: Seq<char>,
    outcome: Result<(), VisitError>,
)
    requires
        appended(before, rendering, after, outcome),
    ensures
        before.is_prefix_of(after),
        outcome is Ok <==> rendering is Ok,
        outcome is Err ==> after == before,
{
    if let Ok(text) = rendering {
        assert((before + text).subrange(0, before.len() as int) =~= before);
    } else {
        assert(before.subrange(0, before.len() as int) =~= before);
    }
}

/// A tree has an expression exactly when it is renderable: the callee of
/// every call in it is a literal symbol, and no other literal in it is a
/// pair.
pub proof fn lemma_expression_of_renderable(node: Ast)
    ensures
        expression_text(node) is Ok <==> node.renderable(),
    decreases node,
{
    if let Ast::Call(callee, arguments) = node {
        lemma_sequence_of_renderable(arguments, ","@);
    }
}

/// A sequence of nodes has a text exactly when each of the nodes is
/// renderable.
pub proof fn lemma_sequence_of_renderable(nodes: Seq<Ast>, closing: Seq<char>)
    ensures
        sequence_text(nodes, closing) is Ok <==> forall|i: int|
            0 <= i < nodes.len() ==> (#[trigger] nodes[i]).renderable(),
    decreases nodes,
{
    if nodes.len() > 0 {
        let rest = nodes.drop_first();
        lemma_expression_of_renderable(nodes[0]);
        lemma_sequence_of_renderable(rest, closing);
        if sequence_text(nodes, closing) is Ok {
            assert forall|i: int| 0 <= i < nodes.len() implies (
            #[trigger] nodes[i]).renderable() by {
                if i > 0 {
                    assert(rest[i - 1] == nodes[i]);
                }
            }
        } else if expression_text(nodes[0]) is Ok {
            let i = choose|i: int| 0 <= i < rest.len() && !(#[trigger] rest[i]).renderable();
            assert(!nodes[i + 1].renderable());
        }
    }
}

/// The text of two sequences of nodes, one after the other, is the text of
/// the first followed by the text of the second; where the first has an
/// error, that is the error of the whole.
pub proof fn lemma_sequence_text_concat(first: Seq<Ast>, second: Seq<Ast>, closing: Seq<char>)
    ensures
        sequence_text(first + second, closing) == match sequence_text(first, closing) {
            Ok(text) => followed_by(text, sequence_text(second, closing)),
            Err(error) => Err(error),
        },
    decreases first.len(),
{
    if first.len() == 0 {
        assert(first + second =~= second);
        if let Ok(text) = sequence_text(second, closing) {
            assert(Seq::<char>::empty() + text =~= text);
        }
    } else {
        let rest = first.drop_first();
        assert((first + second).drop_first() =~= rest + second);
        lemma_sequence_text_concat(rest, second, closing);
        if let Ok(head) = expression_text(first[0]) {
            if let Ok(middle) = sequence_text(rest, closing) {
                if let Ok(tail) = sequence_text(second, closing) {
                    assert(head + closing + (middle + tail) =~= (head + closing + middle) + tail);
                }
            }
        }
    }
}

/// A pass gives a program exactly when every statement is well-formed and
/// the node of each is renderable.
pub proof fn lemma_transpilation_succeeds(
    outcome: Result<String, TranspileError>,
    statements: Seq<Sexp>,
)
    requires
        is_transpilation_of(outcome, statements),
    ensures
        outcome is Ok <==> forall|i: int|
            0 <= i < statements.len() ==> (#[trigger] statements[i]).well_formed()
                && statements[i].lowered().renderable(),
{
    if let Some(nodes) = built(statements) {
        lemma_sequence_of_renderable(nodes, Seq::empty());
        if outcome is Ok {
            assert forall|i: int| 0 <= i < statements.len() implies (
            #[trigger] statements[i]).well_formed() && statements[i].lowered().renderable() by {
                assert(nodes[i].renderable());
            }
        } else {
            let i = choose|i: int| 0 <= i < nodes.len() && !(#[trigger] nodes[i]).renderable();
            assert(!statements[i].lowered().renderable());
        }
    }
}

} // verus!

use vstd::prelude::*;
use crate::data::{Datum, LispDatum};
use crate::parse::{lemma_list_model, Sexp, Statement};

verus! {

/// Why a visit of a node did not go through.
#[derive(Debug, Clone, Copy, PartialEq, Eq)]
pub enum VisitError {
    /// The node is a literal pair, for which there is no rendering yet.
    UnsupportedCons,
    /// A visit of a literal was asked for on a node that is a call.
    NotALiteral,
    /// A visit of a call was asked for on a node that is a literal.
    NotACall,
    /// The callee of a call is not a literal symbol.
    CalleeNotSymbol,
}

/// The mathematical value of a node of the syntax tree.
pub enum Ast {
    Literal(Datum),
    Call(Box<Ast>, Seq<Ast>),
}

/// A node of the abstract syntax tree: a literal value, or the call of a
/// callee on a sequence of arguments.
#[derive(Debug, PartialEq, Eq)]
pub enum ASTNode {
    Literal(LispDatum),
    Call(Box<ASTNode>, Vec<ASTNode>),
}

impl Ast {
    /// Whether this node is a literal symbol.
    pub open spec fn is_symbol(self) -> bool {
        self matches Ast::Literal(Datum::Symbol(_))
    }

    /// Whether the callee of every call in this tree is a literal symbol.
    pub open spec fn well_formed(self) -> bool
        decreases self,
    {
        match self {
            Ast::Literal(_) => true,
            Ast::Call(callee, arguments) => callee.is_symbol() && forall|i: int|
                0 <= i < arguments.len() ==> (#[trigger] arguments[i]).well_formed(),
        }
    }

    /// Whether no literal that stands alone or as an argument in this tree
    /// is a pair.
    pub open spec fn cons_free(self) -> bool
        decreases self,
    {
        match self {
            Ast::Literal(datum) => !(datum is Cons),
            Ast::Call(_, arguments) => forall|i: int|
                0 <= i < arguments.len() ==> (#[trigger] arguments[i]).cons_free(),
        }
    }

    /// Whether this tree can be rendered.
    pub open spec fn renderable(self) -> bool {
        self.well_formed() && self.cons_free()
    }
}

impl ASTNode {
    /// The mathematical value of this node; `view` and `deep_view` give the
    /// same.
    pub open spec fn model(&self) -> Ast
        decreases self,
    {
        match self {
            ASTNode::Literal(datum) => Ast::Literal(datum@),
            ASTNode::Call(callee, arguments) => Ast::Call(
                Box::new((**callee).model()),
                Seq::new(
                    arguments@.len(),
                    |i: int|
                        if 0 <= i < arguments@.len() {
                            arguments@[i].model()
                        } else {
                            arbitrary()
                        },
                ),
            ),
        }
    }
}

impl View for ASTNode {
    type V = Ast;

    open spec fn view(&self) -> Ast {
        self.model()
    }
}

impl DeepView for ASTNode {
    type V = Ast;

    open spec fn deep_view(&self) -> Ast {
        self.model()
    }
}

/// The model of a call is the call of the callee's model on the models of
/// the arguments.
pub proof fn lemma_call_model(callee: ASTNode, arguments: Vec<ASTNode>)
    ensures
        ASTNode::Call(Box::new(callee), arguments)@ == Ast::Call(
            Box::new(callee@),
            arguments.deep_view(),
        ),
{
    assert(ASTNode::Call(Box::new(callee), arguments)@->Call_1 =~= arguments.deep_view());
}

impl Sexp {
    /// Whether this statement is a symbol.
    pub open spec fn is_symbol(self) -> bool {
        self matches Sexp::Terminal(Datum::Symbol(_))
    }

    /// Whether the statement can be turned into a node: it is a terminal,
    /// the empty list, or a list that begins with a symbol and goes on with
    /// statements that can be turned into nodes.
    pub open spec fn well_formed(self) -> bool
        decreases self,
    {
        match self {
            Sexp::Terminal(_) => true,
            Sexp::List(items) => items.len() == 0 || (items[0].is_symbol() && all_well_formed(
                items.skip(1),
            )),
        }
    }

    /// The node that a well-formed statement stands for: a terminal is a
    /// literal, the empty list is the literal nil, and any other list is the
    /// call of its first element on the nodes of the others.
    pub open spec fn lowered(self) -> Ast
        decreases self,
    {
        match self {
            Sexp::Terminal(datum) => Ast::Literal(datum),
            Sexp::List(items) => if items.len() == 0 {
                Ast::Literal(Datum::Nil)
            } else {
                Ast::Call(Box::new(Ast::Literal(items[0]->Terminal_0)), lowered_all(items.skip(1)))
            },
        }
    }
}

/// Whether every statement of `items` is well-formed.
pub open spec fn all_well_formed(items: Seq<Sexp>) -> bool
    decreases items,
{
    forall|i: int| 0 <= i < items.len() ==> (#[trigger] items[i]).well_formed()
}

/// The nodes of the statements of `items`, one for each statement and in
/// the same order.
pub open spec fn lowered_all(items: Seq<Sexp>) -> Seq<Ast>
    decreases items,
{
    Seq::new(
        items.len(),
        |i: int|
            if 0 <= i < items.len() {
                items[i].lowered()
            } else {
                arbitrary()
            },
    )
}

/// What a sequence of statements is built into: the node of each of them
/// where all are well-formed, and nothing otherwise.
pub open spec fn built(statements: Seq<Sexp>) -> Option<Seq<Ast>> {
    if all_well_formed(statements) {
        Some(lowered_all(statements))
    } else {
        None
    }
}

/// What the builder says of a list that is neither empty nor begins with a
/// symbol.
pub open spec fn malformed_list_message() -> Seq<char> {
    "first element of a list must be a symbol"@
}

/// Whether `outcome` is what building `statements` has to give: the nodes
/// that they are built into, or the builder's message where there are none.
pub open spec fn is_build_of(outcome: Result<Vec<ASTNode>, String>, statements: Seq<Sexp>) -> bool {
    match outcome {
        Ok(nodes) => built(statements) == Some(nodes.deep_view()),
        Err(message) => built(statements) is None && message@ == malformed_list_message(),
    }
}

impl ASTNode {
    /// Builds the nodes of the statements from position `start` on.
    fn from_index(statements: &Vec<Statement>, start: usize) -> (outcome: Result<Vec<Self>, String>)
        requires
            start <= statements.len(),
        ensures
            is_build_of(outcome, statements.deep_view().skip(start as int)),
        decreases statements,
    {
        let ghost rest = statements.deep_view().skip(start as int);
        let mut ast: Vec<Self> = Vec::new();
        let mut i: usize = start;
        while i < statements.len()
            invariant
                start <= i <= statements.len(),
                rest == statements.deep_view().skip(start as int),
                ast.len() == i - start,
                forall|k: int| 0 <= k < i - start ==> (#[trigger] rest[k]).well_formed(),
                forall|k: int| 0 <= k < i - start ==> (#[trigger] ast[k])@ == rest[k].lowered(),
            decreases statements.len() - i,
        {
            let ghost sexp = rest[i - start];
            match &statements[i] {
                Statement::Terminal(datum) => {
                    ast.push(ASTNode::Literal(datum.clone()));
                },
                Statement::List(items) => {
                    proof {
                        lemma_list_model(*items);
                    }
                    if items.len() == 0 {
                        ast.push(ASTNode::Literal(LispDatum::Nil));
                    } else {
                        match &items[0] {
                            Statement::Terminal(LispDatum::Symbol(name)) => {
                                match ASTNode::from_index(items, 1) {
                                    Ok(arguments) => {
                                        let callee = ASTNode::Literal(
                                            LispDatum::Symbol(name.clone()),
                                        );
                                        proof {
                                            lemma_call_model(callee, arguments);
                                        }
                                        ast.push(ASTNode::Call(Box::new(callee), arguments));
                                    },
                                    Err(message) => {
                                        assert(!sexp.well_formed());
                                        return Err(message);
                                    },
                                }
                            },
                            _ => {
                                assert(!sexp.well_formed());
                                return Err(
                                    String::from_str("first element of a list must be a symbol"),
                                );
                            },
                        }
                    }
                },
            }
            assert(sexp.well_formed() && ast[i - start]@ == sexp.lowered());
            i += 1;
        }
        assert(ast.deep_view() =~= lowered_all(rest));
        Ok(ast)
    }

    /// Turns a sequence of statements into the nodes they stand for, one node
    /// for each statement and in the same order, or reports that one of the
    /// lists that had to be turned into a call does not begin with a symbol.
    ///
    /// Every call among the nodes returned has a literal symbol as its
    /// callee.
    pub fn from(statements: Vec<Statement>) -> (outcome: Result<Vec<Self>, String>)
        ensures
            is_build_of(outcome, statements.deep_view()),
            outcome is Ok <==> forall|i: int|
                0 <= i < statements.len() ==> (#[trigger] statements[i])@.well_formed(),
            outcome matches Ok(nodes) ==> {
                &&& nodes.len() == statements.len()
                &&& forall|i: int|
                    0 <= i < nodes.len() ==> (#[trigger] nodes[i])@ == statements[i]@.lowered()
                &&& forall|i: int| 0 <= i < nodes.len() ==> (#[trigger] nodes[i])@.well_formed()
            },
            outcome matches Err(message) ==> message@ == malformed_list_message(),
    {
        let outcome = ASTNode::from_index(&statements, 0);
        proof {
            let models = statements.deep_view();
            assert(models.skip(0) =~= models);
            assert(all_well_formed(models) <==> forall|i: int|
                0 <= i < statements.len() ==> (#[trigger] statements[i])@.well_formed()) by {
                if all_well_formed(models) {
                    assert forall|i: int| 0 <= i < statements.len() implies (
                    #[trigger] statements[i])@.well_formed() by {
                        assert(models[i].well_formed());
                    }
                }
            }
            if outcome is Ok {
                let nodes = outcome->Ok_0;
                lemma_built_nodes_are_well_formed(models, nodes.deep_view());
                assert(nodes.deep_view().len() == models.len());
                assert forall|i: int| 0 <= i < nodes.len() implies (#[trigger] nodes[i])@
                    == statements[i]@.lowered() by {
                    assert(nodes.deep_view()[i] == models[i].lowered());
                }
                assert forall|i: int| 0 <= i < nodes.len() implies (
                #[trigger] nodes[i])@.well_formed() by {
                    assert(nodes.deep_view()[i].well_formed());
                }
            }
        }
        outcome
    }

    /// Hands this node to the method of `visitor` that is meant for its
    /// kind: a literal to `visit_literal`, a call to `visit_call`.
    pub fn accept<V: ASTVisitor>(&self, visitor: &mut V) -> (outcome: Result<(), VisitError>)
        ensures
            match self {
                ASTNode::Literal(_) => old(visitor).visited_literal(self, final(visitor), outcome),
                ASTNode::Call(_, _) => old(visitor).visited_call(self, final(visitor), outcome),
            },
    {
        match self {
            ASTNode::Literal(_) => visitor.visit_literal(self),
            ASTNode::Call(_, _) => visitor.visit_call(self),
        }
    }
}

/// A visitor of syntax trees, with one method for each kind of node.
///
/// An implementation says in `visited_literal` and `visited_call` what a
/// visit does: how the visitor after the visit and the outcome relate to
/// the visitor before it and to the node. One that does not say it leaves
/// every visit open.
pub trait ASTVisitor {
    /// Whether a visit of the literal `node` may take this visitor to
    /// `after` and end with `outcome`.
    open spec fn visited_literal(
        &self,
        node: &ASTNode,
        after: &Self,
        outcome: Result<(), VisitError>,
    ) -> bool {
        true
    }

    /// Whether a visit of the call `node` may take this visitor to `after`
    /// and end with `outcome`.
    open spec fn visited_call(
        &self,
        node: &ASTNode,
        after: &Self,
        outcome: Result<(), VisitError>,
    ) -> bool {
        true
    }

    /// Visits `node`, which is meant to be a literal.
    fn visit_literal(&mut self, node: &ASTNode) -> (outcome: Result<(), VisitError>)
        ensures
            old(self).visited_literal(node, final(self), outcome),
    ;

    /// Visits `node`, which is meant to be a call.
    fn visit_call(&mut self, node: &ASTNode) -> (outcome: Result<(), VisitError>)
        ensures
            old(self).visited_call(node, final(self), outcome),
    ;
}

/// What the model of a list says of the list's items: the list is
/// well-formed exactly when it is empty, or begins with a symbol and goes on
/// with well-formed statements, and its node is then the literal nil, or
/// the call of that symbol on the node of each of the other items.
pub proof fn lemma_list_node(items: Vec<Statement>)
    ensures
        Statement::List(items)@.well_formed() <==> items.len() == 0 || (items[0]@.is_symbol()
            && forall|i: int| 1 <= i < items.len() ==> (#[trigger] items[i])@.well_formed()),
        items.len() == 0 ==> Statement::List(items)@.lowered() == Ast::Literal(Datum::Nil),
        items.len() > 0 ==> (Statement::List(items)@.lowered() matches Ast::Call(callee, arguments)
            && {
            &&& *callee == Ast::Literal(items[0]@->Terminal_0)
            &&& arguments.len() == items.len() - 1
            &&& forall|i: int|
                0 <= i < arguments.len() ==> #[trigger] arguments[i] == items[i + 1]@.lowered()
        }),
{
    lemma_list_model(items);
    if items.len() > 0 {
        let rest = items.deep_view().skip(1);
        if all_well_formed(rest) {
            assert forall|i: int| 1 <= i < items.len() implies (
            #[trigger] items[i])@.well_formed() by {
                assert(rest[i - 1].well_formed());
            }
        }
    }
}

/// Building keeps count and order: statements are built into nodes exactly
/// when each of them is well-formed, and then there is one node for each
/// statement, at the statement's position.
pub proof fn lemma_built_one_for_one(statements: Seq<Sexp>)
    ensures
        built(statements) is Some <==> forall|i: int|
            0 <= i < statements.len() ==> (#[trigger] statements[i]).well_formed(),
        built(statements) matches Some(nodes) ==> {
            &&& nodes.len() == statements.len()
            &&& forall|i: int|
                0 <= i < statements.len() ==> #[trigger] nodes[i] == statements[i].lowered()
        },
{
}

/// A list that begins with a symbol and goes on with well-formed statements
/// is built into exactly one node: the call of that symbol on one argument
/// for each of the other statements of the list, in their order.
pub proof fn lemma_built_symbol_list(items: Seq<Sexp>)
    requires
        items.len() > 0,
        items[0].is_symbol(),
        all_well_formed(items.skip(1)),
    ensures
        built(seq![Sexp::List(items)]) matches Some(nodes) && {
            &&& nodes.len() == 1
            &&& nodes[0] matches Ast::Call(callee, arguments) && {
                &&& *callee == Ast::Literal(Datum::Symbol(items[0]->Terminal_0->Symbol_0))
                &&& arguments.len() == items.len() - 1
                &&& forall|i: int|
                    0 <= i < arguments.len() ==> #[trigger] arguments[i] == items[i + 1].lowered()
            }
        },
{
    let list = Sexp::List(items);
    assert(seq![list][0] == list);
    let arguments = lowered_all(items.skip(1));
    assert forall|i: int| 0 <= i < arguments.len() implies #[trigger] arguments[i] == items[i
        + 1].lowered() by {
        assert(items.skip(1)[i] == items[i + 1]);
    }
}

/// The empty list is built into exactly one node, the literal nil.
pub proof fn lemma_built_empty_list()
    ensures
        built(seq![Sexp::List(Seq::empty())]) == Some(seq![Ast::Literal(Datum::Nil)]),
{
}

/// A list that is not empty and does not begin with a symbol is not
/// well-formed, and nothing is built from a sequence of statements that
/// holds such a list.
pub proof fn lemma_built_rejects_list_without_symbol(statements: Seq<Sexp>, at: int)
    requires
        0 <= at < statements.len(),
        statements[at] matches Sexp::List(items) && items.len() > 0 && !items[0].is_symbol(),
    ensures
        !statements[at].well_formed(),
        built(statements) is None,
{
}

/// Building two sequences of statements one after the other gives the nodes
/// of the first followed by the nodes of the second, and nothing where
/// either of them gives nothing.
pub proof fn lemma_built_concat(first: Seq<Sexp>, second: Seq<Sexp>)
    ensures
        built(first + second) == match (built(first), built(second)) {
            (Some(front), Some(back)) => Some(front + back),
            _ => None,
        },
{
    let whole = first + second;
    if all_well_formed(first) && all_well_formed(second) {
        assert(lowered_all(whole) =~= lowered_all(first) + lowered_all(second));
    } else if !all_well_formed(first) {
        let i = choose|i: int| 0 <= i < first.len() && !(#[trigger] first[i]).well_formed();
        assert(whole[i] == first[i]);
    } else {
        let i = choose|i: int| 0 <= i < second.len() && !(#[trigger] second[i]).well_formed();
        assert(whole[first.len() + i] == second[i]);
    }
}

/// In the node of a well-formed statement the callee of every call is a
/// literal symbol.
pub proof fn lemma_lowered_is_well_formed(statement: Sexp)
    requires
        statement.well_formed(),
    ensures
        statement.lowered().well_formed(),
    decreases statement,
{
    if let Sexp::List(items) = statement {
        if items.len() > 0 {
            let arguments = lowered_all(items.skip(1));
            assert forall|i: int| 0 <= i < arguments.len() implies (
            #[trigger] arguments[i]).well_formed() by {
                lemma_lowered_is_well_formed(items.skip(1)[i]);
            }
        }
    }
}

/// In every node that is built the callee of every call is a literal symbol.
pub proof fn lemma_built_nodes_are_well_formed(statements: Seq<Sexp>, nodes: Seq<Ast>)
    requires
        built(statements) == Some(nodes),
    ensures
        forall|i: int| 0 <= i < nodes.len() ==> (#[trigger] nodes[i]).well_formed(),
{
    assert forall|i: int| 0 <= i < nodes.len() implies (#[trigger] nodes[i]).well_formed() by {
        lemma_lowered_is_well_formed(statements[i]);
    }
}

} // verus!

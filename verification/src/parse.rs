use vstd::prelude::*;
use crate::data::{Datum, LispDatum};

verus! {

/// The mathematical value of a statement: a tree whose leaves are data and
/// whose inner nodes are finite sequences of trees.
pub enum Sexp {
    Terminal(Datum),
    List(Seq<Sexp>),
}

/// A node of the surface syntax, as a reader hands it over: a single datum,
/// or a list of statements in the order in which they were read.
#[derive(Debug, PartialEq, Eq)]
pub enum Statement {
    Terminal(LispDatum),
    List(Vec<Statement>),
}

impl Statement {
    /// The mathematical value of this statement; `view` and `deep_view`
    /// give the same.
    pub open spec fn model(&self) -> Sexp
        decreases self,
    {
        match self {
            Statement::Terminal(datum) => Sexp::Terminal(datum@),
            Statement::List(items) => Sexp::List(
                Seq::new(
                    items@.len(),
                    |i: int|
                        if 0 <= i < items@.len() {
                            items@[i].model()
                        } else {
                            arbitrary()
                        },
                ),
            ),
        }
    }
}

impl View for Statement {
    type V = Sexp;

    open spec fn view(&self) -> Sexp {
        self.model()
    }
}

impl DeepView for Statement {
    type V = Sexp;

    open spec fn deep_view(&self) -> Sexp {
        self.model()
    }
}

/// The model of a list is the list of the models of its items.
pub proof fn lemma_list_model(items: Vec<Statement>)
    ensures
        Statement::List(items)@ == Sexp::List(items.deep_view()),
{
    assert(Statement::List(items)@->List_0 =~= items.deep_view());
}

} // verus!

use vstd::prelude::*;

verus! {

/// The mathematical value of a datum: integers are unbounded, and text is a
/// sequence of characters.
pub enum Datum {
    Integer(int),
    Rational(int, int),
    Real(Seq<char>),
    Complex(Seq<char>, Seq<char>),
    Symbol(Seq<char>),
    Cons(Box<Datum>, Box<Datum>),
    Nil,
}

/// A value of the Lisp value model.
///
/// A real number, and each part of a complex number, is held as the text of
/// its numeral: the library writes it out and never computes with it.
#[derive(Debug, PartialEq, Eq)]
pub enum LispDatum {
    /// An integer.
    Integer(i64),
    /// A fraction, by numerator and denominator.
    Rational(i64, i64),
    /// A real number, by its numeral.
    Real(String),
    /// A complex number, by the numerals of its real and imaginary part.
    Complex(String, String),
    /// A symbol, by its name.
    Symbol(String),
    /// A pair of a head and a tail.
    Cons(Box<LispDatum>, Box<LispDatum>),
    /// The empty list.
    Nil,
}

impl LispDatum {
    /// The mathematical value of this datum; `view` and `deep_view` give
    /// the same.
    pub open spec fn model(&self) -> Datum
        decreases self,
    {
        match self {
            LispDatum::Integer(n) => Datum::Integer(*n as int),
            LispDatum::Rational(p, q) => Datum::Rational(*p as int, *q as int),
            LispDatum::Real(x) => Datum::Real(x@),
            LispDatum::Complex(re, im) => Datum::Complex(re@, im@),
            LispDatum::Symbol(name) => Datum::Symbol(name@),
            LispDatum::Cons(head, tail) => Datum::Cons(
                Box::new((**head).model()),
                Box::new((**tail).model()),
            ),
            LispDatum::Nil => Datum::Nil,
        }
    }
}

impl View for LispDatum {
    type V = Datum;

    open spec fn view(&self) -> Datum {
        self.model()
    }
}

impl DeepView for LispDatum {
    type V = Datum;

    open spec fn deep_view(&self) -> Datum {
        self.model()
    }
}

impl Clone for LispDatum {
    /// A copy that is equal to this datum in every part.
    fn clone(&self) -> (copy: Self)
        ensures
            copy == *self,
        decreases self,
    {
        match self {
            LispDatum::Integer(n) => LispDatum::Integer(*n),
            LispDatum::Rational(p, q) => LispDatum::Rational(*p, *q),
            LispDatum::Real(x) => LispDatum::Real(x.clone()),
            LispDatum::Complex(re, im) => LispDatum::Complex(re.clone(), im.clone()),
            LispDatum::Symbol(name) => LispDatum::Symbol(name.clone()),
            LispDatum::Cons(head, tail) => LispDatum::Cons(
                Box::new((&**head).clone()),
                Box::new((&**tail).clone()),
            ),
            LispDatum::Nil => LispDatum::Nil,
        }
    }
}

} // verus!

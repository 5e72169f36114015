//! The terms of the rule language, and the safety of rules.

use vstd::hash_set::StringHashSet;
use vstd::prelude::*;
use vstd::string::*;
use vstd::utf8::*;

use crate::text::{lemma_text_injective, str_eq, text};

verus! {

/// A term: a variable, a constant, or the wildcard.
#[derive(Debug, PartialEq, Eq, Hash)]
pub enum Term {
    /// A variable, such as `X` or `Queue`.
    Var(String),
    /// A constant, such as `"queue:publish"`.
    Const(String),
    /// `_`: matches anything and binds nothing.
    Wildcard,
}

/// A term as contracts see it.
pub ghost enum TermModel {
    Var(Seq<u8>),
    Const(Seq<u8>),
    Wildcard,
}

impl View for Term {
    type V = TermModel;

    open spec fn view(&self) -> TermModel {
        match self {
            Term::Var(n) => TermModel::Var(text(n@)),
            Term::Const(c) => TermModel::Const(text(c@)),
            Term::Wildcard => TermModel::Wildcard,
        }
    }
}

impl Clone for Term {
    fn clone(&self) -> (r: Self)
        ensures
            r == *self,
    {
        match self {
            Term::Var(n) => Term::Var(n.clone()),
            Term::Const(c) => Term::Const(c.clone()),
            Term::Wildcard => Term::Wildcard,
        }
    }
}

impl Term {
    /// A variable.
    pub fn var(name: &str) -> (r: Self)
        ensures
            r@ == TermModel::Var(text(name@)),
    {
        Term::Var(name.to_owned())
    }

    /// A constant.
    pub fn constant(value: &str) -> (r: Self)
        ensures
            r@ == TermModel::Const(text(value@)),
    {
        Term::Const(value.to_owned())
    }

    /// The wildcard.
    pub fn wildcard() -> (r: Self)
        ensures
            r@ == TermModel::Wildcard,
    {
        Term::Wildcard
    }

    /// Whether the term is a variable.
    pub fn is_var(&self) -> (r: bool)
        ensures
            r == (self@ is Var),
    {
        match self {
            Term::Var(_) => true,
            _ => false,
        }
    }

    /// Whether the term is a constant.
    pub fn is_const(&self) -> (r: bool)
        ensures
            r == (self@ is Const),
    {
        match self {
            Term::Const(_) => true,
            _ => false,
        }
    }

    /// Whether the term is the wildcard.
    pub fn is_wildcard(&self) -> (r: bool)
        ensures
            r == (self@ is Wildcard),
    {
        match self {
            Term::Wildcard => true,
            _ => false,
        }
    }

    /// The name, if this is a variable.
    pub fn var_name(&self) -> (r: Option<&str>)
        ensures
            r matches Some(n) ==> self@ == TermModel::Var(text(n@)),
            r.is_none() ==> !(self@ is Var),
    {
        match self {
            Term::Var(name) => Some(name.as_str()),
            _ => None,
        }
    }

    /// The value, if this is a constant.
    pub fn const_value(&self) -> (r: Option<&str>)
        ensures
            r matches Some(c) ==> self@ == TermModel::Const(text(c@)),
            r.is_none() ==> !(self@ is Const),
    {
        match self {
            Term::Const(value) => Some(value.as_str()),
            _ => None,
        }
    }
}

/// The models of a sequence of terms.
pub open spec fn term_models(s: Seq<Term>) -> Seq<TermModel> {
    s.map_values(|t: Term| t@)
}

/// An atom: a predicate with its arguments.
#[derive(Debug, PartialEq, Eq)]
pub struct Atom {
    predicate: String,
    args: Vec<Term>,
}

/// An atom as contracts see it.
pub ghost struct AtomModel {
    pub predicate: Seq<u8>,
    pub args: Seq<TermModel>,
}

impl View for Atom {
    type V = AtomModel;

    closed spec fn view(&self) -> AtomModel {
        AtomModel { predicate: text(self.predicate@), args: term_models(self.args@) }
    }
}

/// A copy of a list of terms.
pub fn copy_terms(terms: &[Term]) -> (r: Vec<Term>)
    ensures
        term_models(r@) == term_models(terms@),
{
    let mut out: Vec<Term> = Vec::new();
    let mut i: usize = 0;
    while i < terms.len()
        invariant
            i <= terms@.len(),
            term_models(out@) == term_models(terms@).subrange(0, i as int),
        decreases terms@.len() - i,
    {
        let ghost before = out@;
        let t = terms[i].clone();
        let ghost tm = t@;
        out.push(t);
        i += 1;
        proof {
            assert(term_models(out@) =~= term_models(before).push(tm));
            assert(term_models(terms@)[i - 1] == terms@[i - 1]@);
            assert(term_models(out@) =~= term_models(terms@).subrange(0, i as int));
        }
    }
    assert(term_models(terms@).subrange(0, terms@.len() as int) =~= term_models(terms@));
    out
}

impl Clone for Atom {
    fn clone(&self) -> (r: Self)
        ensures
            r@ == self@,
    {
        Atom { predicate: self.predicate.clone(), args: copy_terms(self.args.as_slice()) }
    }
}

/// Some argument among the first `k` is the variable `name`.
pub open spec fn names_var(args: Seq<TermModel>, name: Seq<u8>, k: int) -> bool {
    exists|i: int| 0 <= i < k && #[trigger] args[i] == TermModel::Var(name)
}

impl AtomModel {
    /// The atom has the variable `name` among its arguments.
    pub open spec fn has_var(self, name: Seq<u8>) -> bool {
        names_var(self.args, name, self.args.len() as int)
    }

    /// No argument is a variable.
    pub open spec fn is_ground(self) -> bool {
        forall|i: int| 0 <= i < self.args.len() ==> !((#[trigger] self.args[i]) is Var)
    }
}

impl Atom {
    /// An atom of a predicate and its arguments.
    pub fn new(predicate: &str, args: Vec<Term>) -> (r: Self)
        ensures
            r@ == (AtomModel { predicate: text(predicate@), args: term_models(args@) }),
    {
        Atom { predicate: predicate.to_owned(), args }
    }

    /// The name of the predicate.
    pub fn predicate(&self) -> (r: &str)
        ensures
            text(r@) == self@.predicate,
    {
        self.predicate.as_str()
    }

    /// The arguments.
    pub fn args(&self) -> (r: &[Term])
        ensures
            term_models(r@) == self@.args,
    {
        self.args.as_slice()
    }

    /// The number of arguments.
    pub fn arity(&self) -> (r: usize)
        ensures
            r == self@.args.len(),
    {
        self.args.len()
    }

    /// The names of the variables among the arguments.
    pub fn variables(&self) -> (r: StringHashSet)
        ensures
            forall|c: Seq<char>| r@.contains(c) <==> self@.has_var(text(c)),
    {
        let mut out = StringHashSet::new();
        let ghost args = self@.args;
        let mut i: usize = 0;
        while i < self.args.len()
            invariant
                i <= self.args@.len(),
                args == term_models(self.args@),
                forall|c: Seq<char>| out@.contains(c) <==> names_var(args, text(c), i as int),
            decreases self.args@.len() - i,
        {
            let ghost before = out@;
            assert(args[i as int] == self.args@[i as int]@);
            match &self.args[i] {
                Term::Var(name) => {
                    out.insert(name.clone());
                    proof {
                        assert forall|c: Seq<char>| out@.contains(c) <==> names_var(
                            args,
                            text(c),
                            i + 1,
                        ) by {
                            if c == name@ {
                                assert(args[i as int] == TermModel::Var(text(c)));
                            }
                            if names_var(args, text(c), i + 1) {
                                let j = choose|j: int|
                                    0 <= j < i + 1 && #[trigger] args[j] == TermModel::Var(text(c));
                                if j < i {
                                    assert(names_var(args, text(c), i as int));
                                } else {
                                    lemma_text_injective(c, name@);
                                }
                            }
                            if before.contains(c) {
                                let j = choose|j: int|
                                    0 <= j < i && #[trigger] args[j] == TermModel::Var(text(c));
                                assert(0 <= j < i + 1);
                            }
                        }
                    }
                },
                _ => {
                    proof {
                        assert forall|c: Seq<char>| out@.contains(c) <==> names_var(
                            args,
                            text(c),
                            i + 1,
                        ) by {
                            if names_var(args, text(c), i + 1) {
                                let j = choose|j: int|
                                    0 <= j < i + 1 && #[trigger] args[j] == TermModel::Var(text(c));
                                assert(j < i);
                                assert(names_var(args, text(c), i as int));
                            }
                            if before.contains(c) {
                                let j = choose|j: int|
                                    0 <= j < i && #[trigger] args[j] == TermModel::Var(text(c));
                                assert(0 <= j < i + 1);
                            }
                        }
                    }
                },
            }
            i += 1;
        }
        out
    }

    /// Whether the atom has the variable `name` among its arguments.
    pub fn has_variable(&self, name: &str) -> (r: bool)
        ensures
            r == self@.has_var(text(name@)),
    {
        let ghost args = self@.args;
        let mut i: usize = 0;
        while i < self.args.len()
            invariant
                i <= self.args@.len(),
                args == term_models(self.args@),
                !names_var(args, text(name@), i as int),
            decreases self.args@.len() - i,
        {
            assert(args[i as int] == self.args@[i as int]@);
            if let Term::Var(n) = &self.args[i] {
                if str_eq(n.as_str(), name) {
                    assert(args[i as int] == TermModel::Var(text(name@)));
                    return true;
                }
            }
            proof {
                if names_var(args, text(name@), i + 1) {
                    let j = choose|j: int|
                        0 <= j < i + 1 && #[trigger] args[j] == TermModel::Var(text(name@));
                    assert(j < i);
                }
            }
            i += 1;
        }
        false
    }

    /// Whether no argument is a variable.
    pub fn is_ground(&self) -> (r: bool)
        ensures
            r == self@.is_ground(),
    {
        let ghost args = self@.args;
        let mut i: usize = 0;
        while i < self.args.len()
            invariant
                i <= self.args@.len(),
                args == term_models(self.args@),
                forall|j: int| 0 <= j < i ==> !((#[trigger] args[j]) is Var),
            decreases self.args@.len() - i,
        {
            assert(args[i as int] == self.args@[i as int]@);
            if self.args[i].is_var() {
                return false;
            }
            i += 1;
        }
        true
    }
}

/// A literal: an atom, or the negation of one.
#[derive(Debug, PartialEq, Eq)]
pub enum Literal {
    Positive(Atom),
    /// `\+ atom`: holds where the atom has no solution.
    Negative(Atom),
}

/// A literal as contracts see it.
pub ghost enum LiteralModel {
    Positive(AtomModel),
    Negative(AtomModel),
}

impl LiteralModel {
    /// The atom of the literal.
    pub open spec fn atom(self) -> AtomModel {
        match self {
            LiteralModel::Positive(a) => a,
            LiteralModel::Negative(a) => a,
        }
    }
}

impl View for Literal {
    type V = LiteralModel;

    open spec fn view(&self) -> LiteralModel {
        match self {
            Literal::Positive(a) => LiteralModel::Positive(a@),
            Literal::Negative(a) => LiteralModel::Negative(a@),
        }
    }
}

impl Clone for Literal {
    fn clone(&self) -> (r: Self)
        ensures
            r@ == self@,
    {
        match self {
            Literal::Positive(a) => Literal::Positive(a.clone()),
            Literal::Negative(a) => Literal::Negative(a.clone()),
        }
    }
}

impl Literal {
    /// A literal that holds where the atom has an answer.
    pub fn positive(atom: Atom) -> (r: Self)
        ensures
            r@ == LiteralModel::Positive(atom@),
    {
        Literal::Positive(atom)
    }

    /// A literal that holds where the atom has no answer.
    pub fn negative(atom: Atom) -> (r: Self)
        ensures
            r@ == LiteralModel::Negative(atom@),
    {
        Literal::Negative(atom)
    }

    /// Whether the literal is not negated.
    pub fn is_positive(&self) -> (r: bool)
        ensures
            r == (self@ is Positive),
    {
        match self {
            Literal::Positive(_) => true,
            _ => false,
        }
    }

    /// Whether the literal is negated.
    pub fn is_negative(&self) -> (r: bool)
        ensures
            r == (self@ is Negative),
    {
        match self {
            Literal::Negative(_) => true,
            _ => false,
        }
    }

    /// The atom of the literal.
    pub fn atom(&self) -> (r: &Atom)
        ensures
            r@ == self@.atom(),
    {
        match self {
            Literal::Positive(a) => a,
            Literal::Negative(a) => a,
        }
    }

    /// The names of the variables of the literal.
    pub fn variables(&self) -> (r: StringHashSet)
        ensures
            forall|c: Seq<char>| r@.contains(c) <==> self@.atom().has_var(text(c)),
    {
        self.atom().variables()
    }
}

/// The models of a sequence of literals.
pub open spec fn literal_models(s: Seq<Literal>) -> Seq<LiteralModel> {
    s.map_values(|l: Literal| l@)
}

/// A rule: `head :- body.`, or a fact `head.` where the body is empty.
#[derive(Debug, PartialEq, Eq)]
pub struct Rule {
    head: Atom,
    body: Vec<Literal>,
}

/// A rule as contracts see it.
pub ghost struct RuleModel {
    pub head: AtomModel,
    pub body: Seq<LiteralModel>,
}

/// Some positive literal among the first `k` has the variable `name`.
pub open spec fn bound_by(body: Seq<LiteralModel>, name: Seq<u8>, k: int) -> bool {
    exists|i: int| 0 <= i < k && (#[trigger] body[i]) is Positive && body[i].atom().has_var(name)
}

/// Some literal among the first `k` has the variable `name`.
pub open spec fn named_in(body: Seq<LiteralModel>, name: Seq<u8>, k: int) -> bool {
    exists|i: int| 0 <= i < k && (#[trigger] body[i]).atom().has_var(name)
}

impl RuleModel {
    /// The rule has no body.
    pub open spec fn is_fact(self) -> bool {
        self.body.len() == 0
    }

    /// The variable occurs in the head or in the body.
    pub open spec fn has_var(self, name: Seq<u8>) -> bool {
        self.head.has_var(name) || named_in(self.body, name, self.body.len() as int)
    }

    /// The variable occurs in a positive literal of the body.
    pub open spec fn binds(self, name: Seq<u8>) -> bool {
        bound_by(self.body, name, self.body.len() as int)
    }

    /// The rule is safe: a fact is ground; every variable of the head of
    /// any other rule occurs in a positive literal of its body.
    pub open spec fn is_safe(self) -> bool {
        if self.is_fact() {
            self.head.is_ground()
        } else {
            forall|i: int|
                0 <= i < self.head.args.len() ==> ((#[trigger] self.head.args[i]) matches TermModel::Var(
                    n,
                ) ==> self.binds(n))
        }
    }
}

impl View for Rule {
    type V = RuleModel;

    closed spec fn view(&self) -> RuleModel {
        RuleModel { head: self.head@, body: literal_models(self.body@) }
    }
}

/// A copy of a list of literals.
pub fn copy_literals(literals: &[Literal]) -> (r: Vec<Literal>)
    ensures
        literal_models(r@) == literal_models(literals@),
{
    let mut out: Vec<Literal> = Vec::new();
    let mut i: usize = 0;
    while i < literals.len()
        invariant
            i <= literals@.len(),
            literal_models(out@) == literal_models(literals@).subrange(0, i as int),
        decreases literals@.len() - i,
    {
        let ghost before = out@;
        let l = literals[i].clone();
        let ghost lm = l@;
        out.push(l);
        i += 1;
        proof {
            assert(literal_models(out@) =~= literal_models(before).push(lm));
            assert(literal_models(literals@)[i - 1] == literals@[i - 1]@);
            assert(literal_models(out@) =~= literal_models(literals@).subrange(0, i as int));
        }
    }
    assert(literal_models(literals@).subrange(0, literals@.len() as int) =~= literal_models(
        literals@,
    ));
    out
}

impl Clone for Rule {
    fn clone(&self) -> (r: Self)
        ensures
            r@ == self@,
    {
        Rule { head: self.head.clone(), body: copy_literals(self.body.as_slice()) }
    }
}

/// Adds every element of `more` to `set`.
fn add_all(set: &mut StringHashSet, atom: &Atom)
    ensures
        forall|c: Seq<char>|
            final(set)@.contains(c) <==> (old(set)@.contains(c) || atom@.has_var(text(c))),
{
    let ghost args = atom@.args;
    let terms = atom.args();
    let mut i: usize = 0;
    while i < terms.len()
        invariant
            i <= terms@.len(),
            args == term_models(terms@),
            forall|c: Seq<char>|
                set@.contains(c) <==> (old(set)@.contains(c) || names_var(args, text(c), i as int)),
        decreases terms@.len() - i,
    {
        assert(args[i as int] == terms@[i as int]@);
        if let Term::Var(name) = &terms[i] {
            set.insert(name.clone());
            proof {
                assert forall|c: Seq<char>| set@.contains(c) <==> (old(set)@.contains(c)
                    || names_var(args, text(c), i + 1)) by {
                    if c == name@ {
                        assert(args[i as int] == TermModel::Var(text(c)));
                    }
                    if names_var(args, text(c), i + 1) {
                        let j = choose|j: int|
                            0 <= j < i + 1 && #[trigger] args[j] == TermModel::Var(text(c));
                        if j < i {
                            assert(names_var(args, text(c), i as int));
                        } else {
                            lemma_text_injective(c, name@);
                        }
                    }
                    if names_var(args, text(c), i as int) {
                        let j = choose|j: int|
                            0 <= j < i && #[trigger] args[j] == TermModel::Var(text(c));
                        assert(0 <= j < i + 1);
                    }
                }
            }
        } else {
            proof {
                assert forall|c: Seq<char>| set@.contains(c) <==> (old(set)@.contains(c)
                    || names_var(args, text(c), i + 1)) by {
                    if names_var(args, text(c), i + 1) {
                        let j = choose|j: int|
                            0 <= j < i + 1 && #[trigger] args[j] == TermModel::Var(text(c));
                        assert(j < i);
                        assert(names_var(args, text(c), i as int));
                    }
                    if names_var(args, text(c), i as int) {
                        let j = choose|j: int|
                            0 <= j < i && #[trigger] args[j] == TermModel::Var(text(c));
                        assert(0 <= j < i + 1);
                    }
                }
            }
        }
        i += 1;
    }
}

impl Rule {
    /// A rule of a head and a body.
    pub fn new(head: Atom, body: Vec<Literal>) -> (r: Self)
        ensures
            r@ == (RuleModel { head: head@, body: literal_models(body@) }),
    {
        Rule { head, body }
    }

    /// A rule without a body.
    pub fn fact(head: Atom) -> (r: Self)
        ensures
            r@ == (RuleModel { head: head@, body: Seq::empty() }),
    {
        let r = Rule { head, body: Vec::new() };
        assert(r@.body =~= Seq::<LiteralModel>::empty());
        r
    }

    /// The head.
    pub fn head(&self) -> (r: &Atom)
        ensures
            r@ == self@.head,
    {
        &self.head
    }

    /// The body, in the order in which it is evaluated.
    pub fn body(&self) -> (r: &[Literal])
        ensures
            literal_models(r@) == self@.body,
    {
        self.body.as_slice()
    }

    /// Whether the body is empty.
    pub fn is_fact(&self) -> (r: bool)
        ensures
            r == self@.is_fact(),
    {
        self.body.len() == 0
    }

    /// The names of the variables of the rule, head and body.
    pub fn all_variables(&self) -> (r: StringHashSet)
        ensures
            forall|c: Seq<char>| r@.contains(c) <==> self@.has_var(text(c)),
    {
        let mut vars = self.head.variables();
        let ghost body = self@.body;
        let mut i: usize = 0;
        assert forall|c: Seq<char>| vars@.contains(c) <==> (self@.head.has_var(text(c))
            || named_in(body, text(c), 0)) by {}
        while i < self.body.len()
            invariant
                i <= self.body@.len(),
                body == literal_models(self.body@),
                forall|c: Seq<char>|
                    vars@.contains(c) <==> (self@.head.has_var(text(c)) || named_in(
                        body,
                        text(c),
                        i as int,
                    )),
            decreases self.body@.len() - i,
        {
            assert(body[i as int] == self.body@[i as int]@);
            add_all(&mut vars, self.body[i].atom());
            proof {
                assert forall|c: Seq<char>| vars@.contains(c) <==> (self@.head.has_var(text(c))
                    || named_in(body, text(c), i + 1)) by {
                    if named_in(body, text(c), i + 1) {
                        let j = choose|j: int|
                            0 <= j < i + 1 && (#[trigger] body[j]).atom().has_var(text(c));
                        if j < i {
                            assert(named_in(body, text(c), i as int));
                        }
                    }
                    if named_in(body, text(c), i as int) {
                        let j = choose|j: int|
                            0 <= j < i && (#[trigger] body[j]).atom().has_var(text(c));
                        assert(0 <= j < i + 1);
                    }
                    if body[i as int].atom().has_var(text(c)) {
                        assert(named_in(body, text(c), i + 1));
                    }
                }
            }
            i += 1;
        }
        vars
    }

    /// The names of the variables that occur in a positive literal of the
    /// body.
    pub fn positive_body_variables(&self) -> (r: StringHashSet)
        ensures
            forall|c: Seq<char>| r@.contains(c) <==> self@.binds(text(c)),
    {
        let mut vars = StringHashSet::new();
        let ghost body = self@.body;
        let mut i: usize = 0;
        assert forall|c: Seq<char>| vars@.contains(c) <==> bound_by(body, text(c), 0) by {}
        while i < self.body.len()
            invariant
                i <= self.body@.len(),
                body == literal_models(self.body@),
                forall|c: Seq<char>| vars@.contains(c) <==> bound_by(body, text(c), i as int),
            decreases self.body@.len() - i,
        {
            assert(body[i as int] == self.body@[i as int]@);
            if let Literal::Positive(a) = &self.body[i] {
                add_all(&mut vars, a);
            }
            proof {
                assert forall|c: Seq<char>| vars@.contains(c) <==> bound_by(
                    body,
                    text(c),
                    i + 1,
                ) by {
                    if bound_by(body, text(c), i + 1) {
                        let j = choose|j: int|
                            0 <= j < i + 1 && (#[trigger] body[j]) is Positive
                                && body[j].atom().has_var(text(c));
                        if j < i {
                            assert(bound_by(body, text(c), i as int));
                        }
                    }
                    if bound_by(body, text(c), i as int) {
                        let j = choose|j: int|
                            0 <= j < i && (#[trigger] body[j]) is Positive && body[j].atom().has_var(
                                text(c),
                            );
                        assert(0 <= j < i + 1);
                    }
                    if body[i as int] is Positive && body[i as int].atom().has_var(text(c)) {
                        assert(bound_by(body, text(c), i + 1));
                    }
                }
            }
            i += 1;
        }
        vars
    }

    /// Whether a positive literal of the body has the variable `name`.
    pub fn binds_variable(&self, name: &str) -> (r: bool)
        ensures
            r == self@.binds(text(name@)),
    {
        let ghost body = self@.body;
        let mut i: usize = 0;
        while i < self.body.len()
            invariant
                i <= self.body@.len(),
                body == literal_models(self.body@),
                !bound_by(body, text(name@), i as int),
            decreases self.body@.len() - i,
        {
            assert(body[i as int] == self.body@[i as int]@);
            if let Literal::Positive(a) = &self.body[i] {
                if a.has_variable(name) {
                    assert(body[i as int] is Positive && body[i as int].atom().has_var(text(name@)));
                    return true;
                }
            }
            proof {
                if bound_by(body, text(name@), i + 1) {
                    let j = choose|j: int|
                        0 <= j < i + 1 && (#[trigger] body[j]) is Positive && body[j].atom().has_var(
                            text(name@),
                        );
                    assert(j < i);
                }
            }
            i += 1;
        }
        false
    }

    /// Whether the rule is safe: a fact must be ground; every variable of
    /// the head of any other rule must occur in a positive literal of the
    /// body.
    pub fn is_safe(&self) -> (r: bool)
        ensures
            r == self@.is_safe(),
    {
        if self.is_fact() {
            return self.head.is_ground();
        }
        let terms = self.head.args();
        let ghost args = self@.head.args;
        let mut i: usize = 0;
        while i < terms.len()
            invariant
                i <= terms@.len(),
                args == term_models(terms@),
                args == self@.head.args,
                forall|j: int|
                    0 <= j < i ==> ((#[trigger] args[j]) matches TermModel::Var(n) ==> self@.binds(
                        n,
                    )),
            decreases terms@.len() - i,
        {
            assert(args[i as int] == terms@[i as int]@);
            if let Term::Var(name) = &terms[i] {
                if !self.binds_variable(name.as_str()) {
                    return false;
                }
            }
            i += 1;
        }
        true
    }
}

/// The models of a sequence of rules.
pub open spec fn rule_models(s: Seq<Rule>) -> Seq<RuleModel> {
    s.map_values(|r: Rule| r@)
}

/// A program: rules in the order in which they were written.
#[derive(Debug)]
pub struct Program {
    rules: Vec<Rule>,
}

impl View for Program {
    type V = Seq<RuleModel>;

    closed spec fn view(&self) -> Seq<RuleModel> {
        rule_models(self.rules@)
    }
}

/// A copy of a list of rules.
pub fn copy_rules(rules: &[Rule]) -> (r: Vec<Rule>)
    ensures
        rule_models(r@) == rule_models(rules@),
{
    let mut out: Vec<Rule> = Vec::new();
    let mut i: usize = 0;
    while i < rules.len()
        invariant
            i <= rules@.len(),
            rule_models(out@) == rule_models(rules@).subrange(0, i as int),
        decreases rules@.len() - i,
    {
        let ghost before = out@;
        let r = rules[i].clone();
        let ghost rm = r@;
        out.push(r);
        i += 1;
        proof {
            assert(rule_models(out@) =~= rule_models(before).push(rm));
            assert(rule_models(rules@)[i - 1] == rules@[i - 1]@);
            assert(rule_models(out@) =~= rule_models(rules@).subrange(0, i as int));
        }
    }
    assert(rule_models(rules@).subrange(0, rules@.len() as int) =~= rule_models(rules@));
    out
}

impl Clone for Program {
    fn clone(&self) -> (r: Self)
        ensures
            r@ == self@,
    {
        Program { rules: copy_rules(self.rules.as_slice()) }
    }
}

/// Some rule among the first `k` defines the predicate.
pub open spec fn defined_in(rules: Seq<RuleModel>, predicate: Seq<u8>, k: int) -> bool {
    exists|i: int| 0 <= i < k && (#[trigger] rules[i]).head.predicate == predicate
}

/// The rule defines the predicate.
pub open spec fn defines(predicate: Seq<u8>) -> spec_fn(RuleModel) -> bool {
    |r: RuleModel| r.head.predicate == predicate
}

/// Every rule is safe.
pub open spec fn all_safe(rules: Seq<RuleModel>) -> bool {
    forall|i: int| 0 <= i < rules.len() ==> (#[trigger] rules[i]).is_safe()
}

impl Program {
    /// A program of rules.
    pub fn new(rules: Vec<Rule>) -> (r: Self)
        ensures
            r@ == rule_models(rules@),
    {
        Program { rules }
    }

    /// The rules, in the order in which they were written.
    pub fn rules(&self) -> (r: &[Rule])
        ensures
            rule_models(r@) == self@,
    {
        self.rules.as_slice()
    }

    /// The predicates that the heads of the rules define.
    pub fn defined_predicates(&self) -> (r: StringHashSet)
        ensures
            forall|c: Seq<char>| r@.contains(c) <==> defined_in(self@, text(c), self@.len() as int),
    {
        let mut out = StringHashSet::new();
        let ghost rules = self@;
        let mut i: usize = 0;
        assert forall|c: Seq<char>| out@.contains(c) <==> defined_in(rules, text(c), 0) by {}
        while i < self.rules.len()
            invariant
                i <= self.rules@.len(),
                rules == rule_models(self.rules@),
                forall|c: Seq<char>| out@.contains(c) <==> defined_in(rules, text(c), i as int),
            decreases self.rules@.len() - i,
        {
            let ghost before = out@;
            assert(rules[i as int] == self.rules@[i as int]@);
            let p = self.rules[i].head().predicate();
            out.insert(p.to_owned());
            proof {
                assert forall|c: Seq<char>| out@.contains(c) <==> defined_in(
                    rules,
                    text(c),
                    i + 1,
                ) by {
                    if c == p@ {
                        assert(rules[i as int].head.predicate == text(c));
                    }
                    if defined_in(rules, text(c), i + 1) {
                        let j = choose|j: int|
                            0 <= j < i + 1 && (#[trigger] rules[j]).head.predicate == text(c);
                        if j < i {
                            assert(defined_in(rules, text(c), i as int));
                        } else {
                            lemma_text_injective(c, p@);
                        }
                    }
                    if before.contains(c) {
                        let j = choose|j: int|
                            0 <= j < i && (#[trigger] rules[j]).head.predicate == text(c);
                        assert(0 <= j < i + 1);
                    }
                }
            }
            i += 1;
        }
        out
    }

    /// The rules that define a predicate, in order.
    pub fn rules_for(&self, predicate: &str) -> (r: Vec<&Rule>)
        ensures
            r@.map_values(|x: &Rule| x@) == self@.filter(defines(text(predicate@))),
    {
        let mut out: Vec<&Rule> = Vec::new();
        let ghost rules = self@;
        let ghost f = defines(text(predicate@));
        let mut i: usize = 0;
        proof {
            crate::graph::model::lemma_filter_empty(f);
            assert(rules.subrange(0, 0) =~= Seq::<RuleModel>::empty());
            assert(out@.map_values(|x: &Rule| x@) =~= rules.subrange(0, 0).filter(f));
        }
        while i < self.rules.len()
            invariant
                i <= self.rules@.len(),
                rules == rule_models(self.rules@),
                f == defines(text(predicate@)),
                out@.map_values(|x: &Rule| x@) == rules.subrange(0, i as int).filter(f),
            decreases self.rules@.len() - i,
        {
            assert(rules[i as int] == self.rules@[i as int]@);
            proof {
                crate::graph::model::lemma_filter_step(rules, i as int, f);
            }
            let rule = &self.rules[i];
            if str_eq(rule.head().predicate(), predicate) {
                let ghost before = out@;
                out.push(rule);
                assert(out@.map_values(|x: &Rule| x@) =~= before.map_values(|x: &Rule| x@).push(
                    rule@,
                ));
            }
            i += 1;
        }
        assert(rules.subrange(0, self.rules@.len() as int) =~= rules);
        out
    }

    /// Whether every rule is safe.
    pub fn is_safe(&self) -> (r: bool)
        ensures
            r == all_safe(self@),
    {
        let ghost rules = self@;
        let mut i: usize = 0;
        while i < self.rules.len()
            invariant
                i <= self.rules@.len(),
                rules == rule_models(self.rules@),
                forall|j: int| 0 <= j < i ==> (#[trigger] rules[j]).is_safe(),
            decreases self.rules@.len() - i,
        {
            assert(rules[i as int] == self.rules@[i as int]@);
            if !self.rules[i].is_safe() {
                return false;
            }
            i += 1;
        }
        true
    }
}

} // verus!

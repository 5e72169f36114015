//! The parser of the rule language: recursive descent over the bytes of
//! the input. What it gives is what the grammar says, byte for byte.

use vstd::prelude::*;
use vstd::string::*;
use vstd::utf8::*;

use crate::datalog::grammar::{
    ident_end, is_alnum, is_ident_part, lemma_skip_bounds, lemma_skip_twice, msg_expected, quote_at,
    skip, skip_ws, space_len, two_at, whole, Parsed,
};
use crate::datalog::grammar;
use crate::datalog::types::{
    literal_models, rule_models, term_models, Atom, Literal, Program, Rule, RuleModel, Term,
    TermModel,
};
use crate::error::{join2, push_text};
use crate::text::{
    decimal, id_to_decimal, lead_width, lemma_ascii_boundaries, lemma_end_boundary,
    lemma_next_boundary, substr, text,
};

verus! {

/// Where the input is no text of the rule language, and why.
#[derive(Debug, PartialEq, Eq)]
pub struct ParseError {
    pub message: String,
    /// The byte offset into the input.
    pub position: usize,
}

impl Clone for ParseError {
    fn clone(&self) -> (r: Self)
        ensures
            r == *self,
    {
        ParseError { message: self.message.clone(), position: self.position }
    }
}

impl ParseError {
    /// An error with a message at a byte position of the input.
    pub fn new(message: &str, position: usize) -> (r: Self)
        ensures
            r.position == position,
            text(r.message@) == text(message@),
    {
        ParseError { message: message.to_owned(), position }
    }

    /// The error as a line of text: `Parse error at 12: expected '.'`.
    pub fn to_string(&self) -> (r: String)
        ensures
            text(r@) == text("Parse error at "@) + decimal(self.position as nat) + text(": "@)
                + text(self.message@),
    {
        let d = id_to_decimal(self.position as u128);
        let mut out = join2("Parse error at ", d.as_str());
        push_text(&mut out, ": ");
        push_text(&mut out, self.message.as_str());
        out
    }
}

/// The outcome of a parsing function is what the grammar gives: the same
/// value behind the same position, or the same error at the same place.
pub open spec fn parsed_as<T: View>(r: Result<T, ParseError>, pos: usize, p: Parsed<T::V>) -> bool {
    match p {
        Parsed::Done { value, pos: q } => r matches Ok(v) && v@ == value && pos == q,
        Parsed::Failed { pos: q, message } => r matches Err(e) && e.position == q && text(
            e.message@,
        ) == message,
    }
}

/// The outcome of a parsing function is the text that the grammar gives.
pub open spec fn parsed_text(r: Result<String, ParseError>, pos: usize, p: Parsed<Seq<u8>>) -> bool {
    match p {
        Parsed::Done { value, pos: q } => r matches Ok(v) && text(v@) == value && pos == q,
        Parsed::Failed { pos: q, message } => r matches Err(e) && e.position == q && text(
            e.message@,
        ) == message,
    }
}

/// The outcome of a public parsing function is what the grammar gives for
/// the whole input.
pub open spec fn outcome<T: View>(r: Result<T, ParseError>, p: Parsed<T::V>) -> bool {
    match p {
        Parsed::Done { value, pos } => r matches Ok(v) && v@ == value,
        Parsed::Failed { pos, message } => r matches Err(e) && e.position == pos && text(
            e.message@,
        ) == message,
    }
}

/// The error for a token that is missing.
fn expected(token: &str, position: usize) -> (e: ParseError)
    ensures
        e.position == position,
        text(e.message@) == msg_expected(text(token@)),
{
    let mut m = join2("expected '", token);
    push_text(&mut m, "'");
    ParseError { message: m, position }
}

/// How many bytes the white space character has that begins at `pos`.
fn space_width(bytes: &[u8], pos: usize) -> (r: usize)
    requires
        pos < bytes@.len(),
    ensures
        r == space_len(bytes@, pos as int),
        r > 0 ==> r == lead_width(bytes@[pos as int]),
{
    let n: usize = bytes.len();
    let a: u8 = bytes[pos];
    if a == 32 || (9 <= a && a <= 13) {
        1
    } else if a == 0xc2 {
        if n - pos > 1 && (bytes[pos + 1] == 0x85 || bytes[pos + 1] == 0xa0) {
            2
        } else {
            0
        }
    } else if n - pos > 2 {
        let b: u8 = bytes[pos + 1];
        let c: u8 = bytes[pos + 2];
        let wide = (a == 0xe1 && b == 0x9a && c == 0x80) || (a == 0xe2 && b == 0x80 && ((0x80 <= c
            && c <= 0x8a) || c == 0xa8 || c == 0xa9 || c == 0xaf)) || (a == 0xe2 && b == 0x81 && c
            == 0x9f) || (a == 0xe3 && b == 0x80 && c == 0x80);
        if wide {
            3
        } else {
            0
        }
    } else {
        0
    }
}

/// The state of the parser: the input and the position in it.
struct Parser<'a> {
    input: &'a str,
    bytes: &'a [u8],
    pos: usize,
}

impl<'a> Parser<'a> {
    spec fn wf(&self) -> bool {
        &&& self.bytes@ == text(self.input@)
        &&& self.pos <= self.bytes@.len()
        &&& self.bytes@.len() <= usize::MAX
        &&& is_char_boundary(self.bytes@, self.pos as int)
    }

    spec fn same_input(&self, other: &Self) -> bool {
        self.input == other.input && self.bytes == other.bytes
    }

    fn new(input: &'a str) -> (r: Self)
        ensures
            r.wf(),
            r.pos == 0,
            r.bytes@ == text(input@),
    {
        proof {
            encode_utf8_valid_utf8(input@);
            lemma_end_boundary(text(input@));
        }
        let bytes = input.as_bytes();
        let n: usize = bytes.len();
        Parser { input, bytes, pos: 0 }
    }

    fn skip_whitespace(&mut self)
        requires
            old(self).wf(),
        ensures
            final(self).wf(),
            final(self).same_input(old(self)),
            final(self).pos == skip_ws(old(self).bytes@, old(self).pos as int),
            old(self).pos <= final(self).pos,
            skip_ws(old(self).bytes@, final(self).pos as int) == final(self).pos,
    {
        let n: usize = self.bytes.len();
        let mut in_comment = false;
        let ghost start = self.pos as int;
        proof {
            encode_utf8_valid_utf8(self.input@);
            lemma_skip_twice(self.bytes@, start, false);
            lemma_skip_bounds(self.bytes@, start, false);
        }
        loop
            invariant
                self.same_input(old(self)),
                self.bytes@ == text(self.input@),
                valid_utf8(self.bytes@),
                n == self.bytes@.len(),
                start <= self.pos <= n,
                is_char_boundary(self.bytes@, self.pos as int),
                skip(self.bytes@, self.pos as int, in_comment) == skip_ws(self.bytes@, start),
            ensures
                self.same_input(old(self)),
                self.bytes@ == text(self.input@),
                start <= self.pos <= n,
                is_char_boundary(self.bytes@, self.pos as int),
                self.pos == skip_ws(self.bytes@, start),
            decreases n - self.pos,
        {
            if self.pos >= n {
                break ;
            }
            let b: u8 = self.bytes[self.pos];
            if in_comment {
                proof {
                    if b == 10 {
                        lemma_ascii_boundaries(self.bytes@, self.pos as int);
                    }
                }
                if b == 10 {
                    in_comment = false;
                    self.pos += 1;
                } else {
                    // the comment goes on; where it ends a character begins
                    let mut q: usize = self.pos + 1;
                    while q < n && self.bytes[q] != 10
                        invariant
                            self.pos < q <= n,
                            n == self.bytes@.len(),
                            skip(self.bytes@, q as int, true) == skip_ws(self.bytes@, start),
                        decreases n - q,
                    {
                        q += 1;
                    }
                    proof {
                        if q < n {
                            lemma_ascii_boundaries(self.bytes@, q as int);
                        } else {
                            lemma_end_boundary(self.bytes@);
                        }
                    }
                    self.pos = q;
                }
            } else if space_width(self.bytes, self.pos) > 0 {
                let w: usize = space_width(self.bytes, self.pos);
                proof {
                    lemma_next_boundary(self.bytes@, self.pos as int);
                }
                self.pos += w;
            } else if b == 37 {
                proof {
                    lemma_ascii_boundaries(self.bytes@, self.pos as int);
                }
                in_comment = true;
                self.pos += 1;
            } else {
                break ;
            }
        }
    }

    /// The byte of the next token.
    fn peek(&mut self) -> (r: Option<u8>)
        requires
            old(self).wf(),
        ensures
            final(self).wf(),
            final(self).same_input(old(self)),
            final(self).pos == skip_ws(old(self).bytes@, old(self).pos as int),
            old(self).pos <= final(self).pos,
            skip_ws(old(self).bytes@, final(self).pos as int) == final(self).pos,
            r == if final(self).pos < final(self).bytes@.len() {
                Some(final(self).bytes@[final(self).pos as int])
            } else {
                None
            },
    {
        self.skip_whitespace();
        if self.pos < self.bytes.len() {
            Some(self.bytes[self.pos])
        } else {
            None
        }
    }

    /// Whether the next token begins with `b`. The position is then that
    /// of the next token.
    fn next_is(&mut self, b: u8) -> (r: bool)
        requires
            old(self).wf(),
            b < 0x80,
        ensures
            final(self).wf(),
            final(self).same_input(old(self)),
            final(self).pos == skip_ws(old(self).bytes@, old(self).pos as int),
            old(self).pos <= final(self).pos,
            skip_ws(old(self).bytes@, final(self).pos as int) == final(self).pos,
            r == (final(self).pos < final(self).bytes@.len()
                && final(self).bytes@[final(self).pos as int] == b),
            r ==> final(self).pos + 1 <= usize::MAX && is_char_boundary(
                final(self).bytes@,
                final(self).pos + 1,
            ),
    {
        self.skip_whitespace();
        if self.pos < self.bytes.len() && self.bytes[self.pos] == b {
            proof {
                encode_utf8_valid_utf8(self.input@);
                lemma_ascii_boundaries(self.bytes@, self.pos as int);
            }
            true
        } else {
            false
        }
    }

    /// Whether `a` and then `b` stand at the position.
    fn at_two(&self, a: u8, b: u8) -> (r: bool)
        requires
            self.wf(),
        ensures
            r == two_at(self.bytes@, self.pos as int, a, b),
    {
        let n: usize = self.bytes.len();
        self.pos < n && n - self.pos >= 2 && self.bytes[self.pos] == a && self.bytes[self.pos + 1]
            == b
    }

    fn parse_identifier(&mut self) -> (r: Result<String, ParseError>)
        requires
            old(self).wf(),
        ensures
            final(self).same_input(old(self)),
            parsed_text(r, final(self).pos, grammar::parse_identifier(old(self).bytes@, old(self).pos as int)),
            r.is_ok() ==> final(self).wf() && final(self).pos > old(self).pos,
    {
        self.skip_whitespace();
        let start: usize = self.pos;
        let n: usize = self.bytes.len();
        proof {
            encode_utf8_valid_utf8(self.input@);
        }
        if !(start < n) {
            return Err(ParseError::new("expected identifier", start));
        }
        let first: u8 = self.bytes[start];
        if !((65 <= first && first <= 90) || (97 <= first && first <= 122) || first == 95) {
            return Err(ParseError::new("expected identifier", start));
        }
        proof {
            lemma_ascii_boundaries(self.bytes@, start as int);
        }
        self.pos += 1;
        while self.pos < n && is_part(self.bytes[self.pos])
            invariant
                self.same_input(old(self)),
                self.bytes@ == text(self.input@),
                valid_utf8(self.bytes@),
                n == self.bytes@.len(),
                start < self.pos <= n,
                is_char_boundary(self.bytes@, self.pos as int),
                ident_end(self.bytes@, self.pos as int) == ident_end(self.bytes@, start + 1),
            decreases n - self.pos,
        {
            proof {
                lemma_ascii_boundaries(self.bytes@, self.pos as int);
            }
            self.pos += 1;
        }
        Ok(substr(self.input, start, self.pos).to_owned())
    }

    fn parse_string(&mut self) -> (r: Result<String, ParseError>)
        requires
            old(self).wf(),
        ensures
            final(self).same_input(old(self)),
            parsed_text(r, final(self).pos, grammar::parse_string(old(self).bytes@, old(self).pos as int)),
            r.is_ok() ==> final(self).wf() && final(self).pos > old(self).pos,
    {
        self.skip_whitespace();
        let n: usize = self.bytes.len();
        proof {
            encode_utf8_valid_utf8(self.input@);
        }
        if !(self.pos < n && self.bytes[self.pos] == 34) {
            return Err(expected("\"", self.pos));
        }
        proof {
            lemma_ascii_boundaries(self.bytes@, self.pos as int);
        }
        let start: usize = self.pos + 1;
        let mut e: usize = start;
        while e < n && self.bytes[e] != 34
            invariant
                start <= e <= n,
                n == self.bytes@.len(),
                quote_at(self.bytes@, e as int) == quote_at(self.bytes@, start as int),
            decreases n - e,
        {
            e += 1;
        }
        if e >= n {
            return Err(ParseError::new("unterminated string", start));
        }
        proof {
            lemma_ascii_boundaries(self.bytes@, e as int);
        }
        let value = substr(self.input, start, e).to_owned();
        self.pos = e + 1;
        Ok(value)
    }

    fn parse_term(&mut self) -> (r: Result<Term, ParseError>)
        requires
            old(self).wf(),
        ensures
            final(self).same_input(old(self)),
            parsed_as(r, final(self).pos, grammar::parse_term(old(self).bytes@, old(self).pos as int)),
            r.is_ok() ==> final(self).wf() && final(self).pos > old(self).pos,
    {
        reveal(grammar::parse_term);
        let c: u8 = match self.peek() {
            Some(c) => c,
            None => {
                return Err(ParseError::new("unexpected end", self.pos));
            },
        };
        let n: usize = self.bytes.len();
        let p: usize = self.pos;
        proof {
            encode_utf8_valid_utf8(self.input@);
        }
        if c == 95 && !(p + 1 < n && is_alphanumeric(self.bytes[p + 1])) {
            proof {
                lemma_ascii_boundaries(self.bytes@, p as int);
            }
            self.pos += 1;
            Ok(Term::Wildcard)
        } else if c == 34 {
            match self.parse_string() {
                Ok(s) => Ok(Term::Const(s)),
                Err(e) => Err(e),
            }
        } else if (65 <= c && c <= 90) || c == 95 {
            match self.parse_identifier() {
                Ok(s) => Ok(Term::Var(s)),
                Err(e) => Err(e),
            }
        } else if 97 <= c && c <= 122 {
            match self.parse_identifier() {
                Ok(s) => Ok(Term::Const(s)),
                Err(e) => Err(e),
            }
        } else {
            Err(ParseError::new("unexpected character", p))
        }
    }

    /// The terms that follow the first one, each behind a `,`.
    fn parse_more_terms(&mut self, args: &mut Vec<Term>) -> (r: Result<(), ParseError>)
        requires
            old(self).wf(),
        ensures
            final(self).same_input(old(self)),
            match grammar::parse_more_terms(
                old(self).bytes@,
                old(self).pos as int,
                term_models(old(args)@),
            ) {
                Parsed::Done { value, pos } => r.is_ok() && term_models(final(args)@) == value
                    && final(self).pos == pos,
                Parsed::Failed { pos, message } => r matches Err(e) && e.position == pos && text(
                    e.message@,
                ) == message,
            },
            r.is_ok() ==> final(self).wf() && final(self).pos >= old(self).pos && skip_ws(
                old(self).bytes@,
                final(self).pos as int,
            ) == final(self).pos,
    {
        let ghost input = self.bytes@;
        let ghost goal = grammar::parse_more_terms(input, self.pos as int, term_models(args@));
        loop
            invariant
                self.wf(),
                self.same_input(old(self)),
                input == self.bytes@,
                self.pos >= old(self).pos,
                goal == grammar::parse_more_terms(
                    old(self).bytes@,
                    old(self).pos as int,
                    term_models(old(args)@),
                ),
                grammar::parse_more_terms(input, self.pos as int, term_models(args@)) == goal,
            ensures
                self.wf(),
                self.same_input(old(self)),
                input == self.bytes@,
                self.pos >= old(self).pos,
                goal == (Parsed::Done { value: term_models(args@), pos: self.pos as int }),
                skip_ws(input, self.pos as int) == self.pos,
            decreases input.len() - self.pos,
        {
            let ghost before = self.pos as int;
            let ghost acc = term_models(args@);
            assert(goal == grammar::parse_more_terms(input, before, acc));
            if !self.next_is(44) {
                break ;
            }
            self.pos += 1;
            let t = match self.parse_term() {
                Ok(t) => t,
                Err(e) => {
                    return Err(e);
                },
            };
            let ghost tm = t@;
            args.push(t);
            assert(term_models(args@) =~= acc.push(tm));
        }
        Ok(())
    }

    /// The arguments of an atom, behind its `(`, and the `)`.
    fn parse_arguments(&mut self) -> (r: Result<Vec<Term>, ParseError>)
        requires
            old(self).wf(),
        ensures
            final(self).same_input(old(self)),
            match grammar::parse_arguments(old(self).bytes@, old(self).pos as int) {
                Parsed::Done { value, pos } => r matches Ok(v) && term_models(v@) == value
                    && final(self).pos == pos,
                Parsed::Failed { pos, message } => r matches Err(e) && e.position == pos && text(
                    e.message@,
                ) == message,
            },
            r.is_ok() ==> final(self).wf() && final(self).pos > old(self).pos,
    {
        reveal(grammar::parse_arguments);
        let mut args: Vec<Term> = Vec::new();
        if self.next_is(41) {
            self.pos += 1;
            assert(term_models(args@) =~= Seq::<TermModel>::empty());
            return Ok(args);
        }
        let first = match self.parse_term() {
            Ok(t) => t,
            Err(e) => {
                return Err(e);
            },
        };
        args.push(first);
        assert(term_models(args@) =~= seq![first@]);
        match self.parse_more_terms(&mut args) {
            Ok(_) => {},
            Err(e) => {
                return Err(e);
            },
        }
        if self.pos < self.bytes.len() && self.bytes[self.pos] == 41 {
            proof {
                encode_utf8_valid_utf8(self.input@);
                lemma_ascii_boundaries(self.bytes@, self.pos as int);
            }
            self.pos += 1;
            Ok(args)
        } else {
            Err(expected(")", self.pos))
        }
    }

    fn parse_atom(&mut self) -> (r: Result<Atom, ParseError>)
        requires
            old(self).wf(),
        ensures
            final(self).same_input(old(self)),
            parsed_as(r, final(self).pos, grammar::parse_atom(old(self).bytes@, old(self).pos as int)),
            r.is_ok() ==> final(self).wf() && final(self).pos > old(self).pos,
    {
        reveal(grammar::parse_atom);
        let predicate = match self.parse_identifier() {
            Ok(s) => s,
            Err(e) => {
                return Err(e);
            },
        };
        if !self.next_is(40) {
            let a = Atom::new(predicate.as_str(), Vec::new());
            assert(a@.args =~= Seq::<TermModel>::empty());
            return Ok(a);
        }
        self.pos += 1;
        match self.parse_arguments() {
            Ok(args) => Ok(Atom::new(predicate.as_str(), args)),
            Err(e) => Err(e),
        }
    }

    fn parse_literal(&mut self) -> (r: Result<Literal, ParseError>)
        requires
            old(self).wf(),
        ensures
            final(self).same_input(old(self)),
            parsed_as(r, final(self).pos, grammar::parse_literal(old(self).bytes@, old(self).pos as int)),
            r.is_ok() ==> final(self).wf() && final(self).pos > old(self).pos,
    {
        reveal(grammar::parse_literal);
        self.skip_whitespace();
        proof {
            encode_utf8_valid_utf8(self.input@);
        }
        if self.at_two(92, 43) {
            proof {
                lemma_ascii_boundaries(self.bytes@, self.pos + 1);
            }
            self.pos += 2;
            match self.parse_atom() {
                Ok(a) => Ok(Literal::Negative(a)),
                Err(e) => Err(e),
            }
        } else {
            match self.parse_atom() {
                Ok(a) => Ok(Literal::Positive(a)),
                Err(e) => Err(e),
            }
        }
    }

    /// The literals that follow the first one, each behind a `,`.
    fn parse_more_literals(&mut self, body: &mut Vec<Literal>) -> (r: Result<(), ParseError>)
        requires
            old(self).wf(),
        ensures
            final(self).same_input(old(self)),
            match grammar::parse_more_literals(
                old(self).bytes@,
                old(self).pos as int,
                literal_models(old(body)@),
            ) {
                Parsed::Done { value, pos } => r.is_ok() && literal_models(final(body)@) == value
                    && final(self).pos == pos,
                Parsed::Failed { pos, message } => r matches Err(e) && e.position == pos && text(
                    e.message@,
                ) == message,
            },
            r.is_ok() ==> final(self).wf() && final(self).pos >= old(self).pos,
    {
        let ghost input = self.bytes@;
        let ghost goal = grammar::parse_more_literals(input, self.pos as int, literal_models(body@));
        loop
            invariant
                self.wf(),
                self.same_input(old(self)),
                input == self.bytes@,
                self.pos >= old(self).pos,
                goal == grammar::parse_more_literals(
                    old(self).bytes@,
                    old(self).pos as int,
                    literal_models(old(body)@),
                ),
                grammar::parse_more_literals(input, self.pos as int, literal_models(body@)) == goal,
            ensures
                self.wf(),
                self.same_input(old(self)),
                input == self.bytes@,
                self.pos >= old(self).pos,
                goal == (Parsed::Done { value: literal_models(body@), pos: self.pos as int }),
            decreases input.len() - self.pos,
        {
            let ghost before = self.pos as int;
            let ghost acc = literal_models(body@);
            assert(goal == grammar::parse_more_literals(input, before, acc));
            if !self.next_is(44) {
                break ;
            }
            self.pos += 1;
            let l = match self.parse_literal() {
                Ok(l) => l,
                Err(e) => {
                    return Err(e);
                },
            };
            let ghost lm = l@;
            body.push(l);
            assert(literal_models(body@) =~= acc.push(lm));
        }
        Ok(())
    }

    /// The `.` that ends a rule.
    fn parse_dot(&mut self) -> (r: Result<(), ParseError>)
        requires
            old(self).wf(),
        ensures
            final(self).same_input(old(self)),
            match grammar::parse_dot(old(self).bytes@, old(self).pos as int) {
                Parsed::Done { value, pos } => r.is_ok() && final(self).pos == pos,
                Parsed::Failed { pos, message } => r matches Err(e) && e.position == pos && text(
                    e.message@,
                ) == message,
            },
            r.is_ok() ==> final(self).wf() && final(self).pos > old(self).pos,
    {
        if self.next_is(46) {
            self.pos += 1;
            Ok(())
        } else {
            Err(expected(".", self.pos))
        }
    }

    fn parse_rule(&mut self) -> (r: Result<Rule, ParseError>)
        requires
            old(self).wf(),
        ensures
            final(self).same_input(old(self)),
            parsed_as(r, final(self).pos, grammar::parse_rule(old(self).bytes@, old(self).pos as int)),
            r.is_ok() ==> final(self).wf() && final(self).pos > old(self).pos,
    {
        reveal(grammar::parse_rule);
        let head = match self.parse_atom() {
            Ok(a) => a,
            Err(e) => {
                return Err(e);
            },
        };
        self.skip_whitespace();
        proof {
            encode_utf8_valid_utf8(self.input@);
        }
        if self.at_two(58, 45) {
            proof {
                lemma_ascii_boundaries(self.bytes@, self.pos + 1);
            }
            self.pos += 2;
            let mut body: Vec<Literal> = Vec::new();
            let first = match self.parse_literal() {
                Ok(l) => l,
                Err(e) => {
                    return Err(e);
                },
            };
            body.push(first);
            assert(literal_models(body@) =~= seq![first@]);
            match self.parse_more_literals(&mut body) {
                Ok(_) => {},
                Err(e) => {
                    return Err(e);
                },
            }
            match self.parse_dot() {
                Ok(_) => Ok(Rule::new(head, body)),
                Err(e) => Err(e),
            }
        } else {
            match self.parse_dot() {
                Ok(_) => {
                    let r = Rule::fact(head);
                    Ok(r)
                },
                Err(e) => Err(e),
            }
        }
    }

    fn parse_program(&mut self) -> (r: Result<Program, ParseError>)
        requires
            old(self).wf(),
        ensures
            final(self).same_input(old(self)),
            parsed_as(
                r,
                final(self).pos,
                grammar::parse_rules(old(self).bytes@, old(self).pos as int, Seq::empty()),
            ),
    {
        let ghost input = self.bytes@;
        let mut rules: Vec<Rule> = Vec::new();
        assert(rule_models(rules@) =~= Seq::<RuleModel>::empty());
        let ghost goal = grammar::parse_rules(input, self.pos as int, Seq::empty());
        loop
            invariant
                self.wf(),
                self.same_input(old(self)),
                input == self.bytes@,
                goal == grammar::parse_rules(old(self).bytes@, old(self).pos as int, Seq::empty()),
                grammar::parse_rules(input, self.pos as int, rule_models(rules@)) == goal,
            ensures
                self.same_input(old(self)),
                input == self.bytes@,
                goal == (Parsed::Done { value: rule_models(rules@), pos: self.pos as int }),
            decreases input.len() - self.pos,
        {
            let ghost before = self.pos as int;
            let ghost acc = rule_models(rules@);
            assert(goal == grammar::parse_rules(input, before, acc));
            self.skip_whitespace();
            if self.pos >= self.bytes.len() {
                break ;
            }
            let rule = match self.parse_rule() {
                Ok(r) => r,
                Err(e) => {
                    return Err(e);
                },
            };
            let ghost rm = rule@;
            rules.push(rule);
            assert(rule_models(rules@) =~= acc.push(rm));
        }
        Ok(Program::new(rules))
    }

    /// Nothing but white space and comments is left.
    fn finish<T: View>(&mut self, r: Result<T, ParseError>, Ghost(p): Ghost<Parsed<T::V>>) -> (out:
        Result<T, ParseError>)
        requires
            old(self).wf() || r.is_err(),
            parsed_as(r, old(self).pos, p),
        ensures
            outcome(out, whole(old(self).bytes@, p)),
    {
        match r {
            Ok(v) => {
                self.skip_whitespace();
                if self.pos >= self.bytes.len() {
                    Ok(v)
                } else {
                    Err(ParseError::new("unexpected trailing input", self.pos))
                }
            },
            Err(e) => Err(e),
        }
    }
}

/// Whether a byte can go on an identifier.
fn is_part(b: u8) -> (r: bool)
    ensures
        r == is_ident_part(b),
{
    (65 <= b && b <= 90) || (97 <= b && b <= 122) || (48 <= b && b <= 57) || b == 95 || b == 58
}

/// Whether a byte is a letter or a digit.
fn is_alphanumeric(b: u8) -> (r: bool)
    ensures
        r == is_alnum(b),
{
    (65 <= b && b <= 90) || (97 <= b && b <= 122) || (48 <= b && b <= 57)
}

/// Parses one term. Nothing but white space and comments may follow it.
pub fn parse_term(input: &str) -> (r: Result<Term, ParseError>)
    ensures
        outcome(r, whole(text(input@), grammar::parse_term(text(input@), 0))),
{
    let mut parser = Parser::new(input);
    let r = parser.parse_term();
    parser.finish(r, Ghost(grammar::parse_term(text(input@), 0)))
}

/// Parses one atom. Nothing but white space and comments may follow it.
pub fn parse_atom(input: &str) -> (r: Result<Atom, ParseError>)
    ensures
        outcome(r, whole(text(input@), grammar::parse_atom(text(input@), 0))),
{
    let mut parser = Parser::new(input);
    let r = parser.parse_atom();
    parser.finish(r, Ghost(grammar::parse_atom(text(input@), 0)))
}

/// Parses one literal. Nothing but white space and comments may follow
/// it.
pub fn parse_literal(input: &str) -> (r: Result<Literal, ParseError>)
    ensures
        outcome(r, whole(text(input@), grammar::parse_literal(text(input@), 0))),
{
    let mut parser = Parser::new(input);
    let r = parser.parse_literal();
    parser.finish(r, Ghost(grammar::parse_literal(text(input@), 0)))
}

/// Parses one rule. Nothing but white space and comments may follow it.
pub fn parse_rule(input: &str) -> (r: Result<Rule, ParseError>)
    ensures
        outcome(r, whole(text(input@), grammar::parse_rule(text(input@), 0))),
{
    let mut parser = Parser::new(input);
    let r = parser.parse_rule();
    parser.finish(r, Ghost(grammar::parse_rule(text(input@), 0)))
}

/// Parses a program: rules up to the end of the input.
pub fn parse_program(input: &str) -> (r: Result<Program, ParseError>)
    ensures
        outcome(r, grammar::parse_rules(text(input@), 0, Seq::empty())),
{
    let mut parser = Parser::new(input);
    parser.parse_program()
}

} // verus!

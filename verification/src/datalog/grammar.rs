//! The grammar of the rule language, as functions on bytes.
//!
//! ```text
//! program  = { rule }
//! rule     = atom [ ":-" literal { "," literal } ] "."
//! literal  = [ "\+" ] atom
//! atom     = identifier [ "(" [ term { "," term } ] ")" ]
//! term     = "_" | string | variable | constant
//! variable = identifier that begins with an upper-case letter or with "_"
//! constant = string | identifier that begins with a lower-case letter
//! string   = '"' { any byte but '"' } '"'
//! ```
//!
//! An identifier is a letter or `_` followed by letters, digits, `_` and
//! `:`. White space and comments (`%` to the end of the line) may stand
//! between any two tokens.

use vstd::prelude::*;

use crate::datalog::types::{AtomModel, LiteralModel, RuleModel, TermModel};
use crate::text::text;

verus! {

/// What parsing from a position gives: a value and the position behind it,
/// or the position of an error and its message.
pub ghost enum Parsed<T> {
    Done { value: T, pos: int },
    Failed { pos: int, message: Seq<u8> },
}

/// The three bytes are a white space character of three bytes: U+1680,
/// U+2000 to U+200A, U+2028, U+2029, U+202F, U+205F or U+3000.
pub open spec fn is_wide_space(a: u8, b: u8, c: u8) -> bool {
    ||| (a == 0xe1 && b == 0x9a && c == 0x80)
    ||| (a == 0xe2 && b == 0x80 && (0x80 <= c <= 0x8a || c == 0xa8 || c == 0xa9 || c == 0xaf))
    ||| (a == 0xe2 && b == 0x81 && c == 0x9f)
    ||| (a == 0xe3 && b == 0x80 && c == 0x80)
}

/// How many bytes the white space character has that begins at `pos`; 0
/// where none begins there. White space is what Unicode calls so: the
/// space, U+0009 to U+000D, U+0085, U+00A0 and the characters of three
/// bytes above.
pub open spec fn space_len(input: Seq<u8>, pos: int) -> int {
    if pos < 0 || pos >= input.len() {
        0
    } else if input[pos] == 32 || (9 <= input[pos] <= 13) {
        1
    } else if input[pos] == 0xc2 && pos + 1 < input.len() && (input[pos + 1] == 0x85 || input[pos
        + 1] == 0xa0) {
        2
    } else if pos + 2 < input.len() && is_wide_space(input[pos], input[pos + 1], input[pos + 2]) {
        3
    } else {
        0
    }
}

pub open spec fn is_upper(b: u8) -> bool {
    65 <= b <= 90
}

pub open spec fn is_lower(b: u8) -> bool {
    97 <= b <= 122
}

pub open spec fn is_digit(b: u8) -> bool {
    48 <= b <= 57
}

pub open spec fn is_alnum(b: u8) -> bool {
    is_upper(b) || is_lower(b) || is_digit(b)
}

/// A byte that can begin an identifier: a letter or `_`.
pub open spec fn is_ident_start(b: u8) -> bool {
    is_upper(b) || is_lower(b) || b == 95
}

/// A byte that can go on an identifier: a letter, a digit, `_` or `:`.
pub open spec fn is_ident_part(b: u8) -> bool {
    is_alnum(b) || b == 95 || b == 58
}

/// The position behind the white space and the comments that begin at
/// `pos`. In a comment everything up to and including the end of the line
/// is passed over.
pub open spec fn skip(input: Seq<u8>, pos: int, in_comment: bool) -> int
    decreases input.len() - pos,
{
    if pos < 0 || pos >= input.len() {
        pos
    } else if in_comment {
        skip(input, pos + 1, input[pos] != 10)
    } else if space_len(input, pos) > 0 {
        skip(input, pos + space_len(input, pos), false)
    } else if input[pos] == 37 {
        skip(input, pos + 1, true)
    } else {
        pos
    }
}

/// The position of the next token at or behind `pos`.
pub open spec fn skip_ws(input: Seq<u8>, pos: int) -> int {
    skip(input, pos, false)
}

/// Where the identifier bytes that begin at `pos` end.
pub open spec fn ident_end(input: Seq<u8>, pos: int) -> int
    decreases input.len() - pos,
{
    if 0 <= pos < input.len() && is_ident_part(input[pos]) {
        ident_end(input, pos + 1)
    } else {
        pos
    }
}

/// The position of the first `"` at or behind `pos`; the length of the
/// input where there is none.
pub open spec fn quote_at(input: Seq<u8>, pos: int) -> int
    decreases input.len() - pos,
{
    if 0 <= pos < input.len() && input[pos] != 34 {
        quote_at(input, pos + 1)
    } else {
        pos
    }
}

/// The input holds `a` and then `b` at `pos`.
pub open spec fn two_at(input: Seq<u8>, pos: int, a: u8, b: u8) -> bool {
    0 <= pos && pos + 1 < input.len() && input[pos] == a && input[pos + 1] == b
}

pub open spec fn msg_identifier() -> Seq<u8> {
    text("expected identifier"@)
}

pub open spec fn msg_unterminated() -> Seq<u8> {
    text("unterminated string"@)
}

pub open spec fn msg_end() -> Seq<u8> {
    text("unexpected end"@)
}

pub open spec fn msg_character() -> Seq<u8> {
    text("unexpected character"@)
}

pub open spec fn msg_trailing() -> Seq<u8> {
    text("unexpected trailing input"@)
}

/// The message for a token that is missing: `expected 'x'`.
pub open spec fn msg_expected(token: Seq<u8>) -> Seq<u8> {
    text("expected '"@) + token + text("'"@)
}

/// An identifier at the next token.
pub open spec fn parse_identifier(input: Seq<u8>, pos: int) -> Parsed<Seq<u8>> {
    let p = skip_ws(input, pos);
    if 0 <= p < input.len() && is_ident_start(input[p]) {
        let e = ident_end(input, p + 1);
        Parsed::Done { value: input.subrange(p, e), pos: e }
    } else {
        Parsed::Failed { pos: p, message: msg_identifier() }
    }
}

/// A string at the next token: what stands between two `"`, as it is.
pub open spec fn parse_string(input: Seq<u8>, pos: int) -> Parsed<Seq<u8>> {
    let p = skip_ws(input, pos);
    if 0 <= p < input.len() && input[p] == 34 {
        let e = quote_at(input, p + 1);
        if e < input.len() {
            Parsed::Done { value: input.subrange(p + 1, e), pos: e + 1 }
        } else {
            Parsed::Failed { pos: p + 1, message: msg_unterminated() }
        }
    } else {
        Parsed::Failed { pos: p, message: msg_expected(text("\""@)) }
    }
}

/// A term at the next token.
#[verifier::opaque]
pub open spec fn parse_term(input: Seq<u8>, pos: int) -> Parsed<TermModel> {
    let p = skip_ws(input, pos);
    if !(0 <= p < input.len()) {
        Parsed::Failed { pos: p, message: msg_end() }
    } else {
        let c = input[p];
        if c == 95 && !(p + 1 < input.len() && is_alnum(input[p + 1])) {
            Parsed::Done { value: TermModel::Wildcard, pos: p + 1 }
        } else if c == 34 {
            match parse_string(input, p) {
                Parsed::Done { value, pos } => Parsed::Done { value: TermModel::Const(value), pos },
                Parsed::Failed { pos, message } => Parsed::Failed { pos, message },
            }
        } else if is_upper(c) || c == 95 {
            match parse_identifier(input, p) {
                Parsed::Done { value, pos } => Parsed::Done { value: TermModel::Var(value), pos },
                Parsed::Failed { pos, message } => Parsed::Failed { pos, message },
            }
        } else if is_lower(c) {
            match parse_identifier(input, p) {
                Parsed::Done { value, pos } => Parsed::Done { value: TermModel::Const(value), pos },
                Parsed::Failed { pos, message } => Parsed::Failed { pos, message },
            }
        } else {
            Parsed::Failed { pos: p, message: msg_character() }
        }
    }
}

/// The terms that follow the first one, each behind a `,`, added to
/// `acc`.
pub open spec fn parse_more_terms(input: Seq<u8>, pos: int, acc: Seq<TermModel>) -> Parsed<
    Seq<TermModel>,
>
    decreases input.len() - pos,
{
    let p = skip_ws(input, pos);
    if pos <= p < input.len() && input[p] == 44 {
        match parse_term(input, p + 1) {
            Parsed::Done { value, pos: q } => if p < q <= input.len() {
                parse_more_terms(input, q, acc.push(value))
            } else {
                Parsed::Failed { pos: q, message: msg_end() }
            },
            Parsed::Failed { pos, message } => Parsed::Failed { pos, message },
        }
    } else {
        Parsed::Done { value: acc, pos: p }
    }
}

/// What stands between the brackets of an atom, and the `)`.
#[verifier::opaque]
pub open spec fn parse_arguments(input: Seq<u8>, pos: int) -> Parsed<Seq<TermModel>> {
    let q = skip_ws(input, pos);
    if 0 <= q < input.len() && input[q] == 41 {
        Parsed::Done { value: Seq::empty(), pos: q + 1 }
    } else {
        match parse_term(input, q) {
            Parsed::Done { value, pos: r } => match parse_more_terms(input, r, seq![value]) {
                Parsed::Done { value: args, pos: s } => if 0 <= s < input.len() && input[s] == 41 {
                    Parsed::Done { value: args, pos: s + 1 }
                } else {
                    Parsed::Failed { pos: s, message: msg_expected(text(")"@)) }
                },
                Parsed::Failed { pos, message } => Parsed::Failed { pos, message },
            },
            Parsed::Failed { pos, message } => Parsed::Failed { pos, message },
        }
    }
}

/// An atom at the next token. Behind an atom without brackets the position
/// is that of the next token.
#[verifier::opaque]
pub open spec fn parse_atom(input: Seq<u8>, pos: int) -> Parsed<AtomModel> {
    match parse_identifier(input, pos) {
        Parsed::Done { value: predicate, pos: e } => {
            let p = skip_ws(input, e);
            if 0 <= p < input.len() && input[p] == 40 {
                match parse_arguments(input, p + 1) {
                    Parsed::Done { value: args, pos } => Parsed::Done {
                        value: AtomModel { predicate, args },
                        pos,
                    },
                    Parsed::Failed { pos, message } => Parsed::Failed { pos, message },
                }
            } else {
                Parsed::Done { value: AtomModel { predicate, args: Seq::empty() }, pos: p }
            }
        },
        Parsed::Failed { pos, message } => Parsed::Failed { pos, message },
    }
}

/// A literal at the next token.
#[verifier::opaque]
pub open spec fn parse_literal(input: Seq<u8>, pos: int) -> Parsed<LiteralModel> {
    let p = skip_ws(input, pos);
    if two_at(input, p, 92, 43) {
        match parse_atom(input, p + 2) {
            Parsed::Done { value, pos } => Parsed::Done {
                value: LiteralModel::Negative(value),
                pos,
            },
            Parsed::Failed { pos, message } => Parsed::Failed { pos, message },
        }
    } else {
        match parse_atom(input, p) {
            Parsed::Done { value, pos } => Parsed::Done {
                value: LiteralModel::Positive(value),
                pos,
            },
            Parsed::Failed { pos, message } => Parsed::Failed { pos, message },
        }
    }
}

/// The literals that follow the first one, each behind a `,`, added to
/// `acc`.
pub open spec fn parse_more_literals(input: Seq<u8>, pos: int, acc: Seq<LiteralModel>) -> Parsed<
    Seq<LiteralModel>,
>
    decreases input.len() - pos,
{
    let p = skip_ws(input, pos);
    if pos <= p < input.len() && input[p] == 44 {
        match parse_literal(input, p + 1) {
            Parsed::Done { value, pos: q } => if p < q <= input.len() {
                parse_more_literals(input, q, acc.push(value))
            } else {
                Parsed::Failed { pos: q, message: msg_end() }
            },
            Parsed::Failed { pos, message } => Parsed::Failed { pos, message },
        }
    } else {
        Parsed::Done { value: acc, pos: p }
    }
}

/// The `.` that ends a rule, at the next token.
pub open spec fn parse_dot(input: Seq<u8>, pos: int) -> Parsed<()> {
    let p = skip_ws(input, pos);
    if 0 <= p < input.len() && input[p] == 46 {
        Parsed::Done { value: (), pos: p + 1 }
    } else {
        Parsed::Failed { pos: p, message: msg_expected(text("."@)) }
    }
}

/// A rule at the next token.
#[verifier::opaque]
pub open spec fn parse_rule(input: Seq<u8>, pos: int) -> Parsed<RuleModel> {
    match parse_atom(input, pos) {
        Parsed::Done { value: head, pos: e } => {
            let p = skip_ws(input, e);
            if two_at(input, p, 58, 45) {
                match parse_literal(input, p + 2) {
                    Parsed::Done { value: first, pos: q } => match parse_more_literals(
                        input,
                        q,
                        seq![first],
                    ) {
                        Parsed::Done { value: body, pos: r } => match parse_dot(input, r) {
                            Parsed::Done { value: _, pos } => Parsed::Done {
                                value: RuleModel { head, body },
                                pos,
                            },
                            Parsed::Failed { pos, message } => Parsed::Failed { pos, message },
                        },
                        Parsed::Failed { pos, message } => Parsed::Failed { pos, message },
                    },
                    Parsed::Failed { pos, message } => Parsed::Failed { pos, message },
                }
            } else {
                match parse_dot(input, p) {
                    Parsed::Done { value: _, pos } => Parsed::Done {
                        value: RuleModel { head, body: Seq::empty() },
                        pos,
                    },
                    Parsed::Failed { pos, message } => Parsed::Failed { pos, message },
                }
            }
        },
        Parsed::Failed { pos, message } => Parsed::Failed { pos, message },
    }
}

/// The rules from `pos` to the end of the input, added to `acc`.
pub open spec fn parse_rules(input: Seq<u8>, pos: int, acc: Seq<RuleModel>) -> Parsed<Seq<RuleModel>>
    decreases input.len() - pos,
{
    let p = skip_ws(input, pos);
    if !(pos <= p < input.len()) {
        Parsed::Done { value: acc, pos: p }
    } else {
        match parse_rule(input, p) {
            Parsed::Done { value, pos: q } => if p < q <= input.len() {
                parse_rules(input, q, acc.push(value))
            } else {
                Parsed::Failed { pos: q, message: msg_end() }
            },
            Parsed::Failed { pos, message } => Parsed::Failed { pos, message },
        }
    }
}

/// What was parsed, if nothing but white space and comments follows it.
pub open spec fn whole<T>(input: Seq<u8>, p: Parsed<T>) -> Parsed<T> {
    match p {
        Parsed::Done { value, pos } => if skip_ws(input, pos) >= input.len() {
            Parsed::Done { value, pos: skip_ws(input, pos) }
        } else {
            Parsed::Failed { pos: skip_ws(input, pos), message: msg_trailing() }
        },
        Parsed::Failed { pos, message } => Parsed::Failed { pos, message },
    }
}

/// Skipping goes forward, and not beyond the end.
pub proof fn lemma_skip_bounds(input: Seq<u8>, pos: int, in_comment: bool)
    requires
        0 <= pos <= input.len(),
    ensures
        pos <= skip(input, pos, in_comment) <= input.len(),
    decreases input.len() - pos,
{
    if pos < input.len() {
        if in_comment {
            lemma_skip_bounds(input, pos + 1, input[pos] != 10);
        } else if space_len(input, pos) > 0 {
            lemma_skip_bounds(input, pos + space_len(input, pos), false);
        } else if input[pos] == 37 {
            lemma_skip_bounds(input, pos + 1, true);
        }
    }
}

/// Behind what was skipped there is nothing more to skip.
pub proof fn lemma_skip_twice(input: Seq<u8>, pos: int, in_comment: bool)
    requires
        0 <= pos <= input.len(),
    ensures
        skip_ws(input, skip(input, pos, in_comment)) == skip(input, pos, in_comment),
    decreases input.len() - pos,
{
    if pos < input.len() {
        if in_comment {
            lemma_skip_twice(input, pos + 1, input[pos] != 10);
        } else if space_len(input, pos) > 0 {
            lemma_skip_twice(input, pos + space_len(input, pos), false);
        } else if input[pos] == 37 {
            lemma_skip_twice(input, pos + 1, true);
        }
    }
}

} // verus!

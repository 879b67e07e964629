//! The language, as mathematical functions from a text to what it parses to.
//!
//! Each function reads one construct at the start of a text. Where it succeeds
//! it gives the text left over and the value read; where the text breaks the
//! grammar it gives the first violation, read from left to right.

use crate::ast::{
    all_well_formed, If, IfExpression, Invocation, JsComparitor, Primitive, Statement,
};
use crate::error::{ErrorKind, Failure};
use crate::number::{scan_at, Scan};
use crate::text::{
    first_index, is_proper_suffix, is_space, leading_spaces, lemma_first_index,
    lemma_leading_spaces, lemma_trailing_spaces, trim, trim_start,
};
use vstd::prelude::*;

verus! {

/// The text left over and the value read, or the violation.
pub type Parsed<T> = Result<(Seq<char>, T), Failure>;

/// A violation of `kind` with `position` characters before it.
pub open spec fn failure(kind: ErrorKind, position: int) -> Failure {
    Failure { kind, position }
}

/// `outcome`, as seen from `by` characters further left.
pub open spec fn shifted<T>(outcome: Result<T, Failure>, by: int) -> Result<T, Failure> {
    match outcome {
        Ok(value) => Ok(value),
        Err(f) => Err(f.shifted(by)),
    }
}

/// `outcome`, read after the values `done` and `by` characters: its values
/// follow `done`, and its violation lies `by` characters further right.
pub open spec fn continued<T>(done: Seq<T>, by: int, outcome: Result<Seq<T>, Failure>) -> Result<
    Seq<T>,
    Failure,
> {
    match outcome {
        Ok(more) => Ok(done + more),
        Err(f) => Err(f.shifted(by)),
    }
}

/// `"`
pub open spec fn quote() -> char {
    '"'
}

/// `true`
pub open spec fn word_true() -> Seq<char> {
    seq!['t', 'r', 'u', 'e']
}

/// `false`
pub open spec fn word_false() -> Seq<char> {
    seq!['f', 'a', 'l', 's', 'e']
}

/// `if`
pub open spec fn word_if() -> Seq<char> {
    seq!['i', 'f']
}

/// `==`
pub open spec fn word_equals() -> Seq<char> {
    seq!['=', '=']
}

/// `!=`
pub open spec fn word_not_equals() -> Seq<char> {
    seq!['!', '=']
}

/// A string literal: a quote, the text up to the next quote, and that quote. No
/// escapes. `None` where `s` does not begin with a quote; a violation where the
/// second quote is missing.
pub open spec fn string(s: Seq<char>) -> Result<Option<(Seq<char>, Seq<char>)>, Failure> {
    if s.len() > 0 && s[0] == quote() {
        match first_index(s.skip(1), quote()) {
            Some(end) => Ok(Some((s.skip(end + 2), s.subrange(1, end + 1)))),
            None => Err(failure(ErrorKind::UnexpectedEndOfInput, 1)),
        }
    } else {
        Ok(None)
    }
}

/// What a scan for a number amounts to: the text left over and the bits, `None`
/// where there is no number, a violation where the number breaks off.
pub open spec fn number_of(scan: Scan) -> Result<Option<(Seq<char>, u32)>, Failure> {
    match scan {
        Scan::Matched { rest, bits } => Ok(Some((rest, bits))),
        Scan::Absent => Ok(None),
        Scan::Malformed => Err(failure(ErrorKind::MalformedLiteral, 0)),
    }
}

/// A number literal at the start of `s`.
pub open spec fn number(s: Seq<char>) -> Result<Option<(Seq<char>, u32)>, Failure> {
    number_of(scan_at(s))
}

/// The text after `word`, where `s` begins with it.
pub open spec fn keyword(s: Seq<char>, word: Seq<char>) -> Option<Seq<char>> {
    if word.is_prefix_of(s) {
        Some(s.skip(word.len() as int))
    } else {
        None
    }
}

/// The keyword `true`. Whatever follows it is left over, a letter too.
pub open spec fn literal_true(s: Seq<char>) -> Option<(Seq<char>, bool)> {
    match keyword(s, word_true()) {
        Some(rest) => Some((rest, true)),
        None => None,
    }
}

/// The keyword `false`. Whatever follows it is left over, a letter too.
pub open spec fn literal_false(s: Seq<char>) -> Option<(Seq<char>, bool)> {
    match keyword(s, word_false()) {
        Some(rest) => Some((rest, false)),
        None => None,
    }
}

/// A literal that is no string, given what the scan for a number found: the
/// number, else `true`, else `false`, else none.
pub open spec fn unquoted(s: Seq<char>, scan: Scan) -> Parsed<Option<Primitive>> {
    match number_of(scan) {
        Err(f) => Err(f),
        Ok(Some((rest, bits))) => Ok((rest, Some(Primitive::Number(bits)))),
        Ok(None) => match literal_true(s) {
            Some((rest, value)) => Ok((rest, Some(Primitive::Bool(value)))),
            None => match literal_false(s) {
                Some((rest, value)) => Ok((rest, Some(Primitive::Bool(value)))),
                None => Ok((s, None)),
            },
        },
    }
}

/// A literal at the start of `s`: the first that matches of string, number,
/// `true`, `false`. Where none does, all of `s` is left over and the value is
/// `None`, which is no violation.
pub open spec fn primitive(s: Seq<char>) -> Parsed<Option<Primitive>> {
    match string(s) {
        Err(f) => Err(f),
        Ok(Some((rest, text))) => Ok((rest, Some(Primitive::String(text)))),
        Ok(None) => unquoted(s, scan_at(s)),
    }
}

/// A literal at the start of `s`, where one is required.
pub open spec fn required_primitive(s: Seq<char>) -> Parsed<Primitive> {
    match primitive(s) {
        Err(f) => Err(f),
        Ok((rest, Some(value))) => Ok((rest, value)),
        Ok((_, None)) => Err(failure(ErrorKind::MalformedLiteral, 0)),
    }
}

/// A comparator at the start of `s`: `==` or `!=`.
pub open spec fn comparitor(s: Seq<char>) -> Parsed<JsComparitor> {
    match keyword(s, word_equals()) {
        Some(rest) => Ok((rest, JsComparitor::Equals)),
        None => match keyword(s, word_not_equals()) {
            Some(rest) => Ok((rest, JsComparitor::NotEquals)),
            None => Err(failure(ErrorKind::MalformedComparator, 0)),
        },
    }
}

/// A guard: a literal, a comparator and a literal. White space around the
/// comparator is skipped; white space before the first literal is not. What
/// follows the second literal is left over.
pub open spec fn if_expression(s: Seq<char>) -> Parsed<IfExpression> {
    match required_primitive(s) {
        Err(f) => Err(f),
        Ok((after_left, left)) => {
            let at_op = s.len() - after_left.len() + leading_spaces(after_left);
            match comparitor(trim(after_left)) {
                Err(f) => Err(f.shifted(at_op)),
                Ok((after_op, op)) => {
                    let at_right = at_op + 2 + leading_spaces(after_op);
                    match required_primitive(trim(after_op)) {
                        Err(f) => Err(f.shifted(at_right)),
                        Ok((rest, right)) => Ok(
                            (rest, IfExpression { left, comparitor: op, right }),
                        ),
                    }
                },
            }
        },
    }
}

/// The literals of an argument list, in order. `s` is the text between the
/// parentheses. Commas and spaces between literals are skipped, one at a time;
/// any other character that starts no literal is a violation.
pub open spec fn arguments(s: Seq<char>) -> Result<Seq<Primitive>, Failure>
    decreases s.len(),
{
    if s.len() == 0 {
        Ok(Seq::empty())
    } else {
        match primitive(s) {
            Err(f) => Err(f),
            Ok((rest, Some(value))) => {
                proof {
                    lemma_primitive(s);
                }
                match arguments(rest) {
                    Ok(more) => Ok(seq![value] + more),
                    Err(f) => Err(f.shifted(s.len() - rest.len())),
                }
            },
            Ok((_, None)) => {
                if s[0] == ',' || s[0] == ' ' {
                    shifted(arguments(s.skip(1)), 1)
                } else {
                    Err(failure(ErrorKind::MalformedArgumentSeparator, 0))
                }
            },
        }
    }
}

/// A call: the name up to the first `(`, the arguments up to the first `)` after
/// it, and that `)`. The name is not empty.
pub open spec fn invocation(s: Seq<char>) -> Parsed<Invocation> {
    match first_index(s, '(') {
        None => Err(failure(ErrorKind::UnexpectedEndOfInput, 0)),
        Some(open) => {
            if open == 0 {
                Err(failure(ErrorKind::EmptyInvocationName, 0))
            } else {
                let inside = s.skip(open + 1);
                match first_index(inside, ')') {
                    None => Err(failure(ErrorKind::UnexpectedEndOfInput, open + 1)),
                    Some(close) => match arguments(inside.take(close)) {
                        Err(f) => Err(f.shifted(open + 1)),
                        Ok(list) => Ok(
                            (
                                inside.skip(close + 1),
                                Invocation { name: s.take(open), arguments: list },
                            ),
                        ),
                    },
                }
            }
        },
    }
}

/// What follows the keyword `if`: the guard between the first `(` and the first
/// `)` after it, then the body between the first `{` after that and the first `}`
/// after it. Text before the `(` and between the `)` and the `{` is passed over.
pub open spec fn if_block(s: Seq<char>) -> Parsed<If>
    decreases s.len(), 0int,
{
    match first_index(s, '(') {
        None => Err(failure(ErrorKind::UnexpectedEndOfInput, 0)),
        Some(open) => {
            let guard_at = open + 1;
            let inside = s.skip(guard_at);
            match first_index(inside, ')') {
                None => Err(failure(ErrorKind::UnexpectedEndOfInput, guard_at)),
                Some(close) => match if_expression(inside.take(close)) {
                    Err(f) => Err(f.shifted(guard_at)),
                    Ok((_, expression)) => {
                        let brace_from = guard_at + close + 1;
                        let after = s.skip(brace_from);
                        match first_index(after, '{') {
                            None => Err(failure(ErrorKind::UnexpectedEndOfInput, brace_from)),
                            Some(brace) => {
                                let body_at = brace_from + brace + 1;
                                let body = s.skip(body_at);
                                match first_index(body, '}') {
                                    None => Err(
                                        failure(ErrorKind::UnexpectedEndOfInput, body_at),
                                    ),
                                    Some(end) => {
                                        proof {
                                            lemma_first_index(s, '(');
                                            lemma_first_index(inside, ')');
                                            lemma_first_index(after, '{');
                                            lemma_first_index(body, '}');
                                        }
                                        match statements(body.take(end)) {
                                            Err(f) => Err(f.shifted(body_at)),
                                            Ok(list) => Ok(
                                                (
                                                    body.skip(end + 1),
                                                    If { expression, statements: list },
                                                ),
                                            ),
                                        }
                                    },
                                }
                            },
                        }
                    },
                },
            }
        },
    }
}

/// One statement: an `if` block where `s` begins with `if`, else a call.
pub open spec fn statement(s: Seq<char>) -> Parsed<Statement>
    decreases s.len(), 1int,
{
    match keyword(s, word_if()) {
        Some(after) => match if_block(after) {
            Err(f) => Err(f.shifted(2)),
            Ok((rest, block)) => Ok((rest, Statement::If(block))),
        },
        None => match invocation(s) {
            Err(f) => Err(f),
            Ok((rest, call)) => Ok((rest, Statement::Invocation(call))),
        },
    }
}

/// The statements of `s`, in order, to the end of `s`. White space before each
/// statement and after the last is skipped.
///
/// A statement always leaves a shorter text behind (`lemma_statement`). The
/// test for it makes the definition well founded; its other branch is never
/// taken.
pub open spec fn statements(s: Seq<char>) -> Result<Seq<Statement>, Failure>
    decreases s.len(), 2int,
{
    let at = leading_spaces(s) as int;
    let trimmed = trim_start(s);
    if trimmed.len() == 0 {
        Ok(Seq::empty())
    } else {
        proof {
            lemma_leading_spaces(s);
        }
        match statement(trimmed) {
            Err(f) => Err(f.shifted(at)),
            Ok((rest, first)) => {
                if rest.len() < trimmed.len() {
                    match statements(rest) {
                        Ok(more) => Ok(seq![first] + more),
                        Err(f) => Err(f.shifted(s.len() - rest.len())),
                    }
                } else {
                    Ok(seq![first])
                }
            },
        }
    }
}

/// A string literal leaves what follows its second quote, and a missing quote is
/// reported just after the first.
pub proof fn lemma_string(s: Seq<char>)
    ensures
        match string(s) {
            Ok(Some((rest, text))) => is_proper_suffix(rest, s) && !text.contains(quote())
                && s =~= seq![quote()] + text + seq![quote()] + rest,
            Ok(None) => s.len() == 0 || s[0] != quote(),
            Err(f) => f == failure(ErrorKind::UnexpectedEndOfInput, 1) && 1 <= s.len(),
        },
{
    if s.len() > 0 && s[0] == quote() {
        lemma_first_index(s.skip(1), quote());
    }
}

/// A literal leaves a shorter text behind; where there is none, the text is
/// left as it was.
pub proof fn lemma_primitive(s: Seq<char>)
    ensures
        match primitive(s) {
            Ok((rest, Some(_))) => is_proper_suffix(rest, s),
            Ok((rest, None)) => rest == s,
            Err(f) => 0 <= f.position <= s.len(),
        },
{
    lemma_string(s);
}

/// Trimming takes nothing but white space away: what is left and the white
/// space in front are no longer than the text.
pub proof fn lemma_trim(s: Seq<char>)
    ensures
        leading_spaces(s) + trim(s).len() <= s.len(),
        trim(s).len() > 0 ==> !is_space(trim(s)[0]),
{
    lemma_leading_spaces(s);
    lemma_trailing_spaces(trim_start(s));
}

/// The violations of a guard lie within its text.
pub proof fn lemma_if_expression(s: Seq<char>)
    ensures
        if_expression(s) matches Err(f) ==> 0 <= f.position <= s.len(),
{
    lemma_primitive(s);
    if let Ok((after_left, _)) = required_primitive(s) {
        lemma_trim(after_left);
        if let Ok((after_op, _)) = comparitor(trim(after_left)) {
            lemma_trim(after_op);
            lemma_primitive(trim(after_op));
        }
    }
}

/// The violations of an argument list lie within its text.
pub proof fn lemma_arguments(s: Seq<char>)
    ensures
        arguments(s) matches Err(f) ==> 0 <= f.position <= s.len(),
    decreases s.len(),
{
    if s.len() > 0 {
        lemma_primitive(s);
        match primitive(s) {
            Err(_) => {},
            Ok((rest, Some(_))) => {
                lemma_arguments(rest);
            },
            Ok((_, None)) => {
                if s[0] == ',' || s[0] == ' ' {
                    lemma_arguments(s.skip(1));
                }
            },
        }
    }
}

/// A call leaves a shorter text behind and is well formed; its violations lie
/// within its text.
pub proof fn lemma_invocation(s: Seq<char>)
    ensures
        match invocation(s) {
            Ok((rest, call)) => is_proper_suffix(rest, s) && call.well_formed(),
            Err(f) => 0 <= f.position <= s.len(),
        },
{
    lemma_first_index(s, '(');
    if let Some(open) = first_index(s, '(') {
        let inside = s.skip(open + 1);
        lemma_first_index(inside, ')');
        if let Some(close) = first_index(inside, ')') {
            lemma_arguments(inside.take(close));
            if open > 0 {
                let name = s.take(open);
                assert forall|i: int| 0 <= i < name.len() implies name[i] != '(' by {
                    assert(name[i] == s[i]);
                }
                assert(inside.skip(close + 1) =~= s.skip(open + close + 2));
            }
        }
    }
}

/// An `if` block leaves a shorter text behind and the calls in it are well
/// formed; its violations lie within its text.
pub proof fn lemma_if_block(s: Seq<char>)
    ensures
        match if_block(s) {
            Ok((rest, block)) => is_proper_suffix(rest, s) && all_well_formed(block.statements),
            Err(f) => 0 <= f.position <= s.len(),
        },
    decreases s.len(), 0int,
{
    lemma_first_index(s, '(');
    if let Some(open) = first_index(s, '(') {
        let inside = s.skip(open + 1);
        lemma_first_index(inside, ')');
        if let Some(close) = first_index(inside, ')') {
            lemma_if_expression(inside.take(close));
            let brace_from = open + close + 2;
            let after = s.skip(brace_from);
            lemma_first_index(after, '{');
            if let Some(brace) = first_index(after, '{') {
                let body_at = brace_from + brace + 1;
                let body = s.skip(body_at);
                lemma_first_index(body, '}');
                if let Some(end) = first_index(body, '}') {
                    lemma_statements(body.take(end));
                    assert(body.skip(end + 1) =~= s.skip(body_at + end + 1));
                }
            }
        }
    }
}

/// A statement leaves a shorter text behind and the calls in it are well
/// formed; its violations lie within its text.
pub proof fn lemma_statement(s: Seq<char>)
    ensures
        match statement(s) {
            Ok((rest, first)) => is_proper_suffix(rest, s) && first.well_formed(),
            Err(f) => 0 <= f.position <= s.len(),
        },
    decreases s.len(), 1int,
{
    match keyword(s, word_if()) {
        Some(after) => {
            lemma_if_block(after);
            if let Ok((rest, _)) = if_block(after) {
                assert(rest =~= s.skip(s.len() - rest.len()));
            }
        },
        None => {
            lemma_invocation(s);
        },
    }
}

/// The calls in a list of statements are well formed, and its violations lie
/// within its text.
pub proof fn lemma_statements(s: Seq<char>)
    ensures
        match statements(s) {
            Ok(list) => all_well_formed(list),
            Err(f) => 0 <= f.position <= s.len(),
        },
    decreases s.len(), 2int,
{
    lemma_leading_spaces(s);
    let trimmed = trim_start(s);
    if trimmed.len() > 0 {
        lemma_statement(trimmed);
        if let Ok((rest, first)) = statement(trimmed) {
            lemma_statements(rest);
            if let Ok(more) = statements(rest) {
                let list = seq![first] + more;
                assert forall|i: int| 0 <= i < list.len() implies (#[trigger] list[i]).well_formed(
                ) by {
                    if i > 0 {
                        assert(list[i] == more[i - 1]);
                    }
                }
            }
        }
    }
}

} // verus!

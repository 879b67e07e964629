//! The parsers. The contract of each names the function of `grammar` that it
//! computes.

use crate::ast::{
    all_well_formed, primitives_view, statements_view, JsBool, JsComparitor, JsIf,
    JsIfExpression, JsInvocation, JsNumber, JsPrimitive, JsStatement, JsString, Primitive,
    Statement, Tree,
};
use crate::error::{ErrorKind, Failure, ParseError};
use crate::grammar::{
    arguments, comparitor, continued, if_block, if_expression, invocation, lemma_arguments,
    lemma_if_block, lemma_if_expression, lemma_invocation, lemma_primitive, lemma_statement,
    lemma_statements, lemma_trim, literal_false, literal_true, number, number_of, primitive,
    statement, statements, string, unquoted, word_equals, word_false, word_if, word_not_equals,
    word_true, Parsed,
};
use crate::number::{scan_float, NumberScan};
use crate::text::{
    char_count, find_char, first_char, is_suffix, leading_space_count, leading_spaces,
    lemma_first_index, skip_chars, starts_with, take_chars, trim, trim_of,
};
use vstd::prelude::*;

verus! {

/// What an attempt that cannot fail stands for.
pub open spec fn found_view<T: View>(found: Option<(&str, T)>) -> Option<(Seq<char>, T::V)> {
    match found {
        Some((rest, value)) => Some((rest@, value@)),
        None => None,
    }
}

/// What an attempt stands for.
pub open spec fn attempt_view<T: View>(result: Result<Option<(&str, T)>, ParseError>) -> Result<
    Option<(Seq<char>, T::V)>,
    Failure,
> {
    match result {
        Ok(found) => Ok(found_view(found)),
        Err(e) => Err(e@),
    }
}

/// What the outcome of reading a required construct stands for.
pub open spec fn parsed_view<T: View>(result: Result<(&str, T), ParseError>) -> Parsed<T::V> {
    match result {
        Ok((rest, value)) => Ok((rest@, value@)),
        Err(e) => Err(e@),
    }
}

/// What the outcome of looking for a literal stands for.
pub open spec fn literal_view(result: Result<(&str, Option<JsPrimitive>), ParseError>) -> Parsed<
    Option<Primitive>,
> {
    match result {
        Ok((rest, Some(value))) => Ok((rest@, Some(value@))),
        Ok((rest, None)) => Ok((rest@, None)),
        Err(e) => Err(e@),
    }
}

/// What the outcome of reading a list of literals stands for.
pub open spec fn literals_view(result: Result<(&str, Vec<JsPrimitive>), ParseError>) -> Result<
    Seq<Primitive>,
    Failure,
> {
    match result {
        Ok((_, list)) => Ok(primitives_view(list@)),
        Err(e) => Err(e@),
    }
}

/// What the outcome of reading a list of statements stands for.
pub open spec fn program_view(result: Result<(&str, Vec<JsStatement>), ParseError>) -> Result<
    Seq<Statement>,
    Failure,
> {
    match result {
        Ok((_, list)) => Ok(statements_view(list@)),
        Err(e) => Err(e@),
    }
}

/// What the outcome of reading a whole program stands for.
pub open spec fn tree_view(result: Result<Tree, ParseError>) -> Result<Seq<Statement>, Failure> {
    match result {
        Ok(tree) => Ok(tree@),
        Err(e) => Err(e@),
    }
}

/// Reads the keyword `true`.
pub fn parse_true(input: &str) -> (found: Option<(&str, JsBool)>)
    ensures
        found_view(found) == literal_true(input@),
{
    proof {
        reveal_strlit("true");
        assert("true"@ =~= word_true());
    }
    if starts_with(input, "true") {
        Some((skip_chars(input, 4), JsBool { inner: true }))
    } else {
        None
    }
}

/// Reads the keyword `false`.
pub fn parse_false(input: &str) -> (found: Option<(&str, JsBool)>)
    ensures
        found_view(found) == literal_false(input@),
{
    proof {
        reveal_strlit("false");
        assert("false"@ =~= word_false());
    }
    if starts_with(input, "false") {
        Some((skip_chars(input, 5), JsBool { inner: false }))
    } else {
        None
    }
}

/// Reads a string literal.
pub fn parse_string(input: &str) -> (result: Result<Option<(&str, JsString)>, ParseError>)
    ensures
        attempt_view(result) == string(input@),
{
    if first_char(input) != Some('"') {
        return Ok(None);
    }
    let body = skip_chars(input, 1);
    match find_char(body, '"') {
        None => Err(ParseError { kind: ErrorKind::UnexpectedEndOfInput, position: 1 }),
        Some(end) => {
            proof {
                lemma_first_index(body@, '"');
            }
            let text = take_chars(body, end);
            let rest = skip_chars(body, end + 1);
            assert(rest@ =~= input@.skip(end + 2));
            assert(text@ =~= input@.subrange(1, end + 1));
            Ok(Some((rest, JsString { inner: text.to_owned() })))
        },
    }
}

/// Turns what the scan for a number found into a number literal.
pub fn number_from_scan(scan: NumberScan<'_>) -> (result: Result<
    Option<(&str, JsNumber)>,
    ParseError,
>)
    ensures
        attempt_view(result) == number_of(scan@),
{
    match scan {
        NumberScan::Matched(rest, bits) => Ok(Some((rest, JsNumber { bits }))),
        NumberScan::Absent => Ok(None),
        NumberScan::Malformed => Err(
            ParseError { kind: ErrorKind::MalformedLiteral, position: 0 },
        ),
    }
}

/// Reads a number literal.
pub fn parse_number(input: &str) -> (result: Result<Option<(&str, JsNumber)>, ParseError>)
    ensures
        attempt_view(result) == number(input@),
{
    number_from_scan(scan_float(input))
}

/// Reads a literal that is no string, given what the scan for a number found.
pub fn primitive_from_scan<'a>(input: &'a str, scan: NumberScan<'a>) -> (result: Result<
    (&'a str, Option<JsPrimitive>),
    ParseError,
>)
    ensures
        literal_view(result) == unquoted(input@, scan@),
{
    match number_from_scan(scan) {
        Err(e) => Err(e),
        Ok(Some((rest, value))) => Ok((rest, Some(JsPrimitive::Number(value)))),
        Ok(None) => match parse_true(input) {
            Some((rest, value)) => Ok((rest, Some(JsPrimitive::Bool(value)))),
            None => match parse_false(input) {
                Some((rest, value)) => Ok((rest, Some(JsPrimitive::Bool(value)))),
                None => Ok((input, None)),
            },
        },
    }
}

/// Looks for a literal: the first that matches of string, number, `true`, `false`.
pub fn parse_primitive(input: &str) -> (result: Result<(&str, Option<JsPrimitive>), ParseError>)
    ensures
        literal_view(result) == primitive(input@),
{
    match parse_string(input) {
        Err(e) => Err(e),
        Ok(Some((rest, value))) => Ok((rest, Some(JsPrimitive::String(value)))),
        Ok(None) => primitive_from_scan(input, scan_float(input)),
    }
}

/// Reads a comparator, `==` or `!=`.
pub fn parse_comparitor(input: &str) -> (result: Result<(&str, JsComparitor), ParseError>)
    ensures
        parsed_view(result) == comparitor(input@),
{
    proof {
        reveal_strlit("==");
        reveal_strlit("!=");
        assert("=="@ =~= word_equals());
        assert("!="@ =~= word_not_equals());
    }
    if starts_with(input, "==") {
        Ok((skip_chars(input, 2), JsComparitor::Equals))
    } else if starts_with(input, "!=") {
        Ok((skip_chars(input, 2), JsComparitor::NotEquals))
    } else {
        Err(ParseError { kind: ErrorKind::MalformedComparator, position: 0 })
    }
}

/// How many characters of `input` lie before the first character of `rest`
/// that is no white space. `rest` is what is left of `input`.
fn place_after_spaces(input: &str, rest: &str) -> (at: usize)
    requires
        is_suffix(rest@, input@),
    ensures
        at == input@.len() - rest@.len() + leading_spaces(rest@),
        at <= input@.len() <= usize::MAX,
{
    char_count(input) - char_count(rest) + leading_space_count(rest)
}

/// Reads a guard: a literal, a comparator and a literal. White space around the
/// comparator is skipped.
pub fn parse_if_expression(input: &str) -> (result: Result<(&str, JsIfExpression), ParseError>)
    ensures
        parsed_view(result) == if_expression(input@),
{
    let (after_left, left) = match parse_primitive(input) {
        Err(e) => {
            return Err(e);
        },
        Ok((_, None)) => {
            return Err(ParseError { kind: ErrorKind::MalformedLiteral, position: 0 });
        },
        Ok((rest, Some(value))) => (rest, value),
    };
    proof {
        lemma_primitive(input@);
        lemma_trim(after_left@);
    }
    let (after_op, op) = match parse_comparitor(trim_of(after_left)) {
        Err(e) => {
            return Err(e.shifted(place_after_spaces(input, after_left)));
        },
        Ok(found) => found,
    };
    proof {
        lemma_trim(after_op@);
        lemma_primitive(trim(after_op@));
    }
    match parse_primitive(trim_of(after_op)) {
        Err(e) => {
            let at_op: usize = place_after_spaces(input, after_left);
            Err(e.shifted(at_op + 2 + leading_space_count(after_op)))
        },
        Ok((_, None)) => {
            let at_op: usize = place_after_spaces(input, after_left);
            Err(
                ParseError {
                    kind: ErrorKind::MalformedLiteral,
                    position: at_op + 2 + leading_space_count(after_op),
                },
            )
        },
        Ok((rest, Some(right))) => Ok((rest, JsIfExpression { left, comparitor: op, right })),
    }
}

/// Reads the literals of an argument list, the text between the parentheses of
/// a call, and puts them after `args`.
pub fn parse_arguments(input: &str, args: Vec<JsPrimitive>) -> (result: Result<
    (&str, Vec<JsPrimitive>),
    ParseError,
>)
    ensures
        literals_view(result) == continued(primitives_view(args@), 0, arguments(input@)),
        result matches Ok((rest, _)) ==> rest@.len() == 0,
{
    let mut rest = input;
    let mut list = args;
    let ghost mut done: Seq<Primitive> = Seq::empty();
    proof {
        assert(rest@ =~= input@.skip(0));
        assert(primitives_view(list@) =~= primitives_view(args@) + done);
        match arguments(input@) {
            Ok(more) => {
                assert(done + more =~= more);
            },
            Err(f) => {},
        }
    }
    loop
        invariant
            is_suffix(rest@, input@),
            primitives_view(list@) == primitives_view(args@) + done,
            arguments(input@) == continued(done, input@.len() - rest@.len(), arguments(rest@)),
        decreases rest@.len(),
    {
        let first = match first_char(rest) {
            None => {
                proof {
                    assert(done + Seq::<Primitive>::empty() =~= done);
                }
                return Ok((rest, list));
            },
            Some(c) => c,
        };
        proof {
            lemma_primitive(rest@);
            lemma_arguments(input@);
        }
        match parse_primitive(rest) {
            Err(e) => {
                let at: usize = char_count(input) - char_count(rest);
                return Err(e.shifted(at));
            },
            Ok((after, Some(value))) => {
                proof {
                    assert(after@ =~= input@.skip(input@.len() - after@.len()));
                    match arguments(after@) {
                        Ok(more) => {
                            assert(done + (seq![value@] + more) =~= done.push(value@) + more);
                        },
                        Err(f) => {},
                    }
                    assert(primitives_view(list@.push(value)) =~= primitives_view(list@).push(
                        value@,
                    ));
                    assert((primitives_view(args@) + done).push(value@) =~= primitives_view(args@)
                        + done.push(value@));
                    done = done.push(value@);
                }
                list.push(value);
                rest = after;
            },
            Ok((_, None)) => {
                if first == ',' || first == ' ' {
                    let after = skip_chars(rest, 1);
                    proof {
                        assert(after@ =~= input@.skip(input@.len() - after@.len()));
                    }
                    rest = after;
                } else {
                    let at: usize = char_count(input) - char_count(rest);
                    return Err(
                        ParseError { kind: ErrorKind::MalformedArgumentSeparator, position: at },
                    );
                }
            },
        }
    }
}

/// Reads a call: a name, `(`, arguments, `)`.
pub fn parse_invocation(input: &str) -> (result: Result<(&str, JsInvocation), ParseError>)
    ensures
        parsed_view(result) == invocation(input@),
        result matches Ok((_, call)) ==> call@.well_formed(),
{
    proof {
        lemma_invocation(input@);
    }
    let open: usize = match find_char(input, '(') {
        None => {
            return Err(ParseError { kind: ErrorKind::UnexpectedEndOfInput, position: 0 });
        },
        Some(open) => open,
    };
    if open == 0 {
        return Err(ParseError { kind: ErrorKind::EmptyInvocationName, position: 0 });
    }
    let inside = skip_chars(input, open + 1);
    let close: usize = match find_char(inside, ')') {
        None => {
            return Err(
                ParseError { kind: ErrorKind::UnexpectedEndOfInput, position: open + 1 },
            );
        },
        Some(close) => close,
    };
    proof {
        lemma_arguments(inside@.take(close as int));
    }
    match parse_arguments(take_chars(inside, close), Vec::new()) {
        Err(e) => Err(e.shifted(open + 1)),
        Ok((_, list)) => {
            let name = take_chars(input, open).to_owned();
            let rest = skip_chars(inside, close + 1);
            proof {
                let found = arguments(inside@.take(close as int))->Ok_0;
                assert(primitives_view(Seq::<JsPrimitive>::empty()) + found =~= found);
            }
            Ok((rest, JsInvocation { name, arguments: list }))
        },
    }
}

/// Reads what follows the keyword `if`: `(`, a guard, `)`, `{`, statements, `}`.
pub fn parse_if(input: &str) -> (result: Result<(&str, JsIf), ParseError>)
    ensures
        parsed_view(result) == if_block(input@),
    decreases input@.len(), 0int,
{
    let open: usize = match find_char(input, '(') {
        None => {
            return Err(ParseError { kind: ErrorKind::UnexpectedEndOfInput, position: 0 });
        },
        Some(open) => open,
    };
    let inside = skip_chars(input, open + 1);
    let close: usize = match find_char(inside, ')') {
        None => {
            return Err(
                ParseError { kind: ErrorKind::UnexpectedEndOfInput, position: open + 1 },
            );
        },
        Some(close) => close,
    };
    proof {
        lemma_if_expression(inside@.take(close as int));
    }
    let expression = match parse_if_expression(take_chars(inside, close)) {
        Err(e) => {
            return Err(e.shifted(open + 1));
        },
        Ok((_, expression)) => expression,
    };
    let brace_from: usize = open + close + 2;
    let after = skip_chars(inside, close + 1);
    assert(after@ =~= input@.skip(brace_from as int));
    let brace: usize = match find_char(after, '{') {
        None => {
            return Err(
                ParseError { kind: ErrorKind::UnexpectedEndOfInput, position: brace_from },
            );
        },
        Some(brace) => brace,
    };
    let body_at: usize = brace_from + brace + 1;
    let body = skip_chars(after, brace + 1);
    assert(body@ =~= input@.skip(body_at as int));
    let end: usize = match find_char(body, '}') {
        None => {
            return Err(ParseError { kind: ErrorKind::UnexpectedEndOfInput, position: body_at });
        },
        Some(end) => end,
    };
    proof {
        lemma_statements(body@.take(end as int));
    }
    match parse_statements(take_chars(body, end)) {
        Err(e) => Err(e.shifted(body_at)),
        Ok((_, list)) => Ok((skip_chars(body, end + 1), JsIf { expression, statements: list })),
    }
}

/// Reads one statement: an `if` block where the text begins with `if`, else a
/// call.
pub fn parse_statement(input: &str) -> (result: Result<(&str, JsStatement), ParseError>)
    ensures
        parsed_view(result) == statement(input@),
        result matches Ok((_, first)) ==> first@.well_formed(),
    decreases input@.len(), 1int,
{
    proof {
        reveal_strlit("if");
        assert("if"@ =~= word_if());
        lemma_statement(input@);
    }
    if starts_with(input, "if") {
        let after = skip_chars(input, 2);
        proof {
            lemma_if_block(after@);
        }
        match parse_if(after) {
            Err(e) => Err(e.shifted(2)),
            Ok((rest, block)) => Ok((rest, JsStatement::If(block))),
        }
    } else {
        match parse_invocation(input) {
            Err(e) => Err(e),
            Ok((rest, call)) => Ok((rest, JsStatement::Invocation(call))),
        }
    }
}

/// Reads statements to the end of the text. White space before each statement
/// and after the last is skipped; what is handed back as left over is empty.
pub fn parse_statements(input: &str) -> (result: Result<(&str, Vec<JsStatement>), ParseError>)
    ensures
        program_view(result) == statements(input@),
        result matches Ok((rest, list)) ==> rest@.len() == 0 && all_well_formed(
            statements_view(list@),
        ),
    decreases input@.len(), 2int,
{
    let mut rest = input;
    let mut list: Vec<JsStatement> = Vec::new();
    proof {
        lemma_statements(input@);
        assert(rest@ =~= input@.skip(0));
        assert(statements_view(list@) =~= Seq::<Statement>::empty());
        match statements(input@) {
            Ok(more) => {
                assert(Seq::<Statement>::empty() + more =~= more);
            },
            Err(f) => {},
        }
    }
    loop
        invariant
            is_suffix(rest@, input@),
            statements(input@) == continued(
                statements_view(list@),
                input@.len() - rest@.len(),
                statements(rest@),
            ),
            statements(input@) matches Ok(all) ==> all_well_formed(all),
            statements(input@) matches Err(f) ==> 0 <= f.position <= input@.len(),
        decreases rest@.len(),
    {
        let lead: usize = leading_space_count(rest);
        let trimmed = skip_chars(rest, lead);
        if first_char(trimmed).is_none() {
            proof {
                assert(statements_view(list@) + Seq::<Statement>::empty() =~= statements_view(
                    list@,
                ));
            }
            return Ok((trimmed, list));
        }
        proof {
            lemma_statement(trimmed@);
        }
        match parse_statement(trimmed) {
            Err(e) => {
                let at: usize = char_count(input) - char_count(trimmed);
                return Err(e.shifted(at));
            },
            Ok((after, first)) => {
                proof {
                    assert(after@ =~= input@.skip(input@.len() - after@.len()));
                    match statements(after@) {
                        Ok(more) => {
                            assert(statements_view(list@) + (seq![first@] + more)
                                =~= statements_view(list@).push(first@) + more);
                        },
                        Err(f) => {},
                    }
                    assert(statements_view(list@.push(first)) =~= statements_view(list@).push(
                        first@,
                    ));
                }
                list.push(first);
                rest = after;
            },
        }
    }
}

impl Tree {
    /// Reads a whole program.
    pub fn parse(input: &str) -> (result: Result<Tree, ParseError>)
        ensures
            tree_view(result) == statements(input@),
            result matches Ok(tree) ==> all_well_formed(tree@),
    {
        match parse_statements(input) {
            Err(e) => Err(e),
            Ok((_, list)) => Ok(Tree { statements: list }),
        }
    }
}

} // verus!

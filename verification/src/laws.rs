//! What holds of the language for every text.

use crate::ast::{Primitive, Statement};
use crate::error::ErrorKind;
use crate::grammar::{
    continued, failure, if_block, invocation, keyword, lemma_invocation, lemma_statement,
    primitive, quote, shifted, statement, statements, word_if,
};
use crate::text::{
    all_spaces, first_index, is_space, lemma_all_spaces, lemma_first_index,
    lemma_first_index_extends, lemma_first_index_is, lemma_first_index_none,
    lemma_leading_spaces, lemma_leading_spaces_extends, trim_start,
};
use vstd::prelude::*;

verus! {

/// A text without a quote, put between two quotes, is read as the string
/// literal of that text, and nothing is left over.
pub proof fn law_string_round_trip(text: Seq<char>)
    requires
        !text.contains(quote()),
    ensures
        primitive(seq![quote()] + text + seq![quote()]) matches Ok((rest, Some(value)))
            && rest.len() == 0 && value == Primitive::String(text),
{
    let source = seq![quote()] + text + seq![quote()];
    let body = source.skip(1);
    assert(body =~= text + seq![quote()]);
    assert forall|j: int| 0 <= j < text.len() implies body[j] != quote() by {
        assert(body[j] == text[j]);
        assert(text.contains(text[j]));
    }
    lemma_first_index_is(body, quote(), text.len() as int);
    assert(source.skip(text.len() as int + 2) =~= Seq::<char>::empty());
    assert(source.subrange(1, text.len() as int + 1) =~= text);
}

/// A quote followed by text without a second quote is a violation, whatever the
/// text holds: the end of the input came where the closing quote was required.
pub proof fn law_unterminated_string(text: Seq<char>)
    requires
        !text.contains(quote()),
    ensures
        primitive(seq![quote()] + text) matches Err(f) && f == failure(
            ErrorKind::UnexpectedEndOfInput,
            1,
        ),
{
    let source = seq![quote()] + text;
    let body = source.skip(1);
    assert(body =~= text);
    assert forall|j: int| 0 <= j < text.len() implies text[j] != quote() by {
        assert(text.contains(text[j]));
    }
    lemma_first_index_none(body, quote());
}

/// A program of white space only, or of nothing, has no statements and is no
/// violation.
pub proof fn law_empty_program(source: Seq<char>)
    requires
        all_spaces(source),
    ensures
        statements(source) matches Ok(list) && list.len() == 0,
{
    lemma_all_spaces(source);
}

/// Where a text is read as a call, what is put after the text does not change
/// the call: it is left over with the rest.
pub proof fn law_invocation_extends(source: Seq<char>, more: Seq<char>)
    requires
        invocation(source) is Ok,
    ensures
        invocation(source + more) matches Ok((rest, call)) && invocation(source) matches Ok(
            (old_rest, old_call),
        ) && rest == old_rest + more && call == old_call,
{
    let whole = source + more;
    lemma_first_index(source, '(');
    lemma_first_index_extends(source, more, '(');
    let open = first_index(source, '(')->Some_0;
    let inside = source.skip(open + 1);
    assert(whole.skip(open + 1) =~= inside + more);
    lemma_first_index(inside, ')');
    lemma_first_index_extends(inside, more, ')');
    let close = first_index(inside, ')')->Some_0;
    assert((inside + more).take(close) =~= inside.take(close));
    assert((inside + more).skip(close + 1) =~= inside.skip(close + 1) + more);
    assert(whole.take(open) =~= source.take(open));
}

/// Where a text is read as what follows the keyword `if`, what is put after the
/// text does not change the block: it is left over with the rest.
pub proof fn law_if_block_extends(source: Seq<char>, more: Seq<char>)
    requires
        if_block(source) is Ok,
    ensures
        if_block(source + more) matches Ok((rest, block)) && if_block(source) matches Ok(
            (old_rest, old_block),
        ) && rest == old_rest + more && block == old_block,
{
    let whole = source + more;
    lemma_first_index(source, '(');
    lemma_first_index_extends(source, more, '(');
    let open = first_index(source, '(')->Some_0;
    let inside = source.skip(open + 1);
    assert(whole.skip(open + 1) =~= inside + more);
    lemma_first_index(inside, ')');
    lemma_first_index_extends(inside, more, ')');
    let close = first_index(inside, ')')->Some_0;
    assert((inside + more).take(close) =~= inside.take(close));
    let brace_from = open + close + 2;
    let after = source.skip(brace_from);
    assert(whole.skip(brace_from) =~= after + more);
    lemma_first_index(after, '{');
    lemma_first_index_extends(after, more, '{');
    let brace = first_index(after, '{')->Some_0;
    let body_at = brace_from + brace + 1;
    let body = source.skip(body_at);
    assert(whole.skip(body_at) =~= body + more);
    lemma_first_index(body, '}');
    lemma_first_index_extends(body, more, '}');
    let end = first_index(body, '}')->Some_0;
    assert((body + more).take(end) =~= body.take(end));
    assert((body + more).skip(end + 1) =~= body.skip(end + 1) + more);
}

/// Where a text is read as a statement, what is put after the text does not
/// change the statement: it is left over with the rest.
pub proof fn law_statement_extends(source: Seq<char>, more: Seq<char>)
    requires
        statement(source) is Ok,
    ensures
        statement(source + more) matches Ok((rest, first)) && statement(source) matches Ok(
            (old_rest, old_first),
        ) && rest == old_rest + more && first == old_first,
{
    let whole = source + more;
    match keyword(source, word_if()) {
        Some(after) => {
            assert(word_if() =~= whole.subrange(0, 2));
            assert(whole.skip(2) =~= after + more);
            law_if_block_extends(after, more);
        },
        None => {
            lemma_first_index(source, '(');
            let open = first_index(source, '(')->Some_0;
            lemma_first_index(source.skip(open + 1), ')');
            if word_if().is_prefix_of(whole) {
                assert(whole.subrange(0, 2) =~= source.subrange(0, 2));
            }
            law_invocation_extends(source, more);
        },
    }
}

/// Where a text is read as a list of statements, a text put after it is read
/// as it would be alone, and its statements follow those of the first. So
/// white space, much or none, may stand between two statements, before the
/// first and after the last.
pub proof fn law_concatenation(source: Seq<char>, more: Seq<char>)
    requires
        statements(source) is Ok,
    ensures
        statements(source + more) == continued(
            statements(source)->Ok_0,
            source.len() as int,
            statements(more),
        ),
    decreases source.len(),
{
    let whole = source + more;
    lemma_leading_spaces(source);
    lemma_leading_spaces(more);
    lemma_leading_spaces_extends(source, more);
    let trimmed = trim_start(source);
    if trimmed.len() == 0 {
        assert(trim_start(whole) =~= trim_start(more));
        match statements(more) {
            Ok(list) => {
                assert(Seq::<Statement>::empty() + list =~= list);
            },
            Err(f) => {
                if trim_start(more).len() > 0 {
                    lemma_statement(trim_start(more));
                }
            },
        }
    } else {
        assert(trim_start(whole) =~= trimmed + more);
        lemma_statement(trimmed);
        law_statement_extends(trimmed, more);
        let (rest, first) = statement(trimmed)->Ok_0;
        law_concatenation(rest, more);
        let found = statements(rest)->Ok_0;
        match statements(more) {
            Ok(list) => {
                assert(seq![first] + (found + list) =~= (seq![first] + found) + list);
            },
            Err(f) => {},
        }
    }
}

/// White space holds none of the characters that are no white space.
proof fn lemma_spaces_hold_no(spaces: Seq<char>, needle: char)
    requires
        all_spaces(spaces),
        !is_space(needle),
    ensures
        first_index(spaces, needle) is None,
{
    lemma_first_index_none(spaces, needle);
}

/// White space after a text does not change how the text is read as a call,
/// violation or not.
proof fn lemma_invocation_before_spaces(source: Seq<char>, spaces: Seq<char>)
    requires
        all_spaces(spaces),
    ensures
        invocation(source + spaces) == match invocation(source) {
            Ok((rest, call)) => Ok((rest + spaces, call)),
            Err(f) => Err(f),
        },
{
    if invocation(source) is Ok {
        law_invocation_extends(source, spaces);
    } else {
        let whole = source + spaces;
        lemma_spaces_hold_no(spaces, '(');
        lemma_spaces_hold_no(spaces, ')');
        lemma_first_index(source, '(');
        lemma_first_index_extends(source, spaces, '(');
        if let Some(open) = first_index(source, '(') {
            let inside = source.skip(open + 1);
            assert(whole.skip(open + 1) =~= inside + spaces);
            lemma_first_index(inside, ')');
            lemma_first_index_extends(inside, spaces, ')');
            if let Some(close) = first_index(inside, ')') {
                assert((inside + spaces).take(close) =~= inside.take(close));
            }
        }
    }
}

/// White space after a text does not change how the text is read as what
/// follows the keyword `if`, violation or not.
proof fn lemma_if_block_before_spaces(source: Seq<char>, spaces: Seq<char>)
    requires
        all_spaces(spaces),
    ensures
        if_block(source + spaces) == match if_block(source) {
            Ok((rest, block)) => Ok((rest + spaces, block)),
            Err(f) => Err(f),
        },
{
    if if_block(source) is Ok {
        law_if_block_extends(source, spaces);
    } else {
        let whole = source + spaces;
        lemma_spaces_hold_no(spaces, '(');
        lemma_spaces_hold_no(spaces, ')');
        lemma_spaces_hold_no(spaces, '{');
        lemma_spaces_hold_no(spaces, '}');
        lemma_first_index(source, '(');
        lemma_first_index_extends(source, spaces, '(');
        if let Some(open) = first_index(source, '(') {
            let inside = source.skip(open + 1);
            assert(whole.skip(open + 1) =~= inside + spaces);
            lemma_first_index(inside, ')');
            lemma_first_index_extends(inside, spaces, ')');
            if let Some(close) = first_index(inside, ')') {
                assert((inside + spaces).take(close) =~= inside.take(close));
                let brace_from = open + close + 2;
                let after = source.skip(brace_from);
                assert(whole.skip(brace_from) =~= after + spaces);
                lemma_first_index(after, '{');
                lemma_first_index_extends(after, spaces, '{');
                if let Some(brace) = first_index(after, '{') {
                    let body_at = brace_from + brace + 1;
                    let body = source.skip(body_at);
                    assert(whole.skip(body_at) =~= body + spaces);
                    lemma_first_index(body, '}');
                    lemma_first_index_extends(body, spaces, '}');
                    if let Some(end) = first_index(body, '}') {
                        assert((body + spaces).take(end) =~= body.take(end));
                    }
                }
            }
        }
    }
}

/// White space after a text does not change how the text is read as a
/// statement, violation or not.
proof fn lemma_statement_before_spaces(source: Seq<char>, spaces: Seq<char>)
    requires
        all_spaces(spaces),
    ensures
        statement(source + spaces) == match statement(source) {
            Ok((rest, first)) => Ok((rest + spaces, first)),
            Err(f) => Err(f),
        },
{
    let whole = source + spaces;
    match keyword(source, word_if()) {
        Some(after) => {
            assert(word_if() =~= whole.subrange(0, 2));
            assert(whole.skip(2) =~= after + spaces);
            lemma_if_block_before_spaces(after, spaces);
        },
        None => {
            if word_if().is_prefix_of(whole) {
                let front = whole.subrange(0, 2);
                assert(front[0] == 'i' && front[1] == 'f');
                if source.len() >= 2 {
                    assert(front =~= source.subrange(0, 2));
                } else if source.len() == 1 {
                    assert(front[1] == spaces[0]);
                } else {
                    assert(front[0] == spaces[0]);
                }
            }
            lemma_invocation_before_spaces(source, spaces);
        },
    }
}

/// White space after a program changes nothing: not the statements, and not
/// the violation or its place.
pub proof fn law_trailing_white_space(source: Seq<char>, spaces: Seq<char>)
    requires
        all_spaces(spaces),
    ensures
        statements(source + spaces) == statements(source),
    decreases source.len(),
{
    let whole = source + spaces;
    lemma_leading_spaces(source);
    lemma_leading_spaces_extends(source, spaces);
    lemma_all_spaces(spaces);
    let trimmed = trim_start(source);
    if trimmed.len() == 0 {
        assert(trim_start(whole) =~= Seq::<char>::empty());
    } else {
        assert(trim_start(whole) =~= trimmed + spaces);
        lemma_statement(trimmed);
        lemma_statement_before_spaces(trimmed, spaces);
        if let Ok((rest, _)) = statement(trimmed) {
            law_trailing_white_space(rest, spaces);
        }
    }
}

/// White space before a program changes nothing but the place of a violation,
/// which lies as much further right as there is white space.
pub proof fn law_leading_white_space(spaces: Seq<char>, source: Seq<char>)
    requires
        all_spaces(spaces),
    ensures
        statements(spaces + source) == shifted(statements(source), spaces.len() as int),
{
    law_empty_program(spaces);
    law_concatenation(spaces, source);
    if let Ok(list) = statements(source) {
        assert(Seq::<Statement>::empty() + list =~= list);
    }
}

/// Where two texts are each read as statements, the two together are read as
/// statements whatever white space stands between them, much or none, and as
/// the same statements.
pub proof fn law_white_space_between(
    first: Seq<char>,
    gap: Seq<char>,
    other_gap: Seq<char>,
    second: Seq<char>,
)
    requires
        all_spaces(gap),
        all_spaces(other_gap),
        statements(first) is Ok,
        statements(second) is Ok,
    ensures
        statements(first + gap + second) is Ok,
        statements(first + gap + second) == statements(first + other_gap + second),
{
    law_leading_white_space(gap, second);
    law_leading_white_space(other_gap, second);
    assert(first + gap + second =~= first + (gap + second));
    assert(first + other_gap + second =~= first + (other_gap + second));
    law_concatenation(first, gap + second);
    law_concatenation(first, other_gap + second);
}

/// Two calls with white space between them, much or none, are read as two
/// statements: the first call, then the second.
pub proof fn law_two_invocations(first: Seq<char>, gap: Seq<char>, second: Seq<char>)
    requires
        all_spaces(gap),
        invocation(first) matches Ok((rest, _)) && rest.len() == 0,
        invocation(second) matches Ok((rest, _)) && rest.len() == 0,
        !is_space(first[0]) && !word_if().is_prefix_of(first),
        !is_space(second[0]) && !word_if().is_prefix_of(second),
    ensures
        statements(first + gap + second) matches Ok(list) && list == seq![
            Statement::Invocation(invocation(first)->Ok_0.1),
            Statement::Invocation(invocation(second)->Ok_0.1),
        ],
{
    lemma_single_invocation(first);
    lemma_single_invocation(second);
    law_leading_white_space(gap, second);
    assert(first + gap + second =~= first + (gap + second));
    law_concatenation(first, gap + second);
    let one = seq![Statement::Invocation(invocation(first)->Ok_0.1)];
    let two = seq![Statement::Invocation(invocation(second)->Ok_0.1)];
    assert(one + two =~= seq![
        Statement::Invocation(invocation(first)->Ok_0.1),
        Statement::Invocation(invocation(second)->Ok_0.1),
    ]);
}

/// A text that is one call and nothing more is a program of that one statement.
proof fn lemma_single_invocation(source: Seq<char>)
    requires
        invocation(source) matches Ok((rest, _)) && rest.len() == 0,
        !is_space(source[0]) && !word_if().is_prefix_of(source),
    ensures
        statements(source) matches Ok(list) && list == seq![
            Statement::Invocation(invocation(source)->Ok_0.1),
        ],
{
    lemma_invocation(source);
    lemma_leading_spaces(source);
    assert(trim_start(source) =~= source);
    let rest = invocation(source)->Ok_0.0;
    law_empty_program(rest);
    assert(statement(source) matches Ok((after, first)) && after == rest);
    let one = seq![Statement::Invocation(invocation(source)->Ok_0.1)];
    assert(one + Seq::<Statement>::empty() =~= one);
}

} // verus!

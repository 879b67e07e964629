use js_parser::{
    parse_arguments, parse_comparitor, parse_if, parse_if_expression, parse_invocation,
    parse_statement, parse_statements, ErrorKind, JsBool, JsComparitor, JsIf, JsIfExpression,
    JsInvocation, JsNumber, JsPrimitive, JsStatement, JsString, ParseError, Tree,
};

fn string(text: &str) -> JsPrimitive {
    JsPrimitive::String(JsString { inner: text.to_string() })
}

fn number(value: f32) -> JsPrimitive {
    JsPrimitive::Number(JsNumber { bits: value.to_bits() })
}

fn boolean(value: bool) -> JsPrimitive {
    JsPrimitive::Bool(JsBool { inner: value })
}

fn call(name: &str, arguments: Vec<JsPrimitive>) -> JsInvocation {
    JsInvocation { name: name.to_string(), arguments }
}

fn call_statement(name: &str, arguments: Vec<JsPrimitive>) -> JsStatement {
    JsStatement::Invocation(call(name, arguments))
}

fn error(kind: ErrorKind, position: usize) -> ParseError {
    ParseError { kind, position }
}

#[test]
fn comparators() {
    assert_eq!(parse_comparitor("=="), Ok(("", JsComparitor::Equals)));
    assert_eq!(parse_comparitor("!="), Ok(("", JsComparitor::NotEquals)));
    assert_eq!(parse_comparitor("== 5"), Ok((" 5", JsComparitor::Equals)));
    assert_eq!(parse_comparitor("==="), Ok(("=", JsComparitor::Equals)));
}

#[test]
fn comparator_is_required() {
    for source in ["", "=", "<", " ==", "=!", "<="] {
        assert_eq!(parse_comparitor(source), Err(error(ErrorKind::MalformedComparator, 0)));
    }
}

#[test]
fn guard() {
    assert_eq!(
        parse_if_expression("5 == 5"),
        Ok((
            "",
            JsIfExpression {
                left: number(5.0),
                comparitor: JsComparitor::Equals,
                right: number(5.0)
            }
        ))
    );
    assert_eq!(
        parse_if_expression("\"a\"!=true"),
        Ok((
            "",
            JsIfExpression {
                left: string("a"),
                comparitor: JsComparitor::NotEquals,
                right: boolean(true)
            }
        ))
    );
}

#[test]
fn guard_skips_white_space_around_the_comparator() {
    assert_eq!(
        parse_if_expression("1 \t\n ==   \"x\" tail  "),
        Ok((
            " tail",
            JsIfExpression {
                left: number(1.0),
                comparitor: JsComparitor::Equals,
                right: string("x")
            }
        ))
    );
}

#[test]
fn guard_violations() {
    assert_eq!(parse_if_expression(""), Err(error(ErrorKind::MalformedLiteral, 0)));
    assert_eq!(parse_if_expression(" 5 == 5"), Err(error(ErrorKind::MalformedLiteral, 0)));
    assert_eq!(parse_if_expression("x == 5"), Err(error(ErrorKind::MalformedLiteral, 0)));
    assert_eq!(parse_if_expression("5"), Err(error(ErrorKind::MalformedComparator, 1)));
    assert_eq!(parse_if_expression("5  < 6"), Err(error(ErrorKind::MalformedComparator, 3)));
    assert_eq!(parse_if_expression("5 =="), Err(error(ErrorKind::MalformedLiteral, 4)));
    assert_eq!(parse_if_expression("5 ==  x"), Err(error(ErrorKind::MalformedLiteral, 6)));
    assert_eq!(parse_if_expression("5 == \"x"), Err(error(ErrorKind::UnexpectedEndOfInput, 6)));
    assert_eq!(parse_if_expression("\"x"), Err(error(ErrorKind::UnexpectedEndOfInput, 1)));
    assert_eq!(parse_if_expression("true != 1e"), Err(error(ErrorKind::MalformedLiteral, 8)));
}

#[test]
fn arguments_keep_their_order() {
    assert_eq!(
        parse_arguments("\"a\", 1, true", vec![]),
        Ok(("", vec![string("a"), number(1.0), boolean(true)]))
    );
}

#[test]
fn arguments_follow_what_was_there() {
    assert_eq!(
        parse_arguments("2 3", vec![boolean(false)]),
        Ok(("", vec![boolean(false), number(2.0), number(3.0)]))
    );
    assert_eq!(parse_arguments("", vec![number(1.0)]), Ok(("", vec![number(1.0)])));
}

#[test]
fn empty_argument_text_gives_no_arguments() {
    assert_eq!(parse_arguments("", vec![]), Ok(("", vec![])));
}

#[test]
fn argument_separators_are_commas_and_spaces() {
    assert_eq!(parse_arguments(" , ,, ", vec![]), Ok(("", vec![])));
    assert_eq!(
        parse_arguments("true,false   true", vec![]),
        Ok(("", vec![boolean(true), boolean(false), boolean(true)]))
    );
    assert_eq!(parse_arguments("1\"a\"", vec![]), Ok(("", vec![number(1.0), string("a")])));
}

#[test]
fn argument_violations() {
    assert_eq!(
        parse_arguments("1, x", vec![]),
        Err(error(ErrorKind::MalformedArgumentSeparator, 3))
    );
    assert_eq!(
        parse_arguments("1;2", vec![]),
        Err(error(ErrorKind::MalformedArgumentSeparator, 1))
    );
    assert_eq!(
        parse_arguments("1,\n2", vec![]),
        Err(error(ErrorKind::MalformedArgumentSeparator, 2))
    );
    assert_eq!(
        parse_arguments("true, \"abc", vec![]),
        Err(error(ErrorKind::UnexpectedEndOfInput, 7))
    );
    assert_eq!(parse_arguments("1, 2e", vec![]), Err(error(ErrorKind::MalformedLiteral, 3)));
}

#[test]
fn invocation_with_arguments() {
    assert_eq!(
        parse_invocation("foo(\"a\", 1, true)"),
        Ok(("", call("foo", vec![string("a"), number(1.0), boolean(true)])))
    );
}

#[test]
fn invocation_leaves_what_follows() {
    assert_eq!(parse_invocation("f()g()"), Ok(("g()", call("f", vec![]))));
    assert_eq!(parse_invocation("f(1)\n  tail"), Ok(("\n  tail", call("f", vec![number(1.0)]))));
}

#[test]
fn invocation_name_is_all_text_before_the_parenthesis() {
    assert_eq!(parse_invocation("a b.c (1)"), Ok(("", call("a b.c ", vec![number(1.0)]))));
}

#[test]
fn invocation_ends_at_the_first_closing_parenthesis() {
    assert_eq!(
        parse_invocation("f(\"a)\")"),
        Err(error(ErrorKind::UnexpectedEndOfInput, 3))
    );
    assert_eq!(parse_invocation("f(1))"), Ok((")", call("f", vec![number(1.0)]))));
}

#[test]
fn invocation_violations() {
    assert_eq!(parse_invocation(""), Err(error(ErrorKind::UnexpectedEndOfInput, 0)));
    assert_eq!(parse_invocation("foo"), Err(error(ErrorKind::UnexpectedEndOfInput, 0)));
    assert_eq!(parse_invocation("foo)"), Err(error(ErrorKind::UnexpectedEndOfInput, 0)));
    assert_eq!(parse_invocation("foo(1, 2"), Err(error(ErrorKind::UnexpectedEndOfInput, 4)));
    assert_eq!(parse_invocation("(1)"), Err(error(ErrorKind::EmptyInvocationName, 0)));
    assert_eq!(parse_invocation("("), Err(error(ErrorKind::EmptyInvocationName, 0)));
    assert_eq!(
        parse_invocation("foo(1 + 2)"),
        Err(error(ErrorKind::MalformedArgumentSeparator, 6))
    );
    assert_eq!(parse_invocation("foo(bar)"), Err(error(ErrorKind::MalformedArgumentSeparator, 4)));
}

#[test]
fn if_block_after_its_keyword() {
    assert_eq!(
        parse_if(" (5 == 5) { println(\"x\") } tail"),
        Ok((
            " tail",
            JsIf {
                expression: JsIfExpression {
                    left: number(5.0),
                    comparitor: JsComparitor::Equals,
                    right: number(5.0)
                },
                statements: vec![call_statement("println", vec![string("x")])]
            }
        ))
    );
}

#[test]
fn if_block_with_empty_body() {
    let expression = JsIfExpression {
        left: boolean(true),
        comparitor: JsComparitor::NotEquals,
        right: boolean(false),
    };
    assert_eq!(
        parse_if("(true != false){}"),
        Ok(("", JsIf { expression, statements: vec![] }))
    );
    let expression = JsIfExpression {
        left: boolean(true),
        comparitor: JsComparitor::NotEquals,
        right: boolean(false),
    };
    assert_eq!(
        parse_if("(true != false) {  \n }"),
        Ok(("", JsIf { expression, statements: vec![] }))
    );
}

#[test]
fn if_block_violations() {
    assert_eq!(parse_if(""), Err(error(ErrorKind::UnexpectedEndOfInput, 0)));
    assert_eq!(parse_if(" 5 == 5 { }"), Err(error(ErrorKind::UnexpectedEndOfInput, 0)));
    assert_eq!(parse_if(" (5 == 5 { }"), Err(error(ErrorKind::UnexpectedEndOfInput, 2)));
    assert_eq!(parse_if(" (5 == 5) f() }"), Err(error(ErrorKind::UnexpectedEndOfInput, 9)));
    assert_eq!(parse_if(" (5 == 5) { f() "), Err(error(ErrorKind::UnexpectedEndOfInput, 11)));
    assert_eq!(parse_if(" (5 = 5) { }"), Err(error(ErrorKind::MalformedComparator, 4)));
    assert_eq!(parse_if(" (x == 5) { }"), Err(error(ErrorKind::MalformedLiteral, 2)));
    assert_eq!(parse_if(" (5 == 5) { f }"), Err(error(ErrorKind::UnexpectedEndOfInput, 12)));
    assert_eq!(parse_if("(1==1){ g(x) }"), Err(error(ErrorKind::MalformedArgumentSeparator, 10)));
}

#[test]
fn if_block_ends_at_the_first_closing_brace() {
    assert_eq!(
        parse_if("(1 == 1) { f() } g() }"),
        Ok((
            " g() }",
            JsIf {
                expression: JsIfExpression {
                    left: number(1.0),
                    comparitor: JsComparitor::Equals,
                    right: number(1.0)
                },
                statements: vec![call_statement("f", vec![])]
            }
        ))
    );
    assert_eq!(
        parse_if("(1 == 1) { if (2 == 2) { f() } g() }"),
        Err(error(ErrorKind::UnexpectedEndOfInput, 24))
    );
}

#[test]
fn statement_dispatch() {
    assert_eq!(parse_statement("f(1) rest"), Ok((" rest", call_statement("f", vec![number(1.0)]))));
    match parse_statement("if (1 == 2) { } rest") {
        Ok((rest, JsStatement::If(block))) => {
            assert_eq!(rest, " rest");
            assert_eq!(block.expression.comparitor, JsComparitor::Equals);
            assert_eq!(block.statements, vec![]);
        }
        other => panic!("{:?}", other),
    }
}

#[test]
fn statement_that_begins_with_if_is_an_if_block() {
    assert_eq!(parse_statement("iffy(1)"), Err(error(ErrorKind::MalformedComparator, 6)));
    assert_eq!(parse_statement("iffy(x)"), Err(error(ErrorKind::MalformedLiteral, 5)));
    assert_eq!(parse_statement("if"), Err(error(ErrorKind::UnexpectedEndOfInput, 2)));
}

#[test]
fn statement_does_not_skip_white_space() {
    assert_eq!(parse_statement(" f()"), Ok(("", call_statement(" f", vec![]))));
}

#[test]
fn nested_block() {
    let parsed = parse_statements("if (5 == 5) { println(\"x\") }");
    let expected = vec![JsStatement::If(JsIf {
        expression: JsIfExpression {
            left: number(5.0),
            comparitor: JsComparitor::Equals,
            right: number(5.0),
        },
        statements: vec![call_statement("println", vec![string("x")])],
    })];
    assert_eq!(parsed, Ok(("", expected)));
}

#[test]
fn two_invocations() {
    let expected = || vec![call_statement("a", vec![number(1.0)]), call_statement("b", vec![])];
    for source in ["a(1) b()", "a(1)\nb()", "a(1)\n\n\t  b()", "  a(1)\r\nb()  \n", "a(1)b()"] {
        assert_eq!(parse_statements(source), Ok(("", expected())));
        assert_eq!(Tree::parse(source).map(|tree| tree.statements), Ok(expected()));
    }
    assert_eq!(expected().len(), 2);
}

#[test]
fn empty_program() {
    for source in ["", " ", "\n", " \t\r\n  ", "\u{a0}\u{2003}\u{3000}"] {
        assert_eq!(parse_statements(source), Ok(("", vec![])));
        assert_eq!(Tree::parse(source).map(|tree| tree.statements), Ok(vec![]));
    }
}

#[test]
fn whole_program() {
    let source = r#"
    
        println("Hello, world!", "meme", 36.99, "mooo")

        something("dabbing", true, false,   true)

        if (5 == 5) {
            println("it is 5")

            println("i am joe")
        }

    "#;
    let tree = Tree::parse(source).unwrap();
    assert_eq!(
        tree.statements,
        vec![
            call_statement(
                "println",
                vec![string("Hello, world!"), string("meme"), number(36.99), string("mooo")]
            ),
            call_statement(
                "something",
                vec![string("dabbing"), boolean(true), boolean(false), boolean(true)]
            ),
            JsStatement::If(JsIf {
                expression: JsIfExpression {
                    left: number(5.0),
                    comparitor: JsComparitor::Equals,
                    right: number(5.0),
                },
                statements: vec![
                    call_statement("println", vec![string("it is 5")]),
                    call_statement("println", vec![string("i am joe")]),
                ],
            }),
        ]
    );
}

#[test]
fn statements_after_an_if_block_are_read() {
    let parsed = Tree::parse("if (1 != 2) { a() } b()").unwrap();
    assert_eq!(parsed.statements.len(), 2);
    assert_eq!(parsed.statements[1], call_statement("b", vec![]));
}

#[test]
fn program_violations_count_from_the_start_of_the_program() {
    assert_eq!(parse_statements("  foo"), Err(error(ErrorKind::UnexpectedEndOfInput, 2)));
    assert_eq!(parse_statements("a() b(1"), Err(error(ErrorKind::UnexpectedEndOfInput, 6)));
    assert_eq!(parse_statements("a()\n(1)"), Err(error(ErrorKind::EmptyInvocationName, 4)));
    assert_eq!(parse_statements("a() b(;)"), Err(error(ErrorKind::MalformedArgumentSeparator, 6)));
    assert_eq!(
        parse_statements("a() if (1 < 2) { }"),
        Err(error(ErrorKind::MalformedComparator, 10))
    );
    assert_eq!(
        parse_statements("if (1 == 1) { a() b(\"x) }"),
        Err(error(ErrorKind::UnexpectedEndOfInput, 21))
    );
    assert_eq!(
        Tree::parse("a(1) if (true == ) { }").map(|tree| tree.statements),
        Err(error(ErrorKind::MalformedLiteral, 16))
    );
}

#[test]
fn text_between_statements_belongs_to_the_next_name() {
    assert_eq!(
        parse_statements("a(); b()"),
        Ok(("", vec![call_statement("a", vec![]), call_statement("; b", vec![])]))
    );
}

#[test]
fn first_violation_from_the_left_is_reported() {
    assert_eq!(
        parse_statements("a(x) b(\"y"),
        Err(error(ErrorKind::MalformedArgumentSeparator, 2))
    );
    assert_eq!(parse_statements("(1) a(x)"), Err(error(ErrorKind::EmptyInvocationName, 0)));
}

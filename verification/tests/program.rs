use exprlang::ast::{Expr, Literal};
use exprlang::parser::context::{CallRegex, Context, FunctionCallFormat, PatternError};
use exprlang::parser::program::{parse_expression, parse_program, ProgramError};

#[test]
fn test_parse_expression() {
    let function_call_format =
        FunctionCallFormat::new("NAME(ARGS)".to_string(), " ".to_string());
    let mut context = Context::new(function_call_format);

    let input = "foo(bar baz)";
    let result = parse_expression(&mut context, input);

    assert!(result.is_ok());
    let (rest, (ast, _new_context)) = result.unwrap();
    assert_eq!(rest, "");

    match ast {
        Expr::FunctionCall(call) => {
            assert_eq!(call.name, "foo");
            assert_eq!(call.args.len(), 2);
        }
        _ => panic!("Expected FunctionCall"),
    }
}

#[test]
fn test_parse_program() {
    let input = r#"{"NAME(ARGS)" " "}
        foo(bar baz)
        SPEC(function_call_format "NAME:ARGS" ",")
        bar:qux,quux"#;

    let result = parse_program(input);
    assert!(result.is_ok());

    let ast_nodes = result.unwrap();
    assert_eq!(ast_nodes.len(), 3);

    // First node: foo(bar baz) with the header's syntax
    match &ast_nodes[0] {
        Expr::FunctionCall(call) => {
            assert_eq!(call.name, "foo");
            assert_eq!(call.args.len(), 2);
        }
        _ => panic!("Expected FunctionCall"),
    }

    // Second node: SPEC function call
    match &ast_nodes[1] {
        Expr::FunctionCall(call) if call.name == "SPEC" => {
            assert_eq!(call.args.len(), 3);
        }
        _ => panic!("Expected SPEC call"),
    }

    // Third node: bar:qux,quux with updated syntax
    match &ast_nodes[2] {
        Expr::FunctionCall(call) => {
            assert_eq!(call.name, "bar");
            assert_eq!(call.args.len(), 2);
        }
        _ => panic!("Expected FunctionCall with updated syntax"),
    }
}

#[test]
fn test_parse_invalid_program() {
    let input = r#"{"NAME(ARGS)" ",\s*"}
        foo(bar, baz)
        SPEC(function_call_format, "NAME:ARGS", " ")
        foo(bar, baz)
        "#;

    let result = parse_program(input);
    assert!(result.is_err());
}

fn string(text: &str) -> Expr {
    Expr::Literal(Literal::String(text.to_string()))
}

fn call(name: &str, args: Vec<Expr>) -> Expr {
    Expr::FunctionCall(exprlang::ast::FunctionCall { name: name.to_string(), args })
}

#[test]
fn program_arguments_are_literals() {
    let program = parse_program("{\"NAME(ARGS)\" \",\"}\nf(\"a b\", true, false, 12, word)").unwrap();
    assert_eq!(
        program,
        vec![call(
            "f",
            vec![
                string("a b"),
                Expr::Literal(Literal::Boolean(true)),
                Expr::Literal(Literal::Boolean(false)),
                Expr::Literal(Literal::Integer(12)),
                string("word"),
            ]
        )]
    );
}

#[test]
fn program_without_header_uses_the_default_format() {
    assert_eq!(
        parse_program("(f 1 2)\n\n  (g )\n").unwrap(),
        vec![
            call("f", vec![Expr::Literal(Literal::Integer(1)), Expr::Literal(Literal::Integer(2))]),
            call("g", vec![]),
        ]
    );
    assert_eq!(parse_program("").unwrap(), vec![]);
    assert_eq!(parse_program(" \n\t\r\n").unwrap(), vec![]);
}

#[test]
fn program_errors() {
    assert_eq!(parse_program("{\"NAME(ARGS)\"}\nf()"), Err(ProgramError::InvalidHeader));
    assert_eq!(parse_program("{oops"), Err(ProgramError::InvalidHeader));
    assert_eq!(parse_program("{\"NAME(ARGS)\" \",\"}\nf(1"), Err(ProgramError::NoMatch));
    assert_eq!(parse_program("{\"NAME(ARGS)\" \",\"}\n9f(1)"), Err(ProgramError::NoMatch));
    assert_eq!(
        parse_program("{\"NAME(ARGS)\" \",\"}\nf(1,,2)"),
        Err(ProgramError::InvalidArgument)
    );
    assert_eq!(
        parse_program("{\"NAME(ARGS)\" \",\"}\nf(99999999999999999999)"),
        Err(ProgramError::InvalidArgument)
    );
    assert_eq!(
        parse_program("{\"NAME(ARGS)\" \"\"}\nf(1)"),
        Err(ProgramError::EmptySeparator)
    );
    assert_eq!(
        parse_program("{\"NAME(ARGS)\" \",\"}\nSPEC(function_call_format)"),
        Err(ProgramError::InvalidDirective)
    );
    assert_eq!(
        parse_program("{\"NAME(ARGS)\" \",\"}\nSPEC(other,\"NAME ARGS\",\" \")"),
        Err(ProgramError::InvalidDirective)
    );
    assert_eq!(
        parse_program("{\"NAME(ARGS)\" \",\"}\nSPEC(function_call_format,1,\" \")"),
        Err(ProgramError::InvalidDirective)
    );
    assert_eq!(
        parse_program("{\"NAME(NAME)\" \",\"}\nf(f)"),
        Err(ProgramError::Pattern(PatternError::NameCount(2)))
    );
    assert_eq!(
        parse_program("{\"NAME()\" \",\"}\nf()"),
        Err(ProgramError::Pattern(PatternError::ArgsCount(0)))
    );
    assert_eq!(
        parse_program("{\"f(ARGS)\" \",\"}\nf()"),
        Err(ProgramError::Pattern(PatternError::NameCount(0)))
    );
}

#[test]
fn empty_separator_splits_nothing() {
    let mut context = Context::new(FunctionCallFormat::new("NAME(ARGS)".to_string(), String::new()));
    assert!(parse_expression(&context, "f()").is_ok());
    assert!(matches!(parse_expression(&context, "f(1)"), Err(ProgramError::EmptySeparator)));
    assert!(context.update_function_call_format("NAME ARGS".to_string(), ",".to_string()).is_ok());
    assert_eq!(context.function_call_format.pattern(), "NAME ARGS");
    assert_eq!(context.function_call_format.arg_separator(), ",");
}

#[test]
fn expression_leaves_the_rest_of_the_text() {
    let context = Context::new(FunctionCallFormat::new("NAME(ARGS)".to_string(), ",".to_string()));
    let (rest, (expr, after)) = parse_expression(&context, "  f(1)  \ng(2)").unwrap();
    assert_eq!(rest, "\ng(2)");
    assert_eq!(expr, call("f", vec![Expr::Literal(Literal::Integer(1))]));
    assert_eq!(after, context);
    let (rest, (_, after)) =
        parse_expression(&context, "SPEC(function_call_format,\"[NAME ARGS]\",\";\")\ré").unwrap();
    assert_eq!(rest, "\ré");
    assert_eq!(after.function_call_format.pattern(), "[NAME ARGS]");
    assert_eq!(after.function_call_format.arg_separator(), ";");
}

#[test]
fn call_pattern_is_taken_literally() {
    let context = Context::new(FunctionCallFormat::new("NAME(ARGS)".to_string(), ",".to_string()));
    let regex = context.generate_function_call_regex().unwrap();
    assert_eq!(regex.as_str(), r"^([a-zA-Z_][a-zA-Z0-9_]*)\((.*?)\)$");
    let dotted = Context::new(FunctionCallFormat::new("NAME.ARGS".to_string(), ",".to_string()));
    assert!(parse_expression(&dotted, "f.1,2").is_ok());
    assert!(matches!(parse_expression(&dotted, "fx1,2"), Err(ProgramError::NoMatch)));
    assert_eq!(Context::default().function_call_format.pattern(), "(NAME ARGS)");
    assert_eq!(Context::default().function_call_format.arg_separator(), " ");
    assert_eq!(
        Context::default().generate_function_call_regex().unwrap().as_str(),
        r"^\(([a-zA-Z_][a-zA-Z0-9_]*) (.*?)\)$"
    );
}

#[test]
fn call_regex_compiles_and_captures() {
    assert!(CallRegex::new("(".to_string()).is_none());
    assert!(CallRegex::new("a{2,1}".to_string()).is_none());
    let regex = CallRegex::new("^a(b*)(c?)$".to_string()).unwrap();
    assert_eq!(regex.as_str(), "^a(b*)(c?)$");
    assert_eq!(regex.captures("abbc"), Some(("bb".to_string(), "c".to_string())));
    assert_eq!(regex.captures("a"), Some((String::new(), String::new())));
    assert_eq!(regex.captures("xa"), None);
    let one_group = CallRegex::new("a(b)".to_string()).unwrap();
    assert_eq!(one_group.captures("ab"), None);
    let optional = CallRegex::new("(a)|(b)".to_string()).unwrap();
    assert_eq!(optional.captures("b"), None);
}

#[test]
fn error_messages() {
    assert_eq!(
        ProgramError::Pattern(PatternError::NameCount(2)).message(),
        "Pattern must contain exactly one 'NAME', found 2"
    );
    assert_eq!(
        PatternError::ArgsCount(0).message(),
        "Pattern must contain exactly one 'ARGS', found 0"
    );
    assert_eq!(PatternError::InvalidRegex.message(), "Invalid regex");
    assert_eq!(ProgramError::NoMatch.message(), "Line does not match the call format");
    assert_eq!(
        ProgramError::EmptySeparator.message(),
        "Arguments cannot be split at an empty separator"
    );
    assert_eq!(
        ProgramError::InvalidArgument.message(),
        "Argument is neither a literal nor a name"
    );
    assert_eq!(
        ProgramError::InvalidHeader.message(),
        "Header must hold a pattern and a separator"
    );
    assert_eq!(
        ProgramError::InvalidDirective.message(),
        "SPEC takes function_call_format, a pattern and a separator"
    );
}

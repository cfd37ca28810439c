//! Tests for the scanner, the error taxonomy, numbers, conversions and the
//! whole pipeline.

use shen_transpiler::ast::{ShenNode, ShenType, ShenValue};
use shen_transpiler::codegen::generate_rust_code;
use shen_transpiler::error::TranspilerError;
use shen_transpiler::number::{parse_i64, i64_to_string, ShenNumber};
use shen_transpiler::parser::token::{tokenize, Token};
use shen_transpiler::parser::{parse, parse_shen_source, ParseError};
use shen_transpiler::sexpr::to_sexpr;
use shen_transpiler::translate;

#[test]
fn test_unbalanced_parens_error() {
    let tokens = tokenize("(defun broken (x").unwrap();
    assert_eq!(parse(&tokens), Err(ParseError::UnbalancedParens));
}

#[test]
fn test_unbalanced_close_error() {
    let tokens = tokenize("x))").unwrap();
    assert_eq!(parse(&tokens), Err(ParseError::UnbalancedParens));
    let tokens = tokenize("((x)").unwrap();
    assert_eq!(parse(&tokens), Err(ParseError::UnbalancedParens));
}

#[test]
fn test_parse_empty_input() {
    let tokens = tokenize("   ").unwrap();
    assert_eq!(parse(&tokens), Err(ParseError::EmptyInput));
    match parse_shen_source("") {
        Err(TranspilerError::SyntaxError(m)) => assert_eq!(m, "Empty input"),
        other => panic!("Expected a syntax error, got {:?}", other),
    }
}

#[test]
fn test_nesting_too_deep() {
    let mut input = String::new();
    for _ in 0..1001 {
        input.push('(');
    }
    input.push('x');
    for _ in 0..1001 {
        input.push(')');
    }
    let tokens = tokenize(&input).unwrap();
    assert_eq!(parse(&tokens), Err(ParseError::NestingTooDeep));
}

#[test]
fn test_tokenize_unexpected_character() {
    assert_eq!(
        tokenize("(foo @)"),
        Err(String::from("Unexpected character: @"))
    );
}

#[test]
fn test_tokenize_invalid_number() {
    assert_eq!(
        tokenize("1.2.3"),
        Err(String::from("Invalid number: 1.2.3"))
    );
}

#[test]
fn test_tokenize_keywords_and_operators() {
    let tokens = tokenize("(defun f (x) (<= x 10))").unwrap();
    assert_eq!(tokens[0], Token::OpenParen);
    assert_eq!(tokens[1], Token::Defun);
    assert_eq!(tokens[2], Token::Identifier(String::from("f")));
    assert_eq!(tokens[6], Token::OpenParen);
    assert_eq!(tokens[7], Token::Operator(String::from("<=")));
    assert_eq!(
        tokens[9],
        Token::Number(ShenNumber::from_literal("10").unwrap())
    );
}

#[test]
fn test_tokenize_lambda_spellings() {
    for src in ["(lambda (x) x)", "(fn (x) x)", "(\\ (x) x)", "(\u{03bb} (x) x)"] {
        let node = parse_shen_source(src).unwrap();
        assert!(matches!(node, ShenNode::Lambda { .. }), "input: {}", src);
    }
}

#[test]
fn test_tokenize_unterminated_string() {
    let tokens = tokenize("\"abc").unwrap();
    assert_eq!(tokens, vec![Token::Literal(String::from("abc"))]);
}

#[test]
fn test_number_normalization() {
    assert_eq!(
        ShenNumber::from_literal("1.50").unwrap(),
        ShenNumber::from_literal("1.5").unwrap()
    );
    assert_eq!(
        ShenNumber::from_literal("007").unwrap(),
        ShenNumber::from_literal("7").unwrap()
    );
    assert_eq!(
        ShenNumber::from_literal("0.0").unwrap(),
        ShenNumber::from_literal("0").unwrap()
    );
    assert!(ShenNumber::from_literal("1.2.3").is_none());
    assert!(ShenNumber::from_literal("abc").is_none());
    assert!(ShenNumber::from_literal("").is_none());
    let n = ShenNumber::from_literal("3.25").unwrap();
    assert_eq!(n.float_text(), "3.25");
    assert_eq!(n.display_text(), "3.25");
    let i = ShenNumber::from_literal("4").unwrap();
    assert_eq!(i.float_text(), "4.0");
    assert_eq!(i.display_text(), "4");
}

#[test]
fn test_parse_i64_bounds() {
    assert_eq!(parse_i64("9223372036854775807"), Some(i64::MAX));
    assert_eq!(parse_i64("-9223372036854775808"), Some(i64::MIN));
    assert_eq!(parse_i64("9223372036854775808"), None);
    assert_eq!(parse_i64("12"), Some(12));
    assert_eq!(parse_i64("-0"), Some(0));
    assert_eq!(parse_i64("1.5"), None);
    assert_eq!(parse_i64(""), None);
    assert_eq!(i64_to_string(-42), "-42");
    assert_eq!(i64_to_string(0), "0");
    assert_eq!(i64_to_string(i64::MIN), "-9223372036854775808");
}

#[test]
fn test_try_convert_literals() {
    let int_node = ShenNode::Literal {
        value: ShenValue::Integer(3),
    };
    match int_node.try_convert(&ShenType::Float) {
        Some(ShenNode::Literal {
            value: ShenValue::Float(f),
        }) => assert_eq!(f, ShenNumber::from_literal("3.0").unwrap()),
        other => panic!("Expected a float literal, got {:?}", other),
    }
    match int_node.try_convert(&ShenType::String) {
        Some(ShenNode::Literal {
            value: ShenValue::String(s),
        }) => assert_eq!(s, "3"),
        other => panic!("Expected a string literal, got {:?}", other),
    }
    match int_node.try_convert(&ShenType::Boolean) {
        Some(ShenNode::Literal {
            value: ShenValue::Boolean(b),
        }) => assert!(b),
        other => panic!("Expected a boolean literal, got {:?}", other),
    }

    let float_node = ShenNode::Literal {
        value: ShenValue::Float(ShenNumber::from_literal("2.9").unwrap()),
    };
    match float_node.try_convert(&ShenType::Integer) {
        Some(ShenNode::Literal {
            value: ShenValue::Integer(i),
        }) => assert_eq!(i, 2),
        other => panic!("Expected an integer literal, got {:?}", other),
    }

    // identity conversion is always permitted
    let sym = ShenNode::Symbol {
        name: String::from("x"),
        type_hint: ShenType::Symbol,
    };
    assert!(sym.try_convert(&ShenType::Symbol).is_some());
    // no conversion between unrelated types
    assert!(sym.try_convert(&ShenType::Function).is_none());
}

#[test]
fn test_try_convert_symbol_names() {
    let sym = ShenNode::Symbol {
        name: String::from("42"),
        type_hint: ShenType::Symbol,
    };
    match sym.try_convert(&ShenType::Integer) {
        Some(ShenNode::Literal {
            value: ShenValue::Integer(i),
        }) => assert_eq!(i, 42),
        other => panic!("Expected an integer literal, got {:?}", other),
    }
    let sym = ShenNode::Symbol {
        name: String::from("TRUE"),
        type_hint: ShenType::Symbol,
    };
    match sym.try_convert(&ShenType::Boolean) {
        Some(ShenNode::Literal {
            value: ShenValue::Boolean(b),
        }) => assert!(b),
        other => panic!("Expected a boolean literal, got {:?}", other),
    }
}

#[test]
fn test_get_type_and_infer_type() {
    let lit = ShenNode::Literal {
        value: ShenValue::String(String::from("hello")),
    };
    assert_eq!(lit.get_type(), ShenType::String);
    assert_eq!(lit.infer_type(), ShenType::String);

    let sym = ShenNode::Symbol {
        name: String::from("42"),
        type_hint: ShenType::Symbol,
    };
    assert_eq!(sym.get_type(), ShenType::Symbol);
    assert_eq!(sym.infer_type(), ShenType::Integer);

    let sym = ShenNode::Symbol {
        name: String::from("4.5"),
        type_hint: ShenType::Symbol,
    };
    assert_eq!(sym.infer_type(), ShenType::Float);

    let sym = ShenNode::Symbol {
        name: String::from("False"),
        type_hint: ShenType::Symbol,
    };
    assert_eq!(sym.infer_type(), ShenType::Boolean);
}

#[test]
fn test_infer_types_idempotent_on_example() {
    let parsed = parse_shen_source("(defun add (x y) (+ x y))").unwrap();
    let once = shen_transpiler::ast::infer::infer_types(&parsed);
    let twice = shen_transpiler::ast::infer::infer_types(&once);
    assert_eq!(format!("{:?}", once), format!("{:?}", twice));
}

#[test]
fn test_generate_conditional_without_else() {
    let parsed = parse_shen_source("(if x y)").unwrap();
    let code = generate_rust_code(&parsed).unwrap();
    assert_eq!(code, "if x {\n        y\n    } else {}");
}

#[test]
fn test_generate_length_and_first() {
    let parsed = parse_shen_source("(length xs)").unwrap();
    assert_eq!(generate_rust_code(&parsed).unwrap(), "xs.len()");
    let parsed = parse_shen_source("(first xs)").unwrap();
    assert_eq!(generate_rust_code(&parsed).unwrap(), "xs.first()");
    let parsed = parse_shen_source("(g xs ys)").unwrap();
    assert_eq!(generate_rust_code(&parsed).unwrap(), "g(xs, ys)");
}

#[test]
fn test_generate_if_application_arity_error() {
    // an `if` written as an application must carry exactly three arguments
    let bad = ShenNode::Application {
        func: Box::new(ShenNode::Symbol {
            name: String::from("if"),
            type_hint: ShenType::Symbol,
        }),
        args: vec![ShenNode::Symbol {
            name: String::from("c"),
            type_hint: ShenType::Symbol,
        }],
    };
    match generate_rust_code(&bad) {
        Err(TranspilerError::CodegenError(m)) => assert_eq!(m, "Invalid 'if' expression"),
        other => panic!("Expected a code generation error, got {:?}", other),
    }
    let good = ShenNode::Application {
        func: Box::new(ShenNode::Symbol {
            name: String::from("if"),
            type_hint: ShenType::Symbol,
        }),
        args: vec![
            ShenNode::Symbol {
                name: String::from("c"),
                type_hint: ShenType::Symbol,
            },
            ShenNode::Symbol {
                name: String::from("a"),
                type_hint: ShenType::Symbol,
            },
            ShenNode::Symbol {
                name: String::from("b"),
                type_hint: ShenType::Symbol,
            },
        ],
    };
    assert_eq!(generate_rust_code(&good).unwrap(), "if c { a } else { b }");
}

#[test]
fn test_translate_pipeline() {
    assert_eq!(
        translate("(defun identity (x) x)").unwrap(),
        "fn identity(x: impl Clone) -> impl Clone {\n    x\n}"
    );
    assert_eq!(translate("(list 1 2 3)").unwrap(), "vec![1.0, 2.0, 3.0]");
    match translate("(defun broken (x") {
        Err(TranspilerError::SyntaxError(m)) => assert_eq!(m, "Unbalanced parentheses"),
        other => panic!("Expected a syntax error, got {:?}", other),
    }
    match translate("@") {
        Err(TranspilerError::SyntaxError(m)) => assert_eq!(m, "Unexpected character: @"),
        other => panic!("Expected a syntax error, got {:?}", other),
    }
}

#[test]
fn test_error_constructors_and_messages() {
    let e = TranspilerError::new_parse_error("foo", "went wrong", 3, 7);
    assert_eq!(e.message(), "Parsing error at token foo: went wrong");
    let e = TranspilerError::new_type_conversion_error("Integer", "Function");
    assert_eq!(
        e.message(),
        "Type conversion error: Cannot convert Integer to Function"
    );
    let e = TranspilerError::SyntaxError(String::from("Empty input"));
    assert_eq!(e.message(), "Syntax error: Empty input");
    let e = TranspilerError::InternalError(String::from("bug"));
    assert_eq!(e.message(), "Internal transpiler error: bug");
}

#[test]
fn test_parse_error_messages() {
    let tokens = tokenize(")").unwrap();
    match parse(&tokens) {
        Err(e) => assert_eq!(e.message(), "Unbalanced parentheses"),
        other => panic!("Expected an error, got {:?}", other),
    }
    let tokens = tokenize("(defun 3 (x) x)").unwrap();
    match parse(&tokens) {
        Err(e) => assert_eq!(e.message(), "Malformed defun form at position 2"),
        other => panic!("Expected an error, got {:?}", other),
    }
}

#[test]
fn test_parse_string_literal() {
    let node = parse_shen_source("\"hello world\"").unwrap();
    match node {
        ShenNode::Literal {
            value: ShenValue::String(s),
        } => assert_eq!(s, "hello world"),
        other => panic!("Expected a string literal, got {:?}", other),
    }
    let code = generate_rust_code(&parse_shen_source("\"hi\"").unwrap()).unwrap();
    assert_eq!(code, "\"hi\"");
}

#[test]
fn test_parse_application_with_compound_function() {
    let node = parse_shen_source("((lambda (x) x) 5)").unwrap();
    match node {
        ShenNode::Application { func, args } => {
            assert!(matches!(*func, ShenNode::Lambda { .. }));
            assert_eq!(args.len(), 1);
        }
        other => panic!("Expected an application, got {:?}", other),
    }
    let code = generate_rust_code(&parse_shen_source("((lambda (x) x) 5)").unwrap()).unwrap();
    assert_eq!(code, "|x| { x }(5.0)");
}

#[test]
fn test_parse_generic_list() {
    let node = parse_shen_source("(1 2)").unwrap();
    match node {
        ShenNode::List {
            elements,
            element_type,
        } => {
            assert_eq!(elements.len(), 2);
            assert_eq!(element_type, ShenType::Float);
        }
        other => panic!("Expected a list, got {:?}", other),
    }
}

#[test]
fn test_list_element_type_unification() {
    // agreeing elements take their common type; mixed elements fall back
    let node = parse_shen_source("(list 1 \"a\")").unwrap();
    match node {
        ShenNode::List { element_type, .. } => assert_eq!(element_type, ShenType::Symbol),
        other => panic!("Expected a list, got {:?}", other),
    }
    let node = parse_shen_source("(list)").unwrap();
    match node {
        ShenNode::List {
            elements,
            element_type,
        } => {
            assert_eq!(elements.len(), 0);
            assert_eq!(element_type, ShenType::Symbol);
        }
        other => panic!("Expected a list, got {:?}", other),
    }
}

#[test]
fn test_sexpr_round_trip() {
    // pretty-printing a parsed tree and scanning the result gives back the
    // very tokens the parser consumed
    let sources = [
        "(defun add (x y) (+ x y))",
        "(lambda (x) (+ x 1))",
        "(if (= x 0) x (+ x 1))",
        "(if done a)",
        "(list 1 2 3)",
        "(f (g x) \"s\" 2.5)",
        "((lambda (u) u) 7)",
        "(defun nullary () 4.25)",
    ];
    for src in sources {
        let tokens = tokenize(src).unwrap();
        let node = parse(&tokens).unwrap();
        let printed = to_sexpr(&node);
        let rescanned = tokenize(&printed).unwrap();
        assert_eq!(tokens, rescanned, "source: {}", src);
    }
}

#[test]
fn test_sexpr_whitespace_equivalent() {
    // the same program written with odd whitespace prints canonically
    let a = parse(&tokenize("(defun add (x y) (+ x y))").unwrap()).unwrap();
    let b = parse(&tokenize("  (defun add\n  (x y)\t(+ x y)  )").unwrap()).unwrap();
    assert_eq!(to_sexpr(&a), to_sexpr(&b));
    assert_eq!(to_sexpr(&a), "(defun add (x y) (+ x y))");
}

#[test]
fn test_float_to_integer_saturates() {
    let big = ShenNode::Literal {
        value: ShenValue::Float(ShenNumber::from_literal("99999999999999999999.5").unwrap()),
    };
    match big.try_convert(&ShenType::Integer) {
        Some(ShenNode::Literal {
            value: ShenValue::Integer(i),
        }) => assert_eq!(i, i64::MAX),
        other => panic!("Expected an integer literal, got {:?}", other),
    }
    let small = ShenNode::Literal {
        value: ShenValue::Float(ShenNumber::from_literal("-99999999999999999999").unwrap()),
    };
    match small.try_convert(&ShenType::Integer) {
        Some(ShenNode::Literal {
            value: ShenValue::Integer(i),
        }) => assert_eq!(i, i64::MIN),
        other => panic!("Expected an integer literal, got {:?}", other),
    }
}

#[test]
fn test_float_to_string_conversion() {
    let f = ShenNode::Literal {
        value: ShenValue::Float(ShenNumber::from_literal("2.50").unwrap()),
    };
    match f.try_convert(&ShenType::String) {
        Some(ShenNode::Literal {
            value: ShenValue::String(s),
        }) => assert_eq!(s, "2.5"),
        other => panic!("Expected a string literal, got {:?}", other),
    }
}

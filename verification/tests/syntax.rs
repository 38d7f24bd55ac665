use lucid::ast::{BinaryOp, ClassMember, Expr, LiteralValue, Stmt, TypeExpr};
use lucid::lexer::Lexer;
use lucid::parse;
use lucid::parser::Parser;
use lucid::token::TokenKind;

#[test]
fn test_lex_basic_tokens() {
    let src = "true false none 42 3.14 \"hello\"";
    let mut lexer = Lexer::new(src);
    let tokens = lexer.tokenize().unwrap();
    assert_eq!(tokens[0].kind, TokenKind::True);
    assert_eq!(tokens[1].kind, TokenKind::False);
    assert_eq!(tokens[2].kind, TokenKind::NoneKw);
    assert_eq!(tokens[3].kind, TokenKind::Int(42));
    assert_eq!(tokens[4].kind, TokenKind::Float("3.14".to_string()));
    assert_eq!(tokens[5].kind, TokenKind::Str("hello".to_string()));
}

#[test]
fn test_lex_lucid_keywords_and_sigils() {
    let src = "interface trait class factory construct *** ? -> ! &";
    let mut lexer = Lexer::new(src);
    let tokens = lexer.tokenize().unwrap();
    assert_eq!(tokens[0].kind, TokenKind::Interface);
    assert_eq!(tokens[1].kind, TokenKind::Trait);
    assert_eq!(tokens[2].kind, TokenKind::Class);
    assert_eq!(tokens[3].kind, TokenKind::Factory);
    assert_eq!(tokens[4].kind, TokenKind::Construct);
    assert_eq!(tokens[5].kind, TokenKind::TripleStar);
    assert_eq!(tokens[6].kind, TokenKind::Question);
    assert_eq!(tokens[7].kind, TokenKind::Arrow);
    assert_eq!(tokens[8].kind, TokenKind::Bang);
    assert_eq!(tokens[9].kind, TokenKind::Amp);
}

#[test]
fn test_parse_class_with_factory_and_views() {
    let src = r#"
export class Point:
    x: float
    y: float

    factory origin(cls) -> Point:
        return construct(0.0, 0.0)

    def dist(self: &Self) -> float:
        return self.x + self.y
"#;
    let module = parse(src).unwrap();
    assert_eq!(module.statements.len(), 1);
    match &module.statements[0] {
        Stmt::Export(inner) => match inner.as_ref() {
            Stmt::ClassDef { name, body, .. } => {
                assert_eq!(name, "Point");
                assert_eq!(body.len(), 4);
            }
            _ => panic!("expected class def"),
        },
        _ => panic!("expected export"),
    }
}

#[test]
fn test_parse_pattern_matching_and_results() {
    let src = r#"
def process(x: int | none) -> int:
    match x:
        case int:
            return x + 1
        case none:
            return 0
"#;
    let module = parse(src).unwrap();
    assert_eq!(module.statements.len(), 1);
}

#[test]
fn test_parse_readme_example() {
    let src = r#"
export interface Scorable[+K]:
    def score(self, item: K) -> float

export trait ScoreBands[+K](Scorable[K]):
    def is_confident(self, item: K) -> bool:
        return self.score(item) >= 0.8

export class InferenceModel[=K](Scorable[K], ScoreBands[K]):
    weights: Tensor
    labels: list[K]
    scores: dict[K, float]

    factory from_checkpoint(cls, path: Path, labels: list[K]):
        weights = Tensor.load(path)
        return construct(weights, labels, {:})

    def score(self, item: K) -> float:
        return 0.95
"#;
    let module = parse(src).unwrap();
    assert_eq!(module.statements.len(), 3);
}

#[test]
fn test_collections_rejection_of_adjacent_string_concatenation() {
    let src = r#"path = "/api/" "users""#;
    let res = parse(src);
    assert!(res.is_err(), "Lucid must reject implicit adjacent string literal concatenation");
}

#[test]
fn test_lex_indents_and_dedents_balance() {
    let src = "def f():\n    if x:\n        return 1\n    return 2\nclass A:\n    pass\n";
    let mut lexer = Lexer::new(src);
    let tokens = lexer.tokenize().unwrap();
    let mut depth: i64 = 0;
    let mut deepest: i64 = 0;
    for t in &tokens {
        match t.kind {
            TokenKind::Indent => depth += 1,
            TokenKind::Dedent => depth -= 1,
            _ => {}
        }
        assert!(depth >= 0);
        if depth > deepest {
            deepest = depth;
        }
    }
    assert_eq!(depth, 0);
    assert_eq!(deepest, 2);
    assert_eq!(tokens.last().unwrap().kind, TokenKind::Eof);
}

#[test]
fn test_lex_unclosed_blocks_are_closed_at_end_of_input() {
    let src = "def f():\n    if x:\n        return 1";
    let mut lexer = Lexer::new(src);
    let tokens = lexer.tokenize().unwrap();
    let dedents = tokens.iter().filter(|t| t.kind == TokenKind::Dedent).count();
    let indents = tokens.iter().filter(|t| t.kind == TokenKind::Indent).count();
    assert_eq!(indents, 2);
    assert_eq!(dedents, 2);
}

#[test]
fn test_lone_literal_parses_to_itself() {
    for (src, expected) in [
        ("42\n", LiteralValue::Int(42)),
        ("\"hi\"\n", LiteralValue::Str("hi".to_string())),
        ("none\n", LiteralValue::NoneLit),
        ("true,", LiteralValue::Bool(true)),
    ] {
        let tokens = Lexer::new(src).tokenize().unwrap();
        let span = tokens[0].span;
        let mut parser = Parser::new(tokens);
        let e = parser.parse_expr().unwrap();
        assert_eq!(e, Expr::Literal { value: expected, span });
    }
}

#[test]
fn test_lex_identifiers_numbers_and_operators_keep_their_text() {
    let mut lexer = Lexer::new("count_2 = 1_000 ** x // 3");
    let tokens = lexer.tokenize().unwrap();
    assert_eq!(tokens[0].kind, TokenKind::Ident("count_2".to_string()));
    assert_eq!(tokens[1].kind, TokenKind::Eq);
    assert_eq!(tokens[2].kind, TokenKind::Int(1000));
    assert_eq!(tokens[3].kind, TokenKind::DoubleStar);
    assert_eq!(tokens[4].kind, TokenKind::Ident("x".to_string()));
    assert_eq!(tokens[5].kind, TokenKind::DoubleSlash);
    assert_eq!(tokens[6].kind, TokenKind::Int(3));
    assert_eq!(tokens[2].span.start, 10);
    assert_eq!(tokens[2].span.end, 15);
}

#[test]
fn test_lex_string_escapes_and_triple_quotes() {
    let mut lexer = Lexer::new("\"a\\nb\" 'it\\'s' \"\"\"x\"y\"\"\" \"q\\z\" r\"raw\"");
    let tokens = lexer.tokenize().unwrap();
    assert_eq!(tokens[0].kind, TokenKind::Str("a\nb".to_string()));
    assert_eq!(tokens[1].kind, TokenKind::Str("it's".to_string()));
    assert_eq!(tokens[2].kind, TokenKind::Str("x\"y".to_string()));
    assert_eq!(tokens[3].kind, TokenKind::Str("q\\z".to_string()));
    assert_eq!(tokens[4].kind, TokenKind::Str("raw".to_string()));
}

#[test]
fn test_lex_unterminated_string_is_an_error() {
    let mut lexer = Lexer::new("x = \"abc");
    let err = lexer.tokenize().unwrap_err();
    assert_eq!(err.message, "unterminated string literal");
}

#[test]
fn test_lone_name_parses_to_itself() {
    let tokens = Lexer::new("total)").tokenize().unwrap();
    let span = tokens[0].span;
    let mut parser = Parser::new(tokens);
    let e = parser.parse_expr().unwrap();
    assert_eq!(e, Expr::Ident { name: "total".to_string(), span });
}

fn parse_one_expr(src: &str) -> Expr {
    let tokens = Lexer::new(src).tokenize().unwrap();
    let mut parser = Parser::new(tokens);
    parser.parse_expr().unwrap()
}

fn int_value(e: &Expr) -> i64 {
    match e {
        Expr::Literal { value: LiteralValue::Int(n), .. } => *n,
        other => panic!("not an integer literal: {other:?}"),
    }
}

#[test]
fn test_subtraction_associates_to_the_left() {
    match parse_one_expr("1 - 2 - 3\n") {
        Expr::Binary { op: BinaryOp::Sub, left, right, .. } => {
            assert_eq!(int_value(&right), 3);
            match *left {
                Expr::Binary { op: BinaryOp::Sub, left: l, right: r, .. } => {
                    assert_eq!(int_value(&l), 1);
                    assert_eq!(int_value(&r), 2);
                },
                other => panic!("unexpected {other:?}"),
            }
        },
        other => panic!("unexpected {other:?}"),
    }
}

#[test]
fn test_multiplication_binds_tighter_than_addition() {
    match parse_one_expr("1 + 2 * 3\n") {
        Expr::Binary { op: BinaryOp::Add, left, right, .. } => {
            assert_eq!(int_value(&left), 1);
            match *right {
                Expr::Binary { op: BinaryOp::Mul, left: l, right: r, .. } => {
                    assert_eq!(int_value(&l), 2);
                    assert_eq!(int_value(&r), 3);
                },
                other => panic!("unexpected {other:?}"),
            }
        },
        other => panic!("unexpected {other:?}"),
    }
}

#[test]
fn test_simple_statements_parse_to_themselves() {
    let tokens = Lexer::new("break\n").tokenize().unwrap();
    let span = tokens[0].span;
    let mut parser = Parser::new(tokens);
    assert_eq!(parser.parse_statement().unwrap(), Stmt::Break(span));

    let tokens = Lexer::new("return\n").tokenize().unwrap();
    let span = tokens[0].span;
    let mut parser = Parser::new(tokens);
    assert_eq!(parser.parse_statement().unwrap(), Stmt::Return { value: None, span });

    let tokens = Lexer::new("return x - 1\n").tokenize().unwrap();
    let span = tokens[0].span;
    let mut parser = Parser::new(tokens);
    match parser.parse_statement().unwrap() {
        Stmt::Return { value: Some(Expr::Binary { op: BinaryOp::Sub, .. }), span: s } => assert_eq!(s, span),
        other => panic!("unexpected {other:?}"),
    }
}

#[test]
fn test_module_of_simple_statements() {
    let module = parse("pass\n\nbreak\nreturn 1 + 2 * x\n").unwrap();
    assert_eq!(module.statements.len(), 3);
    assert!(matches!(module.statements[0], Stmt::Pass(_)));
    assert!(matches!(module.statements[1], Stmt::Break(_)));
    match &module.statements[2] {
        Stmt::Return { value: Some(Expr::Binary { op: BinaryOp::Add, right, .. }), .. } => {
            assert!(matches!(**right, Expr::Binary { op: BinaryOp::Mul, .. }));
        },
        other => panic!("unexpected {other:?}"),
    }
}

#[test]
fn test_module_of_assignments_and_expressions() {
    let module = parse("x = 1 + 2\nx += 3 * y\nx - 1\n").unwrap();
    assert_eq!(module.statements.len(), 3);
    match &module.statements[0] {
        Stmt::Assignment { target: Expr::Ident { name, .. }, value: Expr::Binary { op: BinaryOp::Add, .. }, .. } => {
            assert_eq!(name, "x");
        },
        other => panic!("unexpected {other:?}"),
    }
    match &module.statements[1] {
        Stmt::AugAssign { op: BinaryOp::Add, value: Expr::Binary { op: BinaryOp::Mul, .. }, .. } => {},
        other => panic!("unexpected {other:?}"),
    }
    assert!(matches!(module.statements[2], Stmt::Expr(Expr::Binary { op: BinaryOp::Sub, .. })));
}

#[test]
fn test_union_of_names_is_flat() {
    let tokens = Lexer::new("int | str | float)").tokenize().unwrap();
    let mut parser = Parser::new(tokens);
    match parser.parse_type_expr().unwrap() {
        TypeExpr::Union { types, .. } => {
            let names: Vec<String> = types
                .iter()
                .map(|t| match t {
                    TypeExpr::Named { name, args, .. } if args.is_empty() => name.clone(),
                    other => panic!("unexpected {other:?}"),
                })
                .collect();
            assert_eq!(names, vec!["int".to_string(), "str".to_string(), "float".to_string()]);
        },
        other => panic!("unexpected {other:?}"),
    }
}

#[test]
fn test_class_fields_parse_to_their_declarations() {
    let module = parse("class P:\n    x: int\n    y: int | str = 3\n").unwrap();
    match &module.statements[0] {
        Stmt::ClassDef { body, .. } => {
            assert_eq!(body.len(), 2);
            match &body[0] {
                ClassMember::Field(fd) => {
                    assert_eq!(fd.name, "x");
                    assert!(matches!(&fd.type_annotation, TypeExpr::Named { name, args, .. } if name == "int" && args.is_empty()));
                    assert!(fd.default.is_none());
                },
                other => panic!("unexpected {other:?}"),
            }
            match &body[1] {
                ClassMember::Field(fd) => {
                    assert_eq!(fd.name, "y");
                    assert!(matches!(&fd.type_annotation, TypeExpr::Union { types, .. } if types.len() == 2));
                    assert!(matches!(fd.default, Some(Expr::Literal { value: LiteralValue::Int(3), .. })));
                },
                other => panic!("unexpected {other:?}"),
            }
        },
        other => panic!("unexpected {other:?}"),
    }
}

#[test]
fn test_union_type_spans_cover_their_members() {
    let tokens = Lexer::new("int | str\n").tokenize().unwrap();
    let (a, b) = (tokens[0].span, tokens[2].span);
    let mut parser = Parser::new(tokens);
    match parser.parse_type_expr().unwrap() {
        TypeExpr::Union { types, span } => {
            assert_eq!(types.len(), 2);
            assert_eq!(types[0].span(), a);
            assert_eq!(types[1].span(), b);
            assert_eq!(span, a.merge(b));
            assert_eq!((span.start, span.end), (0, 9));
        }
        other => panic!("expected a union, got {:?}", other),
    }
}

#[test]
fn test_generic_type_keeps_its_arguments() {
    let tokens = Lexer::new("dict[str, int]\n").tokenize().unwrap();
    let mut parser = Parser::new(tokens);
    match parser.parse_type_expr().unwrap() {
        TypeExpr::Named { name, args, span } => {
            assert_eq!(name, "dict");
            assert_eq!(args.len(), 2);
            assert!(matches!(&args[0], TypeExpr::Named { name, args, .. } if name == "str" && args.is_empty()));
            assert!(matches!(&args[1], TypeExpr::Named { name, args, .. } if name == "int" && args.is_empty()));
            assert_eq!((span.start, span.end), (0, 14));
        }
        other => panic!("expected a named type, got {:?}", other),
    }
}

#[test]
fn test_list_literal_keeps_element_order() {
    let tokens = Lexer::new("[1, 2, 3,]\n").tokenize().unwrap();
    let mut parser = Parser::new(tokens);
    match parser.parse_expr().unwrap() {
        Expr::List { elements, span } => {
            let values: Vec<i64> = elements
                .iter()
                .map(|e| match e {
                    Expr::Literal { value: LiteralValue::Int(n), .. } => *n,
                    other => panic!("expected an integer, got {:?}", other),
                })
                .collect();
            assert_eq!(values, vec![1, 2, 3]);
            assert_eq!((span.start, span.end), (0, 10));
        }
        other => panic!("expected a list, got {:?}", other),
    }
}

#[test]
fn test_set_literal_keeps_element_order() {
    let tokens = Lexer::new("{1, 2}\n").tokenize().unwrap();
    let mut parser = Parser::new(tokens);
    match parser.parse_expr().unwrap() {
        Expr::SetLiteral { elements, span } => {
            assert_eq!(elements.len(), 2);
            assert!(matches!(elements[0], Expr::Literal { value: LiteralValue::Int(1), .. }));
            assert!(matches!(elements[1], Expr::Literal { value: LiteralValue::Int(2), .. }));
            assert_eq!((span.start, span.end), (0, 6));
        }
        other => panic!("expected a set, got {:?}", other),
    }
}

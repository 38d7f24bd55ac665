use lucid::ast::{ClassMember, Expr, LiteralValue, Pattern, Stmt, TypeAliasValue, TypeExpr};
use lucid::lexer::Lexer;
use lucid::parse;
use lucid::token::TokenKind;

fn ident_name(e: &Expr) -> String {
    match e {
        Expr::Ident { name, .. } => name.clone(),
        other => panic!("unexpected {other:?}"),
    }
}

#[test]
fn test_empty_source_is_an_empty_module() {
    let tokens = Lexer::new("").tokenize().unwrap();
    assert_eq!(tokens.len(), 1);
    assert!(matches!(tokens[0].kind, TokenKind::Eof));
    let module = parse("").unwrap();
    assert_eq!(module.statements.len(), 0);
}

#[test]
fn test_end_of_input_closes_open_levels() {
    let tokens = Lexer::new("if a:\n    pass").tokenize().unwrap();
    let n = tokens.len();
    assert!(matches!(tokens[n - 1].kind, TokenKind::Eof));
    assert!(matches!(tokens[n - 2].kind, TokenKind::Dedent));
}

#[test]
fn test_loops_parse_to_their_parts() {
    let module = parse("while x:\n    pass\nfor i in xs:\n    break\n").unwrap();
    assert_eq!(module.statements.len(), 2);
    match &module.statements[0] {
        Stmt::While { condition, body, if_broken, .. } => {
            assert_eq!(ident_name(condition), "x");
            assert_eq!(body.len(), 1);
            assert!(matches!(body[0], Stmt::Pass(_)));
            assert!(if_broken.is_none());
        },
        other => panic!("unexpected {other:?}"),
    }
    match &module.statements[1] {
        Stmt::For { target: Pattern::Ident(name, _), iterable, body, if_broken, .. } => {
            assert_eq!(name, "i");
            assert_eq!(ident_name(iterable), "xs");
            assert!(matches!(body[0], Stmt::Break(_)));
            assert!(if_broken.is_none());
        },
        other => panic!("unexpected {other:?}"),
    }
}

#[test]
fn test_if_else_parses_to_both_branches() {
    let module = parse("if a:\n    pass\nelse:\n    break\n").unwrap();
    match &module.statements[0] {
        Stmt::If { condition, then_branch, elif_branches, else_branch: Some(eb), .. } => {
            assert_eq!(ident_name(condition), "a");
            assert!(matches!(then_branch[0], Stmt::Pass(_)));
            assert!(elif_branches.is_empty());
            assert!(matches!(eb[0], Stmt::Break(_)));
        },
        other => panic!("unexpected {other:?}"),
    }
}

#[test]
fn test_let_binds_a_pattern_to_a_value() {
    let module = parse("let y = 1\nlet _ = z\n").unwrap();
    match &module.statements[0] {
        Stmt::VarDef { pattern: Pattern::Ident(name, _), type_annotation: None, value: Some(Expr::Literal { .. }), is_let, is_final, .. } => {
            assert_eq!(name, "y");
            assert!(*is_let);
            assert!(!*is_final);
        },
        other => panic!("unexpected {other:?}"),
    }
    assert!(matches!(module.statements[1], Stmt::VarDef { pattern: Pattern::Wildcard(_), .. }));
}

#[test]
fn test_imports_keep_their_dotted_names() {
    let module = parse("import a.b.c\nfrom m.n import x\n").unwrap();
    match &module.statements[0] {
        Stmt::Import { module, alias, .. } => {
            assert_eq!(module, "a.b.c");
            assert!(alias.is_none());
        },
        other => panic!("unexpected {other:?}"),
    }
    match &module.statements[1] {
        Stmt::FromImport { module, names, is_export, .. } => {
            assert_eq!(module, "m.n");
            assert_eq!(names.len(), 1);
            assert_eq!(names[0].0, "x");
            assert!(names[0].1.is_none());
            assert!(!*is_export);
        },
        other => panic!("unexpected {other:?}"),
    }
}

#[test]
fn test_try_with_one_handler() {
    let module = parse("try:\n    pass\nexcept ValueError:\n    break\n").unwrap();
    match &module.statements[0] {
        Stmt::Try { body, handlers, finally_body, .. } => {
            assert!(matches!(body[0], Stmt::Pass(_)));
            assert_eq!(handlers.len(), 1);
            assert!(matches!(&handlers[0].exception_type, TypeExpr::Named { name, .. } if name == "ValueError"));
            assert!(handlers[0].name.is_none());
            assert!(matches!(handlers[0].body[0], Stmt::Break(_)));
            assert!(finally_body.is_none());
        },
        other => panic!("unexpected {other:?}"),
    }
}

#[test]
fn test_match_with_one_literal_arm() {
    let module = parse("match x:\n    case 1:\n        pass\n").unwrap();
    match &module.statements[0] {
        Stmt::Match { subject, subject_alias, arms, .. } => {
            assert_eq!(ident_name(subject), "x");
            assert!(subject_alias.is_none());
            assert_eq!(arms.len(), 1);
            assert!(matches!(arms[0].pattern, Pattern::Literal(LiteralValue::Int(1), _)));
            assert!(arms[0].guard.is_none());
            assert!(matches!(arms[0].body[0], Stmt::Pass(_)));
        },
        other => panic!("unexpected {other:?}"),
    }
}

#[test]
fn test_plain_function_and_type_alias() {
    let module = parse("def f():\n    pass\ntype T = int | str\n").unwrap();
    match &module.statements[0] {
        Stmt::Function(fd) => {
            assert_eq!(fd.name, "f");
            assert!(fd.params.is_empty());
            assert!(fd.type_params.is_empty());
            assert!(fd.return_type.is_none());
            assert!(matches!(fd.body[0], Stmt::Pass(_)));
            assert!(!fd.is_dispatch);
        },
        other => panic!("unexpected {other:?}"),
    }
    match &module.statements[1] {
        Stmt::TypeAlias { name, type_params, value: TypeAliasValue::Direct(TypeExpr::Union { types, .. }), .. } => {
            assert_eq!(name, "T");
            assert!(type_params.is_empty());
            assert_eq!(types.len(), 2);
        },
        other => panic!("unexpected {other:?}"),
    }
}

#[test]
fn test_class_with_one_field_and_interface_with_pass() {
    let module = parse("class P:\n    x: int\ninterface I:\n    pass\n").unwrap();
    match &module.statements[0] {
        Stmt::ClassDef { name, body, is_sealed, is_final, .. } => {
            assert_eq!(name, "P");
            assert_eq!(body.len(), 1);
            assert!(matches!(&body[0], ClassMember::Field(fd) if fd.name == "x" && fd.default.is_none()));
            assert!(!*is_sealed);
            assert!(!*is_final);
        },
        other => panic!("unexpected {other:?}"),
    }
    match &module.statements[1] {
        Stmt::InterfaceDef { name, body, .. } => {
            assert_eq!(name, "I");
            assert_eq!(body.len(), 1);
        },
        other => panic!("unexpected {other:?}"),
    }
}

#[test]
fn test_plain_parameters_and_arguments() {
    let module = parse("def f(a, b):\n    pass\nf(x, 1)\n").unwrap();
    match &module.statements[0] {
        Stmt::Function(fd) => {
            assert_eq!(fd.params.len(), 2);
            assert_eq!(fd.params[0].name, "a");
            assert_eq!(fd.params[1].name, "b");
            for p in &fd.params {
                assert!(p.pattern.is_none() && p.type_annotation.is_none() && p.default.is_none());
                assert!(!p.is_variadic_positional && !p.is_variadic_keyword && !p.is_gather);
            }
        },
        other => panic!("unexpected {other:?}"),
    }
    match &module.statements[1] {
        Stmt::Expr(Expr::Call { args, .. }) => {
            assert_eq!(args.len(), 2);
            assert_eq!(ident_name(&args[0].value), "x");
            assert!(matches!(args[1].value, Expr::Literal { value: LiteralValue::Int(1), .. }));
            assert!(args.iter().all(|a| a.name.is_none() && !a.is_spread && !a.is_dict_spread && !a.is_gather_spread));
        },
        other => panic!("unexpected {other:?}"),
    }
}

#[test]
fn test_plain_type_parameters_and_bases() {
    let module = parse("class C[T, U](A, B):\n    x: int\n").unwrap();
    match &module.statements[0] {
        Stmt::ClassDef { type_params, bases, .. } => {
            assert_eq!(type_params.len(), 2);
            assert_eq!(type_params[0].name, "T");
            assert_eq!(type_params[1].name, "U");
            assert!(type_params.iter().all(|tp| tp.bound.is_none() && !tp.is_higher_kinded));
            assert_eq!(bases.len(), 2);
            assert!(matches!(&bases[0], TypeExpr::Named { name, args, .. } if name == "A" && args.is_empty()));
            assert!(matches!(&bases[1], TypeExpr::Named { name, args, .. } if name == "B" && args.is_empty()));
        },
        other => panic!("unexpected {other:?}"),
    }
}

#[test]
fn test_lexer_reads_tokens_inside_a_line() {
    let tokens = Lexer::new("x + y # note").tokenize().unwrap();
    assert!(matches!(&tokens[0].kind, TokenKind::Ident(n) if n == "x"));
    assert_eq!(tokens[0].span.start, 0);
    assert!(matches!(tokens[1].kind, TokenKind::Plus));
    assert_eq!(tokens[1].span.start, 2);
    assert_eq!(tokens[1].span.end, 3);
    assert!(matches!(&tokens[2].kind, TokenKind::Ident(n) if n == "y"));
    assert!(matches!(tokens[3].kind, TokenKind::Eof));
}

#[test]
fn test_lexer_rejects_a_character_that_starts_no_token() {
    let err = Lexer::new("a $").tokenize().unwrap_err();
    assert_eq!(err.message, "unexpected character '$'");
    assert_eq!(err.span.start, 2);
    assert_eq!(err.span.end, 3);
}

#[test]
fn test_unindented_lines_always_lex() {
    let tokens = Lexer::new("a = \"s\"\nprint(a, b)\n").tokenize().unwrap();
    assert!(matches!(tokens[tokens.len() - 1].kind, TokenKind::Eof));
    assert!(parse("a = \"s\"\nprint(a, b)\n").is_ok());
}

#[test]
fn test_empty_and_one_atom_brackets() {
    let module = parse("{}\n{:}\n[]\n[x]\n()\n(x)\n").unwrap();
    assert!(matches!(&module.statements[0], Stmt::Expr(Expr::SetLiteral { elements, .. }) if elements.is_empty()));
    assert!(matches!(&module.statements[1], Stmt::Expr(Expr::Dict { entries, .. }) if entries.is_empty()));
    assert!(matches!(&module.statements[2], Stmt::Expr(Expr::List { elements, .. }) if elements.is_empty()));
    assert!(matches!(&module.statements[3], Stmt::Expr(Expr::List { elements, .. }) if elements.len() == 1));
    assert!(matches!(&module.statements[4], Stmt::Expr(Expr::Record { fields, .. }) if fields.is_empty()));
    assert_eq!(ident_name(match &module.statements[5] {
        Stmt::Expr(e) => e,
        other => panic!("unexpected {other:?}"),
    }), "x");
}

#[test]
fn test_mutability_views_of_names() {
    let mut parser = lucid::parser::Parser::new(Lexer::new("!int").tokenize().unwrap());
    match parser.parse_type_expr().unwrap() {
        TypeExpr::View { mutability, inner, .. } => {
            assert_eq!(mutability, lucid::ast::MutabilityView::Immutable);
            assert!(matches!(*inner, TypeExpr::Named { ref name, .. } if name == "int"));
        },
        other => panic!("unexpected {other:?}"),
    }
    let mut parser = lucid::parser::Parser::new(Lexer::new("&str").tokenize().unwrap());
    match parser.parse_type_expr().unwrap() {
        TypeExpr::View { mutability, .. } => assert_eq!(mutability, lucid::ast::MutabilityView::ReadOnly),
        other => panic!("unexpected {other:?}"),
    }
}

#[test]
fn test_class_methods_and_factories() {
    let module = parse("class P:\n    factory make(a, b):\n        pass\n    def f():\n        pass\n").unwrap();
    match &module.statements[0] {
        Stmt::ClassDef { body, .. } => {
            assert_eq!(body.len(), 2);
            match &body[0] {
                ClassMember::Factory(fd) => {
                    assert_eq!(fd.name, "make");
                    assert_eq!(fd.params.len(), 2);
                    assert!(fd.return_type.is_none());
                },
                other => panic!("unexpected {other:?}"),
            }
            assert!(matches!(&body[1], ClassMember::Method(fd) if fd.name == "f" && !fd.is_override));
        },
        other => panic!("unexpected {other:?}"),
    }
}

#[test]
fn test_unindented_lines_with_integers_lex() {
    let tokens = Lexer::new("true false none 42 \"hello\"").tokenize().unwrap();
    assert!(matches!(tokens[0].kind, TokenKind::True));
    assert!(matches!(tokens[1].kind, TokenKind::False));
    assert!(matches!(tokens[2].kind, TokenKind::NoneKw));
    assert!(matches!(tokens[3].kind, TokenKind::Int(42)));
    assert!(matches!(&tokens[4].kind, TokenKind::Str(s) if s == "hello"));
    let tokens = Lexer::new("n = 1_000\n").tokenize().unwrap();
    assert!(matches!(tokens[2].kind, TokenKind::Int(1000)));
}

#[test]
fn test_float_literals_in_unindented_lines_lex() {
    let tokens = Lexer::new("true false none 42 3.14 \"hello\"").tokenize().unwrap();
    assert!(matches!(tokens[3].kind, TokenKind::Int(42)));
    assert!(matches!(&tokens[4].kind, TokenKind::Float(t) if t == "3.14"));
    assert!(matches!(&tokens[5].kind, TokenKind::Str(s) if s == "hello"));
}

#[test]
fn test_unterminated_string_error_spans_to_end_of_input() {
    let err = Lexer::new("\"abc").next_token().unwrap_err();
    assert_eq!(err.message, "unterminated string literal");
    assert_eq!((err.span.start, err.span.end, err.span.line, err.span.column), (0, 4, 1, 1));
}

#[test]
fn test_block_lexes_to_indent_and_dedent() {
    let kinds: Vec<TokenKind> = Lexer::new("if x:\n    y\n").tokenize().unwrap().into_iter().map(|t| t.kind).collect();
    assert_eq!(
        kinds,
        vec![
            TokenKind::If,
            TokenKind::Ident("x".into()),
            TokenKind::Colon,
            TokenKind::Newline,
            TokenKind::Indent,
            TokenKind::Ident("y".into()),
            TokenKind::Newline,
            TokenKind::Dedent,
            TokenKind::Eof,
        ]
    );
}

#[test]
fn test_unindent_to_no_open_level_is_an_error() {
    let err = Lexer::new("if x:\n    y\n  z\n").tokenize().unwrap_err();
    assert_eq!(err.message, "unindent does not match any outer indentation level (2 spaces)");
    assert_eq!((err.span.start, err.span.end, err.span.line, err.span.column), (12, 14, 3, 1));
}

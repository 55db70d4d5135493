use minic::ast::{ExprNode, StmtNode};
use minic::lexer::{Aides, DefaultLexer, KeyWord, LexerError, Operator, Token, Unclosed};
use minic::parser::{parse_bytes, ParseError, Parser};

fn parser_over(src: &str) -> Parser {
    let mut p = Parser::new(DefaultLexer::new(src.as_bytes().to_vec()));
    p.read_token();
    p
}

fn ident_name(e: &ExprNode) -> &str {
    match e {
        ExprNode::IdentExpr(i) => i.name.as_str(),
        other => panic!("not an identifier: {:?}", other),
    }
}

#[test]
fn declaration_parsing() {
    let v = parser_over("int a, b;").parse_var_define().unwrap();
    let names: Vec<&str> = v.names.iter().map(|i| i.name.as_str()).collect();
    assert_eq!(names, vec!["a", "b"]);
    assert_eq!(v.typ, KeyWord::Int);
}

#[test]
fn declaration_without_semicolon() {
    match parser_over("int a, b").parse_var_define() {
        Err(ParseError::Expect(t)) => assert_eq!(t, Token::Aide(Aides::Semicolon)),
        other => panic!("unexpected {:?}", other),
    }
}

#[test]
fn declaration_missing_name() {
    assert!(matches!(parser_over("int ;").parse_var_define(), Err(ParseError::NoFoundIdent)));
    assert!(matches!(parser_over("int a, ;").parse_var_define(), Err(ParseError::NoFoundIdent)));
}

#[test]
fn declaration_missing_type() {
    assert!(matches!(parser_over("fn a;").parse_var_define(), Err(ParseError::NoFoundType)));
}

#[test]
fn precedence_of_star_over_plus() {
    let e = parser_over("a + b * c").parse_expr().unwrap();
    match e {
        ExprNode::BinaryExpr(top) => {
            assert_eq!(top.op, Token::Oper(Operator::Add));
            assert_eq!(ident_name(&top.x), "a");
            match *top.y {
                ExprNode::BinaryExpr(ref inner) => {
                    assert_eq!(inner.op, Token::Oper(Operator::Star));
                    assert_eq!(ident_name(&inner.x), "b");
                    assert_eq!(ident_name(&inner.y), "c");
                },
                ref other => panic!("right side {:?}", other),
            }
        },
        other => panic!("unexpected {:?}", other),
    }
}

#[test]
fn parentheses_group_first() {
    let e = parser_over("(a + b) * c").parse_expr().unwrap();
    match e {
        ExprNode::BinaryExpr(top) => {
            assert_eq!(top.op, Token::Oper(Operator::Star));
            assert_eq!(ident_name(&top.y), "c");
            match *top.x {
                ExprNode::ParenExpr(ref p) => match *p.x {
                    ExprNode::BinaryExpr(ref inner) => {
                        assert_eq!(inner.op, Token::Oper(Operator::Add));
                        assert_eq!(ident_name(&inner.x), "a");
                        assert_eq!(ident_name(&inner.y), "b");
                    },
                    ref other => panic!("inside parentheses {:?}", other),
                },
                ref other => panic!("left side {:?}", other),
            }
        },
        other => panic!("unexpected {:?}", other),
    }
}

#[test]
fn equal_strength_groups_left() {
    let e = parser_over("a - b - c").parse_expr().unwrap();
    match e {
        ExprNode::BinaryExpr(top) => {
            assert_eq!(top.op, Token::Oper(Operator::Sub));
            assert_eq!(ident_name(&top.y), "c");
            match *top.x {
                ExprNode::BinaryExpr(ref inner) => {
                    assert_eq!(ident_name(&inner.x), "a");
                    assert_eq!(ident_name(&inner.y), "b");
                },
                ref other => panic!("left side {:?}", other),
            }
        },
        other => panic!("unexpected {:?}", other),
    }
}

#[test]
fn logic_binds_loosest() {
    let e = parser_over("a == b || c < d").parse_expr().unwrap();
    match e {
        ExprNode::BinaryExpr(top) => {
            assert_eq!(top.op, Token::Oper(Operator::LogicOr));
            assert!(matches!(*top.x, ExprNode::BinaryExpr(ref l) if l.op == Token::Oper(Operator::Equal)));
            assert!(matches!(*top.y, ExprNode::BinaryExpr(ref r) if r.op == Token::Oper(Operator::Less)));
        },
        other => panic!("unexpected {:?}", other),
    }
}

#[test]
fn unary_signs() {
    let e = parser_over("-+a").parse_expr().unwrap();
    match e {
        ExprNode::UnaryExpr(u) => {
            assert_eq!(u.op, Token::Oper(Operator::Sub));
            match *u.x {
                ExprNode::UnaryExpr(ref v) => {
                    assert_eq!(v.op, Token::Oper(Operator::Add));
                    assert_eq!(ident_name(&v.x), "a");
                },
                ref other => panic!("operand {:?}", other),
            }
        },
        other => panic!("unexpected {:?}", other),
    }
}

#[test]
fn operand_missing() {
    assert!(matches!(parser_over(";").parse_expr(), Err(ParseError::NoFoundType)));
    assert!(matches!(parser_over("a +").parse_expr(), Err(ParseError::NoFoundType)));
}

#[test]
fn parenthesis_not_closed() {
    match parser_over("(a + b").parse_expr() {
        Err(ParseError::Expect(t)) => assert_eq!(t, Token::Oper(Operator::RightParen)),
        other => panic!("unexpected {:?}", other),
    }
}

#[test]
fn function_declaration() {
    let d = parser_over("int f(int x, int y) { int z; }").parse_function_define().unwrap();
    assert_eq!(d.typ, KeyWord::Int);
    assert_eq!(d.fn_name.name, "f");
    let params: Vec<(&str, KeyWord)> =
        d.params.iter().map(|p| (p.ident.name.as_str(), p.typ)).collect();
    assert_eq!(params, vec![("x", KeyWord::Int), ("y", KeyWord::Int)]);
    assert_eq!(d.body.list.len(), 1);
    match &d.body.list[0] {
        StmtNode::ValueSepc(v) => {
            assert_eq!(v.names.len(), 1);
            assert_eq!(v.names[0].name, "z");
            assert_eq!(v.typ, KeyWord::Int);
        },
        other => panic!("unexpected {:?}", other),
    }
}

#[test]
fn function_declaration_at_top_level() {
    let ast = parse_bytes(b"fn int f(int x, int y) { int z; }".to_vec());
    assert!(ast.errors.is_empty());
    assert!(ast.decls.list.is_empty());
    assert_eq!(ast.decls.funcs.len(), 1);
    let d = &ast.decls.funcs[0];
    assert_eq!(d.fn_name.name, "f");
    assert_eq!(d.params.len(), 2);
    assert_eq!(d.params[0].ident.name, "x");
    assert_eq!(d.params[1].ident.name, "y");
    assert_eq!(d.body.list.len(), 1);
}

#[test]
fn function_without_parameters() {
    let d = parser_over("float g() { }").parse_function_define().unwrap();
    assert_eq!(d.typ, KeyWord::Float);
    assert!(d.params.is_empty());
    assert!(d.body.list.is_empty());
}

#[test]
fn assignment_statement() {
    match parser_over("x = a + b;").parse_stmt().unwrap() {
        StmtNode::AssignStmt(a) => {
            assert_eq!(ident_name(&a.x), "x");
            assert_eq!(a.op, Token::Oper(Operator::Assign));
            assert!(matches!(a.y, ExprNode::BinaryExpr(_)));
        },
        other => panic!("unexpected {:?}", other),
    }
}

#[test]
fn assignment_needs_equals() {
    assert!(matches!(parser_over("x + y;").parse_stmt(), Err(ParseError::NoStmt)));
}

#[test]
fn statement_kinds() {
    assert!(matches!(parser_over("var int a;").parse_stmt(), Ok(StmtNode::ValueSepc(_))));
    assert!(matches!(parser_over("return a;").parse_stmt(), Err(ParseError::NoStmt)));
    assert!(matches!(parser_over("1;").parse_stmt(), Err(ParseError::NoStmt)));
}

#[test]
fn test_parser() {
    let s = "
        var int a,c;
        fn int b(int d,int e){
            var int f;
            f = a + b * (c + e);
        }
        ";
    let lexer = DefaultLexer::new(s.as_bytes().to_vec());
    let mut parser = Parser::new(lexer);
    let ast = parser.parse();
    assert!(ast.errors.is_empty(), "{:?}", ast.errors);
    assert_eq!(ast.decls.list.len(), 1);
    let names: Vec<&str> = ast.decls.list[0].names.iter().map(|i| i.name.as_str()).collect();
    assert_eq!(names, vec!["a", "c"]);
    assert_eq!(ast.decls.funcs.len(), 1);
    let f = &ast.decls.funcs[0];
    assert_eq!(f.fn_name.name, "b");
    assert_eq!(f.params.len(), 2);
    assert_eq!(f.body.list.len(), 2);
    match &f.body.list[1] {
        StmtNode::AssignStmt(a) => {
            assert_eq!(ident_name(&a.x), "f");
            match &a.y {
                ExprNode::BinaryExpr(top) => {
                    assert_eq!(top.op, Token::Oper(Operator::Add));
                    assert!(matches!(*top.y, ExprNode::BinaryExpr(ref m) if m.op == Token::Oper(Operator::Star)));
                },
                other => panic!("unexpected {:?}", other),
            }
        },
        other => panic!("unexpected {:?}", other),
    }
}

#[test]
fn determinism() {
    let src = b"var int a, b; fn int f(int x) { x = (a + b) * -x; }".to_vec();
    let first = parse_bytes(src.clone());
    let second = parse_bytes(src);
    assert_eq!(format!("{:?}", first), format!("{:?}", second));
    assert!(first.errors.is_empty());
}

#[test]
fn errors_are_recorded_and_parsing_resumes() {
    let ast = parse_bytes(b"var int ; var int b;".to_vec());
    assert_eq!(ast.errors.len(), 1);
    assert!(matches!(ast.errors[0].error, ParseError::NoFoundIdent));
    assert_eq!(ast.errors[0].line, 0);
    assert_eq!(ast.decls.list.len(), 1);
    assert_eq!(ast.decls.list[0].names[0].name, "b");
}

#[test]
fn stray_token_at_top_level() {
    let ast = parse_bytes(b"x var int a;".to_vec());
    assert_eq!(ast.errors.len(), 1);
    assert!(matches!(ast.errors[0].error, ParseError::NoStmt));
    assert_eq!(ast.decls.list.len(), 1);
}

#[test]
fn lexer_error_is_reported() {
    let ast = parse_bytes(b"var int a; \"abc".to_vec());
    assert_eq!(ast.decls.list.len(), 1);
    assert_eq!(ast.errors.len(), 1);
    assert!(matches!(ast.errors[0].error, ParseError::Lex(LexerError::Unterminated(Unclosed::Str))));
}

#[test]
fn empty_input() {
    let ast = parse_bytes(Vec::new());
    assert!(ast.errors.is_empty());
    assert!(ast.decls.list.is_empty());
    assert!(ast.decls.funcs.is_empty());
}

#[test]
fn errors_carry_their_line() {
    let ast = parse_bytes(b"var int a;\nvar int ;\nfn int f( { }\n".to_vec());
    assert_eq!(ast.decls.list.len(), 1);
    assert_eq!(ast.errors.len(), 2);
    assert!(matches!(ast.errors[0].error, ParseError::NoFoundIdent));
    assert_eq!(ast.errors[0].line, 1);
    assert!(matches!(ast.errors[1].error, ParseError::NoFoundType));
    assert_eq!(ast.errors[1].line, 2);
}

#[test]
fn new_reads_nothing() {
    let mut p = Parser::new(DefaultLexer::new(b"a".to_vec()));
    assert_eq!(*p.lookahead(), Token::Eof);
    p.read_token();
    assert_eq!(*p.lookahead(), Token::Ident("a".to_string()));
    p.read_token();
    assert_eq!(*p.lookahead(), Token::Eof);
}

#[test]
fn lexer_error_reaches_the_routine() {
    match parser_over("int a, \"x").parse_var_define() {
        Err(ParseError::Lex(e)) => assert_eq!(e, LexerError::Unterminated(Unclosed::Str)),
        other => panic!("unexpected {:?}", other),
    }
    match parser_over("(a /").parse_expr() {
        Err(ParseError::Lex(e)) => assert_eq!(e, LexerError::UnExpected),
        other => panic!("unexpected {:?}", other),
    }
}

#[test]
fn lexer_error_in_declaration_is_reported_once() {
    let ast = parse_bytes(b"var int a, \"x".to_vec());
    assert!(ast.decls.list.is_empty());
    assert_eq!(ast.errors.len(), 1);
    assert!(matches!(ast.errors[0].error, ParseError::Lex(LexerError::Unterminated(Unclosed::Str))));
}

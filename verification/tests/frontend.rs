//! Lexer, parser and compiler, checked against concrete programs.

use shadowjs::ast::{Expression, Statement};
use shadowjs::chunk::{Constant, OpCode};
use shadowjs::compiler::{BytecodeCompiler, CompileError};
use shadowjs::lexer::Lexer;
use shadowjs::num::POS_ZERO_BITS;
use shadowjs::parser::Parser;
use shadowjs::token::TokenType;

fn chars(s: &str) -> Vec<char> {
    s.chars().collect()
}

fn lex_all(src: &str) -> Vec<TokenType> {
    let mut lexer = Lexer::new(chars(src));
    let mut out = Vec::new();
    loop {
        let t = lexer.next_token();
        let eof = matches!(t.token_type, TokenType::EOF);
        out.push(t.token_type);
        if eof {
            break;
        }
    }
    out
}

#[test]
fn lexes_a_let_statement() {
    let toks = lex_all("let x = 10;");
    assert_eq!(toks.len(), 6);
    assert!(matches!(toks[0], TokenType::Let));
    match &toks[1] {
        TokenType::Identifier(n) => assert_eq!(n, &chars("x")),
        other => panic!("expected an identifier, got {:?}", other),
    }
    assert!(matches!(toks[2], TokenType::Assign));
    match toks[3] {
        TokenType::Number(b) => assert_eq!(b, 10.0f64.to_bits()),
        ref other => panic!("expected a number, got {:?}", other),
    }
    assert!(matches!(toks[4], TokenType::SemiColon));
    assert!(matches!(toks[5], TokenType::EOF));
}

#[test]
fn lexes_operators_and_punctuation() {
    let toks = lex_all("== = != < > + - * / ( ) { } [ ] : , .");
    let expect = [
        "Equal", "Assign", "NotEqual", "LessThan", "GreaterThan", "Plus", "Minus", "Star",
        "Slash", "LParen", "RParen", "LBrace", "RBrace", "LBracket", "RBracket", "Colon",
        "Comma", "Dot", "EOF",
    ];
    assert_eq!(toks.len(), expect.len());
    for (t, e) in toks.iter().zip(expect.iter()) {
        assert_eq!(format!("{:?}", t), *e);
    }
}

#[test]
fn lexes_keywords_and_strings() {
    let toks = lex_all("const function return if else while for \"ab\" 'cd'");
    assert!(matches!(toks[0], TokenType::Const));
    assert!(matches!(toks[1], TokenType::Function));
    assert!(matches!(toks[2], TokenType::Return));
    assert!(matches!(toks[3], TokenType::If));
    assert!(matches!(toks[4], TokenType::Else));
    assert!(matches!(toks[5], TokenType::While));
    assert!(matches!(toks[6], TokenType::For));
    match &toks[7] {
        TokenType::Str(s) => assert_eq!(s, &chars("ab")),
        other => panic!("expected a string, got {:?}", other),
    }
    match &toks[8] {
        TokenType::Str(s) => assert_eq!(s, &chars("cd")),
        other => panic!("expected a string, got {:?}", other),
    }
}

#[test]
fn malformed_number_falls_back_to_zero() {
    let toks = lex_all("1.2.3");
    match toks[0] {
        TokenType::Number(b) => assert_eq!(b, POS_ZERO_BITS),
        ref other => panic!("expected a number token, got {:?}", other),
    }
}

#[test]
fn bang_lexes_not_equal_with_lookahead() {
    // `!=` is one token; a bare `!` has no meaning of its own.
    let toks = lex_all("!= !");
    assert!(matches!(toks[0], TokenType::NotEqual));
    assert!(matches!(toks[1], TokenType::Illegal));
}

#[test]
fn comments_and_trailing_whitespace_are_transparent() {
    // a line comment swallows the rest of its line; an unterminated block
    // comment swallows the rest of the input
    let toks = lex_all("x // tail\ny");
    assert!(matches!(toks[0], TokenType::Identifier(_)));
    assert!(matches!(toks[1], TokenType::Identifier(_)));
    assert!(matches!(toks[2], TokenType::EOF));
    let toks2 = lex_all("x /* never closed");
    assert!(matches!(toks2[0], TokenType::Identifier(_)));
    assert!(matches!(toks2[1], TokenType::EOF));
    let toks3 = lex_all("x   \t  ");
    assert_eq!(toks3.len(), 2);
}

#[test]
fn unterminated_string_runs_to_the_end() {
    let toks = lex_all("\"abc");
    match &toks[0] {
        TokenType::Str(s) => assert_eq!(s, &chars("abc")),
        other => panic!("expected the rest of the input as a string, got {:?}", other),
    }
    assert!(matches!(toks[1], TokenType::EOF));
}

#[test]
fn parses_let_with_infix_precedence() {
    let mut p = Parser::new(chars("let x = 1 + 2 * 3;"));
    let prog = p.parse().expect("parses");
    assert_eq!(prog.statements.len(), 1);
    match &prog.statements[0] {
        Statement::Let { name, value } => {
            assert_eq!(name, &chars("x"));
            // 1 + (2 * 3): the product binds tighter.
            match value {
                Expression::Infix { left, operator, right } => {
                    assert_eq!(operator, &chars("+"));
                    assert!(matches!(**left, Expression::Number(_)));
                    match &**right {
                        Expression::Infix { operator, .. } => assert_eq!(operator, &chars("*")),
                        other => panic!("expected the product on the right, got {:?}", other),
                    }
                }
                other => panic!("expected an infix sum, got {:?}", other),
            }
        }
        other => panic!("expected a let statement, got {:?}", other),
    }
}

#[test]
fn parses_member_access_as_string_index() {
    let mut p = Parser::new(chars("o.name;"));
    let prog = p.parse().expect("parses");
    match &prog.statements[0] {
        Statement::Expression(Expression::Index { left, index }) => {
            assert!(matches!(**left, Expression::Identifier(_)));
            match &**index {
                Expression::Str(s) => assert_eq!(s, &chars("name")),
                other => panic!("expected the member name as a string, got {:?}", other),
            }
        }
        other => panic!("expected an index expression, got {:?}", other),
    }
}

#[test]
fn parses_if_else_and_blocks() {
    let mut p = Parser::new(chars("if (x < 1) { print(1); } else { print(2); }"));
    let prog = p.parse().expect("parses");
    assert_eq!(prog.statements.len(), 1);
    match &prog.statements[0] {
        Statement::If { condition, consequence, alternative } => {
            assert!(matches!(condition, Expression::Infix { .. }));
            assert!(matches!(**consequence, Statement::Block(_)));
            assert!(alternative.is_some());
        }
        other => panic!("expected an if statement, got {:?}", other),
    }
}

#[test]
fn parses_array_object_and_call() {
    let mut p = Parser::new(chars("f([1, 2], {a: 1, \"b\": 2});"));
    let prog = p.parse().expect("parses");
    match &prog.statements[0] {
        Statement::Expression(Expression::Call { function, arguments }) => {
            assert!(matches!(**function, Expression::Identifier(_)));
            assert_eq!(arguments.len(), 2);
            match &arguments[0] {
                Expression::Array(es) => assert_eq!(es.len(), 2),
                other => panic!("expected an array literal, got {:?}", other),
            }
            match &arguments[1] {
                Expression::Object(ps) => {
                    assert_eq!(ps.len(), 2);
                    assert_eq!(ps[0].0, chars("a"));
                    assert_eq!(ps[1].0, chars("b"));
                }
                other => panic!("expected an object literal, got {:?}", other),
            }
        }
        other => panic!("expected a call, got {:?}", other),
    }
}

#[test]
fn dropped_statement_does_not_stop_parsing() {
    // `let` without an identifier fails its production and is dropped;
    // recovery resumes at the next token, so `1;` and the call remain.
    let mut p = Parser::new(chars("let = 1; print(2);"));
    let prog = p.parse().expect("parses");
    assert_eq!(prog.statements.len(), 2);
    assert!(matches!(
        prog.statements[0],
        Statement::Expression(Expression::Number(_))
    ));
    assert!(matches!(
        prog.statements[1],
        Statement::Expression(Expression::Call { .. })
    ));
}

fn parse_program(src: &str) -> shadowjs::ast::Program {
    Parser::new(chars(src)).parse().expect("parses")
}

#[test]
fn compiles_expression_statement_to_push_and_pop() {
    let prog = parse_program("1 + 2 * 3;");
    let chunk = BytecodeCompiler::compile(&prog).expect("compiles");
    assert_eq!(
        chunk.code,
        vec![
            OpCode::Constant(0),
            OpCode::Constant(1),
            OpCode::Constant(2),
            OpCode::Mul,
            OpCode::Add,
            OpCode::Pop,
        ]
    );
    assert_eq!(chunk.constants.len(), 3);
    match chunk.constants[2] {
        Constant::Number(b) => assert_eq!(b, 3.0f64.to_bits()),
        ref other => panic!("expected a number constant, got {:?}", other),
    }
}

#[test]
fn compiles_let_to_set_global_and_pop() {
    let prog = parse_program("let x = 5;");
    let chunk = BytecodeCompiler::compile(&prog).expect("compiles");
    assert_eq!(
        chunk.code,
        vec![OpCode::Constant(0), OpCode::SetGlobal(1), OpCode::Pop]
    );
    match &chunk.constants[1] {
        Constant::Str(s) => assert_eq!(s, &chars("x")),
        other => panic!("expected the binding name, got {:?}", other),
    }
}

#[test]
fn compiles_if_else_with_forward_patched_jumps() {
    let prog = parse_program("if (1) { 2; } else { 3; }");
    let chunk = BytecodeCompiler::compile(&prog).expect("compiles");
    assert_eq!(
        chunk.code,
        vec![
            OpCode::Constant(0),
            OpCode::JumpIfFalse(5),
            OpCode::Constant(1),
            OpCode::Pop,
            OpCode::Jump(7),
            OpCode::Constant(2),
            OpCode::Pop,
        ]
    );
}

#[test]
fn compiles_array_and_index() {
    let prog = parse_program("[1, 2][0];");
    let chunk = BytecodeCompiler::compile(&prog).expect("compiles");
    assert_eq!(
        chunk.code,
        vec![
            OpCode::Constant(0),
            OpCode::Constant(1),
            OpCode::Array(2),
            OpCode::Constant(2),
            OpCode::GetIndex,
            OpCode::Pop,
        ]
    );
}

#[test]
fn compiles_object_pairs_in_order() {
    // at statement level `{` opens a block, so the literal sits in a `let`
    let prog = parse_program("let o = {a: 1, b: 2};");
    let chunk = BytecodeCompiler::compile(&prog).expect("compiles");
    assert_eq!(
        chunk.code,
        vec![
            OpCode::Constant(0),
            OpCode::Constant(1),
            OpCode::Constant(2),
            OpCode::Constant(3),
            OpCode::Object(2),
            OpCode::SetGlobal(4),
            OpCode::Pop,
        ]
    );
    match &chunk.constants[0] {
        Constant::Str(s) => assert_eq!(s, &chars("a")),
        other => panic!("expected the first key, got {:?}", other),
    }
    match &chunk.constants[4] {
        Constant::Str(s) => assert_eq!(s, &chars("o")),
        other => panic!("expected the binding name, got {:?}", other),
    }
}

#[test]
fn return_statement_is_not_compiled() {
    let prog = parse_program("return 1;");
    match BytecodeCompiler::compile(&prog) {
        Err(CompileError::UnsupportedStatement) => (),
        other => panic!("expected the unsupported-statement error, got {:?}", other),
    }
}

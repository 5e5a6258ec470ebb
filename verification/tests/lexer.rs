use lex::lexical_analysis;
use lex::Class;
use lex::Token;

fn scan_ok(code: &str) -> Vec<Token> {
    match lexical_analysis(code) {
        Ok(tokens) => tokens,
        Err(e) => panic!("scan of {:?} failed: {:?} on line {}", code, e.text, e.line),
    }
}

fn assert_single(code: &str, class: Class) {
    let tokens = scan_ok(code);
    assert_eq!(tokens.len(), 1);
    assert_eq!(tokens[0].class, class);
    assert_eq!(tokens[0].lexeme, code);
}

#[test]
fn each_keyword_scans_to_its_class() {
    assert_single("begin", Class::Begin);
    assert_single("end", Class::End);
    assert_single("call", Class::Call);
    assert_single("do", Class::Do);
    assert_single("while", Class::While);
    assert_single("if", Class::If);
    assert_single("then", Class::Then);
    assert_single("odd", Class::Odd);
    assert_single("procedure", Class::Procedure);
    assert_single("const", Class::Const);
    assert_single("var", Class::Var);
    assert_single("read", Class::Read);
    assert_single("write", Class::Write);
}

#[test]
fn keyword_beats_identifier_in_any_case() {
    assert_single("BEGIN", Class::Begin);
    assert_single("BeGiN", Class::Begin);
    assert_single("Procedure", Class::Procedure);
    assert_single("WHILE", Class::While);
}

#[test]
fn identifiers_scan_whole() {
    assert_single("x", Class::Identifies);
    assert_single("abc", Class::Identifies);
    assert_single("_tmp", Class::Identifies);
    assert_single("x1y2", Class::Identifies);
    assert_single("beginning", Class::Identifies);
    assert_single("end_", Class::Identifies);
}

#[test]
fn numbers_scan_whole() {
    assert_single("5", Class::Number);
    assert_single("123", Class::Number);
    assert_single("007", Class::Number);
}

#[test]
fn each_operator_scans_to_its_class() {
    assert_single("+", Class::Plus);
    assert_single("-", Class::Minus);
    assert_single("*", Class::Times);
    assert_single("/", Class::Slash);
    assert_single("=", Class::Equal);
    assert_single("<>", Class::Neq);
    assert_single("<=", Class::Leq);
    assert_single("<", Class::Lss);
    assert_single(">=", Class::Geq);
    assert_single(">", Class::Gtr);
    assert_single(":=", Class::Becomes);
    assert_single("(", Class::Lparen);
    assert_single(")", Class::Rparen);
    assert_single(",", Class::Comma);
    assert_single(";", Class::Semicolon);
    assert_single(".", Class::Period);
}

#[test]
fn maximal_munch_takes_leq_as_one_token() {
    let tokens = scan_ok("<=");
    assert_eq!(tokens.len(), 1);
    assert_eq!(tokens[0].class, Class::Leq);
    let split = scan_ok("< =");
    assert_eq!(split.len(), 2);
    assert_eq!(split[0].class, Class::Lss);
    assert_eq!(split[1].class, Class::Equal);
}

#[test]
fn whitespace_is_elided() {
    let tokens = scan_ok("  x  ");
    assert_eq!(tokens.len(), 1);
    assert_eq!(tokens[0].class, Class::Identifies);
    assert_eq!(tokens[0].lexeme, "x");
    for t in scan_ok(" \t\r\n x \n y \t ") {
        assert_ne!(t.class, Class::Whitespace);
    }
    assert_eq!(scan_ok("").len(), 0);
    assert_eq!(scan_ok(" \t\n\r\u{b}\u{c}").len(), 0);
    let vt = scan_ok("x\u{b}y");
    assert_eq!(vt.len(), 2);
    assert_eq!(vt[0].lexeme, "x");
    assert_eq!(vt[1].lexeme, "y");
}

#[test]
fn tokenizing_concatenation_concatenates_tokens() {
    let a = "x := 5";
    let b = "y";
    let joined = format!("{} {}", a, b);
    let ta = scan_ok(a);
    let tb = scan_ok(b);
    let tj = scan_ok(&joined);
    assert_eq!(tj.len(), ta.len() + tb.len());
    for (i, t) in ta.iter().enumerate() {
        assert_eq!(tj[i].class, t.class);
        assert_eq!(tj[i].lexeme, t.lexeme);
    }
    for (i, t) in tb.iter().enumerate() {
        assert_eq!(tj[ta.len() + i].class, t.class);
        assert_eq!(tj[ta.len() + i].lexeme, t.lexeme);
    }
}

#[test]
fn illegal_character_is_named_with_its_line() {
    match lexical_analysis("x := 5 # 3") {
        Ok(_) => panic!("scan should fail on #"),
        Err(e) => {
            assert_eq!(e.text, "#");
            assert_eq!(e.line, 1);
        },
    }
    match lexical_analysis("x\n:=\n#") {
        Ok(_) => panic!("scan should fail on #"),
        Err(e) => {
            assert_eq!(e.text, "#");
            assert_eq!(e.line, 3);
        },
    }
}

#[test]
fn offending_run_extends_to_whitespace() {
    match lexical_analysis("x @@abc? y") {
        Ok(_) => panic!("scan should fail on @@abc?"),
        Err(e) => {
            assert_eq!(e.text, "@@abc?");
            assert_eq!(e.line, 1);
        },
    }
    match lexical_analysis(":") {
        Ok(_) => panic!("a lone colon is no token"),
        Err(e) => {
            assert_eq!(e.text, ":");
            assert_eq!(e.line, 1);
        },
    }
    match lexical_analysis("caf\u{e9}") {
        Ok(_) => panic!("scan should fail on a non-ASCII character"),
        Err(e) => {
            assert_eq!(e.text, "\u{e9}");
            assert_eq!(e.line, 1);
        },
    }
}

#[test]
fn token_ending_at_end_of_input_is_emitted() {
    assert_single("abc", Class::Identifies);
    assert_single("123", Class::Number);
    let tokens = scan_ok("x:=1");
    assert_eq!(tokens.len(), 3);
    assert_eq!(tokens[2].class, Class::Number);
    assert_eq!(tokens[2].lexeme, "1");
}

#[test]
fn lexemes_round_trip_the_source_text() {
    let code = "VAR Answer;\nBEGIN Answer := 42 END.";
    let tokens = scan_ok(code);
    let classes: Vec<Class> = tokens.iter().map(|t| t.class).collect();
    assert_eq!(
        classes,
        vec![
            Class::Var,
            Class::Identifies,
            Class::Semicolon,
            Class::Begin,
            Class::Identifies,
            Class::Becomes,
            Class::Number,
            Class::End,
            Class::Period,
        ]
    );
    let lexemes: Vec<&str> = tokens.iter().map(|t| t.lexeme.as_str()).collect();
    assert_eq!(
        lexemes,
        vec!["VAR", "Answer", ";", "BEGIN", "Answer", ":=", "42", "END", "."]
    );
    for t in &tokens {
        assert!(code.contains(t.lexeme.as_str()));
    }
}

#[test]
fn number_then_letters_backtracks_to_two_tokens() {
    let tokens = scan_ok("123abc");
    assert_eq!(tokens.len(), 2);
    assert_eq!(tokens[0].class, Class::Number);
    assert_eq!(tokens[0].lexeme, "123");
    assert_eq!(tokens[1].class, Class::Identifies);
    assert_eq!(tokens[1].lexeme, "abc");
}

#[test]
fn small_program_scans() {
    let code = "const m = 7;\nvar x, y;\nbegin\n  read(x);\n  y := x * m;\n  write(y)\nend.";
    let tokens = scan_ok(code);
    assert_eq!(tokens[0].class, Class::Const);
    assert_eq!(tokens.last().unwrap().class, Class::Period);
    assert_eq!(tokens.len(), 28);
}

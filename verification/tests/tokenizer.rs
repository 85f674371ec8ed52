use hack_toolchain::translator::lexer::Lexer;
use hack_toolchain::translator::tokens::{Token, TokenKind};

fn chars(text: &str) -> Vec<char> {
    text.chars().collect()
}

fn kinds(source: &str) -> Vec<TokenKind> {
    Lexer::new(source)
        .list_all_tokens()
        .iter()
        .map(|token| token.kind)
        .collect()
}

fn texts(source: &str) -> Vec<String> {
    Lexer::new(source)
        .list_all_tokens()
        .iter()
        .map(|token| token.text.iter().collect())
        .collect()
}

fn assert_token(token: &Token, kind: TokenKind, text: &str, beg: (usize, usize), end: (usize, usize)) {
    assert_eq!(token.kind, kind);
    assert_eq!(token.text, chars(text));
    assert_eq!((token.beg_row, token.beg_col), beg);
    assert_eq!((token.end_row, token.end_col), end);
}

#[test]
fn empty_source_is_one_end_of_file() {
    let tokens = Lexer::new("").list_all_tokens();
    assert_eq!(tokens.len(), 1);
    assert_token(&tokens[0], TokenKind::EndOfFile, "", (0, 0), (0, 0));
}

#[test]
fn end_of_file_comes_again_and_again() {
    let mut lexer = Lexer::new("add");
    assert_eq!(lexer.next_token().kind, TokenKind::Add);
    assert_eq!(lexer.next_token().kind, TokenKind::EndOfFile);
    assert_eq!(lexer.next_token().kind, TokenKind::EndOfFile);
}

#[test]
fn a_push_line_has_three_tokens_and_an_end() {
    let tokens = Lexer::new("push constant 17\n").list_all_tokens();
    assert_eq!(tokens.len(), 5);
    assert_token(&tokens[0], TokenKind::Push, "push", (1, 1), (1, 4));
    assert_token(&tokens[1], TokenKind::Constant, "constant", (1, 6), (1, 13));
    assert_token(&tokens[2], TokenKind::Number, "17", (1, 15), (1, 16));
    assert_token(&tokens[3], TokenKind::EndOfLine, "\n", (1, 17), (1, 17));
    assert_token(&tokens[4], TokenKind::EndOfFile, "", (0, 0), (0, 0));
}

#[test]
fn rows_go_up_and_columns_start_again_after_a_line_feed() {
    let tokens = Lexer::new("add\n  sub\n\nneg").list_all_tokens();
    assert_token(&tokens[0], TokenKind::Add, "add", (1, 1), (1, 3));
    assert_token(&tokens[1], TokenKind::EndOfLine, "\n", (1, 4), (1, 4));
    assert_token(&tokens[2], TokenKind::Sub, "sub", (2, 3), (2, 5));
    assert_token(&tokens[3], TokenKind::EndOfLine, "\n", (2, 6), (2, 6));
    assert_token(&tokens[4], TokenKind::EndOfLine, "\n", (3, 1), (3, 1));
    assert_token(&tokens[5], TokenKind::Neg, "neg", (4, 1), (4, 3));
    assert_eq!(tokens[6].kind, TokenKind::EndOfFile);
    assert_eq!(tokens.len(), 7);
}

#[test]
fn carriage_returns_count_for_nothing() {
    let tokens = Lexer::new("add\r\nsub\r\n").list_all_tokens();
    assert_eq!(tokens.len(), 5);
    assert_token(&tokens[0], TokenKind::Add, "add", (1, 1), (1, 3));
    assert_token(&tokens[1], TokenKind::EndOfLine, "\n", (1, 4), (1, 4));
    assert_token(&tokens[2], TokenKind::Sub, "sub", (2, 1), (2, 3));
    assert_token(&tokens[3], TokenKind::EndOfLine, "\n", (2, 4), (2, 4));
}

#[test]
fn a_carriage_return_inside_a_word_is_dropped() {
    let tokens = Lexer::new("ad\rd").list_all_tokens();
    assert_token(&tokens[0], TokenKind::Add, "add", (1, 1), (1, 3));
}

#[test]
fn a_comment_is_kept_as_a_token_up_to_the_end_of_its_line() {
    let tokens = Lexer::new("add // sum up\nsub").list_all_tokens();
    assert_eq!(tokens.len(), 5);
    assert_token(&tokens[1], TokenKind::Comment, "// sum up", (1, 5), (1, 13));
    assert_token(&tokens[2], TokenKind::EndOfLine, "\n", (1, 14), (1, 14));
    assert_token(&tokens[3], TokenKind::Sub, "sub", (2, 1), (2, 3));
}

#[test]
fn a_comment_may_end_the_source() {
    let tokens = Lexer::new("//").list_all_tokens();
    assert_eq!(tokens.len(), 2);
    assert_token(&tokens[0], TokenKind::Comment, "//", (1, 1), (1, 2));
    assert_eq!(tokens[1].kind, TokenKind::EndOfFile);
}

#[test]
fn a_single_slash_is_illegal() {
    let tokens = Lexer::new("/ /").list_all_tokens();
    assert_eq!(tokens.len(), 3);
    assert_token(&tokens[0], TokenKind::Illegal, "/", (1, 1), (1, 1));
    assert_token(&tokens[1], TokenKind::Illegal, "/", (1, 3), (1, 3));
}

#[test]
fn any_other_character_is_illegal_one_at_a_time() {
    let tokens = Lexer::new("%$ é").list_all_tokens();
    assert_eq!(tokens.len(), 4);
    assert_token(&tokens[0], TokenKind::Illegal, "%", (1, 1), (1, 1));
    assert_token(&tokens[1], TokenKind::Illegal, "$", (1, 2), (1, 2));
    assert_token(&tokens[2], TokenKind::Illegal, "é", (1, 4), (1, 4));
}

#[test]
fn every_reserved_word_has_its_kind() {
    assert_eq!(
        kinds("add and argument call constant eq function goto gt if-goto label local lt"),
        vec![
            TokenKind::Add,
            TokenKind::And,
            TokenKind::Argument,
            TokenKind::Call,
            TokenKind::Constant,
            TokenKind::Eq,
            TokenKind::Function,
            TokenKind::Goto,
            TokenKind::Gt,
            TokenKind::IfGoto,
            TokenKind::Label,
            TokenKind::Local,
            TokenKind::Lt,
            TokenKind::EndOfFile,
        ]
    );
    assert_eq!(
        kinds("neg not or pointer pop push return static sub temp that this"),
        vec![
            TokenKind::Neg,
            TokenKind::Not,
            TokenKind::Or,
            TokenKind::Pointer,
            TokenKind::Pop,
            TokenKind::Push,
            TokenKind::Return,
            TokenKind::Static,
            TokenKind::Sub,
            TokenKind::Temp,
            TokenKind::That,
            TokenKind::This,
            TokenKind::EndOfFile,
        ]
    );
}

#[test]
fn a_word_that_is_not_reserved_is_an_identifier() {
    assert_eq!(
        kinds("Add adds pus Sys.init LOOP_1 if-got"),
        vec![
            TokenKind::Identifier,
            TokenKind::Identifier,
            TokenKind::Identifier,
            TokenKind::Identifier,
            TokenKind::Identifier,
            TokenKind::Identifier,
            TokenKind::EndOfFile,
        ]
    );
}

#[test]
fn a_word_runs_up_to_the_next_whitespace() {
    assert_eq!(texts("a//b c%d\te1"), vec!["a//b", "c%d", "e1", ""]);
    assert_eq!(
        kinds("a//b c%d\te1"),
        vec![
            TokenKind::Identifier,
            TokenKind::Identifier,
            TokenKind::Identifier,
            TokenKind::EndOfFile,
        ]
    );
}

#[test]
fn a_number_is_a_run_of_digits() {
    assert_eq!(texts("007 12ab 3.4"), vec!["007", "12", "ab", "3", ".", "4", ""]);
    assert_eq!(
        kinds("007 12ab 3.4"),
        vec![
            TokenKind::Number,
            TokenKind::Number,
            TokenKind::Identifier,
            TokenKind::Number,
            TokenKind::Illegal,
            TokenKind::Number,
            TokenKind::EndOfFile,
        ]
    );
}

#[test]
fn blanks_between_tokens_are_skipped() {
    assert_eq!(texts(" \t push \x0C local\t 2  "), vec!["push", "local", "2", ""]);
}

#[test]
fn the_token_stream_ends_with_exactly_one_end_of_file() {
    for source in ["", "add", "add\n", "// only a comment", "\n\n\n", "push local 1\npop local 2\n"] {
        let tokens = Lexer::new(source).list_all_tokens();
        let ends = tokens
            .iter()
            .filter(|token| token.kind == TokenKind::EndOfFile)
            .count();
        assert_eq!(ends, 1);
        assert_eq!(tokens[tokens.len() - 1].kind, TokenKind::EndOfFile);
    }
}

#[test]
fn listing_goes_on_where_the_cursor_stands() {
    let mut lexer = Lexer::new("push local 1\n");
    assert_eq!(lexer.next_token().kind, TokenKind::Push);
    let rest = lexer.list_all_tokens();
    let kinds: Vec<TokenKind> = rest.iter().map(|token| token.kind).collect();
    assert_eq!(
        kinds,
        vec![
            TokenKind::Local,
            TokenKind::Number,
            TokenKind::EndOfLine,
            TokenKind::EndOfFile,
        ]
    );
}

#[test]
fn push_takes_all_eight_segments() {
    for kind in [
        TokenKind::Local,
        TokenKind::Argument,
        TokenKind::Static,
        TokenKind::Constant,
        TokenKind::This,
        TokenKind::That,
        TokenKind::Pointer,
        TokenKind::Temp,
    ] {
        assert!(kind.is_valid_push_segment());
    }
    for kind in [TokenKind::Push, TokenKind::Number, TokenKind::Identifier, TokenKind::EndOfFile] {
        assert!(!kind.is_valid_push_segment());
    }
}

#[test]
fn pop_takes_all_segments_but_constant() {
    for kind in [
        TokenKind::Local,
        TokenKind::Argument,
        TokenKind::Static,
        TokenKind::This,
        TokenKind::That,
        TokenKind::Pointer,
        TokenKind::Temp,
    ] {
        assert!(kind.is_valid_pop_segment());
    }
    assert!(!TokenKind::Constant.is_valid_pop_segment());
    assert!(!TokenKind::Pop.is_valid_pop_segment());
}

#[test]
fn an_empty_token_has_no_text_and_no_position() {
    let token = Token::empty(TokenKind::EndOfLine);
    assert_token(&token, TokenKind::EndOfLine, "", (0, 0), (0, 0));
}

#[test]
fn a_duplicate_has_the_same_content() {
    let tokens = Lexer::new("  label LOOP").list_all_tokens();
    let copy = tokens[1].duplicate();
    assert_token(&copy, TokenKind::Identifier, "LOOP", (1, 9), (1, 12));
    assert_eq!(copy.text_string(), "LOOP");
}

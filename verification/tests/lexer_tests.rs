use sql_lexer::lexer::LexSQL;
use sql_lexer::token::PostgresTk;

fn pairs(input: &str) -> Vec<(u32, char)> {
    input.char_indices().map(|(i, c)| (i as u32, c)).collect()
}

#[test]
fn test_make_lexer() {
    let input = String::from("SELECT * FROM schema.table;").to_lowercase();
    let with_indices: Vec<(u32, char)> = input.char_indices().map(|(i, c)| (i as u32, c)).collect();
    let lexer = LexSQL::new(with_indices);
    assert_eq!(lexer.curr_char, Some('s'));
    assert_eq!(lexer.next_char, Some('e'));
    assert_eq!(lexer.curr_loc, 0);
    assert_eq!(lexer.next_loc, 1);
}

#[test]
fn test_tokenize() {
    let input = String::from("SELECT * FROM schema.table;").to_lowercase();
    let with_indices: Vec<(u32, char)> = input.char_indices().map(|(i, c)| (i as u32, c)).collect();
    let mut lexer = LexSQL::new(with_indices);
    let tks = lexer.tokenize();
    assert!(tks.is_ok());
    let tks_ = tks.expect("");
    let answers = vec![
        PostgresTk::SELECT,
        PostgresTk::IDENTIFIER("*".to_string()),
        PostgresTk::FROM,
        PostgresTk::IDENTIFIER("schema.table".to_string()),
    ];
    for (actual, expected) in tks_.iter().zip(answers.iter()) {
        assert_eq!(actual, expected);
    }
}

#[test]
fn test_column_selectors() {
    let input = String::from("SELECT first_col, second_col FROM schema.table;").to_lowercase();
    let with_indices: Vec<(u32, char)> = input.char_indices().map(|(i, c)| (i as u32, c)).collect();
    let mut lexer = LexSQL::new(with_indices);
    let tks = lexer.tokenize();
    assert!(tks.is_ok());
    let tks_ = tks.expect("");
    let answers = vec![
        PostgresTk::SELECT,
        PostgresTk::IDENTIFIER("first_col".to_string()),
        PostgresTk::COMMA,
        PostgresTk::IDENTIFIER("second_col".to_string()),
        PostgresTk::FROM,
        PostgresTk::IDENTIFIER("schema.table".to_string()),
    ];

    for (found, expected) in tks_.iter().zip(answers.iter()) {
        assert_eq!(found, expected);
    }
}

#[test]
fn test_tokenize_exact_lengths() {
    let mut lexer = LexSQL::new(pairs("select * from schema.table;"));
    let tks = lexer.tokenize().expect("");
    assert_eq!(tks.len(), 4);

    let mut lexer = LexSQL::new(pairs("select first_col, second_col from schema.table;"));
    let tks = lexer.tokenize().expect("");
    assert_eq!(tks.len(), 6);
}

#[test]
fn test_priming_single_char_input() {
    let lexer = LexSQL::new(pairs("x"));
    assert_eq!(lexer.curr_char, Some('x'));
    assert_eq!(lexer.next_char, None);
    assert_eq!(lexer.curr_loc, 0);
    assert_eq!(lexer.next_loc, 0);
}

#[test]
fn test_empty_input() {
    let mut lexer = LexSQL::new(Vec::new());
    assert_eq!(lexer.curr_char, None);
    assert_eq!(lexer.next_char, None);
    let tks = lexer.tokenize().expect("");
    assert_eq!(tks, Vec::<PostgresTk>::new());
}

#[test]
fn test_exhaustion_saturates() {
    let mut lexer = LexSQL::new(pairs("ab"));
    assert_eq!(lexer.curr_char, Some('a'));
    assert_eq!(lexer.next_char, Some('b'));
    assert_eq!(lexer.get_next_char(), None);
    assert_eq!(lexer.curr_char, Some('b'));
    for _ in 0..5 {
        assert_eq!(lexer.get_next_char(), None);
        assert_eq!(lexer.curr_char, None);
        assert_eq!(lexer.next_char, None);
    }
}

#[test]
fn test_classify_keywords() {
    assert_eq!(
        PostgresTk::new("select".chars().collect()),
        Ok(PostgresTk::SELECT)
    );
    assert_eq!(PostgresTk::new("from".chars().collect()), Ok(PostgresTk::FROM));
}

#[test]
fn test_classify_round_trip() {
    // Anything other than the two keywords comes back as an identifier
    // carrying the exact text, case untouched.
    for text in ["foo", "selec", "selects", "SELECT", "schema.table", "*"] {
        assert_eq!(
            PostgresTk::new(text.chars().collect()),
            Ok(PostgresTk::IDENTIFIER(text.to_string()))
        );
    }
}

#[test]
fn test_classify_empty_buffer() {
    // The permissive policy is kept: even an empty buffer classifies, as an
    // empty identifier, and no input reaches the InvalidToken error.
    assert_eq!(
        PostgresTk::new(Vec::new()),
        Ok(PostgresTk::IDENTIFIER(String::new()))
    );
}

#[test]
fn test_adjacent_commas() {
    // Adjacent commas with nothing between them: the empty accumulator is
    // still classified before the second comma, so an empty identifier is
    // emitted between the two comma tokens.
    let mut lexer = LexSQL::new(pairs("a,,b;"));
    let tks = lexer.tokenize().expect("");
    assert_eq!(
        tks,
        vec![
            PostgresTk::IDENTIFIER("a".to_string()),
            PostgresTk::COMMA,
            PostgresTk::IDENTIFIER("".to_string()),
            PostgresTk::COMMA,
            PostgresTk::IDENTIFIER("b".to_string()),
        ]
    );
}

#[test]
fn test_stops_at_first_semicolon() {
    // Nothing past the first semicolon is consumed: the cursor still shows
    // it after the pass, and the text behind it produces no tokens.
    let mut lexer = LexSQL::new(pairs("select a; select b;"));
    let tks = lexer.tokenize().expect("");
    assert_eq!(
        tks,
        vec![PostgresTk::SELECT, PostgresTk::IDENTIFIER("a".to_string())]
    );
    assert_eq!(lexer.curr_char, Some(';'));
}

#[test]
fn test_unterminated_trailing_text_dropped() {
    // Without a closing space or semicolon the last accumulator is still
    // open when the input runs out, and is discarded.
    let mut lexer = LexSQL::new(pairs("select foo"));
    let tks = lexer.tokenize().expect("");
    assert_eq!(tks, vec![PostgresTk::SELECT]);
}

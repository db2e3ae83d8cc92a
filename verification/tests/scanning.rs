use lolcompiler::error::CompileError;
use lolcompiler::lexer::{LexicalAnalyzer, LolLexer};
use lolcompiler::text::{chars_of, spells};
use lolcompiler::token::{find_hash_keyword, find_plain_keyword, Keyword, Token, TokenKind};

fn scan_all(source: &str) -> Result<Vec<Token>, CompileError> {
    let mut lexer = LolLexer::new(source);
    let mut tokens = Vec::new();
    loop {
        let token = lexer.next_token()?;
        let last = token == Token::Eof;
        tokens.push(token);
        if last {
            return Ok(tokens);
        }
    }
}

fn text(word: &str) -> Token {
    Token::Text(word.to_string())
}

#[test]
fn empty_source_is_end_of_input() {
    assert_eq!(scan_all(""), Ok(vec![Token::Eof]));
    assert_eq!(scan_all("  \n\t "), Ok(vec![Token::Eof]));
}

#[test]
fn end_of_input_repeats() {
    let mut lexer = LolLexer::new("x");
    assert_eq!(lexer.next_token(), Ok(text("x")));
    assert_eq!(lexer.next_token(), Ok(Token::Eof));
    assert_eq!(lexer.next_token(), Ok(Token::Eof));
}

#[test]
fn one_word_hash_keywords() {
    assert_eq!(
        scan_all("#HAI #KTHXBYE #OBTW #TLDR #MAEK #OIC #GIMMEH #MKAY"),
        Ok(vec![
            Token::Keyword(Keyword::Hai),
            Token::Keyword(Keyword::Kthxbye),
            Token::Keyword(Keyword::Obtw),
            Token::Keyword(Keyword::Tldr),
            Token::Keyword(Keyword::Maek),
            Token::Keyword(Keyword::Oic),
            Token::Keyword(Keyword::Gimmeh),
            Token::Keyword(Keyword::Mkay),
            Token::Eof,
        ])
    );
}

#[test]
fn two_word_hash_keywords() {
    assert_eq!(
        scan_all("#I HAZ #IT IZ #LEMME SEE"),
        Ok(vec![
            Token::Keyword(Keyword::IHaz),
            Token::Keyword(Keyword::ItIz),
            Token::Keyword(Keyword::LemmeSee),
            Token::Eof,
        ])
    );
}

#[test]
fn two_word_keyword_across_any_white_space() {
    assert_eq!(
        scan_all("#I    HAZ #LEMME\n\tSEE"),
        Ok(vec![Token::Keyword(Keyword::IHaz), Token::Keyword(Keyword::LemmeSee), Token::Eof])
    );
}

#[test]
fn hash_keywords_ignore_case() {
    assert_eq!(
        scan_all("#hai #i haz #Lemme sEE #kthxbye"),
        Ok(vec![
            Token::Keyword(Keyword::Hai),
            Token::Keyword(Keyword::IHaz),
            Token::Keyword(Keyword::LemmeSee),
            Token::Keyword(Keyword::Kthxbye),
            Token::Eof,
        ])
    );
}

#[test]
fn plain_keywords_ignore_case() {
    assert_eq!(
        scan_all("HEAD title Paragraf BOLD italics LIST item NEWLINE soundz VIDZ"),
        Ok(vec![
            Token::Keyword(Keyword::Head),
            Token::Keyword(Keyword::Title),
            Token::Keyword(Keyword::Paragraf),
            Token::Keyword(Keyword::Bold),
            Token::Keyword(Keyword::Italics),
            Token::Keyword(Keyword::List),
            Token::Keyword(Keyword::Item),
            Token::Keyword(Keyword::Newline),
            Token::Keyword(Keyword::Soundz),
            Token::Keyword(Keyword::Vidz),
            Token::Eof,
        ])
    );
}

#[test]
fn text_keeps_its_case_and_is_not_merged() {
    assert_eq!(
        scan_all("Hello wOrld  again"),
        Ok(vec![text("Hello"), text("wOrld"), text("again"), Token::Eof])
    );
}

#[test]
fn second_word_is_given_back_when_the_pair_is_no_keyword() {
    assert_eq!(
        scan_all("#HAI hello #KTHXBYE"),
        Ok(vec![
            Token::Keyword(Keyword::Hai),
            text("hello"),
            Token::Keyword(Keyword::Kthxbye),
            Token::Eof,
        ])
    );
}

#[test]
fn position_is_rolled_back_with_the_second_word() {
    let mut lexer = LolLexer::new("#HAI\nhello");
    assert_eq!(lexer.next_token(), Ok(Token::Keyword(Keyword::Hai)));
    assert_eq!((lexer.line(), lexer.col()), (1, 4));
    assert_eq!(lexer.next_token(), Ok(text("hello")));
    assert_eq!((lexer.line(), lexer.col()), (2, 5));
}

#[test]
fn two_word_keyword_moves_past_both_words() {
    let mut lexer = LolLexer::new("#I\nHAZ x");
    assert_eq!(lexer.next_token(), Ok(Token::Keyword(Keyword::IHaz)));
    assert_eq!((lexer.line(), lexer.col()), (2, 3));
}

#[test]
fn hash_inside_a_word_belongs_to_it() {
    assert_eq!(scan_all("a#b c"), Ok(vec![text("a#b"), text("c"), Token::Eof]));
    assert_eq!(scan_all("abc#MKAY"), Ok(vec![text("abc#MKAY"), Token::Eof]));
    assert_eq!(scan_all("head#"), Ok(vec![text("head#"), Token::Eof]));
}

#[test]
fn hash_keywords_end_at_white_space_only() {
    assert_eq!(
        scan_all("#HAI#KTHXBYE"),
        Err(CompileError::Lexical { line: 1, col: 12, form: "#HAI#KTHXBYE".to_string() })
    );
    assert_eq!(
        scan_all("##HAI"),
        Err(CompileError::Lexical { line: 1, col: 5, form: "##HAI".to_string() })
    );
    assert_eq!(
        scan_all("#I #HAZ"),
        Err(CompileError::Lexical { line: 1, col: 2, form: "#I".to_string() })
    );
}

#[test]
fn line_and_column_start_at_one_and_zero() {
    let lexer = LolLexer::new("abc");
    assert_eq!((lexer.line(), lexer.col()), (1, 0));
}

#[test]
fn newline_resets_the_column() {
    let mut lexer = LolLexer::new("ab\n\ncde f");
    assert_eq!(lexer.next_token(), Ok(text("ab")));
    assert_eq!((lexer.line(), lexer.col()), (1, 2));
    assert_eq!(lexer.next_token(), Ok(text("cde")));
    assert_eq!((lexer.line(), lexer.col()), (3, 3));
    assert_eq!(lexer.next_token(), Ok(text("f")));
    assert_eq!((lexer.line(), lexer.col()), (3, 5));
}

#[test]
fn lone_hash_is_a_lexical_fault() {
    assert_eq!(
        scan_all("# HAI"),
        Err(CompileError::Lexical { line: 1, col: 1, form: "#".to_string() })
    );
    assert_eq!(
        scan_all("x\n  #"),
        Err(CompileError::Lexical { line: 2, col: 3, form: "#".to_string() })
    );
}

#[test]
fn unknown_hash_keyword_is_a_lexical_fault() {
    assert_eq!(
        scan_all("#nope"),
        Err(CompileError::Lexical { line: 1, col: 5, form: "#NOPE".to_string() })
    );
    assert_eq!(
        scan_all("#HAI\n#NOPE next"),
        Err(CompileError::Lexical { line: 2, col: 5, form: "#NOPE".to_string() })
    );
}

#[test]
fn half_a_two_word_keyword_is_a_lexical_fault() {
    assert_eq!(
        scan_all("#I HAVE"),
        Err(CompileError::Lexical { line: 1, col: 2, form: "#I".to_string() })
    );
    assert_eq!(
        scan_all("#LEMME"),
        Err(CompileError::Lexical { line: 1, col: 6, form: "#LEMME".to_string() })
    );
}

#[test]
fn plain_keyword_after_hash_is_a_lexical_fault() {
    assert_eq!(
        scan_all("#HEAD"),
        Err(CompileError::Lexical { line: 1, col: 5, form: "#HEAD".to_string() })
    );
}

#[test]
fn unicode_white_space_separates_words() {
    assert_eq!(scan_all("a\u{a0}b\u{3000}c"), Ok(vec![text("a"), text("b"), text("c"), Token::Eof]));
}

#[test]
fn non_ascii_words_are_text() {
    assert_eq!(scan_all("héllo ÿ"), Ok(vec![text("héllo"), text("ÿ"), Token::Eof]));
}

#[test]
fn character_operations() {
    let mut lexer = LolLexer::new("ab");
    assert_eq!(lexer.peek(), Some('a'));
    assert_eq!(lexer.get_char(), 'a');
    assert_eq!(lexer.peek(), Some('b'));
    lexer.add_char('z');
    assert_eq!((lexer.line(), lexer.col()), (1, 1));
    assert_eq!(lexer.next_token(), Ok(text("b")));
    assert_eq!(lexer.peek(), None);
}

#[test]
fn lookup_knows_the_hash_forms_only() {
    let lexer = LolLexer::new("");
    assert!(lexer.lookup("#HAI"));
    assert!(lexer.lookup("#i haz"));
    assert!(lexer.lookup("#Lemme See"));
    assert!(!lexer.lookup("HAI"));
    assert!(!lexer.lookup("#HEAD"));
    assert!(!lexer.lookup("#I  HAZ"));
    assert!(!lexer.lookup(""));
}

#[test]
fn vocabulary_lookups() {
    assert_eq!(find_hash_keyword("#IT IZ"), Some(Keyword::ItIz));
    assert_eq!(find_hash_keyword("#it iz"), None);
    assert_eq!(find_hash_keyword("IT IZ"), None);
    assert_eq!(find_plain_keyword("SOUNDZ"), Some(Keyword::Soundz));
    assert_eq!(find_plain_keyword("soundz"), None);
    assert_eq!(find_plain_keyword("#MAEK"), None);
}

#[test]
fn every_keyword_is_found_by_its_spelling() {
    let hash = [
        Keyword::Hai,
        Keyword::Kthxbye,
        Keyword::Obtw,
        Keyword::Tldr,
        Keyword::Maek,
        Keyword::Oic,
        Keyword::Gimmeh,
        Keyword::Mkay,
        Keyword::IHaz,
        Keyword::ItIz,
        Keyword::LemmeSee,
    ];
    for k in hash {
        assert_eq!(find_hash_keyword(k.spelled()), Some(k));
        assert_eq!(find_plain_keyword(k.spelled()), None);
    }
    let plain = [
        Keyword::Head,
        Keyword::Title,
        Keyword::Paragraf,
        Keyword::Bold,
        Keyword::Italics,
        Keyword::List,
        Keyword::Item,
        Keyword::Newline,
        Keyword::Soundz,
        Keyword::Vidz,
    ];
    for k in plain {
        assert_eq!(find_plain_keyword(k.spelled()), Some(k));
        assert_eq!(find_hash_keyword(k.spelled()), None);
    }
    assert_eq!(Keyword::LemmeSee.spelled(), "#LEMME SEE");
    assert_eq!(Keyword::Paragraf.spelled(), "PARAGRAF");
}

#[test]
fn token_kinds() {
    assert_eq!(Token::Keyword(Keyword::Oic).kind(), TokenKind::Keyword(Keyword::Oic));
    assert_eq!(text("x").kind(), TokenKind::Text);
    assert_eq!(Token::Eof.kind(), TokenKind::Eof);
    assert!(text("x").is_text());
    assert!(!Token::Eof.is_text());
    assert!(Token::Eof.is_eof());
    assert!(!text("").is_eof());
    assert_eq!(text("x").clone(), text("x"));
}

#[test]
fn text_helpers() {
    assert!(spells("abc", "abc"));
    assert!(!spells("abc", "abd"));
    assert!(!spells("abc", "ab"));
    assert!(spells("", ""));
    assert!(spells("é", "é"));
    assert_eq!(chars_of("aé\n"), vec!['a', 'é', '\n']);
    assert_eq!(chars_of(""), Vec::<char>::new());
}

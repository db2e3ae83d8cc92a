use lolcompiler::error::CompileError;
use lolcompiler::lexer::{collect_tokens, LolLexer};
use lolcompiler::syntax_analyzer::{LolCodeSyntaxAnalyzer, SyntaxAnalyzer, AST};
use lolcompiler::token::{Keyword, Token, TokenKind};

fn parser(source: &str) -> LolCodeSyntaxAnalyzer {
    LolCodeSyntaxAnalyzer::new(LolLexer::new(source)).unwrap()
}

fn parse(source: &str) -> Result<AST, CompileError> {
    parser(source).parse_lolcode()
}

fn shape(tree: &Result<AST, CompileError>) -> String {
    format!("{:?}", tree)
}

fn syntax(position: usize, expected: TokenKind) -> String {
    format!("{:?}", Err::<AST, CompileError>(CompileError::Syntax { position, expected }))
}

fn word(k: Keyword) -> TokenKind {
    TokenKind::Keyword(k)
}

fn t(word: &str) -> AST {
    AST::Text(word.to_string())
}

fn program(parts: Vec<AST>) -> String {
    format!("{:?}", Ok::<AST, CompileError>(AST::Program { parts }))
}

#[test]
fn new_collects_all_tokens_with_the_end_of_input() {
    let p = parser("#HAI x #KTHXBYE");
    assert_eq!(
        p.tokens,
        vec![
            Token::Keyword(Keyword::Hai),
            Token::Text("x".to_string()),
            Token::Keyword(Keyword::Kthxbye),
            Token::Eof,
        ]
    );
    assert_eq!(p.position, 0);
}

#[test]
fn collecting_constructor_is_new() {
    let p = LolCodeSyntaxAnalyzer::collectTokens(LolLexer::new("#HAI x #KTHXBYE")).unwrap();
    let q = parser("#HAI x #KTHXBYE");
    assert_eq!(p.tokens, q.tokens);
    assert_eq!(p.tokens.len(), 4);
    assert_eq!(p.position, 0);
    assert!(LolCodeSyntaxAnalyzer::collectTokens(LolLexer::new("#X")).is_err());
}

#[test]
fn new_reports_the_lexical_fault() {
    match LolCodeSyntaxAnalyzer::new(LolLexer::new("#HAI #WAT")) {
        Err(e) => assert_eq!(e, CompileError::Lexical { line: 1, col: 9, form: "#WAT".to_string() }),
        Ok(_) => panic!("a lexical fault was expected"),
    }
}

#[test]
fn collect_tokens_appends_all_but_the_end_of_input() {
    let mut lexer = LolLexer::new("a b #X c");
    let mut tokens = vec![Token::Eof];
    let done = collect_tokens(&mut lexer, &mut tokens);
    assert_eq!(done, Err(CompileError::Lexical { line: 1, col: 6, form: "#X".to_string() }));
    assert_eq!(tokens, vec![Token::Eof, Token::Text("a".to_string()), Token::Text("b".to_string())]);
    let done = collect_tokens(&mut lexer, &mut tokens);
    assert_eq!(done, Ok(()));
    assert_eq!(tokens.len(), 4);
    assert_eq!(tokens[3], Token::Text("c".to_string()));
    let done = collect_tokens(&mut lexer, &mut tokens);
    assert_eq!(done, Ok(()));
    assert_eq!(tokens.len(), 4);
}

#[test]
fn smallest_program() {
    assert_eq!(shape(&parse("#HAI #KTHXBYE")), program(vec![]));
}

#[test]
fn parser_stops_behind_the_end_of_input_token() {
    let mut p = parser("#HAI #KTHXBYE");
    assert!(p.parse_lolcode().is_ok());
    assert_eq!(p.position, 3);
}

#[test]
fn comments_head_and_body_in_order() {
    let tree = parse(
        "#HAI #OBTW first note #TLDR #OBTW second #TLDR \
         #MAEK HEAD #GIMMEH TITLE Foo Bar #MKAY #OIC \
         hello #OBTW in body #TLDR #KTHXBYE",
    );
    assert_eq!(
        shape(&tree),
        program(vec![
            AST::Comment("first note".to_string()),
            AST::Comment("second".to_string()),
            AST::Head { title: "Foo Bar".to_string() },
            t("hello"),
            AST::Comment("in body".to_string()),
        ])
    );
}

#[test]
fn empty_text_runs_give_empty_strings() {
    let tree = parse("#HAI #OBTW #TLDR #MAEK HEAD #GIMMEH TITLE #MKAY #OIC #GIMMEH BOLD #MKAY #KTHXBYE");
    assert_eq!(
        shape(&tree),
        program(vec![
            AST::Comment(String::new()),
            AST::Head { title: String::new() },
            AST::Bold(String::new()),
        ])
    );
}

#[test]
fn body_alternatives() {
    let tree = parse(
        "#HAI plain #GIMMEH BOLD very loud #MKAY #GIMMEH ITALICS slanted #MKAY #GIMMEH NEWLINE \
         #GIMMEH SOUNDZ a.mp3 #MKAY #GIMMEH VIDZ v.mp4 #MKAY \
         #I HAZ x #IT IZ 1 #MKAY #LEMME SEE x #MKAY #KTHXBYE",
    );
    assert_eq!(
        shape(&tree),
        program(vec![
            t("plain"),
            AST::Bold("very loud".to_string()),
            AST::Italics("slanted".to_string()),
            AST::Newline,
            AST::Audio("a.mp3".to_string()),
            AST::Video("v.mp4".to_string()),
            AST::VarDefine { name: "x".to_string(), value: "1".to_string() },
            AST::VarUse("x".to_string()),
        ])
    );
}

#[test]
fn paragraph_with_definition_and_contents() {
    let tree = parse(
        "#HAI #MAEK PARAGRAF #I HAZ x #IT IZ 1 #MKAY a #LEMME SEE x #MKAY \
         #GIMMEH BOLD b #MKAY #GIMMEH ITALICS i #MKAY #GIMMEH NEWLINE \
         #GIMMEH SOUNDZ s #MKAY #GIMMEH VIDZ v #MKAY \
         #MAEK LIST #GIMMEH ITEM one #MKAY #OIC #OIC #KTHXBYE",
    );
    assert_eq!(
        shape(&tree),
        program(vec![AST::Paragraph {
            items: vec![
                AST::VarDefine { name: "x".to_string(), value: "1".to_string() },
                t("a"),
                AST::VarUse("x".to_string()),
                AST::Bold("b".to_string()),
                AST::Italics("i".to_string()),
                AST::Newline,
                AST::Audio("s".to_string()),
                AST::Video("v".to_string()),
                AST::List { items: vec![AST::ListItem { items: vec![t("one")] }] },
            ]
        }])
    );
}

#[test]
fn paragraph_without_a_head_before_it() {
    assert_eq!(
        shape(&parse("#HAI #MAEK PARAGRAF x #OIC #KTHXBYE")),
        program(vec![AST::Paragraph { items: vec![t("x")] }])
    );
    assert_eq!(
        shape(&parse("#HAI #MAEK LIST #OIC #KTHXBYE")),
        program(vec![AST::List { items: vec![] }])
    );
}

#[test]
fn list_items_and_their_contents() {
    let tree = parse(
        "#HAI #MAEK LIST #GIMMEH ITEM a b #GIMMEH BOLD c #MKAY #GIMMEH ITALICS d #MKAY \
         #LEMME SEE v #MKAY #MKAY #GIMMEH ITEM #MKAY #OIC #KTHXBYE",
    );
    assert_eq!(
        shape(&tree),
        program(vec![AST::List {
            items: vec![
                AST::ListItem {
                    items: vec![
                        t("a"),
                        t("b"),
                        AST::Bold("c".to_string()),
                        AST::Italics("d".to_string()),
                        AST::VarUse("v".to_string()),
                    ]
                },
                AST::ListItem { items: vec![] },
            ]
        }])
    );
}

#[test]
fn missing_hai() {
    assert_eq!(shape(&parse("")), syntax(0, word(Keyword::Hai)));
    assert_eq!(shape(&parse("x #HAI #KTHXBYE")), syntax(0, word(Keyword::Hai)));
}

#[test]
fn missing_kthxbye() {
    assert_eq!(shape(&parse("#HAI")), syntax(1, word(Keyword::Kthxbye)));
    assert_eq!(shape(&parse("#HAI a b")), syntax(3, word(Keyword::Kthxbye)));
}

#[test]
fn tokens_after_the_program() {
    assert_eq!(shape(&parse("#HAI #KTHXBYE more")), syntax(2, TokenKind::Eof));
}

#[test]
fn second_definition_in_a_paragraph_ends_its_contents() {
    assert_eq!(
        shape(&parse("#HAI #MAEK PARAGRAF a #I HAZ x #IT IZ 1 #MKAY #OIC #KTHXBYE")),
        syntax(4, word(Keyword::Oic))
    );
}

#[test]
fn newline_in_a_list_item_ends_its_contents() {
    assert_eq!(
        shape(&parse("#HAI #MAEK LIST #GIMMEH ITEM a #GIMMEH NEWLINE #MKAY #OIC #KTHXBYE")),
        syntax(6, word(Keyword::Mkay))
    );
}

#[test]
fn head_after_the_body_has_begun_is_no_head() {
    assert_eq!(
        shape(&parse("#HAI x #MAEK HEAD #GIMMEH TITLE t #MKAY #OIC #KTHXBYE")),
        syntax(2, word(Keyword::Kthxbye))
    );
}

#[test]
fn required_tokens_inside_productions() {
    assert_eq!(
        shape(&parser("#MAEK HEAD #GIMMEH BOLD").parse_head()),
        syntax(3, word(Keyword::Title))
    );
    assert_eq!(shape(&parser("#GIMMEH TITLE a b").parse_title()), syntax(4, word(Keyword::Mkay)));
    assert_eq!(shape(&parser("#OBTW a #MKAY").parse_comment()), syntax(2, word(Keyword::Tldr)));
    assert_eq!(shape(&parser("#GIMMEH BOLD a HEAD").parse_bold()), syntax(3, word(Keyword::Mkay)));
    assert_eq!(shape(&parser("#GIMMEH BOLD").parse_italics()), syntax(1, word(Keyword::Italics)));
    assert_eq!(shape(&parser("#GIMMEH SOUNDZ #MKAY").parse_audio()), syntax(2, TokenKind::Text));
    assert_eq!(shape(&parser("#GIMMEH VIDZ a b #MKAY").parse_video()), syntax(3, word(Keyword::Mkay)));
    assert_eq!(shape(&parser("#GIMMEH").parse_newline()), syntax(1, word(Keyword::Newline)));
    assert_eq!(
        shape(&parser("#I HAZ x y").parse_variable_define()),
        syntax(2, word(Keyword::ItIz))
    );
    assert_eq!(shape(&parser("#I HAZ x #IT IZ #MKAY").parse_variable_define()), syntax(3, TokenKind::Text));
    assert_eq!(shape(&parser("#LEMME SEE #MKAY").parse_variable_use()), syntax(1, TokenKind::Text));
    assert_eq!(shape(&parser("#MAEK LIST x #OIC").parse_list()), syntax(2, word(Keyword::Oic)));
    assert_eq!(
        shape(&parser("#MAEK PARAGRAF #MAEK PARAGRAF #OIC #OIC").parse_paragraph()),
        syntax(2, word(Keyword::Oic))
    );
    assert_eq!(shape(&parser("BOLD").parse_text()), syntax(0, TokenKind::Text));
    assert_eq!(shape(&parser("").parse_inner_text()), syntax(0, TokenKind::Text));
}

#[test]
fn fault_leaves_the_parser_where_it_was_met() {
    let mut p = parser("#GIMMEH BOLD a b HEAD");
    assert!(p.parse_bold().is_err());
    assert_eq!(p.position, 4);
}

#[test]
fn single_productions() {
    let mut p = parser("#GIMMEH BOLD a b #MKAY rest");
    assert_eq!(shape(&p.parse_bold()), shape(&Ok(AST::Bold("a b".to_string()))));
    assert_eq!(p.position, 5);
    assert_eq!(shape(&p.parse_text()), shape(&Ok(t("rest"))));
    assert_eq!(p.position, 6);
    let mut p = parser("#GIMMEH NEWLINE");
    assert_eq!(shape(&p.parse_newline()), shape(&Ok(AST::Newline)));
    assert_eq!(p.position, 2);
}

#[test]
fn repetitions_end_without_fault() {
    let mut p = parser("a #GIMMEH BOLD b #MKAY #GIMMEH NEWLINE c");
    let items = p.parse_inner_list().unwrap();
    assert_eq!(format!("{:?}", items), format!("{:?}", vec![t("a"), AST::Bold("b".to_string())]));
    assert_eq!(p.position, 5);
    let items = p.parse_inner_paragraph().unwrap();
    assert_eq!(format!("{:?}", items), format!("{:?}", vec![AST::Newline, t("c")]));
    assert_eq!(p.position, 8);
    assert!(p.parse_body().unwrap().is_empty());
    assert!(p.parse_list_items().unwrap().is_empty());
    assert_eq!(p.position, 8);
}

#[test]
fn helpers_on_tokens() {
    let mut p = parser("x #OIC");
    assert_eq!(p.current(), TokenKind::Text);
    assert_eq!(p.following(), word(Keyword::Oic));
    assert!(p.is_text(&Token::Text("x".to_string())));
    assert!(!p.is_text(&Token::Keyword(Keyword::Oic)));
    assert_eq!(LolCodeSyntaxAnalyzer::text_content(&Token::Text("x".to_string())), "x");
    assert_eq!(LolCodeSyntaxAnalyzer::text_content(&Token::Eof), "");
    assert_eq!(p.expect(TokenKind::Text), Ok(()));
    assert_eq!(p.position, 1);
    assert_eq!(
        p.expect(word(Keyword::Mkay)),
        Err(CompileError::Syntax { position: 1, expected: word(Keyword::Mkay) })
    );
    assert_eq!(p.position, 1);
    assert_eq!(p.expect(word(Keyword::Oic)), Ok(()));
    assert_eq!(p.expect(TokenKind::Eof), Ok(()));
    assert_eq!(p.position, 3);
    assert_eq!(p.current(), TokenKind::Eof);
    assert_eq!(p.following(), TokenKind::Eof);
    assert_eq!(p.expect(TokenKind::Eof), Ok(()));
    assert_eq!(p.position, 4);
    assert_eq!(
        p.expect(TokenKind::Text),
        Err(CompileError::Syntax { position: 4, expected: TokenKind::Text })
    );
    assert_eq!(p.position, 4);
}

#[test]
fn parser_without_an_end_of_input_token() {
    let mut p = LolCodeSyntaxAnalyzer {
        tokens: vec![Token::Keyword(Keyword::Hai), Token::Keyword(Keyword::Kthxbye)],
        position: 0,
    };
    assert_eq!(shape(&p.parse_lolcode()), program(vec![]));
    assert_eq!(p.position, 3);
}

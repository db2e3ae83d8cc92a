use lolcompiler::compiler::{output_file_name, Compiler, LolCompiler};
use lolcompiler::error::CompileError;
use lolcompiler::token::{Keyword, Token, TokenKind};

fn compile(source: &str) -> Result<String, CompileError> {
    LolCompiler::new(source, "out.html".to_string()).compile(source)
}

fn s(text: &str) -> String {
    text.to_string()
}

#[test]
fn hai_kthxbye_is_the_empty_document() {
    assert_eq!(compile("#HAI #KTHXBYE"), Ok(s("<html>\n</html>\n")));
    assert_eq!(compile(" \t#HAI\r\n\x0b\x0c #KTHXBYE"), Ok(s("<html>\n</html>\n")));
    assert_eq!(compile("\n #hai\n\t#kthxbye \n"), Ok(s("<html>\n</html>\n")));
}

#[test]
fn hai_and_kthxbye_need_white_space_between_them() {
    assert_eq!(
        compile("#HAI#KTHXBYE"),
        Err(CompileError::Lexical { line: 1, col: 12, form: s("#HAI#KTHXBYE") })
    );
}

#[test]
fn head_block_with_title() {
    let html = compile("#HAI\n#MAEK HEAD\n#GIMMEH TITLE Foo Bar #MKAY\n#OIC\n#KTHXBYE").unwrap();
    assert!(html.contains("<head>\n<title>Foo Bar</title>\n</head>\n"));
    assert_eq!(html, "<html>\n<head>\n<title>Foo Bar</title>\n</head>\n</html>\n");
}

#[test]
fn body_words_are_emitted_one_by_one_with_a_space() {
    assert_eq!(compile("#HAI Foo Bar #KTHXBYE"), Ok(s("<html>\nFoo Bar </html>\n")));
}

#[test]
fn sibling_paragraph_cannot_use_a_definition() {
    let source = "#HAI\n\
                  #MAEK PARAGRAF #I HAZ x #IT IZ one #MKAY #LEMME SEE x #MKAY #OIC\n\
                  #MAEK PARAGRAF #LEMME SEE x #MKAY #OIC\n\
                  #KTHXBYE";
    assert_eq!(compile(source), Err(CompileError::Semantic { name: s("x") }));
}

#[test]
fn shadowing_ends_with_the_block() {
    let source = "#HAI\n\
                  #I HAZ x #IT IZ outer #MKAY\n\
                  #MAEK PARAGRAF #I HAZ x #IT IZ inner #MKAY #LEMME SEE x #MKAY #OIC\n\
                  #LEMME SEE x #MKAY\n\
                  #KTHXBYE";
    assert_eq!(compile(source), Ok(s("<html>\n<p>inner</p>\nouter</html>\n")));
}

#[test]
fn same_source_same_html() {
    let source = "#HAI #OBTW note #TLDR #MAEK HEAD #GIMMEH TITLE t #MKAY #OIC \
                  #MAEK PARAGRAF #I HAZ v #IT IZ 7 #MKAY a #LEMME SEE v #MKAY #OIC #KTHXBYE";
    let once = compile(source);
    let again = compile(source);
    assert!(once.is_ok());
    assert_eq!(once, again);
    let bad = "#HAI #LEMME SEE v #MKAY #KTHXBYE";
    assert_eq!(compile(bad), compile(bad));
    assert!(compile(bad).is_err());
}

#[test]
fn missing_kthxbye_is_a_syntax_fault() {
    assert_eq!(
        compile("#HAI hello"),
        Err(CompileError::Syntax { position: 2, expected: TokenKind::Keyword(Keyword::Kthxbye) })
    );
    assert_eq!(
        compile("#HAI #MAEK PARAGRAF x #OIC"),
        Err(CompileError::Syntax { position: 5, expected: TokenKind::Keyword(Keyword::Kthxbye) })
    );
}

#[test]
fn substituted_values_are_not_escaped() {
    assert_eq!(
        compile("#HAI #I HAZ x #IT IZ <b>&amp;\"q\" #MKAY #LEMME SEE x #MKAY #KTHXBYE"),
        Ok(s("<html>\n<b>&amp;\"q\"</html>\n"))
    );
}

#[test]
fn whole_document() {
    let source = "#HAI\n\
        #OBTW a demo #TLDR\n\
        #MAEK HEAD #GIMMEH TITLE My Page #MKAY #OIC\n\
        #MAEK PARAGRAF\n\
        #I HAZ name #IT IZ World #MKAY\n\
        Hello #LEMME SEE name #MKAY #GIMMEH NEWLINE\n\
        #GIMMEH BOLD very loud #MKAY #GIMMEH ITALICS slanted #MKAY\n\
        #MAEK LIST #GIMMEH ITEM one #MKAY #GIMMEH ITEM two #LEMME SEE name #MKAY #MKAY #OIC\n\
        #OIC\n\
        #GIMMEH SOUNDZ a.mp3 #MKAY\n\
        #GIMMEH VIDZ http://v #MKAY\n\
        #KTHXBYE\n";
    assert_eq!(
        compile(source),
        Ok(s("<html>\n<!-- a demo -->\n<head>\n<title>My Page</title>\n</head>\n\
              <p>Hello World<br>\n<b>very loud</b><i>slanted</i>\
              <ul>\n<li>one </li>\n<li>two World</li>\n</ul>\n</p>\n\
              <audio controls>\n<source src=\"a.mp3\">\n</audio>\
              <iframe src=\"http://v\"></iframe>\n</html>\n"))
    );
}

#[test]
fn lexical_fault_comes_first() {
    assert_eq!(
        compile("hello #WAT #LEMME SEE x #MKAY"),
        Err(CompileError::Lexical { line: 1, col: 10, form: s("#WAT") })
    );
}

#[test]
fn syntax_fault_comes_before_semantic_fault() {
    assert_eq!(
        compile("#HAI #LEMME SEE x #MKAY"),
        Err(CompileError::Syntax { position: 4, expected: TokenKind::Keyword(Keyword::Kthxbye) })
    );
    assert_eq!(
        compile("#HAI #LEMME SEE x #MKAY #KTHXBYE"),
        Err(CompileError::Semantic { name: s("x") })
    );
}

#[test]
fn source_argument_of_compile_is_not_read() {
    let mut compiler = LolCompiler::new("#HAI a #KTHXBYE", s("out.html"));
    assert_eq!(compiler.compile("#HAI b #KTHXBYE"), Ok(s("<html>\na </html>\n")));
}

#[test]
fn second_compile_parses_the_same_tokens() {
    let mut compiler = LolCompiler::new("#HAI a #KTHXBYE", s("out.html"));
    assert_eq!(compiler.compile(""), Ok(s("<html>\na </html>\n")));
    assert_eq!(compiler.compile(""), Ok(s("<html>\na </html>\n")));
}

#[test]
fn tokens_scanned_by_hand_are_not_compiled() {
    let mut compiler = LolCompiler::new("#HAI #KTHXBYE", s("out.html"));
    assert_eq!(compiler.current_token(), None);
    assert_eq!(compiler.next_token(), Ok(Token::Keyword(Keyword::Hai)));
    assert_eq!(compiler.current_token(), Some(Token::Keyword(Keyword::Hai)));
    assert_eq!(
        compiler.compile(""),
        Err(CompileError::Syntax { position: 0, expected: TokenKind::Keyword(Keyword::Hai) })
    );
    assert_eq!(compiler.current_token(), Some(Token::Eof));
}

#[test]
fn current_token_can_be_set() {
    let mut compiler = LolCompiler::new("x", s("out.html"));
    compiler.set_current_token(Token::Text(s("y")));
    assert_eq!(compiler.current_token(), Some(Token::Text(s("y"))));
    assert_eq!(compiler.next_token(), Ok(Token::Text(s("x"))));
    assert_eq!(compiler.current_token(), Some(Token::Text(s("x"))));
}

#[test]
fn next_token_keeps_the_current_token_on_a_fault() {
    let mut compiler = LolCompiler::new("x #", s("out.html"));
    assert_eq!(compiler.next_token(), Ok(Token::Text(s("x"))));
    assert_eq!(compiler.next_token(), Err(CompileError::Lexical { line: 1, col: 3, form: s("#") }));
    assert_eq!(compiler.current_token(), Some(Token::Text(s("x"))));
}

#[test]
fn parse_without_a_parser_does_nothing() {
    let mut compiler = LolCompiler::new("junk", s("out.html"));
    assert_eq!(compiler.parse(), Ok(()));
}

#[test]
fn output_name_is_kept() {
    let compiler = LolCompiler::new("", s("page.html"));
    assert_eq!(compiler.output_name(), "page.html");
}

#[test]
fn output_file_names() {
    assert_eq!(output_file_name("page.lol"), Some(s("page.html")));
    assert_eq!(output_file_name("dir/a.b.lol"), Some(s("dir/a.b.html")));
    assert_eq!(output_file_name(".lol"), Some(s(".html")));
    assert_eq!(output_file_name("a.lol.lol"), Some(s("a.lol.html")));
    assert_eq!(output_file_name("é.lol"), Some(s("é.html")));
    assert_eq!(output_file_name("page.LOL"), None);
    assert_eq!(output_file_name("page.lol "), None);
    assert_eq!(output_file_name("lol"), None);
    assert_eq!(output_file_name(""), None);
}

#[test]
fn errors_can_be_copied() {
    let faults = vec![
        CompileError::Lexical { line: 3, col: 4, form: s("#X") },
        CompileError::Syntax { position: 5, expected: TokenKind::Text },
        CompileError::Semantic { name: s("v") },
    ];
    for fault in &faults {
        assert_eq!(&fault.clone(), fault);
    }
}

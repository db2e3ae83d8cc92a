use lolcompiler::error::CompileError;
use lolcompiler::semantic_analyzer::SemanticAnalyzer;
use lolcompiler::syntax_analyzer::AST;

fn s(text: &str) -> String {
    text.to_string()
}

fn t(word: &str) -> AST {
    AST::Text(s(word))
}

fn define(name: &str, value: &str) -> AST {
    AST::VarDefine { name: s(name), value: s(value) }
}

fn use_of(name: &str) -> AST {
    AST::VarUse(s(name))
}

fn html(tree: &AST) -> Result<String, CompileError> {
    SemanticAnalyzer::new().generate(tree)
}

fn missing(name: &str) -> CompileError {
    CompileError::Semantic { name: s(name) }
}

#[test]
fn empty_program() {
    assert_eq!(html(&AST::Program { parts: vec![] }), Ok(s("<html>\n</html>\n")));
}

#[test]
fn emission_of_each_node() {
    assert_eq!(html(&AST::Comment(s("a note"))), Ok(s("<!-- a note -->\n")));
    assert_eq!(html(&AST::Head { title: s("Foo Bar") }), Ok(s("<head>\n<title>Foo Bar</title>\n</head>\n")));
    assert_eq!(html(&AST::Paragraph { items: vec![] }), Ok(s("<p></p>\n")));
    assert_eq!(html(&AST::Bold(s("b b"))), Ok(s("<b>b b</b>")));
    assert_eq!(html(&AST::Italics(s("i"))), Ok(s("<i>i</i>")));
    assert_eq!(html(&AST::List { items: vec![] }), Ok(s("<ul>\n</ul>\n")));
    assert_eq!(html(&AST::ListItem { items: vec![] }), Ok(s("<li></li>\n")));
    assert_eq!(
        html(&AST::Audio(s("a.mp3"))),
        Ok(s("<audio controls>\n<source src=\"a.mp3\">\n</audio>"))
    );
    assert_eq!(html(&AST::Video(s("v"))), Ok(s("<iframe src=\"v\"></iframe>\n")));
    assert_eq!(html(&AST::Newline), Ok(s("<br>\n")));
    assert_eq!(html(&t("word")), Ok(s("word ")));
    assert_eq!(html(&t("")), Ok(s("")));
    assert_eq!(html(&define("x", "1")), Ok(s("")));
}

#[test]
fn children_are_emitted_in_order() {
    let tree = AST::Program {
        parts: vec![
            AST::Head { title: s("T") },
            AST::Paragraph { items: vec![t("a"), AST::Bold(s("b")), t("c")] },
            AST::List {
                items: vec![
                    AST::ListItem { items: vec![t("one")] },
                    AST::ListItem { items: vec![t("two"), AST::Italics(s("three"))] },
                ],
            },
        ],
    };
    assert_eq!(
        html(&tree),
        Ok(s("<html>\n<head>\n<title>T</title>\n</head>\n<p>a <b>b</b>c </p>\n\
              <ul>\n<li>one </li>\n<li>two <i>three</i></li>\n</ul>\n</html>\n"))
    );
}

#[test]
fn use_resolves_to_the_definition() {
    let tree = AST::Program { parts: vec![define("x", "42"), use_of("x")] };
    assert_eq!(html(&tree), Ok(s("<html>\n42</html>\n")));
}

#[test]
fn use_sees_outer_scopes() {
    let tree = AST::Program {
        parts: vec![
            define("x", "out"),
            AST::Paragraph {
                items: vec![AST::List { items: vec![AST::ListItem { items: vec![use_of("x")] }] }],
            },
        ],
    };
    assert_eq!(html(&tree), Ok(s("<html>\n<p><ul>\n<li>out</li>\n</ul>\n</p>\n</html>\n")));
}

#[test]
fn later_definition_in_the_same_scope_overwrites() {
    let tree = AST::Program {
        parts: vec![define("x", "1"), use_of("x"), define("x", "2"), use_of("x")],
    };
    assert_eq!(html(&tree), Ok(s("<html>\n12</html>\n")));
}

#[test]
fn use_before_definition_is_a_fault() {
    let tree = AST::Program { parts: vec![use_of("x"), define("x", "1")] };
    assert_eq!(html(&tree), Err(missing("x")));
    assert_eq!(SemanticAnalyzer::new().check_program(&tree), Err(missing("x")));
}

#[test]
fn definition_in_a_paragraph_is_invisible_to_its_sibling() {
    let tree = AST::Program {
        parts: vec![
            AST::Paragraph { items: vec![define("x", "1"), use_of("x")] },
            AST::Paragraph { items: vec![use_of("x")] },
        ],
    };
    assert_eq!(html(&tree), Err(missing("x")));
    assert_eq!(SemanticAnalyzer::new().check_program(&tree), Err(missing("x")));
}

#[test]
fn definition_in_a_block_is_invisible_after_it() {
    for block in [
        AST::Paragraph { items: vec![define("x", "1")] },
        AST::List { items: vec![define("x", "1")] },
        AST::ListItem { items: vec![define("x", "1")] },
    ] {
        let tree = AST::Program { parts: vec![block, use_of("x")] };
        assert_eq!(html(&tree), Err(missing("x")));
    }
}

#[test]
fn inner_definition_shadows_until_its_block_ends() {
    let tree = AST::Program {
        parts: vec![
            define("x", "outer"),
            AST::Paragraph { items: vec![define("x", "inner"), use_of("x")] },
            use_of("x"),
        ],
    };
    assert_eq!(html(&tree), Ok(s("<html>\n<p>inner</p>\nouter</html>\n")));
    assert_eq!(SemanticAnalyzer::new().check_program(&tree), Ok(()));
}

#[test]
fn first_missing_variable_is_reported() {
    let tree = AST::Program {
        parts: vec![AST::Paragraph { items: vec![use_of("first")] }, use_of("second")],
    };
    assert_eq!(html(&tree), Err(missing("first")));
}

#[test]
fn values_are_not_escaped() {
    let tree = AST::Program { parts: vec![define("x", "<b>&\"'</b>"), use_of("x")] };
    assert_eq!(html(&tree), Ok(s("<html>\n<b>&\"'</b></html>\n")));
}

#[test]
fn analyzer_is_left_as_it_was() {
    let mut analyzer = SemanticAnalyzer::new();
    let tree = AST::Program { parts: vec![define("x", "1")] };
    assert_eq!(analyzer.generate(&tree), Ok(s("<html>\n</html>\n")));
    assert_eq!(analyzer.lookup("x"), None);
    assert_eq!(analyzer.generate(&use_of("x")), Err(missing("x")));
    assert_eq!(analyzer.check_program(&tree), Ok(()));
    assert_eq!(analyzer.lookup("x"), None);
}

#[test]
fn scopes_by_hand() {
    let mut analyzer = SemanticAnalyzer::new();
    analyzer.define("x", "lost");
    assert_eq!(analyzer.lookup("x"), None);
    analyzer.push_scope();
    analyzer.define("x", "1");
    analyzer.define("y", "2");
    analyzer.push_scope();
    analyzer.define("x", "3");
    assert_eq!(analyzer.lookup("x"), Some(s("3")));
    assert_eq!(analyzer.lookup("y"), Some(s("2")));
    assert_eq!(analyzer.generate(&use_of("x")), Ok(s("3")));
    analyzer.pop_scope();
    assert_eq!(analyzer.lookup("x"), Some(s("1")));
    analyzer.define("x", "4");
    assert_eq!(analyzer.lookup("x"), Some(s("4")));
    analyzer.pop_scope();
    assert_eq!(analyzer.lookup("x"), None);
    analyzer.pop_scope();
    assert_eq!(analyzer.lookup("y"), None);
}

#[test]
fn checking_and_generating_agree() {
    let trees = vec![
        AST::Program { parts: vec![] },
        AST::Program { parts: vec![use_of("x")] },
        AST::Program { parts: vec![define("x", "1"), use_of("x")] },
        AST::Program { parts: vec![AST::List { items: vec![define("x", "1")] }, use_of("x")] },
        use_of("y"),
        t("z"),
    ];
    for tree in &trees {
        let checked = SemanticAnalyzer::new().check_program(tree);
        let made = html(tree);
        assert_eq!(checked.is_ok(), made.is_ok());
        if let (Err(a), Err(b)) = (checked, made) {
            assert_eq!(a, b);
        }
    }
}

#[test]
fn trees_can_be_copied_and_compared() {
    let tree = AST::Program {
        parts: vec![
            AST::Comment(s("c")),
            AST::Head { title: s("t") },
            AST::Paragraph {
                items: vec![
                    define("x", "1"),
                    t("a"),
                    AST::Bold(s("b")),
                    AST::Italics(s("i")),
                    AST::Newline,
                    AST::Audio(s("s")),
                    AST::Video(s("v")),
                    AST::List { items: vec![AST::ListItem { items: vec![use_of("x")] }] },
                ],
            },
        ],
    };
    let copy = tree.clone();
    assert_eq!(copy, tree);
    assert_eq!(html(&copy), html(&tree));
    assert_ne!(AST::Bold(s("a")), AST::Italics(s("a")));
    assert_ne!(AST::Paragraph { items: vec![] }, AST::Paragraph { items: vec![AST::Newline] });
}

#[test]
fn output_before_a_fault_is_not_returned() {
    let tree = AST::Program { parts: vec![t("before"), use_of("x"), t("after")] };
    assert_eq!(html(&tree), Err(missing("x")));
}

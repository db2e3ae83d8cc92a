//! The orchestrator: scanning, parsing, then resolving and emitting, each
//! phase only if the one before it met no fault.

use vstd::prelude::*;
use crate::ast::{nodes_of, Node, AST};
use crate::error::{CompileError, Fault};
use crate::grammar::{lemma_empty_program, lemma_program_needs_kthxbye, program_at};
use crate::lexer::{
    collect_tokens, lemma_scan_all_bounds, lemma_scan_hai_kthxbye, lemma_scan_progress, scan,
    scan_all, LolLexer,
};
use crate::semantic_analyzer::{generated, SemanticAnalyzer};
use crate::syntax_analyzer::{fault_position, LolCodeSyntaxAnalyzer, SyntaxAnalyzer};
use crate::text::{is_whitespace, spells};
use crate::token::{token_views, Keyword, Token, TokenView};

verus! {

/// The HTML of a token sequence, or the first fault: the syntax fault if the
/// tokens are no program, else the semantic fault if a variable is used
/// where nothing binds it.
pub open spec fn built(ts: Seq<TokenView>) -> Result<Seq<char>, Fault> {
    match program_at(ts, 0) {
        Ok((root, _)) => generated(root, Seq::empty()),
        Err(fault) => Err(fault),
    }
}

/// The HTML of a source text, or the first fault. Each phase runs only if
/// the one before it met no fault: scanning, parsing, then resolving and
/// emitting. The parser is given the tokens before the end of the input,
/// and takes the end of the tokens for it.
pub open spec fn compiled(source: Seq<char>) -> Result<Seq<char>, Fault> {
    match scan_all(source, 0).fault {
        Some(fault) => Err(fault),
        None => built(scan_all(source, 0).tokens),
    }
}

/// Whether a result carries what `outcome` says: the same text, or the same
/// fault.
pub open spec fn agrees(result: Result<String, CompileError>, outcome: Result<Seq<char>, Fault>) -> bool {
    match outcome {
        Ok(html) => result is Ok && result->Ok_0@ == html,
        Err(fault) => result is Err && result->Err_0@ == fault,
    }
}

/// Compiling is a function of the source text: two results that a
/// compilation of the same text may give are the same HTML, or the same
/// fault.
pub proof fn lemma_same_source_same_result(
    source: Seq<char>,
    once: Result<String, CompileError>,
    again: Result<String, CompileError>,
)
    requires
        agrees(once, compiled(source)),
        agrees(again, compiled(source)),
    ensures
        once is Ok <==> again is Ok,
        once is Ok ==> once->Ok_0@ == again->Ok_0@,
        once is Err ==> once->Err_0@ == again->Err_0@,
{
}

/// Two compilers that are fresh and hold the same source yield the same:
/// what the source compiles to, whatever the outputs are called.
pub proof fn lemma_fresh_compilers_agree(first: CompilerView, second: CompilerView)
    requires
        first.source == second.source,
        first.offset == 0 && first.tokens.len() == 0,
        second.offset == 0 && second.tokens.len() == 0,
    ensures
        compile_outcome(first) == compile_outcome(second),
        compile_outcome(first) == compiled(first.source),
{
    let found = scan_all(first.source, 0).tokens;
    assert(first.tokens + found =~= found);
    assert(second.tokens + found =~= found);
}

/// A source text whose tokens hold no `KTHXBYE` does not compile: it ends
/// in a syntax fault, and there is no HTML.
pub proof fn lemma_missing_kthxbye_is_syntax_fault(source: Seq<char>)
    requires
        scan_all(source, 0).fault is None,
        forall|i: int|
            0 <= i < scan_all(source, 0).tokens.len() ==> scan_all(source, 0).tokens[i]
                != TokenView::Keyword(Keyword::Kthxbye),
    ensures
        compiled(source) is Err,
        compiled(source)->Err_0 is Syntax,
{
    lemma_program_needs_kthxbye(scan_all(source, 0).tokens);
}

/// A source text that holds `HAI`, `KTHXBYE` and nothing else compiles to
/// the empty document.
pub proof fn lemma_empty_program_html(source: Seq<char>)
    requires
        scan_all(source, 0).fault is None,
        scan_all(source, 0).tokens == seq![
            TokenView::Keyword(Keyword::Hai),
            TokenView::Keyword(Keyword::Kthxbye),
        ],
    ensures
        compiled(source) == Ok::<Seq<char>, Fault>("<html>\n</html>\n"@),
{
    lemma_empty_program();
    reveal_strlit("<html>\n");
    reveal_strlit("</html>\n");
    reveal_strlit("<html>\n</html>\n");
    assert("<html>\n"@ + Seq::<char>::empty() + "</html>\n"@ =~= "<html>\n</html>\n"@);
}

/// `#HAI` and `#KTHXBYE`, with white space between them and any white space
/// around them, compile to the empty document.
pub proof fn lemma_hai_kthxbye_in_any_white_space(w0: Seq<char>, w1: Seq<char>, w2: Seq<char>)
    requires
        forall|k: int| 0 <= k < w0.len() ==> is_whitespace(#[trigger] w0[k]),
        forall|k: int| 0 <= k < w1.len() ==> is_whitespace(#[trigger] w1[k]),
        forall|k: int| 0 <= k < w2.len() ==> is_whitespace(#[trigger] w2[k]),
        w1.len() > 0,
    ensures
        compiled(w0 + "#HAI"@ + w1 + "#KTHXBYE"@ + w2) == Ok::<Seq<char>, Fault>(
            "<html>\n</html>\n"@,
        ),
{
    lemma_scan_hai_kthxbye(w0, w1, w2);
    lemma_empty_program_html(w0 + "#HAI"@ + w1 + "#KTHXBYE"@ + w2);
}

/// Whether a file name ends in `.lol`.
pub open spec fn is_source_name(name: Seq<char>) -> bool {
    name.len() >= 4 && name.subrange(name.len() - 4, name.len() as int) == ".lol"@
}

/// The name of the output for a source file: the source's name with its
/// `.lol` replaced by `.html`.
pub open spec fn html_name(name: Seq<char>) -> Seq<char> {
    name.subrange(0, name.len() - 4) + ".html"@
}

/// The name under which the HTML of the source file `name` is stored, if
/// `name` is that of a source file.
pub fn output_file_name(name: &str) -> (output: Option<String>)
    ensures
        match output {
            Some(html) => is_source_name(name@) && html@ == html_name(name@),
            None => !is_source_name(name@),
        },
{
    let n: usize = name.unicode_len();
    if n < 4 {
        return None;
    }
    if spells(name.substring_char(n - 4, n), ".lol") {
        let mut html = String::from_str(name.substring_char(0, n - 4));
        html.append(".html");
        Some(html)
    } else {
        None
    }
}

/// The state of a compiler.
pub struct CompilerView {
    /// The source text.
    pub source: Seq<char>,
    /// The number of characters of it that are scanned.
    pub offset: nat,
    /// The token scanned last, if any was.
    pub current: Option<TokenView>,
    /// The tokens collected for parsing.
    pub tokens: Seq<TokenView>,
    /// The parser's tokens and position, once there is a parser.
    pub parser: Option<(Seq<TokenView>, nat)>,
    /// The tree parsed last: empty, or the one program.
    pub tree: Seq<Node>,
    /// The name under which the HTML is to be stored.
    pub output_name: Seq<char>,
}

/// The state after scanning one token: it is the current one, and the
/// scanner stands behind it. A lexical fault moves the scanner only.
pub open spec fn after_next_token(before: CompilerView) -> CompilerView {
    let found = scan(before.source, before.offset);
    CompilerView {
        offset: found.next,
        current: match found.token {
            Ok(token) => Some(token),
            Err(_) => before.current,
        },
        ..before
    }
}

/// The state after the parser has run from where it stood: it holds the
/// program, or stands where the syntax fault was met. With no parser nothing
/// happens.
pub open spec fn after_parse(before: CompilerView) -> CompilerView {
    match before.parser {
        Some((ts, pos)) => match program_at(ts, pos) {
            Ok((root, next)) => CompilerView {
                parser: Some((ts, next)),
                tree: seq![root],
                ..before
            },
            Err(fault) => CompilerView { parser: Some((ts, fault_position(fault))), ..before },
        },
        None => before,
    }
}

/// The fault that the parser meets from where it stands, if it meets one.
pub open spec fn parse_fault(before: CompilerView) -> Option<Fault> {
    match before.parser {
        Some((ts, pos)) => match program_at(ts, pos) {
            Ok(_) => None,
            Err(fault) => Some(fault),
        },
        None => None,
    }
}

/// The state after the rest of the source is scanned: the tokens found
/// before the end of the input are added to those collected, and the token
/// scanned last is the current one.
pub open spec fn after_scan(before: CompilerView) -> CompilerView {
    let run = scan_all(before.source, before.offset);
    CompilerView {
        offset: run.end,
        current: if run.fault is None {
            Some(TokenView::Eof)
        } else if run.tokens.len() > 0 {
            Some(run.tokens.last())
        } else {
            before.current
        },
        tokens: before.tokens + run.tokens,
        ..before
    }
}

/// The state after a compilation. A lexical fault ends it after scanning;
/// else a parser is made for all tokens collected and run from the first.
pub open spec fn after_compile(before: CompilerView) -> CompilerView {
    let scanned = after_scan(before);
    if scan_all(before.source, before.offset).fault is Some {
        scanned
    } else {
        after_parse(CompilerView { parser: Some((scanned.tokens, 0)), ..scanned })
    }
}

/// What a compilation yields: the first fault of scanning the rest of the
/// source, else what the tokens collected give.
pub open spec fn compile_outcome(before: CompilerView) -> Result<Seq<char>, Fault> {
    match scan_all(before.source, before.offset).fault {
        Some(fault) => Err(fault),
        None => built(after_scan(before).tokens),
    }
}

/// The orchestrator's operations: it runs the phases in order and stops at
/// the first fault.
pub trait Compiler {
    /// Whether the compiler's bookkeeping is in order.
    spec fn ready(&self) -> bool;

    /// The compiler's state.
    spec fn model(&self) -> CompilerView;

    /// Scans what is left of the text the compiler was made for, parses all
    /// tokens collected, checks the variables and generates the HTML.
    /// `source` is not read.
    fn compile(&mut self, source: &str) -> (html: Result<String, CompileError>)
        requires
            old(self).ready(),
        ensures
            final(self).ready(),
            final(self).model() == after_compile(old(self).model()),
            agrees(html, compile_outcome(old(self).model())),
            old(self).model().offset == 0 && old(self).model().tokens.len() == 0 ==> agrees(
                html,
                compiled(old(self).model().source),
            ),
    ;

    /// Scans one token and makes it the current one.
    fn next_token(&mut self) -> (token: Result<Token, CompileError>)
        requires
            old(self).ready(),
        ensures
            final(self).ready(),
            final(self).model() == after_next_token(old(self).model()),
            match token {
                Ok(t) => scan(old(self).model().source, old(self).model().offset).token == Ok::<
                    TokenView,
                    Fault,
                >(t@),
                Err(e) => scan(old(self).model().source, old(self).model().offset).token
                    == Err::<TokenView, Fault>(e@),
            },
    ;

    /// Runs the parser, if there is one, from where it stands, and keeps the
    /// program it yields.
    fn parse(&mut self) -> (done: Result<(), CompileError>)
        requires
            old(self).ready(),
        ensures
            final(self).ready(),
            final(self).model() == after_parse(old(self).model()),
            match done {
                Ok(()) => parse_fault(old(self).model()) is None,
                Err(e) => parse_fault(old(self).model()) == Some(e@),
            },
    ;

    /// The token scanned last, if any was.
    fn current_token(&self) -> (token: Option<Token>)
        ensures
            match token {
                Some(t) => self.model().current == Some(t@),
                None => self.model().current is None,
            },
    ;

    /// Makes `tok` the current token.
    fn set_current_token(&mut self, tok: Token)
        requires
            old(self).ready(),
        ensures
            final(self).ready(),
            final(self).model() == (CompilerView { current: Some(tok@), ..old(self).model() }),
    ;
}

/// The orchestrator: it owns the scanner for one source text, the tokens,
/// the parser and the tree, and the name of the output.
pub struct LolCompiler {
    lexer: LolLexer,
    current: Option<Token>,
    tokens: Vec<Token>,
    parser: Option<LolCodeSyntaxAnalyzer>,
    tree: Vec<AST>,
    output_name: String,
}

impl LolCompiler {
    /// A compiler for `source`, whose output is to be stored under
    /// `source_title`. Nothing is scanned yet.
    pub fn new(source: &str, source_title: String) -> (compiler: Self)
        requires
            source@.len() < usize::MAX,
        ensures
            compiler.ready(),
            compiler.model() == (CompilerView {
                source: source@,
                offset: 0,
                current: None,
                tokens: Seq::empty(),
                parser: None,
                tree: Seq::empty(),
                output_name: source_title@,
            }),
    {
        let compiler = LolCompiler {
            lexer: LolLexer::new(source),
            current: None,
            tokens: Vec::new(),
            parser: None,
            tree: Vec::new(),
            output_name: source_title,
        };
        assert(token_views(compiler.tokens@) =~= Seq::empty());
        assert(nodes_of(compiler.tree@) =~= Seq::empty());
        compiler
    }

    /// The name under which the HTML is to be stored.
    pub fn output_name(&self) -> (name: &str)
        ensures
            name@ == self.model().output_name,
    {
        self.output_name.as_str()
    }

    /// A copy of a run of tokens.
    fn copy_tokens(tokens: &Vec<Token>) -> (copy: Vec<Token>)
        ensures
            token_views(copy@) == token_views(tokens@),
    {
        let mut copy: Vec<Token> = Vec::new();
        let mut i: usize = 0;
        while i < tokens.len()
            invariant
                i <= tokens.len(),
                token_views(copy@) == token_views(tokens@).take(i as int),
            decreases tokens.len() - i,
        {
            let token = tokens[i].clone();
            assert(token_views(copy@.push(token)) =~= token_views(copy@).push(token@));
            assert(token_views(tokens@).take(i + 1) =~= token_views(tokens@).take(i as int).push(
                tokens[i as int]@,
            ));
            copy.push(token);
            i = i + 1;
        }
        assert(token_views(tokens@).take(tokens.len() as int) =~= token_views(tokens@));
        copy
    }

    /// Scans what is left of the source and collects the tokens.
    fn scan_rest(&mut self) -> (done: Result<(), CompileError>)
        requires
            old(self).ready(),
        ensures
            final(self).ready(),
            final(self).model() == after_scan(old(self).model()),
            match done {
                Ok(()) => scan_all(old(self).model().source, old(self).model().offset).fault
                    is None,
                Err(e) => scan_all(old(self).model().source, old(self).model().offset).fault
                    == Some(e@),
            },
    {
        let before: usize = self.tokens.len();
        let ghost run = scan_all(self.lexer.source(), self.lexer.offset());
        proof {
            self.lexer.lemma_wf_bounds();
        }
        let ghost collected = token_views(self.tokens@);
        let done = collect_tokens(&mut self.lexer, &mut self.tokens);
        proof {
            let all = token_views(self.tokens@);
            assert(collected.len() == before);
            assert(all.len() == self.tokens@.len());
            assert(all == collected + run.tokens);
            if self.tokens@.len() > before {
                assert(all[self.tokens@.len() - 1] == run.tokens[run.tokens.len() - 1]);
            }
        }
        if done.is_ok() {
            self.current = Some(Token::Eof);
        } else if self.tokens.len() > before {
            let last = self.tokens[self.tokens.len() - 1].clone();
            self.current = Some(last);
        }
        proof {
            lemma_scan_all_bounds(old(self).lexer.source(), old(self).lexer.offset());
        }
        done
    }

    /// Makes a parser for the tokens collected, at the first of them.
    fn start_parser(&mut self)
        requires
            old(self).ready(),
        ensures
            final(self).ready(),
            final(self).model() == (CompilerView {
                parser: Some((old(self).model().tokens, 0)),
                ..old(self).model()
            }),
    {
        proof {
            self.lexer.lemma_wf_bounds();
        }
        let tokens = Self::copy_tokens(&self.tokens);
        assert(tokens@.len() == token_views(tokens@).len());
        assert(self.tokens@.len() == token_views(self.tokens@).len());
        self.parser = Some(LolCodeSyntaxAnalyzer { tokens, position: 0 });
    }

    /// Checks the variables of the program parsed last and generates its
    /// HTML, in two traversals with fresh scopes each.
    fn emit(&self) -> (html: Result<String, CompileError>)
        requires
            self.model().tree.len() == 1,
        ensures
            agrees(html, generated(self.model().tree[0], Seq::empty())),
    {
        assert(nodes_of(self.tree@).len() == self.tree@.len());
        assert(nodes_of(self.tree@)[0] == self.tree@[0]@);
        let mut sem_analyzer = SemanticAnalyzer::new();
        sem_analyzer.check_program(&self.tree[0])?;
        sem_analyzer.generate(&self.tree[0])
    }
}

impl Compiler for LolCompiler {
    closed spec fn ready(&self) -> bool {
        &&& self.lexer.wf()
        &&& self.tokens@.len() <= self.lexer.offset()
        &&& match self.parser {
            Some(parser) => parser.tokens@.len() < usize::MAX,
            None => true,
        }
    }

    closed spec fn model(&self) -> CompilerView {
        CompilerView {
            source: self.lexer.source(),
            offset: self.lexer.offset(),
            current: match self.current {
                Some(token) => Some(token@),
                None => None,
            },
            tokens: token_views(self.tokens@),
            parser: match self.parser {
                Some(parser) => Some((parser.stream(), parser.place())),
                None => None,
            },
            tree: nodes_of(self.tree@),
            output_name: self.output_name@,
        }
    }

    fn compile(&mut self, source: &str) -> (html: Result<String, CompileError>) {
        self.scan_rest()?;
        self.start_parser();
        self.parse()?;
        self.emit()
    }

    fn next_token(&mut self) -> (token: Result<Token, CompileError>) {
        proof {
            lemma_scan_progress(self.lexer.source(), self.lexer.offset());
        }
        match self.lexer.next_token() {
            Ok(token) => {
                self.current = Some(token.clone());
                Ok(token)
            },
            Err(e) => Err(e),
        }
    }

    fn parse(&mut self) -> (done: Result<(), CompileError>) {
        match self.parser.take() {
            Some(parser) => {
                let mut parser = parser;
                let parsed = parser.parse_lolcode();
                self.parser = Some(parser);
                match parsed {
                    Ok(root) => {
                        let mut tree: Vec<AST> = Vec::new();
                        tree.push(root);
                        assert(nodes_of(tree@) =~= seq![root@]);
                        self.tree = tree;
                        Ok(())
                    },
                    Err(e) => Err(e),
                }
            },
            None => Ok(()),
        }
    }

    fn current_token(&self) -> (token: Option<Token>) {
        match &self.current {
            Some(token) => Some(token.clone()),
            None => None,
        }
    }

    fn set_current_token(&mut self, tok: Token) {
        self.current = Some(tok);
    }
}

} // verus!

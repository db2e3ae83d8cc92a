//! The recursive-descent parser: one method for each rule of the grammar.

use vstd::prelude::*;
pub use crate::ast::AST;
use crate::ast::{nodes_of, Node};
use crate::error::{CompileError, Fault};
use crate::grammar::{
    audio_at, body_at, body_part_at, bold_at, comment_at, comments_at, continued, expect_at,
    head_at, inner_list_at, inner_paragraph_at, italics_at, kind_at, lemma_body_part_consumes,
    lemma_leaf_consumes, lemma_list_item_consumes, lemma_list_part_consumes,
    lemma_paragraph_part_consumes, list_at, list_item_at, list_items_at, list_part_at, newline_at,
    paragraph_at, paragraph_part_at, payload, preceded, program_at, run_end, run_text, text_at,
    title_at, var_define_at, var_use_at, video_at, word_is, word_of, words_are, ParseOf,
};
use crate::lexer::{collect_tokens, scan_all, tokens_from, LolLexer};
use crate::token::{token_views, Keyword, Token, TokenKind, TokenView};

verus! {

/// The position at which a syntax fault was met.
pub open spec fn fault_position(fault: Fault) -> nat {
    match fault {
        Fault::Syntax { position, .. } => position,
        _ => 0,
    }
}

/// Whether a parser's result and the place where it stopped are what the
/// grammar gives: on success the node and the position after it, on failure
/// the fault, with the parser left where the fault was met.
pub open spec fn yields(result: Result<AST, CompileError>, place: nat, rule: ParseOf<Node>) -> bool {
    match rule {
        Ok((node, next)) => result is Ok && result->Ok_0@ == node && place == next,
        Err(fault) => result is Err && result->Err_0@ == fault && place == fault_position(fault),
    }
}

/// The same of a production that yields a run of nodes.
pub open spec fn yields_all(
    result: Result<Vec<AST>, CompileError>,
    place: nat,
    rule: ParseOf<Seq<Node>>,
) -> bool {
    match rule {
        Ok((nodes, next)) => result is Ok && nodes_of(result->Ok_0@) == nodes && place == next,
        Err(fault) => result is Err && result->Err_0@ == fault && place == fault_position(fault),
    }
}

/// The same of a choice among alternatives: where the tokens select none,
/// there is no result and the parser has not moved.
pub open spec fn yields_part(
    result: Option<Result<AST, CompileError>>,
    place: nat,
    before: nat,
    rule: Option<ParseOf<Node>>,
) -> bool {
    match rule {
        Some(chosen) => result is Some && yields(result->0, place, chosen),
        None => result is None && place == before,
    }
}

/// Putting a node before a run and then nodes before that is putting the
/// nodes, with the node at their end, before the run.
pub proof fn lemma_continued_preceded(before: Seq<Node>, node: Node, inner: ParseOf<Seq<Node>>)
    ensures
        continued(before, preceded(node, inner)) == continued(before.push(node), inner),
{
    match inner {
        Ok((rest, _)) => {
            assert(before + (seq![node] + rest) =~= before.push(node) + rest);
        },
        Err(_) => {},
    }
}

/// The values of a run of trees with one more at its end.
pub proof fn lemma_nodes_of_push(trees: Seq<AST>, last: AST)
    ensures
        nodes_of(trees.push(last)) == nodes_of(trees).push(last@),
{
    assert(nodes_of(trees.push(last)) =~= nodes_of(trees).push(last@));
}

/// The productions of the grammar, one method each. Each starts at the
/// parser's position, consumes what it recognizes and yields its node; a
/// required token that is missing is a syntax fault, and the parser stays
/// where it met it.
pub trait SyntaxAnalyzer {
    /// The tokens that are parsed.
    spec fn stream(&self) -> Seq<TokenView>;

    /// The position of the token at hand.
    spec fn place(&self) -> nat;

    /// `program := HAI comment* head? body KTHXBYE`, then the end of the input.
    /// The position after the end of the input must fit the machine's
    /// integers: the tokens are fewer than `usize::MAX`, or the last of them
    /// is the end-of-input token.
    fn parse_lolcode(&mut self) -> (node: Result<AST, CompileError>)
        requires
            old(self).stream().len() < usize::MAX || (old(self).stream().len() > 0 && old(
                self,
            ).stream().last() is Eof),
        ensures
            final(self).stream() == old(self).stream(),
            yields(node, final(self).place(), program_at(old(self).stream(), old(self).place())),
    ;

    /// `head := MAEK HEAD title OIC`
    fn parse_head(&mut self) -> (node: Result<AST, CompileError>)
        ensures
            final(self).stream() == old(self).stream(),
            yields(node, final(self).place(), head_at(old(self).stream(), old(self).place())),
    ;

    /// `title := GIMMEH TITLE text* MKAY`; the words are joined with single
    /// spaces.
    fn parse_title(&mut self) -> (node: Result<AST, CompileError>)
        ensures
            final(self).stream() == old(self).stream(),
            yields(node, final(self).place(), title_at(old(self).stream(), old(self).place())),
    ;

    /// `comment := OBTW text* TLDR`; the words are joined with single spaces.
    fn parse_comment(&mut self) -> (node: Result<AST, CompileError>)
        ensures
            final(self).stream() == old(self).stream(),
            yields(node, final(self).place(), comment_at(old(self).stream(), old(self).place())),
    ;

    /// `body`: the alternatives that the tokens select, one after the other.
    fn parse_body(&mut self) -> (nodes: Result<Vec<AST>, CompileError>)
        ensures
            final(self).stream() == old(self).stream(),
            yields_all(nodes, final(self).place(), body_at(old(self).stream(), old(self).place())),
    ;

    /// `paragraph := MAEK PARAGRAF vardefine? inner_paragraph OIC`
    fn parse_paragraph(&mut self) -> (node: Result<AST, CompileError>)
        ensures
            final(self).stream() == old(self).stream(),
            yields(
                node,
                final(self).place(),
                paragraph_at(old(self).stream(), old(self).place()),
            ),
    ;

    /// `inner_paragraph`: the alternatives that the tokens select, one after
    /// the other.
    fn parse_inner_paragraph(&mut self) -> (nodes: Result<Vec<AST>, CompileError>)
        ensures
            final(self).stream() == old(self).stream(),
            yields_all(
                nodes,
                final(self).place(),
                inner_paragraph_at(old(self).stream(), old(self).place()),
            ),
    ;

    /// A word of text inside a paragraph: `text`.
    fn parse_inner_text(&mut self) -> (node: Result<AST, CompileError>)
        ensures
            final(self).stream() == old(self).stream(),
            yields(node, final(self).place(), text_at(old(self).stream(), old(self).place())),
    ;

    /// `vardefine := IHAZ text ITIZ text MKAY`
    fn parse_variable_define(&mut self) -> (node: Result<AST, CompileError>)
        ensures
            final(self).stream() == old(self).stream(),
            yields(
                node,
                final(self).place(),
                var_define_at(old(self).stream(), old(self).place()),
            ),
    ;

    /// `varuse := LEMMESEE text MKAY`
    fn parse_variable_use(&mut self) -> (node: Result<AST, CompileError>)
        ensures
            final(self).stream() == old(self).stream(),
            yields(node, final(self).place(), var_use_at(old(self).stream(), old(self).place())),
    ;

    /// `bold := GIMMEH BOLD text* MKAY`; the words are joined with single spaces.
    fn parse_bold(&mut self) -> (node: Result<AST, CompileError>)
        ensures
            final(self).stream() == old(self).stream(),
            yields(node, final(self).place(), bold_at(old(self).stream(), old(self).place())),
    ;

    /// `italics := GIMMEH ITALICS text* MKAY`; the words are joined with single
    /// spaces.
    fn parse_italics(&mut self) -> (node: Result<AST, CompileError>)
        ensures
            final(self).stream() == old(self).stream(),
            yields(node, final(self).place(), italics_at(old(self).stream(), old(self).place())),
    ;

    /// `list := MAEK LIST list_items OIC`
    fn parse_list(&mut self) -> (node: Result<AST, CompileError>)
        ensures
            final(self).stream() == old(self).stream(),
            yields(node, final(self).place(), list_at(old(self).stream(), old(self).place())),
    ;

    /// `list_items := ( GIMMEH ITEM inner_list MKAY )*`
    fn parse_list_items(&mut self) -> (nodes: Result<Vec<AST>, CompileError>)
        ensures
            final(self).stream() == old(self).stream(),
            yields_all(
                nodes,
                final(self).place(),
                list_items_at(old(self).stream(), old(self).place()),
            ),
    ;

    /// `inner_list`: the alternatives that the tokens select, one after the
    /// other.
    fn parse_inner_list(&mut self) -> (nodes: Result<Vec<AST>, CompileError>)
        ensures
            final(self).stream() == old(self).stream(),
            yields_all(
                nodes,
                final(self).place(),
                inner_list_at(old(self).stream(), old(self).place()),
            ),
    ;

    /// `audio := GIMMEH SOUNDZ text MKAY`
    fn parse_audio(&mut self) -> (node: Result<AST, CompileError>)
        ensures
            final(self).stream() == old(self).stream(),
            yields(node, final(self).place(), audio_at(old(self).stream(), old(self).place())),
    ;

    /// `video := GIMMEH VIDZ text MKAY`
    fn parse_video(&mut self) -> (node: Result<AST, CompileError>)
        ensures
            final(self).stream() == old(self).stream(),
            yields(node, final(self).place(), video_at(old(self).stream(), old(self).place())),
    ;

    /// `newline := GIMMEH NEWLINE`
    fn parse_newline(&mut self) -> (node: Result<AST, CompileError>)
        ensures
            final(self).stream() == old(self).stream(),
            yields(node, final(self).place(), newline_at(old(self).stream(), old(self).place())),
    ;

    /// `text`: one text token.
    fn parse_text(&mut self) -> (node: Result<AST, CompileError>)
        ensures
            final(self).stream() == old(self).stream(),
            yields(node, final(self).place(), text_at(old(self).stream(), old(self).place())),
    ;
}

/// The parser: a token sequence and the position of the token at hand.
pub struct LolCodeSyntaxAnalyzer {
    pub tokens: Vec<Token>,
    pub position: usize,
}

impl LolCodeSyntaxAnalyzer {
    /// Scans all that is left of the lexer's text and stands at the first
    /// token. The end-of-input token is the last of the sequence.
    pub fn new(lexer: LolLexer) -> (parser: Result<Self, CompileError>)
        requires
            lexer.wf(),
        ensures
            match parser {
                Ok(p) => tokens_from(lexer.source(), lexer.offset()) == Ok::<
                    Seq<TokenView>,
                    Fault,
                >(token_views(p.tokens@)) && p.position == 0,
                Err(e) => tokens_from(lexer.source(), lexer.offset()) == Err::<
                    Seq<TokenView>,
                    Fault,
                >(e@),
            },
    {
        let mut scanner = lexer;
        let mut tokens: Vec<Token> = Vec::new();
        collect_tokens(&mut scanner, &mut tokens)?;
        let ghost found = token_views(tokens@);
        tokens.push(Token::Eof);
        assert(found =~= scan_all(lexer.source(), lexer.offset()).tokens);
        assert(token_views(tokens@) =~= found.push(TokenView::Eof));
        Ok(LolCodeSyntaxAnalyzer { tokens, position: 0 })
    }

    /// Collects the tokens of the lexer's text into a parser that stands at
    /// the first of them, as `new` does.
    #[allow(non_snake_case)]
    pub fn collectTokens(lexer: LolLexer) -> (parser: Result<Self, CompileError>)
        requires
            lexer.wf(),
        ensures
            match parser {
                Ok(p) => tokens_from(lexer.source(), lexer.offset()) == Ok::<
                    Seq<TokenView>,
                    Fault,
                >(token_views(p.tokens@)) && p.position == 0,
                Err(e) => tokens_from(lexer.source(), lexer.offset()) == Err::<
                    Seq<TokenView>,
                    Fault,
                >(e@),
            },
    {
        Self::new(lexer)
    }

    /// The kind of the token at hand; past the last token, the end of the
    /// input.
    pub fn current(&self) -> (kind: TokenKind)
        ensures
            kind == kind_at(self.stream(), self.place()),
    {
        if self.position < self.tokens.len() {
            self.tokens[self.position].kind()
        } else {
            TokenKind::Eof
        }
    }

    /// The kind of the token after the one at hand.
    pub fn following(&self) -> (kind: TokenKind)
        ensures
            kind == kind_at(self.stream(), self.place() + 1),
    {
        if self.position < self.tokens.len() && self.position + 1 < self.tokens.len() {
            self.tokens[self.position + 1].kind()
        } else {
            TokenKind::Eof
        }
    }

    /// Whether the token at hand is the reserved word `k`.
    fn at(&self, k: Keyword) -> (found: bool)
        ensures
            found == word_is(self.stream(), self.place(), k),
    {
        self.current() == TokenKind::Keyword(k)
    }

    /// Whether the token at hand and the one after it are the reserved words
    /// `a` and `b`.
    fn at_pair(&self, a: Keyword, b: Keyword) -> (found: bool)
        ensures
            found == words_are(self.stream(), self.place(), a, b),
    {
        self.current() == TokenKind::Keyword(a) && self.following() == TokenKind::Keyword(b)
    }

    /// Consumes the token at hand if it is of kind `what`; else reports it.
    /// The end of the input can be consumed too, at any position at or past
    /// the end of the tokens but the last that the machine's integers hold.
    pub fn expect(&mut self, what: TokenKind) -> (met: Result<(), CompileError>)
        requires
            what == TokenKind::Eof ==> old(self).position < usize::MAX,
        ensures
            final(self).stream() == old(self).stream(),
            match expect_at(old(self).stream(), old(self).place(), what) {
                Ok(next) => met is Ok && final(self).place() == next,
                Err(fault) => met is Err && met->Err_0@ == fault && final(self).place() == old(
                    self,
                ).place(),
            },
    {
        if self.current() == what {
            assert(what != TokenKind::Eof ==> self.position < self.tokens.len());
            self.position = self.position + 1;
            Ok(())
        } else {
            Err(CompileError::Syntax { position: self.position, expected: what })
        }
    }

    /// Consumes the token at hand if it is the reserved word `k`.
    fn expect_word(&mut self, k: Keyword) -> (met: Result<(), CompileError>)
        ensures
            final(self).stream() == old(self).stream(),
            match expect_at(old(self).stream(), old(self).place(), TokenKind::Keyword(k)) {
                Ok(next) => met is Ok && final(self).place() == next,
                Err(fault) => met is Err && met->Err_0@ == fault && final(self).place() == old(
                    self,
                ).place(),
            },
    {
        self.expect(TokenKind::Keyword(k))
    }

    /// Whether a token carries a word of text.
    pub fn is_text(&self, tok: &Token) -> (text: bool)
        ensures
            text == (tok@ is Text),
    {
        tok.is_text()
    }

    /// The word that a text token carries; of any other token, nothing.
    pub fn text_content(tok: &Token) -> (word: String)
        ensures
            word@ == word_of(tok@),
    {
        match tok {
            Token::Text(word) => word.clone(),
            _ => String::new(),
        }
    }

    /// Consumes the run of text tokens at hand and joins their words with
    /// single spaces.
    fn text_run(&mut self) -> (text: String)
        ensures
            final(self).stream() == old(self).stream(),
            final(self).place() == run_end(old(self).stream(), old(self).place()),
            text@ == run_text(old(self).stream(), old(self).place(), final(self).place()),
    {
        let mut text = String::new();
        let start: usize = self.position;
        let ghost ts = self.stream();
        while self.position < self.tokens.len() && self.tokens[self.position].is_text()
            invariant
                self.stream() == old(self).stream(),
                ts == self.stream(),
                start == old(self).place(),
                start <= self.position,
                run_end(ts, self.place()) == run_end(ts, start as nat),
                text@ == run_text(ts, start as nat, self.place()),
            decreases self.tokens.len() - self.position,
        {
            let word = Self::text_content(&self.tokens[self.position]);
            if self.position > start {
                text.append(" ");
            } else {
                assert(text@ + word@ =~= word@);
            }
            text.append(word.as_str());
            self.position = self.position + 1;
        }
        text
    }

    /// Consumes one text token and returns its word.
    fn text_payload(&mut self) -> (word: Result<String, CompileError>)
        ensures
            final(self).stream() == old(self).stream(),
            match text_at(old(self).stream(), old(self).place()) {
                Ok((node, next)) => word is Ok && word->Ok_0@ == payload(node)
                    && final(self).place() == next,
                Err(fault) => word is Err && word->Err_0@ == fault && final(self).place()
                    == fault_position(fault),
            },
    {
        if self.position < self.tokens.len() && self.tokens[self.position].is_text() {
            let word = Self::text_content(&self.tokens[self.position]);
            self.position = self.position + 1;
            Ok(word)
        } else {
            Err(CompileError::Syntax { position: self.position, expected: TokenKind::Text })
        }
    }

    /// Parses the alternative of `inner_list` that the tokens at hand select.
    fn list_part(&mut self) -> (part: Option<Result<AST, CompileError>>)
        ensures
            final(self).stream() == old(self).stream(),
            yields_part(
                part,
                final(self).place(),
                old(self).place(),
                list_part_at(old(self).stream(), old(self).place()),
            ),
    {
        if self.current() == TokenKind::Text {
            Some(self.parse_text())
        } else if self.at_pair(Keyword::Gimmeh, Keyword::Bold) {
            Some(self.parse_bold())
        } else if self.at_pair(Keyword::Gimmeh, Keyword::Italics) {
            Some(self.parse_italics())
        } else if self.at(Keyword::LemmeSee) {
            Some(self.parse_variable_use())
        } else {
            None
        }
    }

    /// Parses the alternative of `inner_paragraph` that the tokens at hand select.
    fn paragraph_part(&mut self) -> (part: Option<Result<AST, CompileError>>)
        ensures
            final(self).stream() == old(self).stream(),
            yields_part(
                part,
                final(self).place(),
                old(self).place(),
                paragraph_part_at(old(self).stream(), old(self).place()),
            ),
    {
        if self.at(Keyword::LemmeSee) {
            Some(self.parse_variable_use())
        } else if self.at_pair(Keyword::Gimmeh, Keyword::Bold) {
            Some(self.parse_bold())
        } else if self.at_pair(Keyword::Gimmeh, Keyword::Italics) {
            Some(self.parse_italics())
        } else if self.at_pair(Keyword::Gimmeh, Keyword::Newline) {
            Some(self.parse_newline())
        } else if self.at_pair(Keyword::Gimmeh, Keyword::Soundz) {
            Some(self.parse_audio())
        } else if self.at_pair(Keyword::Gimmeh, Keyword::Vidz) {
            Some(self.parse_video())
        } else if self.current() == TokenKind::Text {
            Some(self.parse_inner_text())
        } else if self.at_pair(Keyword::Maek, Keyword::List) {
            Some(self.parse_list())
        } else {
            None
        }
    }

    /// Parses the alternative of `body` that the tokens at hand select.
    fn body_part(&mut self) -> (part: Option<Result<AST, CompileError>>)
        ensures
            final(self).stream() == old(self).stream(),
            yields_part(
                part,
                final(self).place(),
                old(self).place(),
                body_part_at(old(self).stream(), old(self).place()),
            ),
    {
        if self.at_pair(Keyword::Maek, Keyword::Paragraf) {
            Some(self.parse_paragraph())
        } else if self.at_pair(Keyword::Maek, Keyword::List) {
            Some(self.parse_list())
        } else if self.at_pair(Keyword::Gimmeh, Keyword::Bold) {
            Some(self.parse_bold())
        } else if self.at_pair(Keyword::Gimmeh, Keyword::Italics) {
            Some(self.parse_italics())
        } else if self.at_pair(Keyword::Gimmeh, Keyword::Newline) {
            Some(self.parse_newline())
        } else if self.at_pair(Keyword::Gimmeh, Keyword::Soundz) {
            Some(self.parse_audio())
        } else if self.at_pair(Keyword::Gimmeh, Keyword::Vidz) {
            Some(self.parse_video())
        } else if self.at(Keyword::IHaz) {
            Some(self.parse_variable_define())
        } else if self.at(Keyword::LemmeSee) {
            Some(self.parse_variable_use())
        } else if self.current() == TokenKind::Text {
            Some(self.parse_text())
        } else if self.at(Keyword::Obtw) {
            Some(self.parse_comment())
        } else {
            None
        }
    }

    /// Parses one list item, from its `GIMMEH ITEM` to its `MKAY`.
    fn list_item(&mut self) -> (node: Result<AST, CompileError>)
        ensures
            final(self).stream() == old(self).stream(),
            yields(node, final(self).place(), list_item_at(old(self).stream(), old(self).place())),
    {
        self.expect_word(Keyword::Gimmeh)?;
        self.expect_word(Keyword::Item)?;
        let items = self.parse_inner_list()?;
        self.expect_word(Keyword::Mkay)?;
        Ok(AST::ListItem { items })
    }

    /// Parses the comments at hand, as many as there are.
    fn comments(&mut self) -> (nodes: Result<Vec<AST>, CompileError>)
        ensures
            final(self).stream() == old(self).stream(),
            yields_all(
                nodes,
                final(self).place(),
                comments_at(old(self).stream(), old(self).place()),
            ),
    {
        let mut nodes: Vec<AST> = Vec::new();
        let ghost ts = self.stream();
        let ghost whole = comments_at(ts, self.place());
        proof {
            match whole {
                Ok((all, _)) => {
                    assert(nodes_of(nodes@) + all =~= all);
                },
                Err(_) => {},
            }
        }
        while self.at(Keyword::Obtw)
            invariant
                ts == old(self).stream(),
                self.stream() == ts,
                whole == comments_at(ts, old(self).place()),
                whole == continued(nodes_of(nodes@), comments_at(ts, self.place())),
            decreases ts.len() - self.place(),
        {
            let ghost at = self.place();
            let ghost before = nodes_of(nodes@);
            proof {
                lemma_leaf_consumes(ts, at);
            }
            match self.parse_comment() {
                Err(e) => {
                    return Err(e);
                },
                Ok(node) => {
                    proof {
                        lemma_nodes_of_push(nodes@, node);
                        lemma_continued_preceded(before, node@, comments_at(ts, self.place()));
                    }
                    nodes.push(node);
                },
            }
        }
        assert(nodes_of(nodes@) + Seq::<Node>::empty() =~= nodes_of(nodes@));
        Ok(nodes)
    }

    /// Appends `more` to `nodes`, in order.
    fn append_nodes(nodes: &mut Vec<AST>, more: Vec<AST>)
        ensures
            nodes_of(final(nodes)@) == nodes_of(old(nodes)@) + nodes_of(more@),
    {
        let mut more = more;
        let ghost added = more@;
        nodes.append(&mut more);
        assert(nodes_of(nodes@) =~= nodes_of(old(nodes)@) + nodes_of(added));
    }
}

impl SyntaxAnalyzer for LolCodeSyntaxAnalyzer {
    open spec fn stream(&self) -> Seq<TokenView> {
        token_views(self.tokens@)
    }

    open spec fn place(&self) -> nat {
        self.position as nat
    }

    fn parse_lolcode(&mut self) -> (node: Result<AST, CompileError>) {
        self.expect_word(Keyword::Hai)?;
        let mut parts = self.comments()?;
        if self.at_pair(Keyword::Maek, Keyword::Head) {
            let head = self.parse_head()?;
            proof {
                lemma_nodes_of_push(parts@, head);
            }
            parts.push(head);
        }
        let body = self.parse_body()?;
        proof {
            let ts = old(self).stream();
            let p = expect_at(ts, old(self).place(), TokenKind::Keyword(Keyword::Hai))->Ok_0;
            let after_comments = comments_at(ts, p)->Ok_0.1;
            let before = comments_at(ts, p)->Ok_0.0;
            if words_are(ts, after_comments, Keyword::Maek, Keyword::Head) {
                let h = head_at(ts, after_comments)->Ok_0;
                lemma_continued_preceded(before, h.0, body_at(ts, h.1));
            }
        }
        Self::append_nodes(&mut parts, body);
        let ghost closing = self.place();
        self.expect_word(Keyword::Kthxbye)?;
        assert(self.position < usize::MAX) by {
            assert(word_is(self.stream(), closing, Keyword::Kthxbye));
            assert(closing < self.tokens.len());
        }
        self.expect(TokenKind::Eof)?;
        Ok(AST::Program { parts })
    }

    fn parse_head(&mut self) -> (node: Result<AST, CompileError>) {
        self.expect_word(Keyword::Maek)?;
        self.expect_word(Keyword::Head)?;
        let head = self.parse_title()?;
        self.expect_word(Keyword::Oic)?;
        Ok(head)
    }

    fn parse_title(&mut self) -> (node: Result<AST, CompileError>) {
        self.expect_word(Keyword::Gimmeh)?;
        self.expect_word(Keyword::Title)?;
        let text = self.text_run();
        self.expect_word(Keyword::Mkay)?;
        Ok(AST::Head { title: text })
    }

    fn parse_comment(&mut self) -> (node: Result<AST, CompileError>) {
        self.expect_word(Keyword::Obtw)?;
        let text = self.text_run();
        self.expect_word(Keyword::Tldr)?;
        Ok(AST::Comment(text))
    }

    fn parse_body(&mut self) -> (nodes: Result<Vec<AST>, CompileError>) {
        let mut nodes: Vec<AST> = Vec::new();
        let ghost ts = self.stream();
        let ghost whole = body_at(ts, self.place());
        proof {
            match whole {
                Ok((all, _)) => {
                    assert(nodes_of(nodes@) + all =~= all);
                },
                Err(_) => {},
            }
        }
        loop
            invariant
                ts == old(self).stream(),
                self.stream() == ts,
                whole == body_at(ts, old(self).place()),
                whole == continued(nodes_of(nodes@), body_at(ts, self.place())),
            decreases ts.len() - self.place(),
        {
            let ghost at = self.place();
            let ghost before = nodes_of(nodes@);
            proof {
                lemma_body_part_consumes(ts, at);
            }
            match self.body_part() {
                None => {
                    assert(before + Seq::<Node>::empty() =~= before);
                    return Ok(nodes);
                },
                Some(Err(e)) => {
                    return Err(e);
                },
                Some(Ok(node)) => {
                    proof {
                        lemma_nodes_of_push(nodes@, node);
                        lemma_continued_preceded(before, node@, body_at(ts, self.place()));
                    }
                    nodes.push(node);
                },
            }
        }
    }

    fn parse_paragraph(&mut self) -> (node: Result<AST, CompileError>) {
        self.expect_word(Keyword::Maek)?;
        self.expect_word(Keyword::Paragraf)?;
        let mut items: Vec<AST> = Vec::new();
        if self.at(Keyword::IHaz) {
            let definition = self.parse_variable_define()?;
            proof {
                lemma_nodes_of_push(items@, definition);
            }
            items.push(definition);
        }
        let ghost first = nodes_of(items@);
        let inner = self.parse_inner_paragraph()?;
        Self::append_nodes(&mut items, inner);
        proof {
            if first.len() == 0 {
                assert(first + nodes_of(inner@) =~= nodes_of(inner@));
            } else {
                assert(first + nodes_of(inner@) =~= seq![first[0]] + nodes_of(inner@));
            }
        }
        self.expect_word(Keyword::Oic)?;
        Ok(AST::Paragraph { items })
    }

    fn parse_inner_paragraph(&mut self) -> (nodes: Result<Vec<AST>, CompileError>) {
        let mut nodes: Vec<AST> = Vec::new();
        let ghost ts = self.stream();
        let ghost whole = inner_paragraph_at(ts, self.place());
        proof {
            match whole {
                Ok((all, _)) => {
                    assert(nodes_of(nodes@) + all =~= all);
                },
                Err(_) => {},
            }
        }
        loop
            invariant
                ts == old(self).stream(),
                self.stream() == ts,
                whole == inner_paragraph_at(ts, old(self).place()),
                whole == continued(nodes_of(nodes@), inner_paragraph_at(ts, self.place())),
            decreases ts.len() - self.place(),
        {
            let ghost at = self.place();
            let ghost before = nodes_of(nodes@);
            proof {
                lemma_paragraph_part_consumes(ts, at);
            }
            match self.paragraph_part() {
                None => {
                    assert(before + Seq::<Node>::empty() =~= before);
                    return Ok(nodes);
                },
                Some(Err(e)) => {
                    return Err(e);
                },
                Some(Ok(node)) => {
                    proof {
                        lemma_nodes_of_push(nodes@, node);
                        lemma_continued_preceded(before, node@, inner_paragraph_at(ts, self.place()));
                    }
                    nodes.push(node);
                },
            }
        }
    }

    fn parse_inner_text(&mut self) -> (node: Result<AST, CompileError>) {
        self.parse_text()
    }

    fn parse_variable_define(&mut self) -> (node: Result<AST, CompileError>) {
        self.expect_word(Keyword::IHaz)?;
        let name = self.text_payload()?;
        self.expect_word(Keyword::ItIz)?;
        let value = self.text_payload()?;
        self.expect_word(Keyword::Mkay)?;
        Ok(AST::VarDefine { name, value })
    }

    fn parse_variable_use(&mut self) -> (node: Result<AST, CompileError>) {
        self.expect_word(Keyword::LemmeSee)?;
        let name = self.text_payload()?;
        self.expect_word(Keyword::Mkay)?;
        Ok(AST::VarUse(name))
    }

    fn parse_bold(&mut self) -> (node: Result<AST, CompileError>) {
        self.expect_word(Keyword::Gimmeh)?;
        self.expect_word(Keyword::Bold)?;
        let text = self.text_run();
        self.expect_word(Keyword::Mkay)?;
        Ok(AST::Bold(text))
    }

    fn parse_italics(&mut self) -> (node: Result<AST, CompileError>) {
        self.expect_word(Keyword::Gimmeh)?;
        self.expect_word(Keyword::Italics)?;
        let text = self.text_run();
        self.expect_word(Keyword::Mkay)?;
        Ok(AST::Italics(text))
    }

    fn parse_list(&mut self) -> (node: Result<AST, CompileError>) {
        self.expect_word(Keyword::Maek)?;
        self.expect_word(Keyword::List)?;
        let items = self.parse_list_items()?;
        self.expect_word(Keyword::Oic)?;
        Ok(AST::List { items })
    }

    fn parse_list_items(&mut self) -> (nodes: Result<Vec<AST>, CompileError>) {
        let mut nodes: Vec<AST> = Vec::new();
        let ghost ts = self.stream();
        let ghost whole = list_items_at(ts, self.place());
        proof {
            match whole {
                Ok((all, _)) => {
                    assert(nodes_of(nodes@) + all =~= all);
                },
                Err(_) => {},
            }
        }
        while self.at_pair(Keyword::Gimmeh, Keyword::Item)
            invariant
                ts == old(self).stream(),
                self.stream() == ts,
                whole == list_items_at(ts, old(self).place()),
                whole == continued(nodes_of(nodes@), list_items_at(ts, self.place())),
            decreases ts.len() - self.place(),
        {
            let ghost at = self.place();
            let ghost before = nodes_of(nodes@);
            proof {
                lemma_list_item_consumes(ts, at);
            }
            match self.list_item() {
                Err(e) => {
                    return Err(e);
                },
                Ok(node) => {
                    proof {
                        lemma_nodes_of_push(nodes@, node);
                        lemma_continued_preceded(before, node@, list_items_at(ts, self.place()));
                    }
                    nodes.push(node);
                },
            }
        }
        assert(nodes_of(nodes@) + Seq::<Node>::empty() =~= nodes_of(nodes@));
        Ok(nodes)
    }

    fn parse_inner_list(&mut self) -> (nodes: Result<Vec<AST>, CompileError>) {
        let mut nodes: Vec<AST> = Vec::new();
        let ghost ts = self.stream();
        let ghost whole = inner_list_at(ts, self.place());
        proof {
            match whole {
                Ok((all, _)) => {
                    assert(nodes_of(nodes@) + all =~= all);
                },
                Err(_) => {},
            }
        }
        loop
            invariant
                ts == old(self).stream(),
                self.stream() == ts,
                whole == inner_list_at(ts, old(self).place()),
                whole == continued(nodes_of(nodes@), inner_list_at(ts, self.place())),
            decreases ts.len() - self.place(),
        {
            let ghost at = self.place();
            let ghost before = nodes_of(nodes@);
            proof {
                lemma_list_part_consumes(ts, at);
            }
            match self.list_part() {
                None => {
                    assert(before + Seq::<Node>::empty() =~= before);
                    return Ok(nodes);
                },
                Some(Err(e)) => {
                    return Err(e);
                },
                Some(Ok(node)) => {
                    proof {
                        lemma_nodes_of_push(nodes@, node);
                        lemma_continued_preceded(before, node@, inner_list_at(ts, self.place()));
                    }
                    nodes.push(node);
                },
            }
        }
    }

    fn parse_audio(&mut self) -> (node: Result<AST, CompileError>) {
        self.expect_word(Keyword::Gimmeh)?;
        self.expect_word(Keyword::Soundz)?;
        let url = self.text_payload()?;
        self.expect_word(Keyword::Mkay)?;
        Ok(AST::Audio(url))
    }

    fn parse_video(&mut self) -> (node: Result<AST, CompileError>) {
        self.expect_word(Keyword::Gimmeh)?;
        self.expect_word(Keyword::Vidz)?;
        let url = self.text_payload()?;
        self.expect_word(Keyword::Mkay)?;
        Ok(AST::Video(url))
    }

    fn parse_newline(&mut self) -> (node: Result<AST, CompileError>) {
        self.expect_word(Keyword::Gimmeh)?;
        self.expect_word(Keyword::Newline)?;
        Ok(AST::Newline)
    }

    fn parse_text(&mut self) -> (node: Result<AST, CompileError>) {
        let word = self.text_payload()?;
        Ok(AST::Text(word))
    }
}

} // verus!

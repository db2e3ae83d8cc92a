//! The grammar of the markup, as functions from a token sequence and a
//! position to what stands there.

use vstd::prelude::*;
use crate::ast::Node;
use crate::error::Fault;
use crate::token::{kind_of, Keyword, TokenKind, TokenView};

verus! {

/// What a production yields: its value and the position after it, or the
/// syntax fault that stopped it.
pub type ParseOf<T> = Result<(T, nat), Fault>;

/// The token at a position. Past the last token the input has ended.
pub open spec fn token_at(ts: Seq<TokenView>, pos: nat) -> TokenView {
    if pos < ts.len() {
        ts[pos as int]
    } else {
        TokenView::Eof
    }
}

/// The kind of the token at a position.
pub open spec fn kind_at(ts: Seq<TokenView>, pos: nat) -> TokenKind {
    kind_of(token_at(ts, pos))
}

/// Whether the token at a position is the reserved word `k`.
pub open spec fn word_is(ts: Seq<TokenView>, pos: nat, k: Keyword) -> bool {
    kind_at(ts, pos) == TokenKind::Keyword(k)
}

/// Whether the tokens at a position and after it are the reserved words `a`
/// and `b`.
pub open spec fn words_are(ts: Seq<TokenView>, pos: nat, a: Keyword, b: Keyword) -> bool {
    word_is(ts, pos, a) && word_is(ts, pos + 1, b)
}

/// The word that a text token carries.
pub open spec fn word_of(token: TokenView) -> Seq<char> {
    match token {
        TokenView::Text(word) => word,
        _ => Seq::empty(),
    }
}

/// The position after the token at `pos`. Past the last token the input
/// has ended, and each position there holds the end of the input.
pub open spec fn step(ts: Seq<TokenView>, pos: nat) -> nat {
    pos + 1
}

/// A required token: one of kind `what` is consumed; any other is a syntax
/// fault at that position.
pub open spec fn expect_at(ts: Seq<TokenView>, pos: nat, what: TokenKind) -> Result<nat, Fault> {
    if kind_at(ts, pos) == what {
        Ok(step(ts, pos))
    } else {
        Err(Fault::Syntax { position: pos, expected: what })
    }
}

/// Two required reserved words in a row.
pub open spec fn opening_at(ts: Seq<TokenView>, pos: nat, a: Keyword, b: Keyword) -> Result<
    nat,
    Fault,
> {
    match expect_at(ts, pos, TokenKind::Keyword(a)) {
        Ok(next) => expect_at(ts, next, TokenKind::Keyword(b)),
        Err(fault) => Err(fault),
    }
}

/// `inner`, followed by the required reserved word `k`.
pub open spec fn closing<T>(inner: ParseOf<T>, ts: Seq<TokenView>, k: Keyword) -> ParseOf<T> {
    match inner {
        Ok((value, pos)) => match expect_at(ts, pos, TokenKind::Keyword(k)) {
            Ok(next) => Ok((value, next)),
            Err(fault) => Err(fault),
        },
        Err(fault) => Err(fault),
    }
}

/// `inner`, with `first` put before the nodes it yields.
pub open spec fn preceded(first: Node, inner: ParseOf<Seq<Node>>) -> ParseOf<Seq<Node>> {
    match inner {
        Ok((rest, end)) => Ok((seq![first] + rest, end)),
        Err(fault) => Err(fault),
    }
}

/// The end of the run of text tokens that starts at `pos`.
pub open spec fn run_end(ts: Seq<TokenView>, pos: nat) -> nat
    decreases ts.len() - pos,
{
    if pos < ts.len() && ts[pos as int] is Text {
        run_end(ts, pos + 1)
    } else {
        pos
    }
}

/// The words of the tokens from `from` up to `to`, joined by single spaces.
pub open spec fn run_text(ts: Seq<TokenView>, from: nat, to: nat) -> Seq<char>
    decreases to,
{
    if to <= from {
        Seq::empty()
    } else if to == from + 1 {
        word_of(token_at(ts, from))
    } else {
        run_text(ts, from, (to - 1) as nat) + " "@ + word_of(token_at(ts, (to - 1) as nat))
    }
}

/// `text*`: the text tokens at `pos`, as many as there are, as one string.
pub open spec fn words_at(ts: Seq<TokenView>, pos: nat) -> ParseOf<Seq<char>> {
    Ok((run_text(ts, pos, run_end(ts, pos)), run_end(ts, pos)))
}

/// `text`: one text token.
pub open spec fn text_at(ts: Seq<TokenView>, pos: nat) -> ParseOf<Node> {
    match expect_at(ts, pos, TokenKind::Text) {
        Ok(next) => Ok((Node::Text(word_of(token_at(ts, pos))), next)),
        Err(fault) => Err(fault),
    }
}

/// The payload of a text node.
pub open spec fn payload(node: Node) -> Seq<char> {
    match node {
        Node::Text(word) => word,
        _ => Seq::empty(),
    }
}

/// `comment := OBTW text* TLDR`
pub open spec fn comment_at(ts: Seq<TokenView>, pos: nat) -> ParseOf<Node> {
    match expect_at(ts, pos, TokenKind::Keyword(Keyword::Obtw)) {
        Ok(p) => match closing(words_at(ts, p), ts, Keyword::Tldr) {
            Ok((text, end)) => Ok((Node::Comment(text), end)),
            Err(fault) => Err(fault),
        },
        Err(fault) => Err(fault),
    }
}

/// `title := GIMMEH TITLE text* MKAY`
pub open spec fn title_at(ts: Seq<TokenView>, pos: nat) -> ParseOf<Node> {
    match opening_at(ts, pos, Keyword::Gimmeh, Keyword::Title) {
        Ok(p) => match closing(words_at(ts, p), ts, Keyword::Mkay) {
            Ok((text, end)) => Ok((Node::Head(text), end)),
            Err(fault) => Err(fault),
        },
        Err(fault) => Err(fault),
    }
}

/// `head := MAEK HEAD title OIC`
pub open spec fn head_at(ts: Seq<TokenView>, pos: nat) -> ParseOf<Node> {
    match opening_at(ts, pos, Keyword::Maek, Keyword::Head) {
        Ok(p) => closing(title_at(ts, p), ts, Keyword::Oic),
        Err(fault) => Err(fault),
    }
}

/// `bold := GIMMEH BOLD text* MKAY`
pub open spec fn bold_at(ts: Seq<TokenView>, pos: nat) -> ParseOf<Node> {
    match opening_at(ts, pos, Keyword::Gimmeh, Keyword::Bold) {
        Ok(p) => match closing(words_at(ts, p), ts, Keyword::Mkay) {
            Ok((text, end)) => Ok((Node::Bold(text), end)),
            Err(fault) => Err(fault),
        },
        Err(fault) => Err(fault),
    }
}

/// `italics := GIMMEH ITALICS text* MKAY`
pub open spec fn italics_at(ts: Seq<TokenView>, pos: nat) -> ParseOf<Node> {
    match opening_at(ts, pos, Keyword::Gimmeh, Keyword::Italics) {
        Ok(p) => match closing(words_at(ts, p), ts, Keyword::Mkay) {
            Ok((text, end)) => Ok((Node::Italics(text), end)),
            Err(fault) => Err(fault),
        },
        Err(fault) => Err(fault),
    }
}

/// `audio := GIMMEH SOUNDZ text MKAY`
pub open spec fn audio_at(ts: Seq<TokenView>, pos: nat) -> ParseOf<Node> {
    match opening_at(ts, pos, Keyword::Gimmeh, Keyword::Soundz) {
        Ok(p) => match closing(text_at(ts, p), ts, Keyword::Mkay) {
            Ok((url, end)) => Ok((Node::Audio(payload(url)), end)),
            Err(fault) => Err(fault),
        },
        Err(fault) => Err(fault),
    }
}

/// `video := GIMMEH VIDZ text MKAY`
pub open spec fn video_at(ts: Seq<TokenView>, pos: nat) -> ParseOf<Node> {
    match opening_at(ts, pos, Keyword::Gimmeh, Keyword::Vidz) {
        Ok(p) => match closing(text_at(ts, p), ts, Keyword::Mkay) {
            Ok((url, end)) => Ok((Node::Video(payload(url)), end)),
            Err(fault) => Err(fault),
        },
        Err(fault) => Err(fault),
    }
}

/// `newline := GIMMEH NEWLINE`
pub open spec fn newline_at(ts: Seq<TokenView>, pos: nat) -> ParseOf<Node> {
    match opening_at(ts, pos, Keyword::Gimmeh, Keyword::Newline) {
        Ok(end) => Ok((Node::Newline, end)),
        Err(fault) => Err(fault),
    }
}

/// `vardefine := IHAZ text ITIZ text MKAY`
pub open spec fn var_define_at(ts: Seq<TokenView>, pos: nat) -> ParseOf<Node> {
    match expect_at(ts, pos, TokenKind::Keyword(Keyword::IHaz)) {
        Ok(p) => match closing(text_at(ts, p), ts, Keyword::ItIz) {
            Ok((name, q)) => match closing(text_at(ts, q), ts, Keyword::Mkay) {
                Ok((value, end)) => Ok((Node::VarDefine(payload(name), payload(value)), end)),
                Err(fault) => Err(fault),
            },
            Err(fault) => Err(fault),
        },
        Err(fault) => Err(fault),
    }
}

/// `varuse := LEMMESEE text MKAY`
pub open spec fn var_use_at(ts: Seq<TokenView>, pos: nat) -> ParseOf<Node> {
    match expect_at(ts, pos, TokenKind::Keyword(Keyword::LemmeSee)) {
        Ok(p) => match closing(text_at(ts, p), ts, Keyword::Mkay) {
            Ok((name, end)) => Ok((Node::VarUse(payload(name)), end)),
            Err(fault) => Err(fault),
        },
        Err(fault) => Err(fault),
    }
}

/// A run of text tokens ends at or after its start.
pub proof fn lemma_run_end_bounds(ts: Seq<TokenView>, pos: nat)
    ensures
        pos <= run_end(ts, pos),
    decreases ts.len() - pos,
{
    if pos < ts.len() && ts[pos as int] is Text {
        lemma_run_end_bounds(ts, pos + 1);
    }
}

/// Every production that yields one node consumes at least one token.
pub proof fn lemma_leaf_consumes(ts: Seq<TokenView>, pos: nat)
    ensures
        text_at(ts, pos) is Ok ==> pos < text_at(ts, pos)->Ok_0.1,
        comment_at(ts, pos) is Ok ==> pos < comment_at(ts, pos)->Ok_0.1,
        title_at(ts, pos) is Ok ==> pos < title_at(ts, pos)->Ok_0.1,
        head_at(ts, pos) is Ok ==> pos < head_at(ts, pos)->Ok_0.1,
        bold_at(ts, pos) is Ok ==> pos < bold_at(ts, pos)->Ok_0.1,
        italics_at(ts, pos) is Ok ==> pos < italics_at(ts, pos)->Ok_0.1,
        audio_at(ts, pos) is Ok ==> pos < audio_at(ts, pos)->Ok_0.1,
        video_at(ts, pos) is Ok ==> pos < video_at(ts, pos)->Ok_0.1,
        newline_at(ts, pos) is Ok ==> pos < newline_at(ts, pos)->Ok_0.1,
        var_define_at(ts, pos) is Ok ==> pos < var_define_at(ts, pos)->Ok_0.1,
        var_use_at(ts, pos) is Ok ==> pos < var_use_at(ts, pos)->Ok_0.1,
{
    lemma_run_end_bounds(ts, pos + 1);
    lemma_run_end_bounds(ts, pos + 2);
    if head_at(ts, pos) is Ok {
        lemma_run_end_bounds(ts, pos + 4);
    }
}

/// An alternative of `inner_list` consumes at least one token.
pub proof fn lemma_list_part_consumes(ts: Seq<TokenView>, pos: nat)
    ensures
        match list_part_at(ts, pos) {
            Some(Ok((_, next))) => pos < next,
            _ => true,
        },
{
    lemma_leaf_consumes(ts, pos);
}

/// The alternative of `inner_list` that the tokens at `pos` select, if they
/// select one: `text | bold | italics | varuse`.
pub open spec fn list_part_at(ts: Seq<TokenView>, pos: nat) -> Option<ParseOf<Node>> {
    if kind_at(ts, pos) == TokenKind::Text {
        Some(text_at(ts, pos))
    } else if words_are(ts, pos, Keyword::Gimmeh, Keyword::Bold) {
        Some(bold_at(ts, pos))
    } else if words_are(ts, pos, Keyword::Gimmeh, Keyword::Italics) {
        Some(italics_at(ts, pos))
    } else if word_is(ts, pos, Keyword::LemmeSee) {
        Some(var_use_at(ts, pos))
    } else {
        None
    }
}

/// `inner_list := ( text | bold | italics | varuse )*`
///
/// The repetition ends, without fault, at the first tokens that select no
/// alternative.
pub open spec fn inner_list_at(ts: Seq<TokenView>, pos: nat) -> ParseOf<Seq<Node>>
    decreases ts.len() - pos,
{
    match list_part_at(ts, pos) {
        Some(Ok((node, next))) => {
            proof {
                lemma_list_part_consumes(ts, pos);
            }
            preceded(node, inner_list_at(ts, next))
        },
        Some(Err(fault)) => Err(fault),
        None => Ok((Seq::empty(), pos)),
    }
}

/// A run of `inner_list` ends at or after its start.
pub proof fn lemma_inner_list_bounds(ts: Seq<TokenView>, pos: nat)
    ensures
        inner_list_at(ts, pos) is Ok ==> pos <= inner_list_at(ts, pos)->Ok_0.1,
    decreases ts.len() - pos,
{
    lemma_list_part_consumes(ts, pos);
    match list_part_at(ts, pos) {
        Some(Ok((_, next))) => {
            lemma_inner_list_bounds(ts, next);
        },
        _ => {},
    }
}

/// One list item: `GIMMEH ITEM inner_list MKAY`
pub open spec fn list_item_at(ts: Seq<TokenView>, pos: nat) -> ParseOf<Node> {
    match opening_at(ts, pos, Keyword::Gimmeh, Keyword::Item) {
        Ok(p) => match closing(inner_list_at(ts, p), ts, Keyword::Mkay) {
            Ok((items, end)) => Ok((Node::ListItem(items), end)),
            Err(fault) => Err(fault),
        },
        Err(fault) => Err(fault),
    }
}

/// A list item consumes at least one token.
pub proof fn lemma_list_item_consumes(ts: Seq<TokenView>, pos: nat)
    ensures
        list_item_at(ts, pos) is Ok ==> pos < list_item_at(ts, pos)->Ok_0.1,
{
    lemma_inner_list_bounds(ts, pos + 2);
}

/// `list_items := ( GIMMEH ITEM inner_list MKAY )*`
///
/// The repetition goes on as long as `GIMMEH ITEM` stands at the position.
pub open spec fn list_items_at(ts: Seq<TokenView>, pos: nat) -> ParseOf<Seq<Node>>
    decreases ts.len() - pos,
{
    if words_are(ts, pos, Keyword::Gimmeh, Keyword::Item) {
        match list_item_at(ts, pos) {
            Ok((item, next)) => {
                proof {
                    lemma_list_item_consumes(ts, pos);
                }
                preceded(item, list_items_at(ts, next))
            },
            Err(fault) => Err(fault),
        }
    } else {
        Ok((Seq::empty(), pos))
    }
}

/// A run of list items ends at or after its start.
pub proof fn lemma_list_items_bounds(ts: Seq<TokenView>, pos: nat)
    ensures
        list_items_at(ts, pos) is Ok ==> pos <= list_items_at(ts, pos)->Ok_0.1,
    decreases ts.len() - pos,
{
    lemma_list_item_consumes(ts, pos);
    if words_are(ts, pos, Keyword::Gimmeh, Keyword::Item) {
        match list_item_at(ts, pos) {
            Ok((_, next)) => {
                lemma_list_items_bounds(ts, next);
            },
            _ => {},
        }
    }
}

/// `list := MAEK LIST list_items OIC`
pub open spec fn list_at(ts: Seq<TokenView>, pos: nat) -> ParseOf<Node> {
    match opening_at(ts, pos, Keyword::Maek, Keyword::List) {
        Ok(p) => match closing(list_items_at(ts, p), ts, Keyword::Oic) {
            Ok((items, end)) => Ok((Node::List(items), end)),
            Err(fault) => Err(fault),
        },
        Err(fault) => Err(fault),
    }
}

/// A list consumes at least one token.
pub proof fn lemma_list_consumes(ts: Seq<TokenView>, pos: nat)
    ensures
        list_at(ts, pos) is Ok ==> pos < list_at(ts, pos)->Ok_0.1,
{
    lemma_list_items_bounds(ts, pos + 2);
}

/// The alternative of `inner_paragraph` that the tokens at `pos` select, if
/// they select one:
/// `varuse | bold | italics | newline | audio | video | text | list`.
pub open spec fn paragraph_part_at(ts: Seq<TokenView>, pos: nat) -> Option<ParseOf<Node>> {
    if word_is(ts, pos, Keyword::LemmeSee) {
        Some(var_use_at(ts, pos))
    } else if words_are(ts, pos, Keyword::Gimmeh, Keyword::Bold) {
        Some(bold_at(ts, pos))
    } else if words_are(ts, pos, Keyword::Gimmeh, Keyword::Italics) {
        Some(italics_at(ts, pos))
    } else if words_are(ts, pos, Keyword::Gimmeh, Keyword::Newline) {
        Some(newline_at(ts, pos))
    } else if words_are(ts, pos, Keyword::Gimmeh, Keyword::Soundz) {
        Some(audio_at(ts, pos))
    } else if words_are(ts, pos, Keyword::Gimmeh, Keyword::Vidz) {
        Some(video_at(ts, pos))
    } else if kind_at(ts, pos) == TokenKind::Text {
        Some(text_at(ts, pos))
    } else if words_are(ts, pos, Keyword::Maek, Keyword::List) {
        Some(list_at(ts, pos))
    } else {
        None
    }
}

/// An alternative of `inner_paragraph` consumes at least one token.
pub proof fn lemma_paragraph_part_consumes(ts: Seq<TokenView>, pos: nat)
    ensures
        match paragraph_part_at(ts, pos) {
            Some(Ok((_, next))) => pos < next,
            _ => true,
        },
{
    lemma_leaf_consumes(ts, pos);
    lemma_list_consumes(ts, pos);
}

/// `inner_paragraph := ( varuse | bold | italics | newline | audio | video
/// | text | list )*`
pub open spec fn inner_paragraph_at(ts: Seq<TokenView>, pos: nat) -> ParseOf<Seq<Node>>
    decreases ts.len() - pos,
{
    match paragraph_part_at(ts, pos) {
        Some(Ok((node, next))) => {
            proof {
                lemma_paragraph_part_consumes(ts, pos);
            }
            preceded(node, inner_paragraph_at(ts, next))
        },
        Some(Err(fault)) => Err(fault),
        None => Ok((Seq::empty(), pos)),
    }
}

/// A run of `inner_paragraph` ends at or after its start.
pub proof fn lemma_inner_paragraph_bounds(ts: Seq<TokenView>, pos: nat)
    ensures
        inner_paragraph_at(ts, pos) is Ok ==> pos <= inner_paragraph_at(ts, pos)->Ok_0.1,
    decreases ts.len() - pos,
{
    lemma_paragraph_part_consumes(ts, pos);
    match paragraph_part_at(ts, pos) {
        Some(Ok((_, next))) => {
            lemma_inner_paragraph_bounds(ts, next);
        },
        _ => {},
    }
}

/// What stands between `MAEK PARAGRAF` and `OIC`:
/// `vardefine? inner_paragraph`. A definition is taken where `IHAZ` stands.
pub open spec fn paragraph_items_at(ts: Seq<TokenView>, pos: nat) -> ParseOf<Seq<Node>> {
    if word_is(ts, pos, Keyword::IHaz) {
        match var_define_at(ts, pos) {
            Ok((definition, next)) => preceded(definition, inner_paragraph_at(ts, next)),
            Err(fault) => Err(fault),
        }
    } else {
        inner_paragraph_at(ts, pos)
    }
}

/// `paragraph := MAEK PARAGRAF vardefine? inner_paragraph OIC`
pub open spec fn paragraph_at(ts: Seq<TokenView>, pos: nat) -> ParseOf<Node> {
    match opening_at(ts, pos, Keyword::Maek, Keyword::Paragraf) {
        Ok(p) => match closing(paragraph_items_at(ts, p), ts, Keyword::Oic) {
            Ok((items, end)) => Ok((Node::Paragraph(items), end)),
            Err(fault) => Err(fault),
        },
        Err(fault) => Err(fault),
    }
}

/// A paragraph consumes at least one token.
pub proof fn lemma_paragraph_consumes(ts: Seq<TokenView>, pos: nat)
    ensures
        paragraph_at(ts, pos) is Ok ==> pos < paragraph_at(ts, pos)->Ok_0.1,
{
    lemma_inner_paragraph_bounds(ts, pos + 2);
    lemma_leaf_consumes(ts, pos + 2);
    if var_define_at(ts, pos + 2) is Ok {
        lemma_inner_paragraph_bounds(ts, var_define_at(ts, pos + 2)->Ok_0.1);
    }
}

/// The alternative of `body` that the tokens at `pos` select, if they select
/// one: `paragraph | list | bold | italics | newline | audio | video
/// | vardefine | varuse | text | comment`.
pub open spec fn body_part_at(ts: Seq<TokenView>, pos: nat) -> Option<ParseOf<Node>> {
    if words_are(ts, pos, Keyword::Maek, Keyword::Paragraf) {
        Some(paragraph_at(ts, pos))
    } else if words_are(ts, pos, Keyword::Maek, Keyword::List) {
        Some(list_at(ts, pos))
    } else if words_are(ts, pos, Keyword::Gimmeh, Keyword::Bold) {
        Some(bold_at(ts, pos))
    } else if words_are(ts, pos, Keyword::Gimmeh, Keyword::Italics) {
        Some(italics_at(ts, pos))
    } else if words_are(ts, pos, Keyword::Gimmeh, Keyword::Newline) {
        Some(newline_at(ts, pos))
    } else if words_are(ts, pos, Keyword::Gimmeh, Keyword::Soundz) {
        Some(audio_at(ts, pos))
    } else if words_are(ts, pos, Keyword::Gimmeh, Keyword::Vidz) {
        Some(video_at(ts, pos))
    } else if word_is(ts, pos, Keyword::IHaz) {
        Some(var_define_at(ts, pos))
    } else if word_is(ts, pos, Keyword::LemmeSee) {
        Some(var_use_at(ts, pos))
    } else if kind_at(ts, pos) == TokenKind::Text {
        Some(text_at(ts, pos))
    } else if word_is(ts, pos, Keyword::Obtw) {
        Some(comment_at(ts, pos))
    } else {
        None
    }
}

/// An alternative of `body` consumes at least one token.
pub proof fn lemma_body_part_consumes(ts: Seq<TokenView>, pos: nat)
    ensures
        match body_part_at(ts, pos) {
            Some(Ok((_, next))) => pos < next,
            _ => true,
        },
{
    lemma_leaf_consumes(ts, pos);
    lemma_list_consumes(ts, pos);
    lemma_paragraph_consumes(ts, pos);
}

/// `body := ( paragraph | list | bold | italics | newline | audio | video
/// | vardefine | varuse | text | comment )*`
pub open spec fn body_at(ts: Seq<TokenView>, pos: nat) -> ParseOf<Seq<Node>>
    decreases ts.len() - pos,
{
    match body_part_at(ts, pos) {
        Some(Ok((node, next))) => {
            proof {
                lemma_body_part_consumes(ts, pos);
            }
            preceded(node, body_at(ts, next))
        },
        Some(Err(fault)) => Err(fault),
        None => Ok((Seq::empty(), pos)),
    }
}

/// `comment*`: comments, as long as `OBTW` stands at the position.
pub open spec fn comments_at(ts: Seq<TokenView>, pos: nat) -> ParseOf<Seq<Node>>
    decreases ts.len() - pos,
{
    if word_is(ts, pos, Keyword::Obtw) {
        match comment_at(ts, pos) {
            Ok((comment, next)) => {
                proof {
                    lemma_leaf_consumes(ts, pos);
                }
                preceded(comment, comments_at(ts, next))
            },
            Err(fault) => Err(fault),
        }
    } else {
        Ok((Seq::empty(), pos))
    }
}

/// `head? body`: a head is taken where `MAEK HEAD` stands.
pub open spec fn headed_body_at(ts: Seq<TokenView>, pos: nat) -> ParseOf<Seq<Node>> {
    if words_are(ts, pos, Keyword::Maek, Keyword::Head) {
        match head_at(ts, pos) {
            Ok((head, next)) => preceded(head, body_at(ts, next)),
            Err(fault) => Err(fault),
        }
    } else {
        body_at(ts, pos)
    }
}

/// `inner`, with the nodes `before` put before those it yields.
pub open spec fn continued(before: Seq<Node>, inner: ParseOf<Seq<Node>>) -> ParseOf<Seq<Node>> {
    match inner {
        Ok((rest, end)) => Ok((before + rest, end)),
        Err(fault) => Err(fault),
    }
}

/// What stands between `HAI` and `KTHXBYE`: `comment* head? body`.
pub open spec fn program_parts_at(ts: Seq<TokenView>, pos: nat) -> ParseOf<Seq<Node>> {
    match comments_at(ts, pos) {
        Ok((comments, next)) => continued(comments, headed_body_at(ts, next)),
        Err(fault) => Err(fault),
    }
}

/// `program := HAI comment* head? body KTHXBYE`, and then the end of the
/// input.
pub open spec fn program_at(ts: Seq<TokenView>, pos: nat) -> ParseOf<Node> {
    match expect_at(ts, pos, TokenKind::Keyword(Keyword::Hai)) {
        Ok(p) => match closing(program_parts_at(ts, p), ts, Keyword::Kthxbye) {
            Ok((parts, q)) => match expect_at(ts, q, TokenKind::Eof) {
                Ok(end) => Ok((Node::Program(parts), end)),
                Err(fault) => Err(fault),
            },
            Err(fault) => Err(fault),
        },
        Err(fault) => Err(fault),
    }
}

/// The tree of a whole token sequence, or the first syntax fault.
pub open spec fn parsed(ts: Seq<TokenView>) -> Result<Node, Fault> {
    match program_at(ts, 0) {
        Ok((program, _)) => Ok(program),
        Err(fault) => Err(fault),
    }
}

/// The productions that yield one node fail with syntax faults only.
pub proof fn lemma_leaf_faults_are_syntax(ts: Seq<TokenView>, pos: nat)
    ensures
        text_at(ts, pos) is Err ==> text_at(ts, pos)->Err_0 is Syntax,
        comment_at(ts, pos) is Err ==> comment_at(ts, pos)->Err_0 is Syntax,
        title_at(ts, pos) is Err ==> title_at(ts, pos)->Err_0 is Syntax,
        head_at(ts, pos) is Err ==> head_at(ts, pos)->Err_0 is Syntax,
        bold_at(ts, pos) is Err ==> bold_at(ts, pos)->Err_0 is Syntax,
        italics_at(ts, pos) is Err ==> italics_at(ts, pos)->Err_0 is Syntax,
        audio_at(ts, pos) is Err ==> audio_at(ts, pos)->Err_0 is Syntax,
        video_at(ts, pos) is Err ==> video_at(ts, pos)->Err_0 is Syntax,
        newline_at(ts, pos) is Err ==> newline_at(ts, pos)->Err_0 is Syntax,
        var_define_at(ts, pos) is Err ==> var_define_at(ts, pos)->Err_0 is Syntax,
        var_use_at(ts, pos) is Err ==> var_use_at(ts, pos)->Err_0 is Syntax,
{
}

/// The contents of a list item fail with syntax faults only.
pub proof fn lemma_inner_list_faults_are_syntax(ts: Seq<TokenView>, pos: nat)
    ensures
        inner_list_at(ts, pos) is Err ==> inner_list_at(ts, pos)->Err_0 is Syntax,
    decreases ts.len() - pos,
{
    lemma_leaf_faults_are_syntax(ts, pos);
    lemma_list_part_consumes(ts, pos);
    match list_part_at(ts, pos) {
        Some(Ok((_, next))) => {
            lemma_inner_list_faults_are_syntax(ts, next);
        },
        _ => {},
    }
}

/// Lists fail with syntax faults only.
pub proof fn lemma_list_faults_are_syntax(ts: Seq<TokenView>, pos: nat)
    ensures
        list_items_at(ts, pos) is Err ==> list_items_at(ts, pos)->Err_0 is Syntax,
        list_at(ts, pos) is Err ==> list_at(ts, pos)->Err_0 is Syntax,
{
    lemma_list_items_faults_are_syntax(ts, pos);
    lemma_list_items_faults_are_syntax(ts, pos + 2);
}

/// Runs of list items fail with syntax faults only.
pub proof fn lemma_list_items_faults_are_syntax(ts: Seq<TokenView>, pos: nat)
    ensures
        list_items_at(ts, pos) is Err ==> list_items_at(ts, pos)->Err_0 is Syntax,
    decreases ts.len() - pos,
{
    lemma_list_item_consumes(ts, pos);
    lemma_inner_list_faults_are_syntax(ts, pos + 2);
    if words_are(ts, pos, Keyword::Gimmeh, Keyword::Item) {
        match list_item_at(ts, pos) {
            Ok((_, next)) => {
                lemma_list_items_faults_are_syntax(ts, next);
            },
            _ => {},
        }
    }
}

/// The contents of a paragraph fail with syntax faults only.
pub proof fn lemma_inner_paragraph_faults_are_syntax(ts: Seq<TokenView>, pos: nat)
    ensures
        inner_paragraph_at(ts, pos) is Err ==> inner_paragraph_at(ts, pos)->Err_0 is Syntax,
    decreases ts.len() - pos,
{
    lemma_leaf_faults_are_syntax(ts, pos);
    lemma_list_faults_are_syntax(ts, pos);
    lemma_paragraph_part_consumes(ts, pos);
    match paragraph_part_at(ts, pos) {
        Some(Ok((_, next))) => {
            lemma_inner_paragraph_faults_are_syntax(ts, next);
        },
        _ => {},
    }
}

/// Paragraphs fail with syntax faults only.
pub proof fn lemma_paragraph_faults_are_syntax(ts: Seq<TokenView>, pos: nat)
    ensures
        paragraph_at(ts, pos) is Err ==> paragraph_at(ts, pos)->Err_0 is Syntax,
{
    lemma_leaf_faults_are_syntax(ts, pos + 2);
    lemma_inner_paragraph_faults_are_syntax(ts, pos + 2);
    if var_define_at(ts, pos + 2) is Ok {
        lemma_inner_paragraph_faults_are_syntax(ts, var_define_at(ts, pos + 2)->Ok_0.1);
    }
}

/// Bodies fail with syntax faults only.
pub proof fn lemma_body_faults_are_syntax(ts: Seq<TokenView>, pos: nat)
    ensures
        body_at(ts, pos) is Err ==> body_at(ts, pos)->Err_0 is Syntax,
    decreases ts.len() - pos,
{
    lemma_leaf_faults_are_syntax(ts, pos);
    lemma_list_faults_are_syntax(ts, pos);
    lemma_paragraph_faults_are_syntax(ts, pos);
    lemma_body_part_consumes(ts, pos);
    match body_part_at(ts, pos) {
        Some(Ok((_, next))) => {
            lemma_body_faults_are_syntax(ts, next);
        },
        _ => {},
    }
}

/// Runs of comments fail with syntax faults only.
pub proof fn lemma_comments_faults_are_syntax(ts: Seq<TokenView>, pos: nat)
    ensures
        comments_at(ts, pos) is Err ==> comments_at(ts, pos)->Err_0 is Syntax,
    decreases ts.len() - pos,
{
    lemma_leaf_faults_are_syntax(ts, pos);
    lemma_leaf_consumes(ts, pos);
    if word_is(ts, pos, Keyword::Obtw) {
        match comment_at(ts, pos) {
            Ok((_, next)) => {
                lemma_comments_faults_are_syntax(ts, next);
            },
            _ => {},
        }
    }
}

/// Every fault of the parser is a syntax fault.
pub proof fn lemma_parse_faults_are_syntax(ts: Seq<TokenView>, pos: nat)
    ensures
        program_at(ts, pos) is Err ==> program_at(ts, pos)->Err_0 is Syntax,
{
    match expect_at(ts, pos, TokenKind::Keyword(Keyword::Hai)) {
        Ok(p) => {
            lemma_comments_faults_are_syntax(ts, p);
            match comments_at(ts, p) {
                Ok((_, q)) => {
                    lemma_leaf_faults_are_syntax(ts, q);
                    lemma_body_faults_are_syntax(ts, q);
                    match head_at(ts, q) {
                        Ok((_, r)) => {
                            lemma_body_faults_are_syntax(ts, r);
                        },
                        Err(_) => {},
                    }
                },
                Err(_) => {},
            }
        },
        Err(_) => {},
    }
}

/// A program ends with `KTHXBYE`: a token sequence that holds none is no
/// program, and parsing it ends in a syntax fault.
pub proof fn lemma_program_needs_kthxbye(ts: Seq<TokenView>)
    requires
        forall|i: int| 0 <= i < ts.len() ==> ts[i] != TokenView::Keyword(Keyword::Kthxbye),
    ensures
        parsed(ts) is Err,
        parsed(ts)->Err_0 is Syntax,
{
    lemma_parse_faults_are_syntax(ts, 0);
}

/// The program of `HAI KTHXBYE` is empty, whether the end-of-input token
/// follows or the tokens end there.
pub proof fn lemma_empty_program()
    ensures
        parsed(seq![TokenView::Keyword(Keyword::Hai), TokenView::Keyword(Keyword::Kthxbye)])
            == Ok::<Node, Fault>(Node::Program(Seq::empty())),
        parsed(
            seq![
                TokenView::Keyword(Keyword::Hai),
                TokenView::Keyword(Keyword::Kthxbye),
                TokenView::Eof,
            ],
        ) == Ok::<Node, Fault>(Node::Program(Seq::empty())),
{
    let short = seq![TokenView::Keyword(Keyword::Hai), TokenView::Keyword(Keyword::Kthxbye)];
    let long = short.push(TokenView::Eof);
    assert(long =~= seq![
        TokenView::Keyword(Keyword::Hai),
        TokenView::Keyword(Keyword::Kthxbye),
        TokenView::Eof,
    ]);
    assert(comments_at(short, 1) == Ok::<(Seq<Node>, nat), Fault>((Seq::empty(), 1)));
    assert(comments_at(long, 1) == Ok::<(Seq<Node>, nat), Fault>((Seq::empty(), 1)));
    assert(body_part_at(short, 1) is None);
    assert(body_part_at(long, 1) is None);
    assert(body_at(short, 1) == Ok::<(Seq<Node>, nat), Fault>((Seq::empty(), 1)));
    assert(body_at(long, 1) == Ok::<(Seq<Node>, nat), Fault>((Seq::empty(), 1)));
    assert(Seq::<Node>::empty() + Seq::<Node>::empty() =~= Seq::<Node>::empty());
}

} // verus!

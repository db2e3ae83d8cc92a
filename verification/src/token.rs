//! Tokens and the vocabulary of reserved words.

use vstd::prelude::*;
use crate::text::spells;

verus! {

/// The closed vocabulary of reserved words.
///
/// The first eleven are written after a `#`; three of them are two words
/// long. The last ten are written bare.
#[derive(Debug, Clone, Copy, PartialEq, Eq, Structural)]
pub enum Keyword {
    Hai,
    Kthxbye,
    Obtw,
    Tldr,
    Maek,
    Oic,
    Gimmeh,
    Mkay,
    IHaz,
    ItIz,
    LemmeSee,
    Head,
    Title,
    Paragraf,
    Bold,
    Italics,
    List,
    Item,
    Newline,
    Soundz,
    Vidz,
}

impl Keyword {
    /// How the word is written in the source, in upper case: the hash forms
    /// with their `#`, the two-word forms with one space between the words.
    pub open spec fn spelling(self) -> Seq<char> {
        match self {
            Keyword::Hai => "#HAI"@,
            Keyword::Kthxbye => "#KTHXBYE"@,
            Keyword::Obtw => "#OBTW"@,
            Keyword::Tldr => "#TLDR"@,
            Keyword::Maek => "#MAEK"@,
            Keyword::Oic => "#OIC"@,
            Keyword::Gimmeh => "#GIMMEH"@,
            Keyword::Mkay => "#MKAY"@,
            Keyword::IHaz => "#I HAZ"@,
            Keyword::ItIz => "#IT IZ"@,
            Keyword::LemmeSee => "#LEMME SEE"@,
            Keyword::Head => "HEAD"@,
            Keyword::Title => "TITLE"@,
            Keyword::Paragraf => "PARAGRAF"@,
            Keyword::Bold => "BOLD"@,
            Keyword::Italics => "ITALICS"@,
            Keyword::List => "LIST"@,
            Keyword::Item => "ITEM"@,
            Keyword::Newline => "NEWLINE"@,
            Keyword::Soundz => "SOUNDZ"@,
            Keyword::Vidz => "VIDZ"@,
        }
    }

    /// The word as it is written.
    pub fn spelled(self) -> (written: &'static str)
        ensures
            written@ == self.spelling(),
    {
        match self {
            Keyword::Hai => "#HAI",
            Keyword::Kthxbye => "#KTHXBYE",
            Keyword::Obtw => "#OBTW",
            Keyword::Tldr => "#TLDR",
            Keyword::Maek => "#MAEK",
            Keyword::Oic => "#OIC",
            Keyword::Gimmeh => "#GIMMEH",
            Keyword::Mkay => "#MKAY",
            Keyword::IHaz => "#I HAZ",
            Keyword::ItIz => "#IT IZ",
            Keyword::LemmeSee => "#LEMME SEE",
            Keyword::Head => "HEAD",
            Keyword::Title => "TITLE",
            Keyword::Paragraf => "PARAGRAF",
            Keyword::Bold => "BOLD",
            Keyword::Italics => "ITALICS",
            Keyword::List => "LIST",
            Keyword::Item => "ITEM",
            Keyword::Newline => "NEWLINE",
            Keyword::Soundz => "SOUNDZ",
            Keyword::Vidz => "VIDZ",
        }
    }
}

/// The reserved word that a hash form spells, if it spells one. The form is
/// given with its `#` and in upper case.
pub open spec fn hash_keyword(form: Seq<char>) -> Option<Keyword> {
    if form == "#HAI"@ {
        Some(Keyword::Hai)
    } else if form == "#KTHXBYE"@ {
        Some(Keyword::Kthxbye)
    } else if form == "#OBTW"@ {
        Some(Keyword::Obtw)
    } else if form == "#TLDR"@ {
        Some(Keyword::Tldr)
    } else if form == "#MAEK"@ {
        Some(Keyword::Maek)
    } else if form == "#OIC"@ {
        Some(Keyword::Oic)
    } else if form == "#GIMMEH"@ {
        Some(Keyword::Gimmeh)
    } else if form == "#MKAY"@ {
        Some(Keyword::Mkay)
    } else if form == "#I HAZ"@ {
        Some(Keyword::IHaz)
    } else if form == "#IT IZ"@ {
        Some(Keyword::ItIz)
    } else if form == "#LEMME SEE"@ {
        Some(Keyword::LemmeSee)
    } else {
        None
    }
}

/// The reserved word that a bare word spells, if it spells one. The word is
/// given in upper case.
pub open spec fn plain_keyword(word: Seq<char>) -> Option<Keyword> {
    if word == "HEAD"@ {
        Some(Keyword::Head)
    } else if word == "TITLE"@ {
        Some(Keyword::Title)
    } else if word == "PARAGRAF"@ {
        Some(Keyword::Paragraf)
    } else if word == "BOLD"@ {
        Some(Keyword::Bold)
    } else if word == "ITALICS"@ {
        Some(Keyword::Italics)
    } else if word == "LIST"@ {
        Some(Keyword::List)
    } else if word == "ITEM"@ {
        Some(Keyword::Item)
    } else if word == "NEWLINE"@ {
        Some(Keyword::Newline)
    } else if word == "SOUNDZ"@ {
        Some(Keyword::Soundz)
    } else if word == "VIDZ"@ {
        Some(Keyword::Vidz)
    } else {
        None
    }
}

impl Keyword {
    /// Whether the word is written after a `#`.
    pub open spec fn is_hash_form(self) -> bool {
        match self {
            Keyword::Hai
            | Keyword::Kthxbye
            | Keyword::Obtw
            | Keyword::Tldr
            | Keyword::Maek
            | Keyword::Oic
            | Keyword::Gimmeh
            | Keyword::Mkay
            | Keyword::IHaz
            | Keyword::ItIz
            | Keyword::LemmeSee => true,
            _ => false,
        }
    }
}

/// Every reserved word is found by its spelling, and by no other: a hash
/// form among the hash forms, a bare word among the bare words.
pub proof fn lemma_spelling_is_found(k: Keyword, text: Seq<char>)
    ensures
        k.is_hash_form() ==> (hash_keyword(text) == Some(k) <==> text == k.spelling()),
        !k.is_hash_form() ==> (plain_keyword(text) == Some(k) <==> text == k.spelling()),
        k.is_hash_form() ==> plain_keyword(text) != Some(k),
        !k.is_hash_form() ==> hash_keyword(text) != Some(k),
{
    reveal_strlit("#HAI");
    reveal_strlit("#KTHXBYE");
    reveal_strlit("#OBTW");
    reveal_strlit("#TLDR");
    reveal_strlit("#MAEK");
    reveal_strlit("#OIC");
    reveal_strlit("#GIMMEH");
    reveal_strlit("#MKAY");
    reveal_strlit("#I HAZ");
    reveal_strlit("#IT IZ");
    reveal_strlit("#LEMME SEE");
    reveal_strlit("HEAD");
    reveal_strlit("TITLE");
    reveal_strlit("PARAGRAF");
    reveal_strlit("BOLD");
    reveal_strlit("ITALICS");
    reveal_strlit("LIST");
    reveal_strlit("ITEM");
    reveal_strlit("NEWLINE");
    reveal_strlit("SOUNDZ");
    reveal_strlit("VIDZ");
    assert("#HAI"@.len() == 4);
    assert("#KTHXBYE"@.len() == 8);
    assert("#OBTW"@.len() == 5);
    assert("#TLDR"@.len() == 5);
    assert("#MAEK"@.len() == 5);
    assert("#OIC"@.len() == 4);
    assert("#GIMMEH"@.len() == 7);
    assert("#MKAY"@.len() == 5);
    assert("#I HAZ"@.len() == 6);
    assert("#IT IZ"@.len() == 6);
    assert("#LEMME SEE"@.len() == 10);
    assert("HEAD"@.len() == 4);
    assert("TITLE"@.len() == 5);
    assert("PARAGRAF"@.len() == 8);
    assert("BOLD"@.len() == 4);
    assert("ITALICS"@.len() == 7);
    assert("LIST"@.len() == 4);
    assert("ITEM"@.len() == 4);
    assert("NEWLINE"@.len() == 7);
    assert("SOUNDZ"@.len() == 6);
    assert("VIDZ"@.len() == 4);
    assert("#HAI"@[1] != "#OIC"@[1]);
    assert("#OBTW"@[1] != "#TLDR"@[1]);
    assert("#OBTW"@[1] != "#MAEK"@[1]);
    assert("#OBTW"@[1] != "#MKAY"@[1]);
    assert("#TLDR"@[1] != "#MAEK"@[1]);
    assert("#TLDR"@[1] != "#MKAY"@[1]);
    assert("#MAEK"@[2] != "#MKAY"@[2]);
    assert("#I HAZ"@[2] != "#IT IZ"@[2]);
    assert("HEAD"@[0] != "BOLD"@[0]);
    assert("HEAD"@[0] != "LIST"@[0]);
    assert("HEAD"@[0] != "ITEM"@[0]);
    assert("HEAD"@[0] != "VIDZ"@[0]);
    assert("BOLD"@[0] != "LIST"@[0]);
    assert("BOLD"@[0] != "ITEM"@[0]);
    assert("BOLD"@[0] != "VIDZ"@[0]);
    assert("ITALICS"@[0] != "NEWLINE"@[0]);
    assert("LIST"@[0] != "ITEM"@[0]);
    assert("LIST"@[0] != "VIDZ"@[0]);
    assert("ITEM"@[0] != "VIDZ"@[0]);
}

/// A hash form of the vocabulary is 4, 5, 6, 7, 8 or 10 characters long.
pub proof fn lemma_hash_form_lengths(form: Seq<char>)
    requires
        hash_keyword(form) is Some,
    ensures
        form.len() == 4 || form.len() == 5 || form.len() == 6 || form.len() == 7 || form.len() == 8
            || form.len() == 10,
{
    reveal_strlit("#HAI");
    reveal_strlit("#KTHXBYE");
    reveal_strlit("#OBTW");
    reveal_strlit("#TLDR");
    reveal_strlit("#MAEK");
    reveal_strlit("#OIC");
    reveal_strlit("#GIMMEH");
    reveal_strlit("#MKAY");
    reveal_strlit("#I HAZ");
    reveal_strlit("#IT IZ");
    reveal_strlit("#LEMME SEE");
    assert("#HAI"@.len() == 4);
    assert("#KTHXBYE"@.len() == 8);
    assert("#OBTW"@.len() == 5);
    assert("#TLDR"@.len() == 5);
    assert("#MAEK"@.len() == 5);
    assert("#OIC"@.len() == 4);
    assert("#GIMMEH"@.len() == 7);
    assert("#MKAY"@.len() == 5);
    assert("#I HAZ"@.len() == 6);
    assert("#IT IZ"@.len() == 6);
    assert("#LEMME SEE"@.len() == 10);
}

/// Looks a hash form up in the vocabulary.
pub fn find_hash_keyword(form: &str) -> (found: Option<Keyword>)
    ensures
        found == hash_keyword(form@),
{
    if spells(form, "#HAI") {
        Some(Keyword::Hai)
    } else if spells(form, "#KTHXBYE") {
        Some(Keyword::Kthxbye)
    } else if spells(form, "#OBTW") {
        Some(Keyword::Obtw)
    } else if spells(form, "#TLDR") {
        Some(Keyword::Tldr)
    } else if spells(form, "#MAEK") {
        Some(Keyword::Maek)
    } else if spells(form, "#OIC") {
        Some(Keyword::Oic)
    } else if spells(form, "#GIMMEH") {
        Some(Keyword::Gimmeh)
    } else if spells(form, "#MKAY") {
        Some(Keyword::Mkay)
    } else if spells(form, "#I HAZ") {
        Some(Keyword::IHaz)
    } else if spells(form, "#IT IZ") {
        Some(Keyword::ItIz)
    } else if spells(form, "#LEMME SEE") {
        Some(Keyword::LemmeSee)
    } else {
        None
    }
}

/// Looks a bare word up in the vocabulary.
pub fn find_plain_keyword(word: &str) -> (found: Option<Keyword>)
    ensures
        found == plain_keyword(word@),
{
    if spells(word, "HEAD") {
        Some(Keyword::Head)
    } else if spells(word, "TITLE") {
        Some(Keyword::Title)
    } else if spells(word, "PARAGRAF") {
        Some(Keyword::Paragraf)
    } else if spells(word, "BOLD") {
        Some(Keyword::Bold)
    } else if spells(word, "ITALICS") {
        Some(Keyword::Italics)
    } else if spells(word, "LIST") {
        Some(Keyword::List)
    } else if spells(word, "ITEM") {
        Some(Keyword::Item)
    } else if spells(word, "NEWLINE") {
        Some(Keyword::Newline)
    } else if spells(word, "SOUNDZ") {
        Some(Keyword::Soundz)
    } else if spells(word, "VIDZ") {
        Some(Keyword::Vidz)
    } else {
        None
    }
}

/// One lexical unit of the source text.
#[derive(Debug, PartialEq, Eq)]
pub enum Token {
    /// A reserved word.
    Keyword(Keyword),
    /// One whitespace-delimited word that is no reserved word, as written.
    Text(String),
    /// The end of the input.
    Eof,
}

impl Clone for Token {
    fn clone(&self) -> (copy: Self)
        ensures
            copy@ == self@,
    {
        match self {
            Token::Keyword(k) => Token::Keyword(*k),
            Token::Text(word) => Token::Text(word.clone()),
            Token::Eof => Token::Eof,
        }
    }
}

/// The mathematical value of a token.
pub enum TokenView {
    Keyword(Keyword),
    Text(Seq<char>),
    Eof,
}

impl View for Token {
    type V = TokenView;

    open spec fn view(&self) -> TokenView {
        match *self {
            Token::Keyword(k) => TokenView::Keyword(k),
            Token::Text(word) => TokenView::Text(word@),
            Token::Eof => TokenView::Eof,
        }
    }
}

/// The values of a run of tokens, one for one.
pub open spec fn token_views(tokens: Seq<Token>) -> Seq<TokenView> {
    tokens.map_values(|t: Token| t@)
}

/// The kind of a token: which reserved word it is, or that it is a word of
/// text, or the end of the input. It is what a parser looks at to choose and
/// to check.
#[derive(Debug, Clone, Copy, PartialEq, Eq, Structural)]
pub enum TokenKind {
    Keyword(Keyword),
    Text,
    Eof,
}

/// The kind of a token.
pub open spec fn kind_of(token: TokenView) -> TokenKind {
    match token {
        TokenView::Keyword(k) => TokenKind::Keyword(k),
        TokenView::Text(_) => TokenKind::Text,
        TokenView::Eof => TokenKind::Eof,
    }
}

impl Token {
    /// The token's kind.
    pub fn kind(&self) -> (kind: TokenKind)
        ensures
            kind == kind_of(self@),
    {
        match self {
            Token::Keyword(k) => TokenKind::Keyword(*k),
            Token::Text(_) => TokenKind::Text,
            Token::Eof => TokenKind::Eof,
        }
    }

    /// Whether the token carries a word of free text.
    pub fn is_text(&self) -> (b: bool)
        ensures
            b == (self@ is Text),
    {
        match self {
            Token::Text(_) => true,
            _ => false,
        }
    }

    /// Whether the token marks the end of the input.
    pub fn is_eof(&self) -> (b: bool)
        ensures
            b == (self@ is Eof),
    {
        match self {
            Token::Eof => true,
            _ => false,
        }
    }
}

} // verus!

//! The scanner: from source text to tokens.

use vstd::prelude::*;
use crate::error::{CompileError, Fault};
use crate::text::{
    char_is_whitespace, chars_of, is_whitespace, push_char, to_ascii_upper, upper_case,
};
use crate::token::{
    find_hash_keyword, find_plain_keyword, hash_keyword, lemma_hash_form_lengths,
    lemma_spelling_is_found, plain_keyword, token_views, Keyword, Token, TokenView,
};

verus! {

/// The first position at or after `i` that holds no white space, or the end
/// of the text.
pub open spec fn skip_blank(s: Seq<char>, i: nat) -> nat
    decreases s.len() - i,
{
    if i < s.len() && is_whitespace(s[i as int]) {
        skip_blank(s, i + 1)
    } else {
        i
    }
}

/// The end of the word that starts at `i`: the first position at or after `i`
/// that holds white space, or the end of the text.
pub open spec fn word_end(s: Seq<char>, i: nat) -> nat
    decreases s.len() - i,
{
    if i < s.len() && !is_whitespace(s[i as int]) {
        word_end(s, i + 1)
    } else {
        i
    }
}

/// The line on which position `i` lies: one more than the number of newlines
/// before it.
pub open spec fn line_at(s: Seq<char>, i: nat) -> nat
    decreases i,
{
    if i == 0 {
        1
    } else if i <= s.len() && s[i - 1] == '\n' {
        line_at(s, (i - 1) as nat) + 1
    } else {
        line_at(s, (i - 1) as nat)
    }
}

/// The column of position `i`: the number of characters between it and the
/// last newline before it, or the start of the text.
pub open spec fn col_at(s: Seq<char>, i: nat) -> nat
    decreases i,
{
    if i == 0 {
        0
    } else if i <= s.len() && s[i - 1] == '\n' {
        0
    } else {
        col_at(s, (i - 1) as nat) + 1
    }
}

/// The word that lies between two positions.
pub open spec fn word_at(s: Seq<char>, start: nat, end: nat) -> Seq<char> {
    s.subrange(start as int, end as int)
}

/// One step of scanning: the token found, or the fault, and the position at
/// which scanning goes on.
pub struct Scanned {
    pub token: Result<TokenView, Fault>,
    pub next: nat,
}

/// The lexical fault for the hash form `form`, met by a scanner that stands
/// at position `at`.
pub open spec fn lexical_fault(s: Seq<char>, at: nat, form: Seq<char>) -> Fault {
    Fault::Lexical { line: line_at(s, at), col: col_at(s, at), form }
}

/// The reserved word that follows a `#`, where `start` is the position just
/// past the `#`.
///
/// The word at `start` is read, then, across any white space, a second one.
/// If the two spell a two-word form, both are consumed. If not, only the
/// first is consumed, and it must spell a one-word form. Letters count
/// without regard to case. A fault leaves the scanner just past the first
/// word.
pub open spec fn scan_hash(s: Seq<char>, start: nat) -> Scanned {
    let first_end = word_end(s, start);
    let first = upper_case(word_at(s, start, first_end));
    if first.len() == 0 {
        Scanned { token: Err(lexical_fault(s, first_end, "#"@ + first)), next: first_end }
    } else {
        let second_start = skip_blank(s, first_end);
        let second_end = word_end(s, second_start);
        let second = upper_case(word_at(s, second_start, second_end));
        match hash_keyword("#"@ + first + " "@ + second) {
            Some(k) => Scanned { token: Ok(TokenView::Keyword(k)), next: second_end },
            None => match hash_keyword("#"@ + first) {
                Some(k) => Scanned { token: Ok(TokenView::Keyword(k)), next: first_end },
                None => Scanned {
                    token: Err(lexical_fault(s, first_end, "#"@ + first)),
                    next: first_end,
                },
            },
        }
    }
}

/// The bare word that starts at `start`: a reserved word if it spells one
/// without regard to case, else a text token that carries it as written.
pub open spec fn scan_word(s: Seq<char>, start: nat) -> Scanned {
    let end = word_end(s, start);
    let word = word_at(s, start, end);
    match plain_keyword(upper_case(word)) {
        Some(k) => Scanned { token: Ok(TokenView::Keyword(k)), next: end },
        None => Scanned { token: Ok(TokenView::Text(word)), next: end },
    }
}

/// The next token of `s` at or after position `i`.
pub open spec fn scan(s: Seq<char>, i: nat) -> Scanned {
    let start = skip_blank(s, i);
    if start >= s.len() {
        Scanned { token: Ok(TokenView::Eof), next: start }
    } else if s[start as int] == '#' {
        scan_hash(s, start + 1)
    } else {
        scan_word(s, start)
    }
}

/// Skipping white space never moves back, stops inside the text, and stops
/// on a character that is no white space.
pub proof fn lemma_skip_blank_bounds(s: Seq<char>, i: nat)
    ensures
        i <= skip_blank(s, i),
        i <= s.len() ==> skip_blank(s, i) <= s.len(),
        skip_blank(s, i) < s.len() ==> !is_whitespace(s[skip_blank(s, i) as int]),
    decreases s.len() - i,
{
    if i < s.len() && is_whitespace(s[i as int]) {
        lemma_skip_blank_bounds(s, i + 1);
    }
}

/// Reading a word never moves back, and stops inside the text.
pub proof fn lemma_word_end_bounds(s: Seq<char>, i: nat)
    ensures
        i <= word_end(s, i),
        i <= s.len() ==> word_end(s, i) <= s.len(),
    decreases s.len() - i,
{
    if i < s.len() && !is_whitespace(s[i as int]) {
        lemma_word_end_bounds(s, i + 1);
    }
}

/// A position's line and column are bounded by the position.
pub proof fn lemma_position_bounds(s: Seq<char>, i: nat)
    ensures
        1 <= line_at(s, i) <= i + 1,
        col_at(s, i) <= i,
    decreases i,
{
    if i > 0 {
        lemma_position_bounds(s, (i - 1) as nat);
    }
}

/// Scanning stays inside the text, and every token but the end of input
/// consumes at least one character.
pub proof fn lemma_scan_progress(s: Seq<char>, i: nat)
    ensures
        i <= scan(s, i).next,
        i <= s.len() ==> scan(s, i).next <= s.len(),
        scan(s, i).token is Ok && scan(s, i).token != Ok::<TokenView, Fault>(TokenView::Eof)
            ==> i < scan(s, i).next,
{
    let start = skip_blank(s, i);
    lemma_skip_blank_bounds(s, i);
    if start < s.len() {
        if s[start as int] == '#' {
            let first_end = word_end(s, start + 1);
            lemma_word_end_bounds(s, start + 1);
            let second_start = skip_blank(s, first_end);
            lemma_skip_blank_bounds(s, first_end);
            lemma_word_end_bounds(s, second_start);
        } else {
            assert(word_end(s, start) == word_end(s, start + 1));
            lemma_word_end_bounds(s, start + 1);
        }
    }
}

/// A word holds no white space.
pub proof fn lemma_word_is_solid(s: Seq<char>, start: nat, at: int)
    requires
        start <= at < word_end(s, start),
    ensures
        at < s.len(),
        !is_whitespace(s[at]),
    decreases s.len() - start,
{
    if start < s.len() && !is_whitespace(s[start as int]) {
        if at > start {
            lemma_word_is_solid(s, start + 1, at);
        }
    }
}

/// A text token carries one word: it is not empty, it holds no white space,
/// and it does not begin with a `#`.
pub proof fn lemma_text_is_one_word(s: Seq<char>, i: nat)
    requires
        scan(s, i).token is Ok,
        scan(s, i).token->Ok_0 is Text,
    ensures
        scan(s, i).token->Ok_0->Text_0.len() > 0,
        scan(s, i).token->Ok_0->Text_0[0] != '#',
        forall|k: int|
            0 <= k < scan(s, i).token->Ok_0->Text_0.len() ==> !is_whitespace(
                #[trigger] scan(s, i).token->Ok_0->Text_0[k],
            ),
{
    let start = skip_blank(s, i);
    lemma_skip_blank_bounds(s, i);
    lemma_word_end_bounds(s, start);
    let word = word_at(s, start, word_end(s, start));
    assert(scan(s, i).token->Ok_0->Text_0 == word);
    assert(word_end(s, start) == word_end(s, start + 1));
    lemma_word_end_bounds(s, start + 1);
    assert forall|k: int| 0 <= k < word.len() implies !is_whitespace(#[trigger] word[k]) by {
        lemma_word_is_solid(s, start, start + k);
    }
}

/// White space is skipped as a whole: from `i`, where all up to `j` is white
/// space and `j` holds none, skipping ends at `j`.
pub proof fn lemma_skip_blank_run(s: Seq<char>, i: nat, j: nat)
    requires
        i <= j <= s.len(),
        forall|k: int| i <= k < j ==> is_whitespace(#[trigger] s[k]),
        j < s.len() ==> !is_whitespace(s[j as int]),
    ensures
        skip_blank(s, i) == j,
    decreases j - i,
{
    if i < j {
        lemma_skip_blank_run(s, i + 1, j);
    }
}

/// A word is read as a whole: from `i`, where nothing up to `j` is white
/// space and `j` holds white space or is the end, the word ends at `j`.
pub proof fn lemma_word_run(s: Seq<char>, i: nat, j: nat)
    requires
        i <= j <= s.len(),
        forall|k: int| i <= k < j ==> !is_whitespace(#[trigger] s[k]),
        j < s.len() ==> is_whitespace(s[j as int]),
    ensures
        word_end(s, i) == j,
    decreases j - i,
{
    if i < j {
        lemma_word_run(s, i + 1, j);
    }
}

/// `#HAI` and `#KTHXBYE`, with white space between them and any white space
/// around them, scan as the two reserved words.
pub proof fn lemma_scan_hai_kthxbye(w0: Seq<char>, w1: Seq<char>, w2: Seq<char>)
    requires
        forall|k: int| 0 <= k < w0.len() ==> is_whitespace(#[trigger] w0[k]),
        forall|k: int| 0 <= k < w1.len() ==> is_whitespace(#[trigger] w1[k]),
        forall|k: int| 0 <= k < w2.len() ==> is_whitespace(#[trigger] w2[k]),
        w1.len() > 0,
    ensures
        scan_all(w0 + "#HAI"@ + w1 + "#KTHXBYE"@ + w2, 0).fault is None,
        scan_all(w0 + "#HAI"@ + w1 + "#KTHXBYE"@ + w2, 0).tokens == seq![
            TokenView::Keyword(Keyword::Hai),
            TokenView::Keyword(Keyword::Kthxbye),
        ],
{
    reveal_strlit("#HAI");
    reveal_strlit("#KTHXBYE");
    reveal_strlit("#");
    reveal_strlit(" ");
    let hai = "#HAI"@;
    let bye = "#KTHXBYE"@;
    assert(hai.len() == 4 && bye.len() == 8);
    let s = w0 + hai + w1 + bye + w2;
    let a = w0.len();
    let b = a + 4;
    let c = b + w1.len();
    let d = c + 8;
    let e = d + w2.len();
    assert(s.len() == e);
    assert forall|k: int| 0 <= k < a implies is_whitespace(#[trigger] s[k]) by {
        assert(s[k] == w0[k]);
    }
    assert forall|k: int| b <= k < c implies is_whitespace(#[trigger] s[k]) by {
        assert(s[k] == w1[k - b]);
    }
    assert forall|k: int| d <= k < e implies is_whitespace(#[trigger] s[k]) by {
        assert(s[k] == w2[k - d]);
    }
    assert forall|k: int| a <= k < b implies !is_whitespace(#[trigger] s[k]) by {
        assert(s[k] == hai[k - a]);
    }
    assert forall|k: int| c <= k < d implies !is_whitespace(#[trigger] s[k]) by {
        assert(s[k] == bye[k - c]);
    }
    assert(s[a as int] == hai[0]);
    assert(s[c as int] == bye[0]);

    // the first token
    lemma_skip_blank_run(s, 0, a);
    lemma_word_run(s, a + 1, b);
    lemma_skip_blank_run(s, b, c);
    lemma_word_run(s, c, d);
    let first = upper_case(word_at(s, a + 1, b));
    let second = upper_case(word_at(s, c, d));
    assert(first.len() == 3 && second.len() == 8);
    assert("#"@ + first =~= hai) by {
        assert(s[a as int + 1] == hai[1] && s[a as int + 2] == hai[2] && s[a as int + 3] == hai[3]);
    }
    assert(hash_keyword("#"@ + first + " "@ + second) is None) by {
        if hash_keyword("#"@ + first + " "@ + second) is Some {
            lemma_hash_form_lengths("#"@ + first + " "@ + second);
        }
    }
    assert(scan(s, 0) == Scanned { token: Ok(TokenView::Keyword(Keyword::Hai)), next: b });

    // the second token
    lemma_word_run(s, c + 1, d);
    lemma_skip_blank_run(s, d, e);
    lemma_word_run(s, e, e);
    let word = upper_case(word_at(s, c + 1, d));
    let nothing = upper_case(word_at(s, e, e));
    assert(word.len() == 7 && nothing.len() == 0);
    assert("#"@ + word =~= bye) by {
        assert(s[c as int + 1] == bye[1] && s[c as int + 2] == bye[2] && s[c as int + 3] == bye[3]);
        assert(s[c as int + 4] == bye[4] && s[c as int + 5] == bye[5] && s[c as int + 6] == bye[6]);
        assert(s[c as int + 7] == bye[7]);
    }
    assert(hash_keyword("#"@ + word + " "@ + nothing) is None) by {
        if hash_keyword("#"@ + word + " "@ + nothing) is Some {
            lemma_hash_form_lengths("#"@ + word + " "@ + nothing);
        }
    }
    lemma_spelling_is_found(Keyword::Kthxbye, bye);
    assert(scan(s, b) == Scanned { token: Ok(TokenView::Keyword(Keyword::Kthxbye)), next: d });

    // the end
    assert(scan(s, d) == Scanned { token: Ok(TokenView::Eof), next: e });
    assert(scan_all(s, d).tokens =~= Seq::<TokenView>::empty());
    assert(scan_all(s, b).tokens =~= seq![TokenView::Keyword(Keyword::Kthxbye)]);
    assert(scan_all(s, 0).tokens =~= seq![
        TokenView::Keyword(Keyword::Hai),
        TokenView::Keyword(Keyword::Kthxbye),
    ]);
}

/// Scanning to the end: the tokens found before the end of the input; the
/// lexical fault that ended the scan, if one did; and the position at which
/// the scanner was left.
pub struct TokenRun {
    pub tokens: Seq<TokenView>,
    pub fault: Option<Fault>,
    pub end: nat,
}

/// `rest`, with the tokens `before` put before those it holds.
pub open spec fn after_tokens(before: Seq<TokenView>, rest: TokenRun) -> TokenRun {
    TokenRun { tokens: before + rest.tokens, fault: rest.fault, end: rest.end }
}

/// Token after token from position `i` on, up to the end of the input or to
/// the first lexical fault. The end-of-input token is not among the tokens.
pub open spec fn scan_all(s: Seq<char>, i: nat) -> TokenRun
    decreases s.len() - i,
{
    let found = scan(s, i);
    match found.token {
        Err(fault) => TokenRun { tokens: Seq::empty(), fault: Some(fault), end: found.next },
        Ok(TokenView::Eof) => TokenRun { tokens: Seq::empty(), fault: None, end: found.next },
        Ok(token) => {
            proof {
                lemma_scan_progress(s, i);
                lemma_skip_blank_bounds(s, i);
            }
            after_tokens(seq![token], scan_all(s, found.next))
        },
    }
}

/// A scan to the end stays inside the text, holds no end-of-input token,
/// and finds at most one token for each character it consumes.
pub proof fn lemma_scan_all_bounds(s: Seq<char>, i: nat)
    requires
        i <= s.len(),
    ensures
        i <= scan_all(s, i).end <= s.len(),
        scan_all(s, i).tokens.len() <= scan_all(s, i).end - i,
        forall|k: int|
            0 <= k < scan_all(s, i).tokens.len() ==> !(#[trigger] scan_all(s, i).tokens[k]
                is Eof),
    decreases s.len() - i,
{
    let found = scan(s, i);
    lemma_scan_progress(s, i);
    match found.token {
        Ok(TokenView::Eof) => {},
        Ok(token) => {
            lemma_scan_all_bounds(s, found.next);
            let rest = scan_all(s, found.next).tokens;
            let all = scan_all(s, i).tokens;
            assert(all == seq![token] + rest);
            assert forall|k: int| 0 <= k < all.len() implies !(#[trigger] all[k] is Eof) by {
                if k > 0 {
                    assert(all[k] == rest[k - 1]);
                }
            }
        },
        Err(_) => {},
    }
}

/// All tokens of `s` from position `i` on, with the end-of-input token as
/// the last, or the first lexical fault.
pub open spec fn tokens_from(s: Seq<char>, i: nat) -> Result<Seq<TokenView>, Fault> {
    match scan_all(s, i).fault {
        Some(fault) => Err(fault),
        None => Ok(scan_all(s, i).tokens.push(TokenView::Eof)),
    }
}

/// The character-level operations of a scanner: it reads its input one
/// character at a time and collects the word at hand.
pub trait LexicalAnalyzer {
    /// Whether the scanner's bookkeeping is in order.
    spec fn ready(&self) -> bool;

    /// The input that is not yet consumed.
    spec fn unread(&self) -> Seq<char>;

    /// The word collected so far.
    spec fn pending(&self) -> Seq<char>;

    /// Consumes the next character. There must be one.
    fn get_char(&mut self) -> (c: char)
        requires
            old(self).ready(),
            old(self).unread().len() > 0,
        ensures
            final(self).ready(),
            c == old(self).unread().first(),
            final(self).unread() == old(self).unread().drop_first(),
            final(self).pending() == old(self).pending(),
    ;

    /// Adds a character to the word at hand.
    fn add_char(&mut self, c: char)
        requires
            old(self).ready(),
        ensures
            final(self).ready(),
            final(self).unread() == old(self).unread(),
            final(self).pending() == old(self).pending().push(c),
    ;

    /// Whether `s` spells a hash form of the vocabulary, without regard to
    /// case.
    fn lookup(&self, s: &str) -> (known: bool)
        ensures
            known == hash_keyword(upper_case(s@)) is Some,
    ;
}

/// The scanner: turns source text into tokens, one call at a time.
pub struct LolLexer {
    input: Vec<char>,
    index: usize,
    line: usize,
    col: usize,
    potential_token: String,
}

impl LolLexer {
    /// The text that is scanned.
    pub closed spec fn source(&self) -> Seq<char> {
        self.input@
    }

    /// The number of characters consumed.
    pub closed spec fn offset(&self) -> nat {
        self.index as nat
    }

    /// The scanner's invariant: it stands inside its text, and its line and
    /// column are those of the place where it stands.
    pub closed spec fn wf(&self) -> bool {
        &&& self.index <= self.input@.len()
        &&& self.input@.len() < usize::MAX
        &&& self.line == line_at(self.input@, self.index as nat)
        &&& self.col == col_at(self.input@, self.index as nat)
    }

    /// A scanner stands inside its text, and the text leaves room for the
    /// line count.
    pub proof fn lemma_wf_bounds(&self)
        requires
            self.wf(),
        ensures
            self.offset() <= self.source().len() < usize::MAX,
    {
    }

    /// A scanner at the start of `source`: line 1, column 0.
    pub fn new(source: &str) -> (lexer: Self)
        requires
            source@.len() < usize::MAX,
        ensures
            lexer.wf(),
            lexer.source() == source@,
            lexer.offset() == 0,
    {
        LolLexer {
            input: chars_of(source),
            index: 0,
            line: 1,
            col: 0,
            potential_token: String::new(),
        }
    }

    /// The line on which the scanner stands, counted from 1.
    pub fn line(&self) -> (line: usize)
        requires
            self.wf(),
        ensures
            line == line_at(self.source(), self.offset()),
    {
        self.line
    }

    /// The column at which the scanner stands: the number of characters
    /// consumed since the last newline.
    pub fn col(&self) -> (col: usize)
        requires
            self.wf(),
        ensures
            col == col_at(self.source(), self.offset()),
    {
        self.col
    }

    /// The next token, or the lexical fault that stands in its place.
    pub fn next_token(&mut self) -> (token: Result<Token, CompileError>)
        requires
            old(self).wf(),
        ensures
            final(self).wf(),
            final(self).source() == old(self).source(),
            final(self).offset() == scan(old(self).source(), old(self).offset()).next,
            match token {
                Ok(t) => scan(old(self).source(), old(self).offset()).token == Ok::<
                    TokenView,
                    Fault,
                >(t@),
                Err(e) => scan(old(self).source(), old(self).offset()).token == Err::<
                    TokenView,
                    Fault,
                >(e@),
            },
    {
        self.skip_ws();
        match self.peek() {
            None => Ok(Token::Eof),
            Some(c) => {
                if c == '#' {
                    self.read_hash_keyword()
                } else {
                    let word = self.get_token();
                    let upper = to_ascii_upper(word.as_str());
                    match find_plain_keyword(upper.as_str()) {
                        Some(k) => Ok(Token::Keyword(k)),
                        None => Ok(Token::Text(word)),
                    }
                }
            },
        }
    }

    /// The next character, if there is one. Nothing is consumed.
    pub fn peek(&self) -> (c: Option<char>)
        ensures
            c == if self.offset() < self.source().len() {
                Some(self.source()[self.offset() as int])
            } else {
                None
            },
    {
        if self.index < self.input.len() {
            Some(self.input[self.index])
        } else {
            None
        }
    }

    /// Consumes the next character, if there is one, and keeps line and
    /// column: a newline starts a line at column 0, any other character is
    /// one column more.
    fn advance(&mut self) -> (c: Option<char>)
        requires
            old(self).wf(),
        ensures
            final(self).wf(),
            final(self).source() == old(self).source(),
            final(self).potential_token == old(self).potential_token,
            c == if old(self).offset() < old(self).source().len() {
                Some(old(self).source()[old(self).offset() as int])
            } else {
                None
            },
            final(self).offset() == if c is Some {
                old(self).offset() + 1
            } else {
                old(self).offset()
            },
    {
        let c = self.peek();
        match c {
            Some(ch) => {
                proof {
                    lemma_position_bounds(self.input@, self.index as nat);
                }
                self.index = self.index + 1;
                if ch == '\n' {
                    self.line = self.line + 1;
                    self.col = 0;
                } else {
                    self.col = self.col + 1;
                }
            },
            None => {},
        }
        c
    }

    /// Consumes the white space at which the scanner stands.
    fn skip_ws(&mut self)
        requires
            old(self).wf(),
        ensures
            final(self).wf(),
            final(self).source() == old(self).source(),
            final(self).offset() == skip_blank(old(self).source(), old(self).offset()),
    {
        loop
            invariant
                self.wf(),
                self.source() == old(self).source(),
                skip_blank(self.source(), self.offset()) == skip_blank(
                    old(self).source(),
                    old(self).offset(),
                ),
            ensures
                self.offset() == skip_blank(old(self).source(), old(self).offset()),
            decreases self.source().len() - self.offset(),
        {
            match self.peek() {
                Some(c) => {
                    if char_is_whitespace(c) {
                        self.advance();
                    } else {
                        break;
                    }
                },
                None => {
                    break;
                },
            }
        }
    }

    /// Consumes the word at which the scanner stands, up to the next white
    /// space, and returns it as written. The word is empty if the scanner
    /// stands on white space or at the end.
    fn get_token(&mut self) -> (word: String)
        requires
            old(self).wf(),
        ensures
            final(self).wf(),
            final(self).source() == old(self).source(),
            final(self).offset() == word_end(old(self).source(), old(self).offset()),
            word@ == word_at(old(self).source(), old(self).offset(), final(self).offset()),
    {
        self.potential_token = String::new();
        let ghost start = self.offset();
        assert(self.pending() =~= word_at(self.source(), start, self.offset()));
        loop
            invariant
                self.wf(),
                self.source() == old(self).source(),
                start == old(self).offset(),
                start <= self.offset() <= self.source().len(),
                word_end(self.source(), self.offset()) == word_end(old(self).source(), start),
                self.pending() == word_at(self.source(), start, self.offset()),
            ensures
                self.offset() == word_end(old(self).source(), start),
            decreases self.source().len() - self.offset(),
        {
            match self.peek() {
                Some(c) => {
                    if char_is_whitespace(c) {
                        break;
                    }
                    let ghost before = self.offset();
                    assert(self.unread().len() > 0);
                    let ch = self.get_char();
                    self.add_char(ch);
                    assert(self.unread().len() + 1 == self.source().len() - before);
                    assert(self.pending() =~= word_at(self.source(), start, self.offset()));
                },
                None => {
                    break;
                },
            }
        }
        self.potential_token.clone()
    }

    /// Reads the reserved word whose `#` the scanner stands on.
    fn read_hash_keyword(&mut self) -> (token: Result<Token, CompileError>)
        requires
            old(self).wf(),
            old(self).offset() < old(self).source().len(),
        ensures
            final(self).wf(),
            final(self).source() == old(self).source(),
            final(self).offset() == scan_hash(old(self).source(), old(self).offset() + 1).next,
            match token {
                Ok(t) => scan_hash(old(self).source(), old(self).offset() + 1).token == Ok::<
                    TokenView,
                    Fault,
                >(t@),
                Err(e) => scan_hash(old(self).source(), old(self).offset() + 1).token == Err::<
                    TokenView,
                    Fault,
                >(e@),
            },
    {
        self.advance();
        let first_token = to_ascii_upper(self.get_token().as_str());
        let mut one_word = String::from_str("#");
        one_word.append(first_token.as_str());

        // the two-word forms need a look at the word that follows
        let save_i: usize = self.index;
        let save_line: usize = self.line;
        let save_col: usize = self.col;

        if first_token.as_str().is_empty() {
            return Err(CompileError::Lexical { line: self.line, col: self.col, form: one_word });
        }
        self.skip_ws();
        let second_token = to_ascii_upper(self.get_token().as_str());
        let mut two_words = one_word.clone();
        two_words.append(" ");
        two_words.append(second_token.as_str());

        match find_hash_keyword(two_words.as_str()) {
            Some(k) => Ok(Token::Keyword(k)),
            None => {
                self.index = save_i;
                self.line = save_line;
                self.col = save_col;
                match find_hash_keyword(one_word.as_str()) {
                    Some(k) => Ok(Token::Keyword(k)),
                    None => Err(
                        CompileError::Lexical { line: self.line, col: self.col, form: one_word },
                    ),
                }
            },
        }
    }
}

impl LexicalAnalyzer for LolLexer {
    open spec fn ready(&self) -> bool {
        self.wf()
    }

    open spec fn unread(&self) -> Seq<char> {
        self.source().skip(self.offset() as int)
    }

    closed spec fn pending(&self) -> Seq<char> {
        self.potential_token@
    }

    fn get_char(&mut self) -> (c: char)
        ensures
            final(self).source() == old(self).source(),
            final(self).offset() == old(self).offset() + 1,
    {
        let c = self.input[self.index];
        self.advance();
        assert(self.unread() =~= old(self).unread().drop_first());
        c
    }

    fn add_char(&mut self, c: char)
        ensures
            final(self).source() == old(self).source(),
            final(self).offset() == old(self).offset(),
    {
        push_char(&mut self.potential_token, c);
    }

    fn lookup(&self, s: &str) -> (known: bool) {
        let upper = to_ascii_upper(s);
        find_hash_keyword(upper.as_str()).is_some()
    }
}

/// Scans to the end of the lexer's text and appends the tokens to `tokens`.
/// The end-of-input token is not appended. A lexical fault ends the scan;
/// the tokens before it are appended all the same.
pub fn collect_tokens(lexer: &mut LolLexer, tokens: &mut Vec<Token>) -> (done: Result<
    (),
    CompileError,
>)
    requires
        old(lexer).wf(),
    ensures
        final(lexer).wf(),
        final(lexer).source() == old(lexer).source(),
        final(lexer).offset() == scan_all(old(lexer).source(), old(lexer).offset()).end,
        token_views(final(tokens)@) == token_views(old(tokens)@) + scan_all(
            old(lexer).source(),
            old(lexer).offset(),
        ).tokens,
        match done {
            Ok(()) => scan_all(old(lexer).source(), old(lexer).offset()).fault is None,
            Err(e) => scan_all(old(lexer).source(), old(lexer).offset()).fault == Some(e@),
        },
{
    let ghost s = lexer.source();
    let ghost whole = scan_all(s, lexer.offset());
    let ghost mut found: Seq<TokenView> = Seq::empty();
    assert(whole == after_tokens(found, whole)) by {
        assert(found + whole.tokens =~= whole.tokens);
    }
    assert(token_views(tokens@) =~= token_views(old(tokens)@) + found);
    loop
        invariant
            lexer.wf(),
            lexer.source() == s,
            s == old(lexer).source(),
            whole == scan_all(s, old(lexer).offset()),
            whole == after_tokens(found, scan_all(s, lexer.offset())),
            token_views(tokens@) == token_views(old(tokens)@) + found,
        decreases s.len() - lexer.offset(),
    {
        let ghost at = lexer.offset();
        let ghost before = token_views(tokens@);
        proof {
            lemma_scan_progress(s, at);
            assert(found + Seq::<TokenView>::empty() =~= found);
        }
        let token = lexer.next_token()?;
        if token.is_eof() {
            return Ok(());
        }
        proof {
            let rest = scan_all(s, lexer.offset());
            assert(found + (seq![token@] + rest.tokens) =~= found.push(token@) + rest.tokens);
            assert(token_views(tokens@.push(token)) =~= before.push(token@));
            assert(before.push(token@) =~= token_views(old(tokens)@) + found.push(token@));
            found = found.push(token@);
        }
        tokens.push(token);
    }
}

} // verus!

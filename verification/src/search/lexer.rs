//! Splits a query string into a flat sequence of tokens.

use crate::text::{chars_of, push_char, str_eq};
use vstd::prelude::*;

verus! {

#[derive(Debug, PartialEq, Eq, Clone, Copy, Structural)]
pub enum LexError {
    /// A character that no token can hold.
    InvalidChar(char),
}

impl LexError {
    /// The message of this error.
    pub open spec fn message(self) -> Seq<char> {
        match self {
            LexError::InvalidChar(c) => "Invalid char "@.push(c),
        }
    }

    /// The message of this error.
    pub fn to_string(&self) -> (message: String)
        ensures
            message@ == self.message(),
    {
        match self {
            LexError::InvalidChar(c) => {
                let mut message = "Invalid char ".to_owned();
                push_char(&mut message, *c);
                message
            },
        }
    }
}

#[derive(Debug, PartialEq)]
pub enum LexItem {
    Word(String),
    AttributeSeperator,
    StartParen,
    EndParen,
    Or,
    Not,
}

/// What a `LexItem` stands for: the same token, with the text of a word as a
/// sequence of characters.
pub enum LexItemView {
    Word(Seq<char>),
    AttributeSeperator,
    StartParen,
    EndParen,
    Or,
    Not,
}

impl View for LexItem {
    type V = LexItemView;

    open spec fn view(&self) -> LexItemView {
        match self {
            LexItem::Word(s) => LexItemView::Word(s@),
            LexItem::AttributeSeperator => LexItemView::AttributeSeperator,
            LexItem::StartParen => LexItemView::StartParen,
            LexItem::EndParen => LexItemView::EndParen,
            LexItem::Or => LexItemView::Or,
            LexItem::Not => LexItemView::Not,
        }
    }
}

impl DeepView for LexItem {
    type V = LexItemView;

    open spec fn deep_view(&self) -> LexItemView {
        self.view()
    }
}

impl LexItem {
    /// A word token that holds `s`.
    pub fn word(s: &str) -> (item: LexItem)
        ensures
            item@ == LexItemView::Word(s@),
    {
        LexItem::Word(s.to_owned())
    }
}

/// The characters that end a word unless they stand between quotes.
pub open spec fn is_special(c: char) -> bool {
    c == ' ' || c == '(' || c == ')' || c == ',' || c == ':'
}

/// The quoting state after reading `c`: a `"` toggles it.
pub open spec fn quoted_after(quoted: bool, c: char) -> bool {
    if c == '"' {
        !quoted
    } else {
        quoted
    }
}

/// The position at which the word read from `pos` on stops: the first special
/// character outside quotes, or the end of the input.
pub open spec fn word_end(s: Seq<char>, pos: int, quoted: bool) -> int
    decreases s.len() - pos,
{
    if pos < 0 || pos >= s.len() {
        pos
    } else if is_special(s[pos]) && !quoted {
        pos
    } else {
        word_end(s, pos + 1, quoted_after(quoted, s[pos]))
    }
}

/// The text of the word read from `pos` on: every character up to
/// `word_end`, the quote characters left out.
pub open spec fn word_text(s: Seq<char>, pos: int, quoted: bool) -> Seq<char>
    decreases s.len() - pos,
{
    if pos < 0 || pos >= s.len() {
        Seq::empty()
    } else if is_special(s[pos]) && !quoted {
        Seq::empty()
    } else if s[pos] == '"' {
        word_text(s, pos + 1, !quoted)
    } else {
        seq![s[pos]] + word_text(s, pos + 1, quoted)
    }
}

/// The token a finished word becomes: `or` and `not` are operators, `and` is
/// dropped, anything else is a word.
pub open spec fn word_token(word: Seq<char>) -> Option<LexItemView> {
    if word == "or"@ {
        Some(LexItemView::Or)
    } else if word == "not"@ {
        Some(LexItemView::Not)
    } else if word == "and"@ {
        None
    } else {
        Some(LexItemView::Word(word))
    }
}

/// A word never ends before it starts, nor after the input does.
pub proof fn lemma_word_end_bounds(s: Seq<char>, pos: int, quoted: bool)
    requires
        0 <= pos <= s.len(),
    ensures
        pos <= word_end(s, pos, quoted) <= s.len(),
    decreases s.len() - pos,
{
    if pos < s.len() && !(is_special(s[pos]) && !quoted) {
        lemma_word_end_bounds(s, pos + 1, quoted_after(quoted, s[pos]));
    }
}

/// The test whether a character is no quote.
pub open spec fn no_quote() -> spec_fn(char) -> bool {
    |c: char| c != '"'
}

/// The text of a word is what stands between its start and its end, without
/// the quotes.
pub proof fn lemma_word_text(s: Seq<char>, pos: int, quoted: bool)
    requires
        0 <= pos <= s.len(),
    ensures
        word_text(s, pos, quoted) == s.subrange(pos, word_end(s, pos, quoted)).filter(no_quote()),
    decreases s.len() - pos,
{
    reveal(Seq::filter);
    lemma_word_end_bounds(s, pos, quoted);
    let end = word_end(s, pos, quoted);
    if pos < s.len() && !(is_special(s[pos]) && !quoted) {
        lemma_word_text(s, pos + 1, quoted_after(quoted, s[pos]));
        lemma_word_end_bounds(s, pos + 1, quoted_after(quoted, s[pos]));
        let rest = s.subrange(pos + 1, end);
        assert(s.subrange(pos, end) =~= seq![s[pos]] + rest);
        Seq::filter_distributes_over_add(seq![s[pos]], rest, no_quote());
        let none = Seq::<char>::empty();
        assert(seq![s[pos]] =~= none.push(s[pos]));
        assert(none.filter(no_quote()) =~= none);
        Seq::lemma_filter_push(none, s[pos], no_quote());
        if s[pos] == '"' {
            assert(none + rest.filter(no_quote()) =~= rest.filter(no_quote()));
        }
    } else {
        assert(s.subrange(pos, end) =~= Seq::<char>::empty());
    }
}

/// The tokens of `s` from `pos` on.
pub open spec fn tokens_from(s: Seq<char>, pos: int) -> Seq<LexItemView>
    decreases s.len() - pos,
{
    if pos < 0 || pos >= s.len() {
        Seq::empty()
    } else if s[pos] == '(' {
        seq![LexItemView::StartParen] + tokens_from(s, pos + 1)
    } else if s[pos] == ')' {
        seq![LexItemView::EndParen] + tokens_from(s, pos + 1)
    } else if s[pos] == ',' {
        seq![LexItemView::Or] + tokens_from(s, pos + 1)
    } else if s[pos] == ':' {
        seq![LexItemView::AttributeSeperator] + tokens_from(s, pos + 1)
    } else if s[pos] == ' ' {
        tokens_from(s, pos + 1)
    } else {
        let end = word_end(s, pos, false);
        proof {
            lemma_word_end_bounds(s, pos + 1, quoted_after(false, s[pos]));
        }
        match word_token(word_text(s, pos, false)) {
            Some(token) => seq![token] + tokens_from(s, end),
            None => tokens_from(s, end),
        }
    }
}

/// The tokens of a whole query.
pub open spec fn tokens_of(s: Seq<char>) -> Seq<LexItemView> {
    tokens_from(s, 0)
}

/// A cursor over the characters of a query.
pub struct Scanner {
    chars: Vec<char>,
    pos: usize,
}

impl Scanner {
    #[verifier::type_invariant]
    spec fn in_bounds(self) -> bool {
        self.pos <= self.chars.len()
    }

    /// The text that is scanned.
    pub closed spec fn text(self) -> Seq<char> {
        self.chars@
    }

    /// How many characters have been read.
    pub closed spec fn position(self) -> int {
        self.pos as int
    }

    /// A cursor at the start of `input`.
    pub fn new(input: &str) -> (scanner: Scanner)
        ensures
            scanner.text() == input@,
            scanner.position() == 0,
    {
        Scanner { chars: chars_of(input), pos: 0 }
    }

    /// The next character, if any is left.
    pub fn peek(&self) -> (c: Option<char>)
        ensures
            0 <= self.position() <= self.text().len(),
            self.position() < self.text().len() ==> c == Some(self.text()[self.position()]),
            self.position() == self.text().len() ==> c.is_none(),
    {
        proof {
            use_type_invariant(self);
        }
        if self.pos < self.chars.len() {
            Some(self.chars[self.pos])
        } else {
            None
        }
    }

    /// Steps over one character; at the end of the text nothing changes.
    pub fn advance(&mut self)
        ensures
            final(self).text() == old(self).text(),
            old(self).position() < old(self).text().len() ==> final(self).position() == old(
                self,
            ).position() + 1,
            old(self).position() >= old(self).text().len() ==> final(self).position() == old(
                self,
            ).position(),
    {
        proof {
            use_type_invariant(&*self);
        }
        if self.pos < self.chars.len() {
            self.pos = self.pos + 1;
        }
    }
}

/// Reads one word: every character up to the next special character that does
/// not stand between quotes. Quote characters switch quoting on and off and do
/// not belong to the word; a quote that is never closed runs to the end of the
/// input.
pub fn get_word(iter: &mut Scanner) -> (word: String)
    ensures
        final(iter).text() == old(iter).text(),
        final(iter).position() == word_end(old(iter).text(), old(iter).position(), false),
        word@ == word_text(old(iter).text(), old(iter).position(), false),
{
    proof {
        use_type_invariant(&*iter);
    }
    let mut quoted_string = false;
    let mut output = String::new();
    loop
        invariant
            iter.text() == old(iter).text(),
            old(iter).position() <= iter.position() <= iter.text().len(),
            word_end(iter.text(), iter.position(), quoted_string) == word_end(
                old(iter).text(),
                old(iter).position(),
                false,
            ),
            output@ + word_text(iter.text(), iter.position(), quoted_string) == word_text(
                old(iter).text(),
                old(iter).position(),
                false,
            ),
        ensures
            iter.text() == old(iter).text(),
            iter.position() == word_end(old(iter).text(), old(iter).position(), false),
            output@ == word_text(old(iter).text(), old(iter).position(), false),
        decreases iter.text().len() - iter.position(),
    {
        let ghost before = output@;
        let ghost rest = word_text(iter.text(), iter.position(), quoted_string);
        match iter.peek() {
            None => {
                assert(before + rest == before);
                break ;
            },
            Some(c) => {
                if is_special_char(c) && !quoted_string {
                    assert(before + rest == before);
                    break ;
                }
                iter.advance();
                if c == '"' {
                    quoted_string = !quoted_string;
                } else {
                    push_char(&mut output, c);
                    assert(output@ + word_text(iter.text(), iter.position(), quoted_string)
                        == before + rest);
                }
            },
        }
    }
    output
}

/// Whether `c` ends a word outside quotes.
pub fn is_special_char(c: char) -> (r: bool)
    ensures
        r == is_special(c),
{
    c == ' ' || c == '(' || c == ')' || c == ',' || c == ':'
}

/// Turns a query string into its tokens.
///
/// `(`, `)`, `,` and `:` are tokens of their own (`,` stands for `or`), spaces
/// separate, and every other run of characters is a word. The words `or` and
/// `not` become operators and `and` is dropped. No input is refused.
pub fn lex(input: &str) -> (r: Result<Vec<LexItem>, LexError>)
    ensures
        r matches Ok(tokens) && tokens.deep_view() == tokens_of(input@),
{
    let mut result: Vec<LexItem> = Vec::new();
    let mut it = Scanner::new(input);
    assert(result.deep_view() + tokens_from(it.text(), it.position()) == tokens_of(input@));
    loop
        invariant
            it.text() == input@,
            0 <= it.position() <= it.text().len(),
            result.deep_view() + tokens_from(it.text(), it.position()) == tokens_of(input@),
        ensures
            result.deep_view() == tokens_of(input@),
        decreases it.text().len() - it.position(),
    {
        let ghost done = result.deep_view();
        let ghost pos = it.position();
        let item = match it.peek() {
            None => {
                assert(done + tokens_from(it.text(), pos) == done);
                break ;
            },
            Some(c) => {
                if c == '(' {
                    it.advance();
                    Some(LexItem::StartParen)
                } else if c == ')' {
                    it.advance();
                    Some(LexItem::EndParen)
                } else if c == ',' {
                    it.advance();
                    Some(LexItem::Or)
                } else if c == ':' {
                    it.advance();
                    Some(LexItem::AttributeSeperator)
                } else if c == ' ' {
                    it.advance();
                    None
                } else {
                    proof {
                        lemma_word_end_bounds(input@, pos + 1, quoted_after(false, c));
                    }
                    let word = get_word(&mut it);
                    if str_eq(word.as_str(), "or") {
                        Some(LexItem::Or)
                    } else if str_eq(word.as_str(), "not") {
                        Some(LexItem::Not)
                    } else if str_eq(word.as_str(), "and") {
                        None
                    } else {
                        Some(LexItem::Word(word))
                    }
                }
            },
        };
        if let Some(item) = item {
            let ghost token = item@;
            result.push(item);
            assert(result.deep_view() == done.push(token));
            assert(done.push(token) + tokens_from(it.text(), it.position()) == done + (seq![token]
                + tokens_from(it.text(), it.position())));
        }
    }
    Ok(result)
}

} // verus!

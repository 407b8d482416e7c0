//! The text of a snapshot file, as a sequence of tokens.
//!
//! A snapshot file is a JSON document that is made of objects, arrays and
//! strings only. Its text is a sequence of punctuation marks and string
//! literals, with white space between them where the writer liked. What a
//! string literal looks like is left to `serde_json`; which tokens follow
//! which is decided by the snapshot format.

use vstd::prelude::*;
use vstd::string::*;
use crate::text::{chars_of, push_char, str_eq, string_of};

verus! {

/// The JSON string literal that `serde_json` writes for a text:
/// `serde_json::to_string` of a `str`, and the empty text where that fails.
pub uninterp spec fn json_string(text: Seq<char>) -> Seq<char>;

/// The text that `serde_json` reads from a JSON string literal:
/// `serde_json::from_str` with `String` as the type to read, and `None` where
/// that fails.
pub uninterp spec fn json_string_value(literal: Seq<char>) -> Option<Seq<char>>;

/// Where the string literal ends that is open at `from`: the position of the
/// first quotation mark at or after `from` that no backslash escapes, or `-1`
/// where the text ends before.
pub open spec fn literal_end(text: Seq<char>, from: int) -> int
    decreases text.len() - from,
{
    if from < 0 || from >= text.len() {
        -1
    } else if text[from] == '"' {
        from
    } else if text[from] == '\\' {
        if from + 1 >= text.len() {
            -1
        } else {
            literal_end(text, from + 2)
        }
    } else {
        literal_end(text, from + 1)
    }
}

/// Whether `literal` is one string literal from its first character to its
/// last, which `serde_json` reads as `text`.
pub open spec fn is_literal_of(literal: Seq<char>, text: Seq<char>) -> bool {
    &&& literal.len() >= 2
    &&& literal[0] == '"'
    &&& literal_end(literal, 1) == literal.len() - 1
    &&& json_string_value(literal) == Some(text)
}

/// Whether what `serde_json` writes for `text` is a string literal that it
/// reads back as `text`.
pub open spec fn well_quoted(text: Seq<char>) -> bool {
    is_literal_of(json_string(text), text)
}

/// Writes a text as a JSON string literal with `serde_json::to_string`.
/// Nothing is taken for granted of the literal: `quote_checked` looks at it.
#[verifier::external_body]
fn quote(text: &str) -> (literal: String)
    ensures
        literal@ == json_string(text@),
{
    serde_json::to_string(text).unwrap_or_default()
}

/// Reads a JSON string literal with `serde_json::from_str`.
#[verifier::external_body]
fn unquote(literal: &str) -> (text: Option<String>)
    ensures
        text.deep_view() == json_string_value(literal@),
{
    serde_json::from_str::<String>(literal).ok()
}

/// A punctuation mark of a snapshot text.
#[derive(Debug, Clone, Copy, PartialEq, Eq, Structural)]
pub enum Mark {
    /// `{`
    Open,
    /// `}`
    Close,
    /// `[`
    OpenList,
    /// `]`
    CloseList,
    /// `:`
    Colon,
    /// `,`
    Comma,
}

/// The character of a punctuation mark.
pub open spec fn mark_char(mark: Mark) -> char {
    match mark {
        Mark::Open => '{',
        Mark::Close => '}',
        Mark::OpenList => '[',
        Mark::CloseList => ']',
        Mark::Colon => ':',
        Mark::Comma => ',',
    }
}

/// The punctuation mark that a character stands for, if it stands for one.
pub open spec fn mark_of(c: char) -> Option<Mark> {
    if c == '{' {
        Some(Mark::Open)
    } else if c == '}' {
        Some(Mark::Close)
    } else if c == '[' {
        Some(Mark::OpenList)
    } else if c == ']' {
        Some(Mark::CloseList)
    } else if c == ':' {
        Some(Mark::Colon)
    } else if c == ',' {
        Some(Mark::Comma)
    } else {
        None
    }
}

/// The character of a punctuation mark.
pub fn char_of_mark(mark: Mark) -> (c: char)
    ensures
        c == mark_char(mark),
        mark_of(c) == Some(mark),
        !is_space(c),
        c != '"',
{
    match mark {
        Mark::Open => '{',
        Mark::Close => '}',
        Mark::OpenList => '[',
        Mark::CloseList => ']',
        Mark::Colon => ':',
        Mark::Comma => ',',
    }
}

/// The punctuation mark that a character stands for.
pub fn mark_for(c: char) -> (mark: Option<Mark>)
    ensures
        mark == mark_of(c),
{
    if c == '{' {
        Some(Mark::Open)
    } else if c == '}' {
        Some(Mark::Close)
    } else if c == '[' {
        Some(Mark::OpenList)
    } else if c == ']' {
        Some(Mark::CloseList)
    } else if c == ':' {
        Some(Mark::Colon)
    } else if c == ',' {
        Some(Mark::Comma)
    } else {
        None
    }
}

/// One token of a snapshot text.
#[derive(Debug, PartialEq, Eq)]
pub enum Token {
    /// A punctuation mark.
    Punct(Mark),
    /// A string, as the text it stands for.
    Text(String),
}

/// What a `Token` holds, as plain values.
pub ghost enum TokenView {
    Punct(Mark),
    Text(Seq<char>),
}

impl View for Token {
    type V = TokenView;

    open spec fn view(&self) -> TokenView {
        match self {
            Token::Punct(mark) => TokenView::Punct(*mark),
            Token::Text(text) => TokenView::Text(text@),
        }
    }
}

impl DeepView for Token {
    type V = TokenView;

    open spec fn deep_view(&self) -> TokenView {
        self@
    }
}

/// Whether `c` may stand between two tokens.
pub open spec fn is_space(c: char) -> bool {
    c == ' ' || c == '\n' || c == '\r' || c == '\t'
}


/// The tokens of `text` from the position `from` on; `None` where the text
/// holds something that is no token.
pub open spec fn lex_from(text: Seq<char>, from: int) -> Option<Seq<TokenView>>
    decreases text.len() - from,
{
    if from < 0 || from >= text.len() {
        Some(Seq::empty())
    } else if is_space(text[from]) {
        lex_from(text, from + 1)
    } else if mark_of(text[from]) is Some {
        match lex_from(text, from + 1) {
            Some(rest) => Some(seq![TokenView::Punct(mark_of(text[from])->0)] + rest),
            None => None,
        }
    } else if text[from] == '"' {
        let end = literal_end(text, from + 1);
        if end <= from || end >= text.len() {
            None
        } else {
            match json_string_value(text.subrange(from, end + 1)) {
                Some(value) => match lex_from(text, end + 1) {
                    Some(rest) => Some(seq![TokenView::Text(value)] + rest),
                    None => None,
                },
                None => None,
            }
        }
    } else {
        None
    }
}

/// The tokens of `text`.
pub open spec fn lex(text: Seq<char>) -> Option<Seq<TokenView>> {
    lex_from(text, 0)
}

/// The end of a literal is behind the position at which the literal is open,
/// and within the text.
pub proof fn lemma_literal_end(text: Seq<char>, from: int)
    requires
        0 <= from,
    ensures
        literal_end(text, from) == -1 || from <= literal_end(text, from) < text.len(),
    decreases text.len() - from,
{
    if from < text.len() && text[from] != '"' {
        if text[from] == '\\' {
            if from + 1 < text.len() {
                lemma_literal_end(text, from + 2);
            }
        } else {
            lemma_literal_end(text, from + 1);
        }
    }
}

/// Where a literal ends does not depend on what follows it.
pub proof fn lemma_literal_end_prefix(text: Seq<char>, more: Seq<char>, from: int)
    requires
        0 <= from,
        literal_end(text, from) >= 0,
    ensures
        literal_end(text + more, from) == literal_end(text, from),
    decreases text.len() - from,
{
    let whole = text + more;
    if from < text.len() {
        assert(whole[from] == text[from]);
        if text[from] != '"' {
            if text[from] == '\\' {
                if from + 1 < text.len() {
                    lemma_literal_end_prefix(text, more, from + 2);
                }
            } else {
                lemma_literal_end_prefix(text, more, from + 1);
            }
        }
    }
}

/// Where a literal ends moves along with the text in front of it.
pub proof fn lemma_literal_end_shift(front: Seq<char>, text: Seq<char>, from: int)
    requires
        0 <= from,
    ensures
        literal_end(front + text, front.len() + from) == if literal_end(text, from) < 0 {
            -1
        } else {
            front.len() + literal_end(text, from)
        },
    decreases text.len() - from,
{
    let whole = front + text;
    if from < text.len() {
        assert(whole[front.len() + from] == text[from]);
        if text[from] != '"' {
            if text[from] == '\\' {
                if from + 1 < text.len() {
                    lemma_literal_end_shift(front, text, from + 2);
                }
            } else {
                lemma_literal_end_shift(front, text, from + 1);
            }
        }
    }
}

/// The tokens of a text do not depend on what stands in front of the
/// position from which they are read.
pub proof fn lemma_lex_shift(front: Seq<char>, text: Seq<char>, from: int)
    requires
        0 <= from,
    ensures
        lex_from(front + text, front.len() + from) == lex_from(text, from),
    decreases text.len() - from,
{
    let whole = front + text;
    let at = front.len() + from;
    if from < text.len() {
        assert(whole[at] == text[from]);
        if is_space(text[from]) || mark_of(text[from]) is Some {
            lemma_lex_shift(front, text, from + 1);
        } else if text[from] == '"' {
            lemma_literal_end_shift(front, text, from + 1);
            lemma_literal_end(text, from + 1);
            let end = literal_end(text, from + 1);
            if end >= 0 {
                assert(whole.subrange(at, front.len() + end + 1) =~= text.subrange(from, end + 1));
                lemma_lex_shift(front, text, end + 1);
            }
        }
    }
}

/// The text of one token.
pub open spec fn token_text(token: TokenView) -> Seq<char> {
    match token {
        TokenView::Punct(mark) => seq![mark_char(mark)],
        TokenView::Text(text) => json_string(text),
    }
}

/// The text of a sequence of tokens: one token after the other, with nothing
/// between them.
pub open spec fn render(tokens: Seq<TokenView>) -> Seq<char>
    decreases tokens.len(),
{
    if tokens.len() == 0 {
        Seq::empty()
    } else {
        token_text(tokens[0]) + render(tokens.drop_first())
    }
}

/// Whether each text among the tokens can be written and read back.
pub open spec fn writable(tokens: Seq<TokenView>) -> bool {
    forall|i: int|
        0 <= i < tokens.len() ==> ((#[trigger] tokens[i]) matches TokenView::Text(text)
            ==> well_quoted(text))
}

/// Reading the text of tokens gives the tokens back.
pub proof fn lemma_lex_render(tokens: Seq<TokenView>)
    requires
        writable(tokens),
    ensures
        lex(render(tokens)) == Some(tokens),
    decreases tokens.len(),
{
    if tokens.len() > 0 {
        let first = tokens[0];
        let rest = tokens.drop_first();
        assert(writable(rest)) by {
            assert forall|i: int| 0 <= i < rest.len() implies (
            (#[trigger] rest[i]) matches TokenView::Text(text) ==> well_quoted(text)) by {
                assert(rest[i] == tokens[i + 1]);
            }
        }
        lemma_lex_render(rest);
        let head = token_text(first);
        let whole = render(tokens);
        assert(whole == head + render(rest));
        lemma_lex_shift(head, render(rest), 0);
        assert(head.len() + 0 == head.len());
        match first {
            TokenView::Punct(mark) => {
                assert(whole[0] == mark_char(mark));
                assert(mark_of(mark_char(mark)) == Some(mark));
                assert(!is_space(mark_char(mark)));
                assert(seq![TokenView::Punct(mark)] + rest =~= tokens);
            },
            TokenView::Text(text) => {
                assert(well_quoted(text));
                assert(whole[0] == '"');
                lemma_literal_end_prefix(head, render(rest), 1);
                assert(whole.subrange(0, head.len() as int) =~= head);
                assert(seq![TokenView::Text(text)] + rest =~= tokens);
            },
        }
    }
}

/// Writes a text as a JSON string literal, and makes sure that the literal
/// can be read back: that it is one string literal from its first character
/// to its last, and that reading it gives the text. `None` where it cannot.
pub fn quote_checked(text: &str) -> (literal: Option<String>)
    ensures
        match literal {
            Some(literal) => literal@ == json_string(text@) && well_quoted(text@),
            None => !well_quoted(text@),
        },
{
    let literal = quote(text);
    let chars = chars_of(literal.as_str());
    if chars.len() < 2 || chars[0] != '"' {
        return None;
    }
    match find_literal_end(&chars, 1) {
        Some(end) => {
            if end != chars.len() - 1 {
                return None;
            }
        },
        None => {
            return None;
        },
    }
    match unquote(literal.as_str()) {
        Some(back) => {
            if str_eq(back.as_str(), text) {
                Some(literal)
            } else {
                None
            }
        },
        None => None,
    }
}

/// Writes one token, if it can be written so that it is read back; a token
/// that cannot is not written.
pub fn write_token(out: &mut String, token: &Token) -> (written: bool)
    ensures
        written ==> final(out)@ == old(out)@ + token_text(token@),
        !written ==> final(out)@ == old(out)@,
        written == (token matches Token::Text(text) ==> well_quoted(text@)),
{
    match token {
        Token::Punct(mark) => {
            push_char(out, char_of_mark(*mark));
            assert(out@ =~= old(out)@ + seq![mark_char(*mark)]);
            true
        },
        Token::Text(text) => match quote_checked(text.as_str()) {
            Some(literal) => {
                out.append(literal.as_str());
                true
            },
            None => false,
        },
    }
}

/// Finds the end of the string literal that is open at `from`.
pub fn find_literal_end(chars: &Vec<char>, from: usize) -> (end: Option<usize>)
    ensures
        match end {
            Some(end) => end == literal_end(chars@, from as int) && from <= end < chars.len(),
            None => literal_end(chars@, from as int) == -1,
        },
{
    let mut at: usize = from;
    loop
        invariant
            from <= at,
            literal_end(chars@, from as int) == literal_end(chars@, at as int),
        decreases chars.len() - at,
    {
        if at >= chars.len() {
            return None;
        }
        let c = chars[at];
        if c == '"' {
            return Some(at);
        }
        if c == '\\' {
            if chars.len() - at < 2 {
                return None;
            }
            at += 2;
        } else {
            at += 1;
        }
    }
}

/// Splits a text into its tokens.
pub fn tokenize(text: &str) -> (tokens: Option<Vec<Token>>)
    ensures
        tokens.deep_view() == lex(text@),
{
    let chars = chars_of(text);
    let mut tokens: Vec<Token> = Vec::new();
    let mut at: usize = 0;
    assert(tokens.deep_view() =~= Seq::empty());
    while at < chars.len()
        invariant
            at <= chars.len(),
            chars@ == text@,
            lex(text@) == match lex_from(text@, at as int) {
                Some(rest) => Some(tokens.deep_view() + rest),
                None => None,
            },
        decreases chars.len() - at,
    {
        let c = chars[at];
        let ghost before = tokens.deep_view();
        if c == ' ' || c == '\n' || c == '\r' || c == '\t' {
            at += 1;
        } else if let Some(mark) = mark_for(c) {
            tokens.push(Token::Punct(mark));
            proof {
                assert(tokens.deep_view() =~= before.push(TokenView::Punct(mark)));
                match lex_from(text@, at + 1) {
                    Some(rest) => {
                        assert(before + (seq![TokenView::Punct(mark)] + rest)
                            =~= tokens.deep_view() + rest);
                    },
                    None => {},
                }
            }
            at += 1;
        } else if c == '"' {
            match find_literal_end(&chars, at + 1) {
                None => {
                    return None;
                },
                Some(end) => {
                    let literal = string_of(&chars, at, end + 1);
                    match unquote(literal.as_str()) {
                        None => {
                            return None;
                        },
                        Some(value) => {
                            tokens.push(Token::Text(value));
                            proof {
                                assert(tokens.deep_view() =~= before.push(TokenView::Text(value@)));
                                match lex_from(text@, end + 1) {
                                    Some(rest) => {
                                        assert(before + (seq![TokenView::Text(value@)] + rest)
                                            =~= tokens.deep_view() + rest);
                                    },
                                    None => {},
                                }
                            }
                            at = end + 1;
                        },
                    }
                },
            }
        } else {
            return None;
        }
    }
    assert(tokens.deep_view() + Seq::<TokenView>::empty() =~= tokens.deep_view());
    Some(tokens)
}

/// Writes tokens one after the other, if each of them can be written so that
/// it is read back; `None` where one cannot.
pub fn write_tokens(tokens: &Vec<Token>) -> (text: Option<String>)
    ensures
        match text {
            Some(text) => text@ == render(tokens.deep_view()) && writable(tokens.deep_view()),
            None => !writable(tokens.deep_view()),
        },
{
    let ghost all = tokens.deep_view();
    let mut text = String::new();
    let mut i: usize = 0;
    assert(all.skip(0) == all);
    while i < tokens.len()
        invariant
            i <= tokens.len(),
            all == tokens.deep_view(),
            text@ + render(all.skip(i as int)) == render(all),
            forall|j: int|
                0 <= j < i ==> ((#[trigger] all[j]) matches TokenView::Text(t) ==> well_quoted(t)),
        decreases tokens.len() - i,
    {
        proof {
            assert(all[i as int] == tokens@[i as int]@);
            assert(all.skip(i as int)[0] == all[i as int]);
            assert(all.skip(i as int).drop_first() == all.skip(i + 1));
        }
        let ghost before = text@;
        if !write_token(&mut text, &tokens[i]) {
            return None;
        }
        proof {
            assert(before + (token_text(all[i as int]) + render(all.skip(i + 1))) =~= text@
                + render(all.skip(i + 1)));
        }
        i += 1;
    }
    assert(text@ + render(all.skip(i as int)) =~= text@);
    Some(text)
}

} // verus!

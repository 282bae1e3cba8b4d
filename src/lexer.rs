//! The tokenizer: source characters to tokens.
//!
//! It is specified as a state machine that reads one character at a time:
//! outside any token, inside a word, inside a number (counting its dots), or
//! inside a string literal. Whether a character is alphabetic or numeric is
//! Unicode's business; a [`SourceChar`] carries the answer with the character.
use vstd::prelude::*;
use vstd::string::StrSliceExecFns;
use crate::text::str_eq;
use crate::tokens::{Token, TokenKind};

verus! {

/// Whether a character has Unicode's `Alphabetic` property.
pub uninterp spec fn alphabetic(c: char) -> bool;

/// Whether a character is numeric in Unicode's sense.
pub uninterp spec fn numeric(c: char) -> bool;

/// Relies on `char::is_alphabetic`, which depends on the character alone.
#[verifier::external_body]
fn char_is_alphabetic(c: char) -> (r: bool)
    ensures
        r == alphabetic(c),
{
    c.is_alphabetic()
}

/// Relies on `char::is_numeric`, which depends on the character alone.
#[verifier::external_body]
fn char_is_numeric(c: char) -> (r: bool)
    ensures
        r == numeric(c),
{
    c.is_numeric()
}

/// Relies on `String::push`: it appends the character at the end.
#[verifier::external_body]
fn push_char(s: &mut String, c: char)
    ensures
        final(s)@ == old(s)@.push(c),
{
    s.push(c)
}

/// A source character with its Unicode classification.
#[derive(Debug, Clone, Copy, PartialEq, Eq, Structural)]
pub struct SourceChar {
    pub c: char,
    pub alphabetic: bool,
    pub numeric: bool,
}

/// An error of the tokenizer.
#[derive(Debug, Clone)]
pub enum LexerError {
    UnknownToken { wrong_token: String },
    MoreDotInANumber,
    UnterminatedString { text: String },
    EmptyFile,
}

/// The model of a [`LexerError`].
pub enum LexerErrorModel {
    UnknownToken(Seq<char>),
    MoreDotInANumber,
    UnterminatedString(Seq<char>),
    EmptyFile,
}

impl View for LexerError {
    type V = LexerErrorModel;

    open spec fn view(&self) -> LexerErrorModel {
        match self {
            LexerError::UnknownToken { wrong_token } => LexerErrorModel::UnknownToken(wrong_token@),
            LexerError::MoreDotInANumber => LexerErrorModel::MoreDotInANumber,
            LexerError::UnterminatedString { text } => LexerErrorModel::UnterminatedString(text@),
            LexerError::EmptyFile => LexerErrorModel::EmptyFile,
        }
    }
}

/// The model of a [`Token`].
pub struct TokenModel {
    pub kind: TokenKind,
    pub value: Seq<char>,
}

impl View for Token {
    type V = TokenModel;

    open spec fn view(&self) -> TokenModel {
        TokenModel { kind: self.token_kind, value: self.token_value@ }
    }
}

/// Where the tokenizer is: outside any token, or inside one that started at `start`.
pub enum LexMode {
    Start,
    Word { start: int },
    Number { start: int, dots: nat },
    Str { start: int },
}

pub open spec fn is_space(c: char) -> bool {
    c == ' ' || c == '\n' || c == '\t' || c == '\r'
}

/// The kind of a one-character token.
pub open spec fn punct_kind(c: char) -> Option<TokenKind> {
    if c == ':' {
        Some(TokenKind::COLON)
    } else if c == '+' {
        Some(TokenKind::PLUS)
    } else if c == ',' {
        Some(TokenKind::COMMA)
    } else if c == ';' {
        Some(TokenKind::SEMICOLON)
    } else if c == '=' {
        Some(TokenKind::EQUAL)
    } else if c == '(' {
        Some(TokenKind::LEFTPAREN)
    } else if c == ')' {
        Some(TokenKind::RIGHTPAREN)
    } else if c == '{' {
        Some(TokenKind::OPENINGBRACE)
    } else if c == '}' {
        Some(TokenKind::CLOSINGBRACE)
    } else if c == '-' {
        Some(TokenKind::MINUS)
    } else if c == '*' {
        Some(TokenKind::TIMES)
    } else if c == '/' {
        Some(TokenKind::DIVIDE)
    } else if c == '%' {
        Some(TokenKind::MODULO)
    } else if c == '>' {
        Some(TokenKind::GREATER)
    } else if c == '<' {
        Some(TokenKind::LESS)
    } else {
        None
    }
}

/// The kind of a word: a keyword's own kind, else `IDENTIFIER`.
pub open spec fn keyword_kind(w: Seq<char>) -> TokenKind {
    if w == "var"@ {
        TokenKind::VAR
    } else if w == "fn"@ {
        TokenKind::FN
    } else if w == "str"@ {
        TokenKind::STR
    } else if w == "const"@ {
        TokenKind::CONST
    } else if w == "true"@ {
        TokenKind::TRUE
    } else if w == "false"@ {
        TokenKind::FALSE
    } else if w == "if"@ {
        TokenKind::IF
    } else if w == "else"@ {
        TokenKind::ELSE
    } else if w == "loop"@ {
        TokenKind::LOOP
    } else if w == "while"@ {
        TokenKind::WHILE
    } else if w == "undef"@ {
        TokenKind::UNDEF
    } else {
        TokenKind::IDENTIFIER
    }
}

/// A character that continues a word.
pub open spec fn word_char(s: SourceChar) -> bool {
    s.alphabetic || s.numeric || s.c == '!' || s.c == '_'
}

pub open spec fn chars_of(src: Seq<SourceChar>, start: int, end: int) -> Seq<char> {
    src.subrange(start, end).map_values(|s: SourceChar| s.c)
}

pub open spec fn word_token(src: Seq<SourceChar>, start: int, end: int) -> TokenModel {
    TokenModel { kind: keyword_kind(chars_of(src, start, end)), value: chars_of(src, start, end) }
}

pub open spec fn number_token(src: Seq<SourceChar>, start: int, end: int, dots: nat) -> TokenModel {
    TokenModel {
        kind: if dots == 0 {
            TokenKind::NUMB
        } else {
            TokenKind::FLOAT
        },
        value: chars_of(src, start, end),
    }
}

pub open spec fn eof_token() -> TokenModel {
    TokenModel { kind: TokenKind::EOF, value: "EOF"@ }
}

pub open spec fn prepend_token(t: TokenModel, r: Result<Seq<TokenModel>, LexerErrorModel>) -> Result<
    Seq<TokenModel>,
    LexerErrorModel,
> {
    match r {
        Ok(ts) => Ok(seq![t] + ts),
        Err(e) => Err(e),
    }
}

/// Reads the character at `i` outside any token.
pub open spec fn start_step(src: Seq<SourceChar>, i: int) -> Result<Seq<TokenModel>, LexerErrorModel>
    decreases src.len() - i, 0int,
{
    if i < 0 || i >= src.len() {
        Ok(seq![eof_token()])
    } else {
        let s = src[i];
        if is_space(s.c) {
            lex_from(src, i + 1, LexMode::Start)
        } else if s.c == '"' {
            lex_from(src, i + 1, LexMode::Str { start: i + 1 })
        } else if punct_kind(s.c) is Some {
            prepend_token(
                TokenModel { kind: punct_kind(s.c)->Some_0, value: seq![s.c] },
                lex_from(src, i + 1, LexMode::Start),
            )
        } else if s.alphabetic {
            lex_from(src, i + 1, LexMode::Word { start: i })
        } else if s.numeric {
            lex_from(src, i + 1, LexMode::Number { start: i, dots: 0 })
        } else {
            Err(LexerErrorModel::UnknownToken(seq![s.c]))
        }
    }
}

/// Reads from position `i` on, in the given mode. A NUL character ends the input.
pub open spec fn lex_from(src: Seq<SourceChar>, i: int, mode: LexMode) -> Result<
    Seq<TokenModel>,
    LexerErrorModel,
>
    decreases src.len() - i, 1int,
{
    if i < 0 || i >= src.len() || src[i].c == '\0' {
        let end = if i < 0 { 0 } else if i > src.len() { src.len() as int } else { i };
        match mode {
            LexMode::Start => Ok(seq![eof_token()]),
            LexMode::Word { start } => Ok(seq![word_token(src, start, end), eof_token()]),
            LexMode::Number { start, dots } => Ok(
                seq![number_token(src, start, end, dots), eof_token()],
            ),
            LexMode::Str { start } => Err(
                LexerErrorModel::UnterminatedString(chars_of(src, start, end)),
            ),
        }
    } else {
        let s = src[i];
        match mode {
            LexMode::Start => start_step(src, i),
            LexMode::Word { start } => if word_char(s) {
                lex_from(src, i + 1, mode)
            } else {
                prepend_token(word_token(src, start, i), start_step(src, i))
            },
            LexMode::Number { start, dots } => if s.numeric {
                lex_from(src, i + 1, mode)
            } else if s.c == '.' {
                if dots >= 1 {
                    Err(LexerErrorModel::MoreDotInANumber)
                } else {
                    lex_from(src, i + 1, LexMode::Number { start, dots: dots + 1 })
                }
            } else {
                prepend_token(number_token(src, start, i, dots), start_step(src, i))
            },
            LexMode::Str { start } => if s.c == '"' {
                prepend_token(
                    TokenModel { kind: TokenKind::STRING, value: chars_of(src, start, i) },
                    lex_from(src, i + 1, LexMode::Start),
                )
            } else {
                lex_from(src, i + 1, mode)
            },
        }
    }
}

/// The tokens of a source text, ending with `EOF`; an empty text is an error.
pub open spec fn lex_all(src: Seq<SourceChar>) -> Result<Seq<TokenModel>, LexerErrorModel> {
    if src.len() == 0 {
        Err(LexerErrorModel::EmptyFile)
    } else {
        lex_from(src, 0, LexMode::Start)
    }
}

pub open spec fn prepend_tokens(ts: Seq<TokenModel>, r: Result<Seq<TokenModel>, LexerErrorModel>) -> Result<
    Seq<TokenModel>,
    LexerErrorModel,
> {
    match r {
        Ok(rest) => Ok(ts + rest),
        Err(e) => Err(e),
    }
}

proof fn lemma_prepend_token(ts: Seq<TokenModel>, t: TokenModel, r: Result<Seq<TokenModel>, LexerErrorModel>)
    ensures
        prepend_tokens(ts, prepend_token(t, r)) == prepend_tokens(ts.push(t), r),
{
    if let Ok(rest) = r {
        assert(ts + (seq![t] + rest) =~= ts.push(t) + rest);
    }
}

pub open spec fn tokens_view(ts: Seq<Token>) -> Seq<TokenModel> {
    ts.map_values(|t: Token| t@)
}

/// The characters of `src[start..end]` as a string.
fn text_of(src: &Vec<SourceChar>, start: usize, end: usize) -> (r: String)
    requires
        start <= end <= src@.len(),
    ensures
        r@ == chars_of(src@, start as int, end as int),
{
    let mut r = String::new();
    let mut i = start;
    while i < end
        invariant
            start <= i <= end <= src@.len(),
            r@ == chars_of(src@, start as int, i as int),
        decreases end - i,
    {
        push_char(&mut r, src[i].c);
        assert(chars_of(src@, start as int, i + 1) =~= chars_of(src@, start as int, i as int).push(
            src@[i as int].c,
        ));
        i = i + 1;
    }
    r
}

/// The kind of a word.
fn word_kind(w: &str) -> (r: TokenKind)
    ensures
        r == keyword_kind(w@),
{
    if str_eq(w, "var") {
        TokenKind::VAR
    } else if str_eq(w, "fn") {
        TokenKind::FN
    } else if str_eq(w, "str") {
        TokenKind::STR
    } else if str_eq(w, "const") {
        TokenKind::CONST
    } else if str_eq(w, "true") {
        TokenKind::TRUE
    } else if str_eq(w, "false") {
        TokenKind::FALSE
    } else if str_eq(w, "if") {
        TokenKind::IF
    } else if str_eq(w, "else") {
        TokenKind::ELSE
    } else if str_eq(w, "loop") {
        TokenKind::LOOP
    } else if str_eq(w, "while") {
        TokenKind::WHILE
    } else if str_eq(w, "undef") {
        TokenKind::UNDEF
    } else {
        TokenKind::IDENTIFIER
    }
}

/// The kind of a one-character token.
fn punct(c: char) -> (r: Option<TokenKind>)
    ensures
        r == punct_kind(c),
{
    if c == ':' {
        Some(TokenKind::COLON)
    } else if c == '+' {
        Some(TokenKind::PLUS)
    } else if c == ',' {
        Some(TokenKind::COMMA)
    } else if c == ';' {
        Some(TokenKind::SEMICOLON)
    } else if c == '=' {
        Some(TokenKind::EQUAL)
    } else if c == '(' {
        Some(TokenKind::LEFTPAREN)
    } else if c == ')' {
        Some(TokenKind::RIGHTPAREN)
    } else if c == '{' {
        Some(TokenKind::OPENINGBRACE)
    } else if c == '}' {
        Some(TokenKind::CLOSINGBRACE)
    } else if c == '-' {
        Some(TokenKind::MINUS)
    } else if c == '*' {
        Some(TokenKind::TIMES)
    } else if c == '/' {
        Some(TokenKind::DIVIDE)
    } else if c == '%' {
        Some(TokenKind::MODULO)
    } else if c == '>' {
        Some(TokenKind::GREATER)
    } else if c == '<' {
        Some(TokenKind::LESS)
    } else {
        None
    }
}

fn make_word(src: &Vec<SourceChar>, start: usize, end: usize) -> (r: Token)
    requires
        start <= end <= src@.len(),
    ensures
        r@ == word_token(src@, start as int, end as int),
{
    let text = text_of(src, start, end);
    let kind = word_kind(text.as_str());
    Token { token_kind: kind, token_value: text }
}

fn make_number(src: &Vec<SourceChar>, start: usize, end: usize, dots: usize) -> (r: Token)
    requires
        start <= end <= src@.len(),
    ensures
        r@ == number_token(src@, start as int, end as int, dots as nat),
{
    let kind = if dots == 0 {
        TokenKind::NUMB
    } else {
        TokenKind::FLOAT
    };
    Token { token_kind: kind, token_value: text_of(src, start, end) }
}

/// Tokenizes classified source characters.
pub fn tokenize_source(src: &Vec<SourceChar>) -> (r: Result<Vec<Token>, LexerError>)
    ensures
        match lex_all(src@) {
            Ok(ts) => r matches Ok(v) && tokens_view(v@) == ts,
            Err(e) => r matches Err(x) && x@ == e,
        },
{
    let n = src.len();
    if n == 0 {
        return Err(LexerError::EmptyFile);
    }
    let mut tokens: Vec<Token> = Vec::new();
    // 0: outside a token, 1: word, 2: number, 3: string; `start` and `dots` belong to the token.
    let mut mode: u8 = 0;
    let mut start: usize = 0;
    let mut dots: usize = 0;
    let mut i: usize = 0;
    assert(tokens_view(tokens@) =~= Seq::<TokenModel>::empty());
    while i < n && src[i].c != '\0'
        invariant
            n == src@.len(),
            n > 0,
            i <= n,
            mode <= 3,
            start <= i,
            dots <= 1,
            lex_all(src@) == prepend_tokens(
                tokens_view(tokens@),
                lex_from(src@, i as int, mode_of(mode, start, dots)),
            ),
        decreases n - i,
    {
        let ghost before = tokens_view(tokens@);
        let s = src[i];
        let mut at_start = false;
        if mode == 1 {
            if s.alphabetic || s.numeric || s.c == '!' || s.c == '_' {
                i = i + 1;
            } else {
                let t = make_word(src, start, i);
                let ghost tv = t@;
                tokens.push(t);
                proof {
                    assert(tokens_view(tokens@) =~= before.push(tv));
                    lemma_prepend_token(before, tv, start_step(src@, i as int));
                }
                at_start = true;
            }
        } else if mode == 2 {
            if s.numeric {
                i = i + 1;
            } else if s.c == '.' {
                if dots >= 1 {
                    return Err(LexerError::MoreDotInANumber);
                }
                dots = dots + 1;
                i = i + 1;
            } else {
                let t = make_number(src, start, i, dots);
                let ghost tv = t@;
                tokens.push(t);
                proof {
                    assert(tokens_view(tokens@) =~= before.push(tv));
                    lemma_prepend_token(before, tv, start_step(src@, i as int));
                }
                at_start = true;
            }
        } else if mode == 3 {
            if s.c == '"' {
                let t = Token { token_kind: TokenKind::STRING, token_value: text_of(src, start, i) };
                let ghost tv = t@;
                tokens.push(t);
                proof {
                    assert(tokens_view(tokens@) =~= before.push(tv));
                    lemma_prepend_token(before, tv, lex_from(src@, i + 1, LexMode::Start));
                }
                mode = 0;
            }
            i = i + 1;
        } else {
            at_start = true;
        }
        if at_start {
            let ghost before2 = tokens_view(tokens@);
            mode = 0;
            if s.c == ' ' || s.c == '\n' || s.c == '\t' || s.c == '\r' {
            } else if s.c == '"' {
                mode = 3;
                start = i + 1;
            } else if let Some(kind) = punct(s.c) {
                let mut v = String::new();
                push_char(&mut v, s.c);
                let t = Token { token_kind: kind, token_value: v };
                let ghost tv = t@;
                tokens.push(t);
                proof {
                    assert(tokens_view(tokens@) =~= before2.push(tv));
                    lemma_prepend_token(before2, tv, lex_from(src@, i + 1, LexMode::Start));
                }
            } else if s.alphabetic {
                mode = 1;
                start = i;
            } else if s.numeric {
                mode = 2;
                start = i;
                dots = 0;
            } else {
                let mut v = String::new();
                push_char(&mut v, s.c);
                return Err(LexerError::UnknownToken { wrong_token: v });
            }
            i = i + 1;
        }
    }
    if mode == 3 {
        return Err(LexerError::UnterminatedString { text: text_of(src, start, i) });
    }
    let ghost before = tokens_view(tokens@);
    if mode == 1 {
        tokens.push(make_word(src, start, i));
    } else if mode == 2 {
        tokens.push(make_number(src, start, i, dots));
    }
    let ghost mid = tokens_view(tokens@);
    let mut eof = String::new();
    push_char(&mut eof, 'E');
    push_char(&mut eof, 'O');
    push_char(&mut eof, 'F');
    proof {
        reveal_strlit("EOF");
    }
    assert(eof@ =~= "EOF"@);
    tokens.push(Token { token_kind: TokenKind::EOF, token_value: eof });
    proof {
        let after = tokens_view(tokens@);
        if mode == 1 {
            assert(after =~= before + seq![word_token(src@, start as int, i as int), eof_token()]);
        } else if mode == 2 {
            assert(after =~= before + seq![number_token(src@, start as int, i as int, dots as nat), eof_token()]);
        } else {
            assert(after =~= before + seq![eof_token()]);
        }
    }
    Ok(tokens)
}

/// The lexer mode with the given number and token data.
pub open spec fn mode_of(mode: u8, start: usize, dots: usize) -> LexMode {
    if mode == 1 {
        LexMode::Word { start: start as int }
    } else if mode == 2 {
        LexMode::Number { start: start as int, dots: dots as nat }
    } else if mode == 3 {
        LexMode::Str { start: start as int }
    } else {
        LexMode::Start
    }
}

/// Classifies a character.
pub open spec fn classify(c: char) -> SourceChar {
    SourceChar { c, alphabetic: alphabetic(c), numeric: numeric(c) }
}

/// Turns source text into tokens.
pub struct Tokenizer {
    source_text: Vec<SourceChar>,
}

impl Tokenizer {
    /// The classified characters of the source.
    pub closed spec fn source(&self) -> Seq<SourceChar> {
        self.source_text@
    }

    pub fn new(text: String) -> (r: Tokenizer)
        ensures
            r.source() == text@.map_values(|c: char| classify(c)),
    {
        let s = text.as_str();
        let n = s.unicode_len();
        let mut source_text: Vec<SourceChar> = Vec::new();
        let mut i: usize = 0;
        while i < n
            invariant
                n == s@.len(),
                s@ == text@,
                i <= n,
                source_text@ == s@.subrange(0, i as int).map_values(|c: char| classify(c)),
            decreases n - i,
        {
            let c = s.get_char(i);
            let info = SourceChar { c, alphabetic: char_is_alphabetic(c), numeric: char_is_numeric(c) };
            source_text.push(info);
            assert(s@.subrange(0, i + 1).map_values(|c: char| classify(c)) =~= s@.subrange(
                0,
                i as int,
            ).map_values(|c: char| classify(c)).push(classify(c)));
            i = i + 1;
        }
        assert(s@.subrange(0, n as int) =~= s@);
        Tokenizer { source_text }
    }

    /// The tokens of the source, ending with `EOF`.
    pub fn tokenize(&self) -> (r: Result<Vec<Token>, LexerError>)
        ensures
            match lex_all(self.source()) {
                Ok(ts) => r matches Ok(v) && tokens_view(v@) == ts,
                Err(e) => r matches Err(x) && x@ == e,
            },
    {
        tokenize_source(&self.source_text)
    }
}

} // verus!

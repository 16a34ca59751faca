//! The scanner: ASCII source text to tokens, line by line.
use crate::number::{
    digit_byte, digits_end, decimal_bits, is_digit, lemma_digits_end,
    lemma_digits_end_of_piece, skip_digits, Number, MAX_DECIMAL_LENGTH,
};
use crate::text::{push_char, same_text, slice_text, text_len};
use vstd::prelude::*;
use vstd::string::*;
use vstd::utf8::is_ascii_chars;

verus! {

/// The kinds of token.
#[derive(Copy, Clone, Debug, PartialEq, Eq, Structural)]
pub enum TokenType {
    // single-character tokens
    LeftParen,
    RightParen,
    LeftBrace,
    RightBrace,
    Comma,
    Dot,
    Minus,
    Plus,
    Semicolon,
    Slash,
    Star,
    // one or two character tokens
    Bang,
    BangEqual,
    Equal,
    EqualEqual,
    Greater,
    GreaterEqual,
    Less,
    LessEqual,
    // literals
    Identifier,
    String,
    Number,
    // keywords
    And,
    Class,
    Else,
    False,
    Fun,
    For,
    If,
    Nil,
    Or,
    Print,
    Return,
    Break,
    Super,
    This,
    True,
    Var,
    While,
}

/// The payload of a literal token.
#[derive(Clone, Debug)]
pub enum Literal {
    Identifier(String),
    String(String),
    Number(Number),
}

/// The mathematical model of a payload.
pub enum LiteralView {
    Identifier(Seq<char>),
    String(Seq<char>),
    Number(Number),
}

impl View for Literal {
    type V = LiteralView;

    open spec fn view(&self) -> LiteralView {
        match self {
            Literal::Identifier(s) => LiteralView::Identifier(s@),
            Literal::String(s) => LiteralView::String(s@),
            Literal::Number(n) => LiteralView::Number(*n),
        }
    }
}

impl Literal {
    pub fn duplicate(&self) -> (r: Literal)
        ensures
            r@ == self@,
    {
        match self {
            Literal::Identifier(s) => Literal::Identifier(s.clone()),
            Literal::String(s) => Literal::String(s.clone()),
            Literal::Number(n) => Literal::Number(*n),
        }
    }
}

/// A token: its kind, its source text, its payload and where it starts
/// (line and column count from 1).
#[derive(Clone, Debug)]
pub struct Token {
    pub token_type: TokenType,
    pub lexeme: String,
    pub literal: Option<Literal>,
    pub line: u64,
    pub column: u64,
}

/// The mathematical model of a token.
pub struct TokenView {
    pub token_type: TokenType,
    pub lexeme: Seq<char>,
    pub literal: Option<LiteralView>,
    pub line: u64,
    pub column: u64,
}

/// The model of an optional payload.
pub open spec fn literal_view(literal: Option<Literal>) -> Option<LiteralView> {
    match literal {
        Some(l) => Some(l@),
        None => None,
    }
}

impl View for Token {
    type V = TokenView;

    open spec fn view(&self) -> TokenView {
        TokenView {
            token_type: self.token_type,
            lexeme: self.lexeme@,
            literal: literal_view(self.literal),
            line: self.line,
            column: self.column,
        }
    }
}

/// The views of a sequence of tokens, in order.
pub open spec fn token_views(tokens: Seq<Token>) -> Seq<TokenView> {
    tokens.map_values(|t: Token| t@)
}

impl Token {
    /// A token without payload whose text is one character.
    pub fn single_character(token_type: TokenType, c: char, line: u64, column: u64) -> (r: Token)
        ensures
            r@ == (TokenView { token_type, lexeme: seq![c], literal: None, line, column }),
    {
        let mut lexeme = String::new();
        push_char(&mut lexeme, c);
        assert(lexeme@ =~= seq![c]);
        Token { token_type, lexeme, literal: None, line, column }
    }

    /// A token without payload whose text is two characters.
    pub fn two_character(token_type: TokenType, c1: char, c2: char, line: u64, column: u64) -> (r:
        Token)
        ensures
            r@ == (TokenView { token_type, lexeme: seq![c1, c2], literal: None, line, column }),
    {
        let mut lexeme = String::new();
        push_char(&mut lexeme, c1);
        push_char(&mut lexeme, c2);
        assert(lexeme@ =~= seq![c1, c2]);
        Token { token_type, lexeme, literal: None, line, column }
    }

    pub fn duplicate(&self) -> (r: Token)
        ensures
            r@ == self@,
    {
        let literal = match &self.literal {
            Some(l) => Some(l.duplicate()),
            None => None,
        };
        Token {
            token_type: self.token_type,
            lexeme: self.lexeme.clone(),
            literal,
            line: self.line,
            column: self.column,
        }
    }
}

/// What the scanner could not read.
#[derive(Copy, Clone, Debug, PartialEq, Eq, Structural)]
pub enum TokenErrorType {
    UnexpectedCharacter,
    UnterminatedString,
}

/// A character or string that is no token, with its place (counted from 1).
#[derive(Copy, Clone, Debug, PartialEq, Eq, Structural)]
pub struct TokenError {
    pub line: u64,
    pub column: u64,
    pub error: TokenErrorType,
}

/// Why a source text has no tokens.
pub enum ScanError {
    NonAsciiCharacterFound,
    TokenError(Vec<TokenError>),
}

/// Whether a character may start an identifier: a letter or an underscore.
pub open spec fn is_alpha(c: char) -> bool {
    ('a' <= c && c <= 'z') || ('A' <= c && c <= 'Z') || c == '_'
}

/// Whether a character may go on an identifier: a letter, a digit or an underscore.
pub open spec fn is_alphanumeric(c: char) -> bool {
    is_alpha(c) || is_digit(c)
}

/// Whether a character may start an identifier.
pub fn is_ascii_alpha(c: char) -> (r: bool)
    ensures
        r == is_alpha(c),
{
    ('a' <= c && c <= 'z') || ('A' <= c && c <= 'Z') || c == '_'
}

/// Whether a character may go on an identifier.
pub fn is_ascii_alphanumeric(c: char) -> (r: bool)
    ensures
        r == is_alphanumeric(c),
{
    is_ascii_alpha(c) || ('0' <= c && c <= '9')
}

/// The kind of a reserved word; nothing for any other text.
pub open spec fn keyword_type(word: Seq<char>) -> Option<TokenType> {
    if word == "and"@ {
        Some(TokenType::And)
    } else if word == "class"@ {
        Some(TokenType::Class)
    } else if word == "else"@ {
        Some(TokenType::Else)
    } else if word == "false"@ {
        Some(TokenType::False)
    } else if word == "for"@ {
        Some(TokenType::For)
    } else if word == "fun"@ {
        Some(TokenType::Fun)
    } else if word == "if"@ {
        Some(TokenType::If)
    } else if word == "nil"@ {
        Some(TokenType::Nil)
    } else if word == "or"@ {
        Some(TokenType::Or)
    } else if word == "print"@ {
        Some(TokenType::Print)
    } else if word == "return"@ {
        Some(TokenType::Return)
    } else if word == "break"@ {
        Some(TokenType::Break)
    } else if word == "super"@ {
        Some(TokenType::Super)
    } else if word == "this"@ {
        Some(TokenType::This)
    } else if word == "true"@ {
        Some(TokenType::True)
    } else if word == "var"@ {
        Some(TokenType::Var)
    } else if word == "while"@ {
        Some(TokenType::While)
    } else {
        None
    }
}

proof fn reveal_keywords()
    ensures
        is_ascii("and"),
        is_ascii("class"),
        is_ascii("else"),
        is_ascii("false"),
        is_ascii("for"),
        is_ascii("fun"),
        is_ascii("if"),
        is_ascii("nil"),
        is_ascii("or"),
        is_ascii("print"),
        is_ascii("return"),
        is_ascii("break"),
        is_ascii("super"),
        is_ascii("this"),
        is_ascii("true"),
        is_ascii("var"),
        is_ascii("while"),
{
    reveal_strlit("and");
    reveal_strlit("class");
    reveal_strlit("else");
    reveal_strlit("false");
    reveal_strlit("for");
    reveal_strlit("fun");
    reveal_strlit("if");
    reveal_strlit("nil");
    reveal_strlit("or");
    reveal_strlit("print");
    reveal_strlit("return");
    reveal_strlit("break");
    reveal_strlit("super");
    reveal_strlit("this");
    reveal_strlit("true");
    reveal_strlit("var");
    reveal_strlit("while");
}

/// Looks a word up among the reserved words.
pub fn keyword(word: &str) -> (r: Option<TokenType>)
    ensures
        r == keyword_type(word@),
{
    proof {
        reveal_keywords();
    }
    if !word.is_ascii() {
        return None;
    }
    if same_text(word, "and") {
        Some(TokenType::And)
    } else if same_text(word, "class") {
        Some(TokenType::Class)
    } else if same_text(word, "else") {
        Some(TokenType::Else)
    } else if same_text(word, "false") {
        Some(TokenType::False)
    } else if same_text(word, "for") {
        Some(TokenType::For)
    } else if same_text(word, "fun") {
        Some(TokenType::Fun)
    } else if same_text(word, "if") {
        Some(TokenType::If)
    } else if same_text(word, "nil") {
        Some(TokenType::Nil)
    } else if same_text(word, "or") {
        Some(TokenType::Or)
    } else if same_text(word, "print") {
        Some(TokenType::Print)
    } else if same_text(word, "return") {
        Some(TokenType::Return)
    } else if same_text(word, "break") {
        Some(TokenType::Break)
    } else if same_text(word, "super") {
        Some(TokenType::Super)
    } else if same_text(word, "this") {
        Some(TokenType::This)
    } else if same_text(word, "true") {
        Some(TokenType::True)
    } else if same_text(word, "var") {
        Some(TokenType::Var)
    } else if same_text(word, "while") {
        Some(TokenType::While)
    } else {
        None
    }
}

/// What stands at one position of a line.
pub enum Lexeme {
    Token(TokenView),
    Error(TokenError),
    /// A blank, a tab or a carriage return.
    Blank,
    /// Two slashes: the rest of the line is ignored.
    Comment,
}

/// The end of the run of letters, digits and underscores that starts at `from`.
pub open spec fn word_end(line: Seq<char>, from: int) -> int
    decreases line.len() - from,
{
    if 0 <= from < line.len() && is_alphanumeric(line[from]) {
        word_end(line, from + 1)
    } else {
        from
    }
}

/// The place of the first double quote at or after `from`; the length of the
/// line where there is none.
pub open spec fn quote_position(line: Seq<char>, from: int) -> int
    decreases line.len() - from,
{
    if 0 <= from < line.len() && line[from] != '"' {
        quote_position(line, from + 1)
    } else {
        from
    }
}

/// The end of the number that starts at `from`: digits, then a dot and more
/// digits only where a digit follows the dot.
pub open spec fn number_end(line: Seq<char>, from: int) -> int {
    let whole = digits_end(line, from);
    if whole + 1 < line.len() && line[whole] == '.' && is_digit(line[whole + 1]) {
        digits_end(line, whole + 1)
    } else {
        whole
    }
}

/// A token without payload that spans `from..to` of line `line_num` (counted from 0).
pub open spec fn plain_token(
    token_type: TokenType,
    line: Seq<char>,
    line_num: u64,
    from: int,
    to: int,
) -> TokenView {
    TokenView {
        token_type,
        lexeme: line.subrange(from, to),
        literal: None,
        line: (line_num + 1) as u64,
        column: (from + 1) as u64,
    }
}

/// An error at a position of a line (both counted from 0).
pub open spec fn error_at(line_num: u64, pos: int, error: TokenErrorType) -> TokenError {
    TokenError { line: (line_num + 1) as u64, column: (pos + 1) as u64, error }
}

/// Whether `c` stands right after position `pos`.
pub open spec fn next_is(line: Seq<char>, pos: int, c: char) -> bool {
    pos + 1 < line.len() && line[pos + 1] == c
}

/// One of the operators that an equal sign may extend.
pub open spec fn operator_at(
    line: Seq<char>,
    line_num: u64,
    pos: int,
    short: TokenType,
    long: TokenType,
) -> (Lexeme, int) {
    if next_is(line, pos, '=') {
        (Lexeme::Token(plain_token(long, line, line_num, pos, pos + 2)), pos + 2)
    } else {
        (Lexeme::Token(plain_token(short, line, line_num, pos, pos + 1)), pos + 1)
    }
}

/// The token of one character at a position.
pub open spec fn single_at(line: Seq<char>, line_num: u64, pos: int, token_type: TokenType) -> (
    Lexeme,
    int,
) {
    (Lexeme::Token(plain_token(token_type, line, line_num, pos, pos + 1)), pos + 1)
}

/// The string literal whose opening quote stands at `pos`. It ends at the
/// next quote of the line; without one the rest of the line is an error.
pub open spec fn string_at(line: Seq<char>, line_num: u64, pos: int) -> (Lexeme, int) {
    let close = quote_position(line, pos + 1);
    if close < line.len() {
        (
            Lexeme::Token(
                TokenView {
                    token_type: TokenType::String,
                    lexeme: line.subrange(pos, close + 1),
                    literal: Some(LiteralView::String(line.subrange(pos + 1, close))),
                    line: (line_num + 1) as u64,
                    column: (pos + 1) as u64,
                },
            ),
            close + 1,
        )
    } else {
        (
            Lexeme::Error(error_at(line_num, pos, TokenErrorType::UnterminatedString)),
            line.len() as int,
        )
    }
}

/// What a number's text becomes at a line and column (counted from 1): a
/// token that carries the value, or an error where there is no value.
pub open spec fn number_lexeme(
    text: Seq<char>,
    line: u64,
    column: u64,
    value: Option<Number>,
) -> Lexeme {
    match value {
        Some(n) => Lexeme::Token(
            TokenView {
                token_type: TokenType::Number,
                lexeme: text,
                literal: Some(LiteralView::Number(n)),
                line,
                column,
            },
        ),
        None => Lexeme::Error(
            TokenError { line, column, error: TokenErrorType::UnexpectedCharacter },
        ),
    }
}

/// The number that starts at `pos`: the number nearest to what its text
/// denotes. Only a text of more than `MAX_DECIMAL_LENGTH` characters, which
/// is more than the converter can count, has no value and is an error.
pub open spec fn number_at(line: Seq<char>, line_num: u64, pos: int) -> (Lexeme, int) {
    let end = number_end(line, pos);
    let text = line.subrange(pos, end);
    let value = if end - pos <= MAX_DECIMAL_LENGTH {
        Some(Number { bits: decimal_bits(text) })
    } else {
        None
    };
    (number_lexeme(text, (line_num + 1) as u64, (pos + 1) as u64, value), end)
}

/// The text of a number in a line is a decimal numeral, up to its length.
pub proof fn lemma_number_text_is_decimal(line: Seq<char>, pos: int)
    requires
        is_ascii_chars(line),
        0 <= pos < line.len(),
        is_digit(line[pos]),
    ensures
        Number::decimal_value(line.subrange(pos, number_end(line, pos))) == if number_end(line, pos)
            - pos <= MAX_DECIMAL_LENGTH {
            Some(Number { bits: decimal_bits(line.subrange(pos, number_end(line, pos))) })
        } else {
            None::<Number>
        },
{
    let whole = digits_end(line, pos);
    let end = number_end(line, pos);
    let text = line.subrange(pos, end);
    lemma_digits_end(line, pos);
    lemma_digits_end(line, pos + 1);
    if end != whole {
        lemma_digits_end(line, whole + 1);
        lemma_digits_end(line, whole + 2);
        lemma_digits_end_of_piece(line, pos, end, whole + 1);
    }
    lemma_digits_end_of_piece(line, pos, end, pos);
    assert(digits_end(text, 0) == whole - pos);
}

/// The identifier or reserved word that starts at `pos`.
pub open spec fn word_at(line: Seq<char>, line_num: u64, pos: int) -> (Lexeme, int) {
    let end = word_end(line, pos + 1);
    let text = line.subrange(pos, end);
    let token_type = match keyword_type(text) {
        Some(t) => t,
        None => TokenType::Identifier,
    };
    (Lexeme::Token(plain_token(token_type, line, line_num, pos, end)), end)
}

/// What stands at position `pos` of a line, and where the scan goes on.
pub open spec fn lex_at(line: Seq<char>, line_num: u64, pos: int) -> (Lexeme, int) {
    let c = line[pos];
    if c == '(' {
        single_at(line, line_num, pos, TokenType::LeftParen)
    } else if c == ')' {
        single_at(line, line_num, pos, TokenType::RightParen)
    } else if c == '{' {
        single_at(line, line_num, pos, TokenType::LeftBrace)
    } else if c == '}' {
        single_at(line, line_num, pos, TokenType::RightBrace)
    } else if c == ',' {
        single_at(line, line_num, pos, TokenType::Comma)
    } else if c == '.' {
        single_at(line, line_num, pos, TokenType::Dot)
    } else if c == '-' {
        single_at(line, line_num, pos, TokenType::Minus)
    } else if c == '+' {
        single_at(line, line_num, pos, TokenType::Plus)
    } else if c == ';' {
        single_at(line, line_num, pos, TokenType::Semicolon)
    } else if c == '*' {
        single_at(line, line_num, pos, TokenType::Star)
    } else if c == '!' {
        operator_at(line, line_num, pos, TokenType::Bang, TokenType::BangEqual)
    } else if c == '=' {
        operator_at(line, line_num, pos, TokenType::Equal, TokenType::EqualEqual)
    } else if c == '<' {
        operator_at(line, line_num, pos, TokenType::Less, TokenType::LessEqual)
    } else if c == '>' {
        operator_at(line, line_num, pos, TokenType::Greater, TokenType::GreaterEqual)
    } else if c == '/' {
        if next_is(line, pos, '/') {
            (Lexeme::Comment, line.len() as int)
        } else {
            single_at(line, line_num, pos, TokenType::Slash)
        }
    } else if c == ' ' || c == '\t' || c == '\r' {
        (Lexeme::Blank, pos + 1)
    } else if c == '"' {
        string_at(line, line_num, pos)
    } else if is_digit(c) {
        number_at(line, line_num, pos)
    } else if is_alpha(c) {
        word_at(line, line_num, pos)
    } else {
        (Lexeme::Error(error_at(line_num, pos, TokenErrorType::UnexpectedCharacter)), pos + 1)
    }
}

/// A word ends within the line.
pub proof fn lemma_word_end(line: Seq<char>, from: int)
    requires
        0 <= from <= line.len(),
    ensures
        from <= word_end(line, from) <= line.len(),
    decreases line.len() - from,
{
    if from < line.len() && is_alphanumeric(line[from]) {
        lemma_word_end(line, from + 1);
    }
}

/// The search for a quote ends within the line.
pub proof fn lemma_quote_position(line: Seq<char>, from: int)
    requires
        0 <= from <= line.len(),
    ensures
        from <= quote_position(line, from) <= line.len(),
    decreases line.len() - from,
{
    if from < line.len() && line[from] != '"' {
        lemma_quote_position(line, from + 1);
    }
}

/// Every lexeme is at least one character long and ends within the line.
pub proof fn lemma_lex_advances(line: Seq<char>, line_num: u64, pos: int)
    requires
        0 <= pos < line.len(),
    ensures
        pos < lex_at(line, line_num, pos).1 <= line.len(),
{
    lemma_quote_position(line, pos + 1);
    lemma_word_end(line, pos + 1);
    lemma_digits_end(line, pos + 1);
    let whole = digits_end(line, pos);
    if whole + 1 < line.len() {
        lemma_digits_end(line, whole + 1);
    }
}

/// The tokens and the errors of a line from `pos` on, after `tokens` and `errors`.
pub open spec fn scan_line_from(
    line: Seq<char>,
    line_num: u64,
    pos: int,
    tokens: Seq<TokenView>,
    errors: Seq<TokenError>,
) -> (Seq<TokenView>, Seq<TokenError>)
    decreases line.len() - pos,
{
    if 0 <= pos < line.len() {
        proof {
            lemma_lex_advances(line, line_num, pos);
        }
        let (lexeme, next) = lex_at(line, line_num, pos);
        match lexeme {
            Lexeme::Token(t) => scan_line_from(line, line_num, next, tokens.push(t), errors),
            Lexeme::Error(e) => scan_line_from(line, line_num, next, tokens, errors.push(e)),
            Lexeme::Blank => scan_line_from(line, line_num, next, tokens, errors),
            Lexeme::Comment => scan_line_from(line, line_num, next, tokens, errors),
        }
    } else {
        (tokens, errors)
    }
}

/// The tokens and the errors of one line.
pub open spec fn scan_line(line: Seq<char>, line_num: u64) -> (Seq<TokenView>, Seq<TokenError>) {
    scan_line_from(line, line_num, 0, Seq::empty(), Seq::empty())
}

/// What the scanner found at one position.
pub enum Lexed {
    Token(Token),
    Error(TokenError),
    Blank,
    Comment,
}

impl View for Lexed {
    type V = Lexeme;

    open spec fn view(&self) -> Lexeme {
        match self {
            Lexed::Token(t) => Lexeme::Token(t@),
            Lexed::Error(e) => Lexeme::Error(*e),
            Lexed::Blank => Lexeme::Blank,
            Lexed::Comment => Lexeme::Comment,
        }
    }
}

/// Whether a byte is the code of a letter or of the underscore.
pub open spec fn is_letter_code(b: u8) -> bool {
    (97 <= b <= 122) || (65 <= b <= 90) || b == 95
}

fn letter_byte(b: u8) -> (r: bool)
    ensures
        r == is_letter_code(b),
{
    (97 <= b && b <= 122) || (65 <= b && b <= 90) || b == 95
}

fn skip_word(line: &str, from: usize) -> (end: usize)
    requires
        line.is_ascii(),
        from <= line@.len(),
    ensures
        end == word_end(line@, from as int),
        from <= end <= line@.len(),
{
    let n = text_len(line);
    let mut end = from;
    while end < n && (letter_byte(line.get_ascii(end)) || digit_byte(line.get_ascii(end)))
        invariant
            line.is_ascii(),
            n == line@.len(),
            from <= end <= n,
            word_end(line@, from as int) == word_end(line@, end as int),
        decreases n - end,
    {
        end += 1;
    }
    end
}

fn find_quote(line: &str, from: usize) -> (end: usize)
    requires
        line.is_ascii(),
        from <= line@.len(),
    ensures
        end == quote_position(line@, from as int),
        from <= end <= line@.len(),
{
    let n = text_len(line);
    let mut end = from;
    while end < n && line.get_ascii(end) != 34
        invariant
            line.is_ascii(),
            n == line@.len(),
            from <= end <= n,
            quote_position(line@, from as int) == quote_position(line@, end as int),
        decreases n - end,
    {
        end += 1;
    }
    end
}

fn follows(line: &str, pos: usize, b: u8) -> (r: bool)
    requires
        line.is_ascii(),
        pos < line@.len(),
        b < 128,
    ensures
        r == (pos + 1 < line@.len() && line@[pos + 1] as u8 == b),
{
    let n = text_len(line);
    pos + 1 < n && line.get_ascii(pos + 1) == b
}

fn scan_single(line: &str, line_num: u64, pos: usize, token_type: TokenType) -> (r: (Lexed, usize))
    requires
        line.is_ascii(),
        pos < line@.len(),
        line_num < u64::MAX,
    ensures
        (r.0@, r.1 as int) == single_at(line@, line_num, pos as int, token_type),
{
    let n = text_len(line);
    let c = line.get_ascii(pos) as char;
    let token = Token::single_character(token_type, c, line_num + 1, pos as u64 + 1);
    assert(line@.subrange(pos as int, pos + 1) =~= seq![c]);
    (Lexed::Token(token), pos + 1)
}

fn scan_operator(line: &str, line_num: u64, pos: usize, short: TokenType, long: TokenType) -> (r: (
    Lexed,
    usize,
))
    requires
        line.is_ascii(),
        pos < line@.len(),
        line_num < u64::MAX,
    ensures
        (r.0@, r.1 as int) == operator_at(line@, line_num, pos as int, short, long),
{
    let n = text_len(line);
    if follows(line, pos, 61) {
        let c1 = line.get_ascii(pos) as char;
        let c2 = line.get_ascii(pos + 1) as char;
        let token = Token::two_character(long, c1, c2, line_num + 1, pos as u64 + 1);
        assert(line@.subrange(pos as int, pos + 2) =~= seq![c1, c2]);
        (Lexed::Token(token), pos + 2)
    } else {
        scan_single(line, line_num, pos, short)
    }
}

fn scan_string(line: &str, line_num: u64, pos: usize) -> (r: (Lexed, usize))
    requires
        line.is_ascii(),
        pos < line@.len(),
        line_num < u64::MAX,
    ensures
        (r.0@, r.1 as int) == string_at(line@, line_num, pos as int),
{
    let n = text_len(line);
    let close = find_quote(line, pos + 1);
    if close < n {
        let lexeme = slice_text(line, pos, close + 1);
        let literal = slice_text(line, pos + 1, close);
        let token = Token {
            token_type: TokenType::String,
            lexeme,
            literal: Some(Literal::String(literal)),
            line: line_num + 1,
            column: pos as u64 + 1,
        };
        (Lexed::Token(token), close + 1)
    } else {
        let error = TokenError {
            line: line_num + 1,
            column: pos as u64 + 1,
            error: TokenErrorType::UnterminatedString,
        };
        (Lexed::Error(error), close)
    }
}

fn scan_number(line: &str, line_num: u64, pos: usize) -> (r: (Lexed, usize))
    requires
        line.is_ascii(),
        pos < line@.len(),
        is_digit(line@[pos as int]),
        line_num < u64::MAX,
    ensures
        (r.0@, r.1 as int) == number_at(line@, line_num, pos as int),
{
    let whole = skip_digits(line, pos);
    let mut end = whole;
    let n = text_len(line);
    if whole < n && line.get_ascii(whole) == 46 {
        if whole + 1 < n && digit_byte(line.get_ascii(whole + 1)) {
            end = skip_digits(line, whole + 1);
        }
    }
    proof {
        lemma_digits_end(line@, pos as int);
    }
    let lexeme = slice_text(line, pos, end);
    proof {
        lemma_number_text_is_decimal(line@, pos as int);
    }
    let value = Number::from_decimal(lexeme.as_str());
    (number_token(lexeme, line_num + 1, pos as u64 + 1, value), end)
}

/// Makes the token of a number from its text, its place (counted from 1) and
/// its value; without a value the text is reported as an error.
pub fn number_token(lexeme: String, line: u64, column: u64, value: Option<Number>) -> (r: Lexed)
    ensures
        r@ == number_lexeme(lexeme@, line, column, value),
{
    match value {
        Some(n) => Lexed::Token(
            Token {
                token_type: TokenType::Number,
                lexeme,
                literal: Some(Literal::Number(n)),
                line,
                column,
            },
        ),
        None => Lexed::Error(
            TokenError { line, column, error: TokenErrorType::UnexpectedCharacter },
        ),
    }
}

fn scan_word(line: &str, line_num: u64, pos: usize) -> (r: (Lexed, usize))
    requires
        line.is_ascii(),
        pos < line@.len(),
        line_num < u64::MAX,
    ensures
        (r.0@, r.1 as int) == word_at(line@, line_num, pos as int),
{
    let n = text_len(line);
    let end = skip_word(line, pos + 1);
    let lexeme = slice_text(line, pos, end);
    let token_type = match keyword(lexeme.as_str()) {
        Some(t) => t,
        None => TokenType::Identifier,
    };
    let token = Token {
        token_type,
        lexeme,
        literal: None,
        line: line_num + 1,
        column: pos as u64 + 1,
    };
    (Lexed::Token(token), end)
}

/// Scans what stands at position `pos` of a line.
pub(crate) fn scan_lexeme(line: &str, line_num: u64, pos: usize) -> (r: (Lexed, usize))
    requires
        line.is_ascii(),
        pos < line@.len(),
        line_num < u64::MAX,
    ensures
        (r.0@, r.1 as int) == lex_at(line@, line_num, pos as int),
        pos < r.1 <= line@.len(),
{
    proof {
        lemma_lex_advances(line@, line_num, pos as int);
    }
    let n = text_len(line);
    let c = line.get_ascii(pos);
    if c == 40 {
        scan_single(line, line_num, pos, TokenType::LeftParen)
    } else if c == 41 {
        scan_single(line, line_num, pos, TokenType::RightParen)
    } else if c == 123 {
        scan_single(line, line_num, pos, TokenType::LeftBrace)
    } else if c == 125 {
        scan_single(line, line_num, pos, TokenType::RightBrace)
    } else if c == 44 {
        scan_single(line, line_num, pos, TokenType::Comma)
    } else if c == 46 {
        scan_single(line, line_num, pos, TokenType::Dot)
    } else if c == 45 {
        scan_single(line, line_num, pos, TokenType::Minus)
    } else if c == 43 {
        scan_single(line, line_num, pos, TokenType::Plus)
    } else if c == 59 {
        scan_single(line, line_num, pos, TokenType::Semicolon)
    } else if c == 42 {
        scan_single(line, line_num, pos, TokenType::Star)
    } else if c == 33 {
        scan_operator(line, line_num, pos, TokenType::Bang, TokenType::BangEqual)
    } else if c == 61 {
        scan_operator(line, line_num, pos, TokenType::Equal, TokenType::EqualEqual)
    } else if c == 60 {
        scan_operator(line, line_num, pos, TokenType::Less, TokenType::LessEqual)
    } else if c == 62 {
        scan_operator(line, line_num, pos, TokenType::Greater, TokenType::GreaterEqual)
    } else if c == 47 {
        if follows(line, pos, 47) {
            (Lexed::Comment, n)
        } else {
            scan_single(line, line_num, pos, TokenType::Slash)
        }
    } else if c == 32 || c == 9 || c == 13 {
        (Lexed::Blank, pos + 1)
    } else if c == 34 {
        scan_string(line, line_num, pos)
    } else if digit_byte(c) {
        scan_number(line, line_num, pos)
    } else if letter_byte(c) {
        scan_word(line, line_num, pos)
    } else {
        let error = TokenError {
            line: line_num + 1,
            column: pos as u64 + 1,
            error: TokenErrorType::UnexpectedCharacter,
        };
        (Lexed::Error(error), pos + 1)
    }
}

/// Scans one line. `line_num` counts from 0; the places in tokens and errors
/// count from 1. With any error in the line, the errors are the result.
pub fn scan_ascii_line(line_num: u64, line: &str) -> (r: Result<Vec<Token>, Vec<TokenError>>)
    requires
        line.is_ascii(),
        line_num < u64::MAX,
    ensures
        match r {
            Ok(tokens) => scan_line(line@, line_num).1.len() == 0 && token_views(tokens@)
                == scan_line(line@, line_num).0,
            Err(errors) => errors@.len() > 0 && errors@ == scan_line(line@, line_num).1,
        },
{
    let mut tokens: Vec<Token> = Vec::new();
    let mut errors: Vec<TokenError> = Vec::new();
    let n = text_len(line);
    let mut pos: usize = 0;
    assert(token_views(tokens@) =~= Seq::empty());
    while pos < n
        invariant
            line.is_ascii(),
            line_num < u64::MAX,
            n == line@.len(),
            pos <= n,
            scan_line_from(line@, line_num, pos as int, token_views(tokens@), errors@) == scan_line(
                line@,
                line_num,
            ),
        decreases n - pos,
    {
        let ghost before = token_views(tokens@);
        let (lexed, next) = scan_lexeme(line, line_num, pos);
        match lexed {
            Lexed::Token(t) => {
                tokens.push(t);
                assert(token_views(tokens@) =~= before.push(t@));
            },
            Lexed::Error(e) => {
                errors.push(e);
            },
            Lexed::Blank => {},
            Lexed::Comment => {},
        }
        pos = next;
    }
    if errors.len() > 0 {
        Err(errors)
    } else {
        Ok(tokens)
    }
}

/// The place of the first line feed at or after `from`; the length of the
/// source where there is none.
pub open spec fn line_end(source: Seq<char>, from: int) -> int
    decreases source.len() - from,
{
    if 0 <= from < source.len() && source[from] != '\n' {
        line_end(source, from + 1)
    } else {
        from
    }
}

/// A line ends within the source.
pub proof fn lemma_line_end(source: Seq<char>, from: int)
    requires
        0 <= from <= source.len(),
    ensures
        from <= line_end(source, from) <= source.len(),
    decreases source.len() - from,
{
    if from < source.len() && source[from] != '\n' {
        lemma_line_end(source, from + 1);
    }
}

/// The tokens of the lines that start at `from` or later, after `tokens`.
/// A line ends at a line feed or at the end of the source; lines count from 0.
pub open spec fn tokens_from(
    source: Seq<char>,
    line_num: int,
    from: int,
    tokens: Seq<TokenView>,
) -> Seq<
    TokenView,
>
    decreases source.len() - from,
{
    if 0 <= from < source.len() {
        proof {
            lemma_line_end(source, from);
        }
        let end = line_end(source, from);
        let found = tokens + scan_line(source.subrange(from, end), line_num as u64).0;
        if end < source.len() {
            tokens_from(source, line_num + 1, end + 1, found)
        } else {
            found
        }
    } else {
        tokens
    }
}

/// The errors of the lines that start at `from` or later, after `errors`.
pub open spec fn errors_from(
    source: Seq<char>,
    line_num: int,
    from: int,
    errors: Seq<TokenError>,
) -> Seq<
    TokenError,
>
    decreases source.len() - from,
{
    if 0 <= from < source.len() {
        proof {
            lemma_line_end(source, from);
        }
        let end = line_end(source, from);
        let found = errors + scan_line(source.subrange(from, end), line_num as u64).1;
        if end < source.len() {
            errors_from(source, line_num + 1, end + 1, found)
        } else {
            found
        }
    } else {
        errors
    }
}

/// All tokens of a source, line after line.
pub open spec fn source_tokens(source: Seq<char>) -> Seq<TokenView> {
    tokens_from(source, 0, 0, Seq::empty())
}

/// All errors of a source, line after line.
pub open spec fn source_errors(source: Seq<char>) -> Seq<TokenError> {
    errors_from(source, 0, 0, Seq::empty())
}

/// The mathematical model of a scan error.
pub enum ScanErrorView {
    NonAsciiCharacterFound,
    TokenError(Seq<TokenError>),
}

impl View for ScanError {
    type V = ScanErrorView;

    open spec fn view(&self) -> ScanErrorView {
        match self {
            ScanError::NonAsciiCharacterFound => ScanErrorView::NonAsciiCharacterFound,
            ScanError::TokenError(errors) => ScanErrorView::TokenError(errors@),
        }
    }
}

/// What scanning a source gives: its tokens where every character belongs to
/// one, else all errors; a source with a character outside ASCII is refused whole.
pub open spec fn scan_result(source: Seq<char>) -> Result<Seq<TokenView>, ScanErrorView> {
    if !is_ascii_chars(source) {
        Err(ScanErrorView::NonAsciiCharacterFound)
    } else if source_errors(source).len() > 0 {
        Err(ScanErrorView::TokenError(source_errors(source)))
    } else {
        Ok(source_tokens(source))
    }
}

fn find_line_end(source: &str, from: usize) -> (end: usize)
    requires
        source.is_ascii(),
        from <= source@.len(),
    ensures
        end == line_end(source@, from as int),
        from <= end <= source@.len(),
{
    let n = text_len(source);
    let mut end = from;
    while end < n && source.get_ascii(end) != 10
        invariant
            source.is_ascii(),
            n == source@.len(),
            from <= end <= n,
            line_end(source@, from as int) == line_end(source@, end as int),
        decreases n - end,
    {
        end += 1;
    }
    end
}

/// Scans an ASCII source line by line. Errors are collected over all lines;
/// once there is one, no tokens are returned.
pub fn scan_ascii(source: &str) -> (r: Result<Vec<Token>, Vec<TokenError>>)
    requires
        source.is_ascii(),
    ensures
        match r {
            Ok(tokens) => source_errors(source@).len() == 0 && token_views(tokens@)
                == source_tokens(source@),
            Err(errors) => errors@.len() > 0 && errors@ == source_errors(source@),
        },
{
    let mut tokens: Vec<Token> = Vec::new();
    let mut errors: Vec<TokenError> = Vec::new();
    let n = text_len(source);
    let mut from: usize = 0;
    let mut line_num: u64 = 0;
    assert(token_views(tokens@) =~= Seq::empty());
    while from < n
        invariant
            source.is_ascii(),
            n == source@.len(),
            from <= n,
            line_num <= from,
            errors_from(source@, line_num as int, from as int, errors@) == source_errors(source@),
            errors@.len() == 0 ==> tokens_from(
                source@,
                line_num as int,
                from as int,
                token_views(tokens@),
            ) == source_tokens(source@),
        decreases n - from,
    {
        let end = find_line_end(source, from);
        let line = source.substring_ascii(from, end);
        let ghost tokens_before = token_views(tokens@);
        let ghost errors_before = errors@;
        match scan_ascii_line(line_num, line) {
            Ok(mut line_tokens) => {
                if errors.len() == 0 {
                    let ghost added = token_views(line_tokens@);
                    tokens.append(&mut line_tokens);
                    assert(token_views(tokens@) =~= tokens_before + added);
                }
                assert(errors@ =~= errors_before + scan_line(line@, line_num).1);
            },
            Err(mut line_errors) => {
                errors.append(&mut line_errors);
            },
        }
        if end < n {
            from = end + 1;
        } else {
            from = n;
        }
        line_num += 1;
    }
    if errors.len() > 0 {
        Err(errors)
    } else {
        Ok(tokens)
    }
}

/// Scans a source text into tokens.
pub fn scan(source: &str) -> (r: Result<Vec<Token>, ScanError>)
    ensures
        match r {
            Ok(tokens) => scan_result(source@) == Ok::<Seq<TokenView>, ScanErrorView>(
                token_views(tokens@),
            ),
            Err(e) => scan_result(source@) == Err::<Seq<TokenView>, ScanErrorView>(e@),
        },
{
    if source.is_ascii() {
        match scan_ascii(source) {
            Ok(tokens) => Ok(tokens),
            Err(errors) => Err(ScanError::TokenError(errors)),
        }
    } else {
        Err(ScanError::NonAsciiCharacterFound)
    }
}

/// Scans one input, a line typed or the text of a file: its tokens, or why
/// it has none, for the caller to report.
pub fn scan_input(input: &str) -> (r: Result<Vec<Token>, ScanError>)
    ensures
        match r {
            Ok(tokens) => scan_result(input@) == Ok::<Seq<TokenView>, ScanErrorView>(
                token_views(tokens@),
            ),
            Err(e) => scan_result(input@) == Err::<Seq<TokenView>, ScanErrorView>(e@),
        },
{
    scan(input)
}

} // verus!

use vstd::prelude::*;
use crate::number::{Number, numeral, numeral_value, numeral_number, has_dot, is_digit};
use crate::source::{FilePosition, Source, SourceError, pos_at};
use crate::text::{is_space, is_alpha, is_alnum, space_char, alpha_char, alnum_char, chars_of, string_of, slice_string, spells};

mod token_iter;
pub use self::token_iter::TokenIter;

verus! {

/// What went wrong while reading a source text into tokens.
#[derive(Clone, Copy, Debug, PartialEq, Eq, Structural)]
pub enum LexErrorKind {
    UnterminatedString,
    InvalidNumber,
    BadCharacter(char),
}

/// A lexical error with the place where it was found.
#[derive(Clone, Copy, Debug, PartialEq, Eq, Structural)]
pub struct TokenizeError {
    pub pos: Option<FilePosition>,
    pub kind: LexErrorKind,
}

impl TokenizeError {
    pub fn new(pos: FilePosition, kind: LexErrorKind) -> (r: TokenizeError)
        ensures
            r == (TokenizeError { pos: Some(pos), kind }),
    {
        TokenizeError { pos: Some(pos), kind }
    }

    pub fn get_kind(&self) -> (r: LexErrorKind)
        ensures
            r == self.kind,
    {
        self.kind
    }
}

impl SourceError for TokenizeError {
    open spec fn spec_position(&self) -> Option<FilePosition> {
        self.pos
    }

    open spec fn spec_message(&self) -> Seq<char> {
        lex_message(self.kind)
    }

    open spec fn spec_type(&self) -> Seq<char> {
        "TokenizeError"@
    }

    fn get_position(&self) -> (r: Option<FilePosition>) {
        self.pos
    }

    /// What went wrong, in words.
    fn get_message(&self) -> (r: String) {
        match self.kind {
            LexErrorKind::UnterminatedString => "unterminated string literal".to_owned(),
            LexErrorKind::InvalidNumber => "invalid numeric literal".to_owned(),
            LexErrorKind::BadCharacter(c) => {
                let mut v = chars_of("bad character: ");
                v.push(c);
                string_of(&v)
            },
        }
    }

    fn get_type(&self) -> (r: String) {
        "TokenizeError".to_owned()
    }
}

/// A token type as messages name it: its fixed text in quotes, else a word.
pub open spec fn token_name(t: TokenType) -> Seq<char> {
    match fixed_lexeme(t) {
        Some(l) => "'"@ + l + "'"@,
        None => match t {
            TokenType::Identifier => "identifier"@,
            TokenType::Str => "string"@,
            TokenType::Number => "number"@,
            _ => "end of input"@,
        },
    }
}

impl TokenType {
    /// This token type as messages name it.
    pub fn name(&self) -> (r: String)
        ensures
            r@ == token_name(*self),
    {
        match self.lexeme() {
            Some(l) => {
                let mut v = chars_of("'");
                let w = chars_of(l);
                let ghost v0 = v@;
                let mut i: usize = 0;
                while i < w.len()
                    invariant
                        i <= w.len(),
                        v@ == v0 + w@.take(i as int),
                    decreases w.len() - i,
                {
                    v.push(w[i]);
                    i = i + 1;
                    assert(v@ =~= v0 + w@.take(i as int));
                }
                assert(w@.take(w.len() as int) =~= w@);
                v.push('\'');
                proof {
                    reveal_strlit("'");
                    assert(v@ =~= "'"@ + l@ + "'"@);
                }
                string_of(&v)
            },
            None => match self {
                TokenType::Identifier => "identifier".to_owned(),
                TokenType::Str => "string".to_owned(),
                TokenType::Number => "number".to_owned(),
                _ => "end of input".to_owned(),
            },
        }
    }
}

pub open spec fn lex_message(k: LexErrorKind) -> Seq<char> {
    match k {
        LexErrorKind::UnterminatedString => "unterminated string literal"@,
        LexErrorKind::InvalidNumber => "invalid numeric literal"@,
        LexErrorKind::BadCharacter(c) => "bad character: "@.push(c),
    }
}

/// The value that a literal token carries.
#[derive(Clone, Debug, PartialEq)]
pub enum LiteralValue {
    LNumber(Number),
    LString(String),
}

pub enum LiteralView {
    Num(Number),
    Text(Seq<char>),
}

impl View for LiteralValue {
    type V = LiteralView;

    open spec fn view(&self) -> LiteralView {
        match self {
            LiteralValue::LNumber(n) => LiteralView::Num(*n),
            LiteralValue::LString(s) => LiteralView::Text(s@),
        }
    }
}

#[derive(Clone, Copy, Debug, PartialEq, Eq, Structural)]
pub enum TokenType {
    // Single-character tokens.
    LeftParen,
    RightParen,
    LeftBrace,
    RightBrace,
    Comma,
    Dot,
    Minus,
    Plus,
    SemiColon,
    Star,
    // One or two character tokens.
    Bang,
    BangEqual,
    Equal,
    EqualEqual,
    Greater,
    GreaterEqual,
    Less,
    LessEqual,
    Slash,
    Comment,
    // Literals.
    Identifier,
    Str,
    Number,
    // Keywords.
    And,
    Class,
    Else,
    False,
    Fun,
    For,
    If,
    Nil,
    Or,
    Print,
    Return,
    Super,
    This,
    True,
    Var,
    While,
    Eof,
}

/// The fixed text of a token type, where it has one.
pub open spec fn fixed_lexeme(t: TokenType) -> Option<Seq<char>> {
    match t {
        TokenType::LeftParen => Some("("@),
        TokenType::RightParen => Some(")"@),
        TokenType::LeftBrace => Some("{"@),
        TokenType::RightBrace => Some("}"@),
        TokenType::Comma => Some(","@),
        TokenType::Dot => Some("."@),
        TokenType::Minus => Some("-"@),
        TokenType::Plus => Some("+"@),
        TokenType::SemiColon => Some(";"@),
        TokenType::Star => Some("*"@),
        TokenType::Bang => Some("!"@),
        TokenType::BangEqual => Some("!="@),
        TokenType::Equal => Some("="@),
        TokenType::EqualEqual => Some("=="@),
        TokenType::Greater => Some(">"@),
        TokenType::GreaterEqual => Some(">="@),
        TokenType::Less => Some("<"@),
        TokenType::LessEqual => Some("<="@),
        TokenType::Slash => Some("/"@),
        TokenType::Comment => Some("//"@),
        TokenType::And => Some("and"@),
        TokenType::Class => Some("class"@),
        TokenType::Else => Some("else"@),
        TokenType::False => Some("false"@),
        TokenType::Fun => Some("fun"@),
        TokenType::For => Some("for"@),
        TokenType::If => Some("if"@),
        TokenType::Nil => Some("nil"@),
        TokenType::Or => Some("or"@),
        TokenType::Print => Some("print"@),
        TokenType::Return => Some("return"@),
        TokenType::Super => Some("super"@),
        TokenType::This => Some("this"@),
        TokenType::True => Some("true"@),
        TokenType::Var => Some("var"@),
        TokenType::While => Some("while"@),
        _ => None,
    }
}

impl TokenType {
    /// The fixed text of this token type, where it has one.
    pub fn lexeme(&self) -> (r: Option<&'static str>)
        ensures
            r is None <==> fixed_lexeme(*self) is None,
            r matches Some(x) ==> fixed_lexeme(*self) == Some(x@),
    {
        match self {
            TokenType::LeftParen => Some("("),
            TokenType::RightParen => Some(")"),
            TokenType::LeftBrace => Some("{"),
            TokenType::RightBrace => Some("}"),
            TokenType::Comma => Some(","),
            TokenType::Dot => Some("."),
            TokenType::Minus => Some("-"),
            TokenType::Plus => Some("+"),
            TokenType::SemiColon => Some(";"),
            TokenType::Star => Some("*"),
            TokenType::Bang => Some("!"),
            TokenType::BangEqual => Some("!="),
            TokenType::Equal => Some("="),
            TokenType::EqualEqual => Some("=="),
            TokenType::Greater => Some(">"),
            TokenType::GreaterEqual => Some(">="),
            TokenType::Less => Some("<"),
            TokenType::LessEqual => Some("<="),
            TokenType::Slash => Some("/"),
            TokenType::Comment => Some("//"),
            TokenType::And => Some("and"),
            TokenType::Class => Some("class"),
            TokenType::Else => Some("else"),
            TokenType::False => Some("false"),
            TokenType::Fun => Some("fun"),
            TokenType::For => Some("for"),
            TokenType::If => Some("if"),
            TokenType::Nil => Some("nil"),
            TokenType::Or => Some("or"),
            TokenType::Print => Some("print"),
            TokenType::Return => Some("return"),
            TokenType::Super => Some("super"),
            TokenType::This => Some("this"),
            TokenType::True => Some("true"),
            TokenType::Var => Some("var"),
            TokenType::While => Some("while"),
            _ => None,
        }
    }
}

/// A token: its type, where it starts (with its length), the text it was
/// read from, and the value of a number or string literal.
#[derive(Clone, Debug, PartialEq)]
pub struct Token {
    pub typ: TokenType,
    pub pos: FilePosition,
    pub lexeme: String,
    pub literal: Option<LiteralValue>,
}

pub struct TokenView {
    pub typ: TokenType,
    pub pos: FilePosition,
    pub lexeme: Seq<char>,
    pub literal: Option<LiteralView>,
}

impl View for Token {
    type V = TokenView;

    open spec fn view(&self) -> TokenView {
        TokenView {
            typ: self.typ,
            pos: self.pos,
            lexeme: self.lexeme@,
            literal: match self.literal {
                Some(l) => Some(l@),
                None => None,
            },
        }
    }
}

pub open spec fn tokens_view(ts: Seq<Token>) -> Seq<TokenView> {
    ts.map_values(|t: Token| t@)
}

impl Token {
    pub fn new(typ: TokenType, pos: FilePosition, lexeme: String) -> (r: Token)
        ensures
            r@ == (TokenView { typ, pos, lexeme: lexeme@, literal: None }),
    {
        Token { typ, pos, lexeme, literal: None }
    }

    /// A token whose text is the fixed text of its type.
    pub fn nol(typ: TokenType, pos: FilePosition) -> (r: Token)
        requires
            fixed_lexeme(typ) is Some,
        ensures
            r@ == (TokenView { typ, pos, lexeme: fixed_lexeme(typ)->0, literal: None }),
    {
        let text = typ.lexeme();
        match text {
            Some(t) => Token { typ, pos, lexeme: t.to_owned(), literal: None },
            None => Token { typ, pos, lexeme: String::new(), literal: None },
        }
    }

    pub fn new_literal(typ: TokenType, pos: FilePosition, lexeme: String, literal: LiteralValue) -> (r:
        Token)
        ensures
            r@ == (TokenView { typ, pos, lexeme: lexeme@, literal: Some(literal@) }),
    {
        Token { typ, pos, lexeme, literal: Some(literal) }
    }

    pub fn get_type(&self) -> (r: &TokenType)
        ensures
            *r == self.typ,
    {
        &self.typ
    }

    pub fn get_position(&self) -> (r: FilePosition)
        ensures
            r == self.pos,
    {
        self.pos
    }
}

// ---------------------------------------------------------------------------
// The lexical grammar, stated over the characters of a source text.

/// The type of a token of one fixed character.
pub open spec fn single_type(c: char) -> Option<TokenType> {
    if c == '(' {
        Some(TokenType::LeftParen)
    } else if c == ')' {
        Some(TokenType::RightParen)
    } else if c == '{' {
        Some(TokenType::LeftBrace)
    } else if c == '}' {
        Some(TokenType::RightBrace)
    } else if c == ',' {
        Some(TokenType::Comma)
    } else if c == '.' {
        Some(TokenType::Dot)
    } else if c == '-' {
        Some(TokenType::Minus)
    } else if c == '+' {
        Some(TokenType::Plus)
    } else if c == ';' {
        Some(TokenType::SemiColon)
    } else if c == '*' {
        Some(TokenType::Star)
    } else {
        None
    }
}

/// The type of a token that starts with `c` and may take a following `=`.
pub open spec fn pair_type(c: char, with_eq: bool) -> Option<TokenType> {
    if c == '!' {
        Some(if with_eq { TokenType::BangEqual } else { TokenType::Bang })
    } else if c == '=' {
        Some(if with_eq { TokenType::EqualEqual } else { TokenType::Equal })
    } else if c == '>' {
        Some(if with_eq { TokenType::GreaterEqual } else { TokenType::Greater })
    } else if c == '<' {
        Some(if with_eq { TokenType::LessEqual } else { TokenType::Less })
    } else {
        None
    }
}

/// The type of a word: a keyword's own type, else `Identifier`.
pub open spec fn keyword_type(w: Seq<char>) -> TokenType {
    if w == "and"@ {
        TokenType::And
    } else if w == "class"@ {
        TokenType::Class
    } else if w == "else"@ {
        TokenType::Else
    } else if w == "false"@ {
        TokenType::False
    } else if w == "fun"@ {
        TokenType::Fun
    } else if w == "for"@ {
        TokenType::For
    } else if w == "if"@ {
        TokenType::If
    } else if w == "nil"@ {
        TokenType::Nil
    } else if w == "or"@ {
        TokenType::Or
    } else if w == "print"@ {
        TokenType::Print
    } else if w == "return"@ {
        TokenType::Return
    } else if w == "super"@ {
        TokenType::Super
    } else if w == "this"@ {
        TokenType::This
    } else if w == "true"@ {
        TokenType::True
    } else if w == "var"@ {
        TokenType::Var
    } else if w == "while"@ {
        TokenType::While
    } else {
        TokenType::Identifier
    }
}

/// Where a line comment that reaches index `j` ends: at the next newline,
/// which it leaves, or at the end of the text.
pub open spec fn comment_end(s: Seq<char>, j: nat) -> nat
    decreases s.len() - j,
{
    if j >= s.len() {
        s.len()
    } else if s[j as int] == '\n' {
        j
    } else {
        comment_end(s, j + 1)
    }
}

/// The index of the first `"` at or after `j`, if any.
pub open spec fn string_end(s: Seq<char>, j: nat) -> Option<nat>
    decreases s.len() - j,
{
    if j >= s.len() {
        None
    } else if s[j as int] == '"' {
        Some(j)
    } else {
        string_end(s, j + 1)
    }
}

/// Where a number that reaches index `j` ends: it takes digits and one
/// point (`dot` says whether it has taken it already).
pub open spec fn number_end(s: Seq<char>, j: nat, dot: bool) -> nat
    decreases s.len() - j,
{
    if j >= s.len() {
        j
    } else if s[j as int] == '.' && !dot {
        number_end(s, j + 1, true)
    } else if is_digit(s[j as int]) {
        number_end(s, j + 1, dot)
    } else {
        j
    }
}

/// Where a word that reaches index `j` ends: it takes letters, digits and `_`.
pub open spec fn ident_end(s: Seq<char>, j: nat) -> nat
    decreases s.len() - j,
{
    if j < s.len() && (is_alnum(s[j as int]) || s[j as int] == '_') {
        ident_end(s, j + 1)
    } else {
        j
    }
}

/// The position after the first `n` characters, with the given length.
pub open spec fn pos_len(s: Seq<char>, n: nat, len: int) -> FilePosition {
    FilePosition { length: len as usize, ..pos_at(s, n) }
}

/// A token for the characters `i..j`.
pub open spec fn token_at(
    s: Seq<char>,
    typ: TokenType,
    i: nat,
    j: nat,
    len: int,
    literal: Option<LiteralView>,
) -> TokenView {
    TokenView { typ, pos: pos_len(s, i + 1, len), lexeme: s.subrange(i as int, j as int), literal }
}

/// What the characters from index `i` on give.
pub enum Scan {
    /// Nothing: go on at the index.
    Skip(nat),
    /// A token, and the index after it.
    Emit(TokenView, nat),
    Fail(TokenizeError),
}

/// The step of the lexer at index `i` (`i < s.len()`).
pub open spec fn scan_one(s: Seq<char>, i: nat) -> Scan {
    let c = s[i as int];
    if c == '\n' || is_space(c) {
        Scan::Skip(i + 1)
    } else if single_type(c) is Some {
        Scan::Emit(token_at(s, single_type(c)->0, i, i + 1, 1, None), i + 1)
    } else if pair_type(c, false) is Some {
        if i + 1 < s.len() && s[i + 1 as int] == '=' {
            Scan::Emit(token_at(s, pair_type(c, true)->0, i, i + 2, 2, None), i + 2)
        } else {
            Scan::Emit(token_at(s, pair_type(c, false)->0, i, i + 1, 1, None), i + 1)
        }
    } else if c == '/' {
        if i + 1 < s.len() && s[i + 1 as int] == '/' {
            Scan::Skip(comment_end(s, i + 2))
        } else {
            Scan::Emit(token_at(s, TokenType::Slash, i, i + 1, 1, None), i + 1)
        }
    } else if c == '"' {
        match string_end(s, i + 1) {
            Some(j) => Scan::Emit(
                token_at(
                    s,
                    TokenType::Str,
                    i,
                    j + 1,
                    1,
                    Some(LiteralView::Text(s.subrange(i + 1 as int, j as int))),
                ),
                j + 1,
            ),
            None => Scan::Fail(
                TokenizeError { pos: Some(pos_len(s, i + 1, 1)), kind: LexErrorKind::UnterminatedString },
            ),
        }
    } else if is_digit(c) {
        let e = number_end(s, i + 1, false);
        match numeral_value(s.subrange(i as int, e as int)) {
            Some(v) => Scan::Emit(
                token_at(s, TokenType::Number, i, e, e - i, Some(LiteralView::Num(v))),
                e,
            ),
            None => Scan::Fail(
                TokenizeError {
                    pos: Some(pos_len(s, i + 1, e - i)),
                    kind: LexErrorKind::InvalidNumber,
                },
            ),
        }
    } else if is_alpha(c) || c == '_' {
        let e = ident_end(s, i + 1);
        Scan::Emit(token_at(s, keyword_type(s.subrange(i as int, e as int)), i, e, e - i, None), e)
    } else {
        Scan::Fail(
            TokenizeError { pos: Some(pos_at(s, i + 1)), kind: LexErrorKind::BadCharacter(c) },
        )
    }
}

/// The tokens of the characters from index `i` on, or the first error.
pub open spec fn lex_from(s: Seq<char>, i: nat) -> Result<Seq<TokenView>, TokenizeError>
    decreases s.len() - i,
{
    if i >= s.len() {
        Ok(seq![])
    } else {
        match scan_one(s, i) {
            Scan::Skip(j) => if i < j <= s.len() {
                lex_from(s, j)
            } else {
                Ok(seq![])
            },
            Scan::Emit(t, j) => if i < j <= s.len() {
                match lex_from(s, j) {
                    Ok(rest) => Ok(seq![t] + rest),
                    Err(e) => Err(e),
                }
            } else {
                Ok(seq![])
            },
            Scan::Fail(e) => Err(e),
        }
    }
}

/// The tokens of a source text, or its first lexical error.
pub open spec fn lex(s: Seq<char>) -> Result<Seq<TokenView>, TokenizeError> {
    lex_from(s, 0)
}

pub open spec fn prepend(
    done: Seq<TokenView>,
    rest: Result<Seq<TokenView>, TokenizeError>,
) -> Result<Seq<TokenView>, TokenizeError> {
    match rest {
        Ok(ts) => Ok(done + ts),
        Err(e) => Err(e),
    }
}


// ---------------------------------------------------------------------------
// Facts about the lexical grammar.

pub proof fn lemma_comment_end(s: Seq<char>, j: nat)
    requires
        j <= s.len(),
    ensures
        j <= comment_end(s, j) <= s.len(),
        comment_end(s, j) < s.len() ==> s[comment_end(s, j) as int] == '\n',
    decreases s.len() - j,
{
    if j < s.len() && s[j as int] != '\n' {
        lemma_comment_end(s, j + 1);
    }
}

pub proof fn lemma_string_end(s: Seq<char>, j: nat)
    ensures
        string_end(s, j) matches Some(k) ==> j <= k < s.len() && s[k as int] == '"',
    decreases s.len() - j,
{
    if j < s.len() && s[j as int] != '"' {
        lemma_string_end(s, j + 1);
    }
}

pub proof fn lemma_ident_end(s: Seq<char>, j: nat)
    requires
        j <= s.len(),
    ensures
        j <= ident_end(s, j) <= s.len(),
    decreases s.len() - j,
{
    if j < s.len() && (is_alnum(s[j as int]) || s[j as int] == '_') {
        lemma_ident_end(s, j + 1);
    }
}

pub proof fn lemma_number_end_bound(s: Seq<char>, j: nat, dot: bool)
    requires
        j <= s.len(),
    ensures
        j <= number_end(s, j, dot) <= s.len(),
    decreases s.len() - j,
{
    if j < s.len() {
        if s[j as int] == '.' && !dot {
            lemma_number_end_bound(s, j + 1, true);
        } else if is_digit(s[j as int]) {
            lemma_number_end_bound(s, j + 1, dot);
        }
    }
}

/// A number's characters form a numeral.
proof fn lemma_number_end(s: Seq<char>, i: nat, j: nat, dot: bool)
    requires
        i < j <= s.len(),
        numeral(s.subrange(i as int, j as int)),
        has_dot(s.subrange(i as int, j as int)) == dot,
    ensures
        j <= number_end(s, j, dot) <= s.len(),
        numeral(s.subrange(i as int, number_end(s, j, dot) as int)),
    decreases s.len() - j,
{
    if j < s.len() {
        let t = s.subrange(i as int, j + 1 as int);
        assert(t.drop_last() =~= s.subrange(i as int, j as int));
        if s[j as int] == '.' && !dot {
            lemma_number_end(s, i, j + 1, true);
        } else if is_digit(s[j as int]) {
            lemma_number_end(s, i, j + 1, dot);
        }
    }
}

proof fn lemma_emit(s: Seq<char>, i: nat, done: Seq<TokenView>, t: TokenView, j: nat)
    requires
        i < s.len(),
        scan_one(s, i) == Scan::Emit(t, j),
        i < j <= s.len(),
    ensures
        prepend(done, lex_from(s, i)) == prepend(done.push(t), lex_from(s, j)),
{
    match lex_from(s, j) {
        Ok(rest) => {
            assert(done + (seq![t] + rest) =~= done.push(t) + rest);
        },
        Err(_) => {},
    }
}

proof fn lemma_views_push(ts: Seq<Token>, t: Token)
    ensures
        tokens_view(ts.push(t)) == tokens_view(ts).push(t@),
{
    assert(tokens_view(ts.push(t)) =~= tokens_view(ts).push(t@));
}

// ---------------------------------------------------------------------------
// The lexer.

fn single_type_of(c: char) -> (r: Option<TokenType>)
    ensures
        r == single_type(c),
{
    if c == '(' {
        Some(TokenType::LeftParen)
    } else if c == ')' {
        Some(TokenType::RightParen)
    } else if c == '{' {
        Some(TokenType::LeftBrace)
    } else if c == '}' {
        Some(TokenType::RightBrace)
    } else if c == ',' {
        Some(TokenType::Comma)
    } else if c == '.' {
        Some(TokenType::Dot)
    } else if c == '-' {
        Some(TokenType::Minus)
    } else if c == '+' {
        Some(TokenType::Plus)
    } else if c == ';' {
        Some(TokenType::SemiColon)
    } else if c == '*' {
        Some(TokenType::Star)
    } else {
        None
    }
}

fn pair_type_of(c: char, with_eq: bool) -> (r: Option<TokenType>)
    ensures
        r == pair_type(c, with_eq),
{
    if c == '!' {
        Some(if with_eq { TokenType::BangEqual } else { TokenType::Bang })
    } else if c == '=' {
        Some(if with_eq { TokenType::EqualEqual } else { TokenType::Equal })
    } else if c == '>' {
        Some(if with_eq { TokenType::GreaterEqual } else { TokenType::Greater })
    } else if c == '<' {
        Some(if with_eq { TokenType::LessEqual } else { TokenType::Less })
    } else {
        None
    }
}

fn keyword_of(s: &Vec<char>, lo: usize, hi: usize) -> (r: TokenType)
    requires
        lo <= hi <= s.len(),
    ensures
        r == keyword_type(s@.subrange(lo as int, hi as int)),
{
    if spells(s, lo, hi, "and") {
        TokenType::And
    } else if spells(s, lo, hi, "class") {
        TokenType::Class
    } else if spells(s, lo, hi, "else") {
        TokenType::Else
    } else if spells(s, lo, hi, "false") {
        TokenType::False
    } else if spells(s, lo, hi, "fun") {
        TokenType::Fun
    } else if spells(s, lo, hi, "for") {
        TokenType::For
    } else if spells(s, lo, hi, "if") {
        TokenType::If
    } else if spells(s, lo, hi, "nil") {
        TokenType::Nil
    } else if spells(s, lo, hi, "or") {
        TokenType::Or
    } else if spells(s, lo, hi, "print") {
        TokenType::Print
    } else if spells(s, lo, hi, "return") {
        TokenType::Return
    } else if spells(s, lo, hi, "super") {
        TokenType::Super
    } else if spells(s, lo, hi, "this") {
        TokenType::This
    } else if spells(s, lo, hi, "true") {
        TokenType::True
    } else if spells(s, lo, hi, "var") {
        TokenType::Var
    } else if spells(s, lo, hi, "while") {
        TokenType::While
    } else {
        TokenType::Identifier
    }
}

/// The token of the word at `lo..hi`: a keyword or an identifier.
fn match_identifier_token(pos: FilePosition, s: &Vec<char>, lo: usize, hi: usize) -> (r: Token)
    requires
        lo <= hi <= s.len(),
    ensures
        r@ == (TokenView {
            typ: keyword_type(s@.subrange(lo as int, hi as int)),
            pos,
            lexeme: s@.subrange(lo as int, hi as int),
            literal: None,
        }),
{
    let typ = keyword_of(s, lo, hi);
    Token::new(typ, pos, slice_string(s, lo, hi))
}

fn ascii_digit(c: char) -> (r: bool)
    ensures
        r == is_digit(c),
{
    48 <= c as u32 && c as u32 <= 57
}

/// Consumes the rest of a number (digits and at most one point) and says
/// how many characters it took.
fn find_number_end(token_iter: &mut TokenIter) -> (r: usize)
    requires
        old(token_iter).wf(),
    ensures
        final(token_iter).wf(),
        final(token_iter).chars@ == old(token_iter).chars@,
        final(token_iter).index == number_end(old(token_iter).chars@, old(token_iter).index as nat, false),
        r == final(token_iter).index - old(token_iter).index,
{
    let ghost s = token_iter.chars@;
    let ghost start = token_iter.index;
    let mut end: usize = 0;
    let mut has_dot = false;
    loop
        invariant
            token_iter.wf(),
            token_iter.chars@ == s,
            start <= token_iter.index,
            end == token_iter.index - start,
            number_end(s, token_iter.index as nat, has_dot) == number_end(s, start as nat, false),
        ensures
            token_iter.wf(),
            token_iter.chars@ == s,
            end == token_iter.index - start,
            token_iter.index == number_end(s, start as nat, false),
        decreases s.len() - token_iter.index,
    {
        match token_iter.peek() {
            Some(ch) => {
                if ch == '.' && !has_dot {
                    end = end + 1;
                    has_dot = true;
                    token_iter.next();
                } else if ch != '.' && ascii_digit(ch) {
                    end = end + 1;
                    token_iter.next();
                } else {
                    assert(number_end(s, token_iter.index as nat, has_dot) == token_iter.index);
                    break ;
                }
            },
            None => {
                assert(number_end(s, token_iter.index as nat, has_dot) == token_iter.index);
                break ;
            },
        }
    }
    end
}

/// What one step of the lexer gave.
enum Scanned {
    Skip,
    Emit(Token),
    Fail(TokenizeError),
}

/// `r` is the step of the lexer at `i`, and the cursor stands where the
/// next step begins.
spec fn scanned(s: Seq<char>, i: nat, r: Scanned, after: &TokenIter) -> bool {
    &&& after.wf()
    &&& after.chars@ == s
    &&& match r {
        Scanned::Skip => scan_one(s, i) == Scan::Skip(after.index as nat) && i < after.index,
        Scanned::Emit(t) => scan_one(s, i) == Scan::Emit(t@, after.index as nat) && i < after.index,
        Scanned::Fail(e) => scan_one(s, i) == Scan::Fail(e),
    }
}

/// The cursor has just consumed `ch`, the character at `i`.
spec fn just_read(it: &TokenIter, i: nat, ch: char) -> bool {
    &&& it.wf()
    &&& it.index == i + 1
    &&& it.chars@[i as int] == ch
}

spec fn plain(ch: char) -> bool {
    !(ch == '\n' || is_space(ch)) && single_type(ch) is None && pair_type(ch, false) is None
}

fn scan_comment_or_slash(it: &mut TokenIter, ch: char) -> (r: Scanned)
    requires
        just_read(old(it), (old(it).index - 1) as nat, ch),
        plain(ch),
        ch == '/',
    ensures
        scanned(old(it).chars@, (old(it).index - 1) as nat, r, final(it)),
{
    let ghost s = it.chars@;
    let ghost i = (it.index - 1) as nat;
    let start = it.index - 1;
    let mut pos = it.filepos;
    pos.length = 1;
    if it.next_if_eq('/').is_some() {
        // a comment runs to the end of the line
        proof {
            lemma_comment_end(s, i + 2);
        }
        loop
            invariant
                it.wf(),
                it.chars@ == s,
                i + 2 <= it.index,
                comment_end(s, it.index as nat) == comment_end(s, i + 2),
            ensures
                it.wf(),
                it.chars@ == s,
                it.index == comment_end(s, i + 2),
            decreases s.len() - it.index,
        {
            if it.next_if_not_eq('\n').is_none() {
                break ;
            }
        }
        return Scanned::Skip;
    }
    let tok = Token::new(TokenType::Slash, pos, slice_string(&it.chars, start, start + 1));
    Scanned::Emit(tok)
}

fn scan_string(it: &mut TokenIter, ch: char) -> (r: Scanned)
    requires
        just_read(old(it), (old(it).index - 1) as nat, ch),
        plain(ch),
        ch == '"',
    ensures
        scanned(old(it).chars@, (old(it).index - 1) as nat, r, final(it)),
{
    let ghost s = it.chars@;
    let ghost i = (it.index - 1) as nat;
    let start = it.index - 1;
    let mut pos = it.filepos;
    pos.length = 1;
    proof {
        lemma_string_end(s, i + 1);
    }
    loop
        invariant
            it.wf(),
            it.chars@ == s,
            i + 1 <= it.index,
            string_end(s, it.index as nat) == string_end(s, i + 1),
        ensures
            it.wf(),
            it.chars@ == s,
            i + 1 <= it.index,
            string_end(s, it.index as nat) == string_end(s, i + 1),
            it.index < s.len() ==> s[it.index as int] == '"',
        decreases s.len() - it.index,
    {
        if it.next_if_not_eq('"').is_none() {
            break ;
        }
    }
    match it.next() {
        Some((end, _)) => {
            let lexeme = slice_string(&it.chars, start, end + 1);
            let text = slice_string(&it.chars, start + 1, end);
            Scanned::Emit(Token::new_literal(TokenType::Str, pos, lexeme, LiteralValue::LString(text)))
        },
        None => Scanned::Fail(TokenizeError::new(pos, LexErrorKind::UnterminatedString)),
    }
}

fn scan_number(it: &mut TokenIter, ch: char) -> (r: Scanned)
    requires
        just_read(old(it), (old(it).index - 1) as nat, ch),
        plain(ch),
        ch != '/' && ch != '"',
        is_digit(ch),
    ensures
        scanned(old(it).chars@, (old(it).index - 1) as nat, r, final(it)),
{
    let ghost s = it.chars@;
    let ghost i = (it.index - 1) as nat;
    let start = it.index - 1;
    let mut pos = it.filepos;
    proof {
        let t = s.subrange(i as int, i + 1 as int);
        assert(t.drop_last() =~= Seq::<char>::empty());
        assert(t.last() == s[i as int]);
        assert(numeral(t.drop_last()));
        assert(!has_dot(t.drop_last()));
        assert(numeral(t));
        assert(!has_dot(t));
        lemma_number_end(s, i, i + 1, false);
    }
    let extra = find_number_end(it);
    let end = start + extra;
    pos.length = extra + 1;
    let mut digits: Vec<char> = Vec::new();
    let mut k: usize = start;
    while k < end + 1
        invariant
            start <= k <= end + 1 <= it.chars.len(),
            digits@ == it.chars@.subrange(start as int, k as int),
        decreases end + 1 - k,
    {
        digits.push(it.chars[k]);
        k = k + 1;
        assert(digits@ =~= it.chars@.subrange(start as int, k as int));
    }
    match numeral_number(&digits) {
        Some(value) => Scanned::Emit(
            Token::new_literal(
                TokenType::Number,
                pos,
                slice_string(&it.chars, start, end + 1),
                LiteralValue::LNumber(value),
            ),
        ),
        None => Scanned::Fail(TokenizeError::new(pos, LexErrorKind::InvalidNumber)),
    }
}

fn scan_word(it: &mut TokenIter, ch: char) -> (r: Scanned)
    requires
        just_read(old(it), (old(it).index - 1) as nat, ch),
        plain(ch),
        ch != '/' && ch != '"',
        !is_digit(ch),
        is_alpha(ch) || ch == '_',
    ensures
        scanned(old(it).chars@, (old(it).index - 1) as nat, r, final(it)),
{
    let ghost s = it.chars@;
    let ghost i = (it.index - 1) as nat;
    let start = it.index - 1;
    let mut pos = it.filepos;
    proof {
        lemma_ident_end(s, i + 1);
    }
    loop
        invariant
            it.wf(),
            it.chars@ == s,
            i + 1 <= it.index,
            ident_end(s, it.index as nat) == ident_end(s, i + 1),
        ensures
            it.wf(),
            it.chars@ == s,
            it.index == ident_end(s, i + 1),
        decreases s.len() - it.index,
    {
        let word_char = |c: char| -> (b: bool)
            ensures
                b == (is_alnum(c) || c == '_'),
            { alnum_char(c) || c == '_' };
        if it.next_if(word_char).is_none() {
            assert(ident_end(s, it.index as nat) == it.index);
            break ;
        }
    }
    let end = it.index;
    pos.length = end - start;
    Scanned::Emit(match_identifier_token(pos, &it.chars, start, end))
}

/// One step of the lexer, after the cursor has consumed `ch`.
fn scan_token(it: &mut TokenIter, ch: char) -> (r: Scanned)
    requires
        just_read(old(it), (old(it).index - 1) as nat, ch),
    ensures
        scanned(old(it).chars@, (old(it).index - 1) as nat, r, final(it)),
{
    let start = it.index - 1;
    let mut pos = it.filepos;
    pos.length = 1;
    if ch == '\n' || space_char(ch) {
        return Scanned::Skip;
    }
    if let Some(typ) = single_type_of(ch) {
        return Scanned::Emit(Token::new(typ, pos, slice_string(&it.chars, start, start + 1)));
    }
    if let Some(typ) = pair_type_of(ch, false) {
        if it.next_if_eq('=').is_some() {
            pos.length = 2;
            let typ2 = match pair_type_of(ch, true) {
                Some(t) => t,
                None => typ,
            };
            return Scanned::Emit(Token::new(typ2, pos, slice_string(&it.chars, start, start + 2)));
        }
        return Scanned::Emit(Token::new(typ, pos, slice_string(&it.chars, start, start + 1)));
    }
    if ch == '/' {
        return scan_comment_or_slash(it, ch);
    }
    if ch == '"' {
        return scan_string(it, ch);
    }
    if ascii_digit(ch) {
        return scan_number(it, ch);
    }
    if alpha_char(ch) || ch == '_' {
        return scan_word(it, ch);
    }
    Scanned::Fail(TokenizeError::new(it.filepos, LexErrorKind::BadCharacter(ch)))
}

/// Reads a source text into tokens, or gives the first lexical error.
pub fn tokenize(src: &Source) -> (r: Result<Vec<Token>, TokenizeError>)
    ensures
        match r {
            Ok(ts) => lex(src.content@) == Ok::<Seq<TokenView>, TokenizeError>(tokens_view(ts@)),
            Err(e) => lex(src.content@) == Err::<Seq<TokenView>, TokenizeError>(e),
        },
{
    let chars = chars_of(src.content.as_str());
    let ghost s = chars@;
    let mut it = TokenIter::new(chars);
    let mut tokens: Vec<Token> = Vec::new();
    proof {
        assert(prepend(seq![], lex_from(s, 0)) == lex_from(s, 0)) by {
            match lex_from(s, 0) {
                Ok(ts) => {
                    assert(Seq::<TokenView>::empty() + ts =~= ts);
                },
                Err(_) => {},
            }
        }
        assert(tokens_view(tokens@) =~= seq![]);
    }
    loop
        invariant
            it.wf(),
            it.chars@ == s,
            s == src.content@,
            lex(s) == prepend(tokens_view(tokens@), lex_from(s, it.index as nat)),
        decreases s.len() - it.index,
    {
        let ghost i = it.index as nat;
        let ch = match it.next() {
            Some((_, c)) => c,
            None => {
                proof {
                    assert(tokens_view(tokens@) + seq![] =~= tokens_view(tokens@));
                }
                return Ok(tokens);
            },
        };
        let ghost done = tokens_view(tokens@);
        match scan_token(&mut it, ch) {
            Scanned::Skip => {},
            Scanned::Emit(tok) => {
                proof {
                    lemma_emit(s, i, done, tok@, it.index as nat);
                    lemma_views_push(tokens@, tok);
                }
                tokens.push(tok);
            },
            Scanned::Fail(e) => {
                return Err(e);
            },
        }
    }
}

} // verus!

//! Splitting the text of policies into tokens.
use vstd::prelude::*;
use crate::names::{ident_char, ident_end, ident_start};
use crate::text::{chars_of, is_digit, read_digits, string_of, value_in};

verus! {

/// A symbol of the policy language.
#[derive(Clone, Copy, Debug, PartialEq, Eq, Structural)]
pub enum Sym {
    LParen,
    RParen,
    LBrace,
    RBrace,
    LBracket,
    RBracket,
    Comma,
    Semicolon,
    Dot,
    Colon,
    ColonColon,
    EqEq,
    NotEq,
    Less,
    LessEq,
    Greater,
    GreaterEq,
    Plus,
    Minus,
    Star,
    Bang,
    AndAnd,
    OrOr,
    /// `?principal`
    SlotPrincipal,
    /// `?resource`
    SlotResource,
}

/// A token of the policy language.
#[derive(Debug, PartialEq, Eq)]
pub enum Token {
    /// An identifier or a keyword.
    Ident(String),
    /// An integer literal, without its sign: at most 2 to the power 63.
    Int(u64),
    /// A string literal: what stands between its quotes, as it is written.
    Str(String),
    /// A symbol.
    Sym(Sym),
}

/// Mathematical model of a [`Token`].
pub enum TokenV {
    Ident(Seq<char>),
    Int(u64),
    Str(Seq<char>),
    Sym(Sym),
}

impl View for Token {
    type V = TokenV;

    open spec fn view(&self) -> TokenV {
        match self {
            Token::Ident(s) => TokenV::Ident(s@),
            Token::Int(i) => TokenV::Int(*i),
            Token::Str(s) => TokenV::Str(s@),
            Token::Sym(s) => TokenV::Sym(*s),
        }
    }
}

/// The models of a vector of tokens, in order.
pub open spec fn tokens_view(ts: Seq<Token>) -> Seq<TokenV> {
    Seq::new(ts.len(), |i: int| ts[i]@)
}

/// What is wrong with the text of a policy.
#[derive(Clone, Copy, Debug, PartialEq, Eq, Structural)]
pub enum ParseErrorKind {
    /// A character that starts no token.
    UnexpectedCharacter,
    /// A string literal that is not closed, or that holds an escape that
    /// the language does not have.
    BadString,
    /// An integer literal that does not fit in 64 bits.
    IntegerTooLarge,
    /// A token that cannot stand where it stands.
    UnexpectedToken,
    /// The text ends where more is expected.
    UnexpectedEnd,
    /// A multiplication of which neither operand is a constant.
    NonConstantMultiplication,
    /// A record literal with two fields of one name.
    DuplicateKey,
    /// The name of an entity type, or of a function, that is reserved.
    ReservedName,
    /// A slot where only an entity can stand.
    SlotNotAllowed,
    /// A template where a policy without slots is expected.
    ExpectedStaticPolicy,
    /// A policy without slots where a template is expected.
    ExpectedTemplate,
    /// Several policies, or none, where one is expected.
    ExpectedOnePolicy,
}

/// An error in the text of a policy: what is wrong, and where. The place is
/// the position of a character while the text is split into tokens, and
/// the position of a token after that.
#[derive(Clone, Copy, Debug, PartialEq, Eq, Structural)]
pub struct ParseError {
    pub kind: ParseErrorKind,
    pub position: usize,
}

/// Whether `c` separates tokens: a space, a tab, or the end of a line.
pub open spec fn is_space(c: char) -> bool {
    c == ' ' || c == '\t' || c == '\n' || c == '\r'
}

/// The first position at or after `i` that holds the end of a line, or
/// the length of `s`.
pub open spec fn line_end(s: Seq<char>, i: int) -> int
    decreases s.len() - i,
{
    if i < 0 || i >= s.len() {
        s.len() as int
    } else if s[i] == '\n' {
        i
    } else {
        line_end(s, i + 1)
    }
}

/// The first position at or after `i` that holds the start of a token:
/// spaces are passed over, and comments, from `//` to the end of the line.
pub open spec fn skip_space(s: Seq<char>, i: int) -> int
    decreases s.len() - i,
{
    if i < 0 || i >= s.len() {
        s.len() as int
    } else if is_space(s[i]) {
        skip_space(s, i + 1)
    } else if s[i] == '/' && i + 1 < s.len() && s[i + 1] == '/' {
        let e = line_end(s, i + 2);
        if e <= i || e > s.len() {
            s.len() as int
        } else {
            skip_space(s, e)
        }
    } else {
        i
    }
}

/// The first position at or after `i` that holds no digit, or the length of `s`.
pub open spec fn digits_end(s: Seq<char>, i: int) -> int
    decreases s.len() - i,
{
    if i < 0 || i >= s.len() {
        s.len() as int
    } else if !is_digit(s[i]) {
        i
    } else {
        digits_end(s, i + 1)
    }
}

/// The position of the quote that closes the string literal whose content
/// starts at position `i`, or the length of `s` when nothing closes it. A
/// character after a backslash closes nothing.
pub open spec fn closing_quote(s: Seq<char>, i: int) -> int
    decreases s.len() - i,
{
    if i < 0 || i >= s.len() {
        s.len() as int
    } else if s[i] == '"' {
        i
    } else if s[i] == '\\' {
        if i + 1 >= s.len() {
            s.len() as int
        } else {
            closing_quote(s, i + 2)
        }
    } else {
        closing_quote(s, i + 1)
    }
}

/// The symbol that starts with the character `c` followed by `d`, and the
/// number of characters that it is made of.
pub open spec fn symbol_at(c: char, d: Option<char>) -> Option<(Sym, int)> {
    if c == ':' && d == Some(':') {
        Some((Sym::ColonColon, 2))
    } else if c == '=' && d == Some('=') {
        Some((Sym::EqEq, 2))
    } else if c == '!' && d == Some('=') {
        Some((Sym::NotEq, 2))
    } else if c == '<' && d == Some('=') {
        Some((Sym::LessEq, 2))
    } else if c == '>' && d == Some('=') {
        Some((Sym::GreaterEq, 2))
    } else if c == '&' && d == Some('&') {
        Some((Sym::AndAnd, 2))
    } else if c == '|' && d == Some('|') {
        Some((Sym::OrOr, 2))
    } else if c == '(' {
        Some((Sym::LParen, 1))
    } else if c == ')' {
        Some((Sym::RParen, 1))
    } else if c == '{' {
        Some((Sym::LBrace, 1))
    } else if c == '}' {
        Some((Sym::RBrace, 1))
    } else if c == '[' {
        Some((Sym::LBracket, 1))
    } else if c == ']' {
        Some((Sym::RBracket, 1))
    } else if c == ',' {
        Some((Sym::Comma, 1))
    } else if c == ';' {
        Some((Sym::Semicolon, 1))
    } else if c == '.' {
        Some((Sym::Dot, 1))
    } else if c == ':' {
        Some((Sym::Colon, 1))
    } else if c == '<' {
        Some((Sym::Less, 1))
    } else if c == '>' {
        Some((Sym::Greater, 1))
    } else if c == '+' {
        Some((Sym::Plus, 1))
    } else if c == '-' {
        Some((Sym::Minus, 1))
    } else if c == '*' {
        Some((Sym::Star, 1))
    } else if c == '!' {
        Some((Sym::Bang, 1))
    } else {
        None
    }
}

/// The character at position `i`, if there is one.
pub open spec fn char_at(s: Seq<char>, i: int) -> Option<char> {
    if 0 <= i < s.len() {
        Some(s[i])
    } else {
        None
    }
}

/// The token that starts at position `i`, and the position after it.
pub open spec fn token_at(s: Seq<char>, i: int) -> Result<(TokenV, int), ParseError> {
    if i < 0 || i >= s.len() {
        Err(ParseError { kind: ParseErrorKind::UnexpectedEnd, position: i as usize })
    } else if ident_start(s[i]) {
        Ok((TokenV::Ident(s.subrange(i, ident_end(s, i))), ident_end(s, i)))
    } else if is_digit(s[i]) {
        if value_in(s, i, digits_end(s, i)) <= 0x8000_0000_0000_0000 {
            Ok((TokenV::Int(value_in(s, i, digits_end(s, i)) as u64), digits_end(s, i)))
        } else {
            Err(ParseError { kind: ParseErrorKind::IntegerTooLarge, position: i as usize })
        }
    } else if s[i] == '"' {
        let e = closing_quote(s, i + 1);
        if e < s.len() {
            Ok((TokenV::Str(s.subrange(i + 1, e)), e + 1))
        } else {
            Err(ParseError { kind: ParseErrorKind::BadString, position: i as usize })
        }
    } else if s[i] == '?' {
        let e = ident_end(s, i + 1);
        if s.subrange(i + 1, e) == "principal"@ {
            Ok((TokenV::Sym(Sym::SlotPrincipal), e))
        } else if s.subrange(i + 1, e) == "resource"@ {
            Ok((TokenV::Sym(Sym::SlotResource), e))
        } else {
            Err(ParseError { kind: ParseErrorKind::UnexpectedCharacter, position: i as usize })
        }
    } else {
        match symbol_at(s[i], char_at(s, i + 1)) {
            Some((sym, n)) => Ok((TokenV::Sym(sym), i + n)),
            None => Err(
                ParseError { kind: ParseErrorKind::UnexpectedCharacter, position: i as usize },
            ),
        }
    }
}

/// The tokens of `s` from position `i` on, after the tokens `acc`.
pub open spec fn tokens_from(s: Seq<char>, i: int, acc: Seq<TokenV>) -> Result<
    Seq<TokenV>,
    ParseError,
>
    decreases s.len() - i,
{
    let j = skip_space(s, i);
    if i < 0 || j < i || j >= s.len() {
        Ok(acc)
    } else {
        match token_at(s, j) {
            Err(e) => Err(e),
            Ok((t, k)) => if k <= j || k > s.len() {
                Err(ParseError { kind: ParseErrorKind::UnexpectedEnd, position: 0 })
            } else {
                tokens_from(s, k, acc.push(t))
            },
        }
    }
}

/// The tokens of `s`.
pub open spec fn tokens_of(s: Seq<char>) -> Result<Seq<TokenV>, ParseError> {
    tokens_from(s, 0, Seq::empty())
}

fn skip(s: &Vec<char>, start: usize) -> (r: usize)
    ensures
        r == skip_space(s@, start as int),
        start <= s.len() ==> start <= r <= s.len(),
        start > s.len() ==> r == s.len(),
{
    if start >= s.len() {
        return s.len();
    }
    let mut i: usize = start;
    loop
        invariant
            start <= i <= s.len(),
            skip_space(s@, start as int) == skip_space(s@, i as int),
        decreases s.len() - i,
    {
        if i >= s.len() {
            return i;
        }
        let c = s[i];
        if c == ' ' || c == '\t' || c == '\n' || c == '\r' {
            i += 1;
        } else if c == '/' && i + 1 < s.len() && s[i + 1] == '/' {
            let mut e: usize = i + 2;
            while e < s.len() && s[e] != '\n'
                invariant
                    i + 2 <= e <= s.len(),
                    line_end(s@, i + 2) == line_end(s@, e as int),
                decreases s.len() - e,
            {
                e += 1;
            }
            i = e;
        } else {
            return i;
        }
    }
}

fn copy_range(s: &Vec<char>, lo: usize, hi: usize) -> (r: String)
    requires
        lo <= hi <= s.len(),
    ensures
        r@ == s@.subrange(lo as int, hi as int),
{
    let mut out: Vec<char> = Vec::new();
    let mut k: usize = lo;
    while k < hi
        invariant
            lo <= k <= hi <= s.len(),
            out@ == s@.subrange(lo as int, k as int),
        decreases hi - k,
    {
        out.push(s[k]);
        assert(out@ =~= s@.subrange(lo as int, k + 1));
        k += 1;
    }
    string_of(&out)
}

fn find_ident_end(s: &Vec<char>, start: usize) -> (r: usize)
    ensures
        r == ident_end(s@, start as int),
        start <= s.len() ==> start <= r <= s.len(),
        start < s.len() && ident_char(s@[start as int]) ==> start < r,
{
    if start >= s.len() {
        return s.len();
    }
    let mut j: usize = start;
    while j < s.len() && is_ident(s[j])
        invariant
            start <= j <= s.len(),
            ident_end(s@, start as int) == ident_end(s@, j as int),
            j == start || ident_char(s@[start as int]),
        decreases s.len() - j,
    {
        j += 1;
    }
    j
}

fn is_ident(c: char) -> (r: bool)
    ensures
        r == ident_char(c),
{
    ('a' <= c && c <= 'z') || ('A' <= c && c <= 'Z') || c == '_' || ('0' <= c && c <= '9')
}

fn symbol(c: char, d: Option<char>) -> (r: Option<(Sym, usize)>)
    ensures
        r is Some <==> symbol_at(c, d) is Some,
        r matches Some((sym, n)) ==> symbol_at(c, d) == Some((sym, n as int)) && 1 <= n <= 2 && (n
            == 2 ==> d is Some),
{
    let two = match d {
        Some(d) => {
            if c == ':' && d == ':' {
                Some(Sym::ColonColon)
            } else if c == '=' && d == '=' {
                Some(Sym::EqEq)
            } else if c == '!' && d == '=' {
                Some(Sym::NotEq)
            } else if c == '<' && d == '=' {
                Some(Sym::LessEq)
            } else if c == '>' && d == '=' {
                Some(Sym::GreaterEq)
            } else if c == '&' && d == '&' {
                Some(Sym::AndAnd)
            } else if c == '|' && d == '|' {
                Some(Sym::OrOr)
            } else {
                None
            }
        },
        None => None,
    };
    match two {
        Some(sym) => Some((sym, 2)),
        None => {
            if c == '(' {
                Some((Sym::LParen, 1))
            } else if c == ')' {
                Some((Sym::RParen, 1))
            } else if c == '{' {
                Some((Sym::LBrace, 1))
            } else if c == '}' {
                Some((Sym::RBrace, 1))
            } else if c == '[' {
                Some((Sym::LBracket, 1))
            } else if c == ']' {
                Some((Sym::RBracket, 1))
            } else if c == ',' {
                Some((Sym::Comma, 1))
            } else if c == ';' {
                Some((Sym::Semicolon, 1))
            } else if c == '.' {
                Some((Sym::Dot, 1))
            } else if c == ':' {
                Some((Sym::Colon, 1))
            } else if c == '<' {
                Some((Sym::Less, 1))
            } else if c == '>' {
                Some((Sym::Greater, 1))
            } else if c == '+' {
                Some((Sym::Plus, 1))
            } else if c == '-' {
                Some((Sym::Minus, 1))
            } else if c == '*' {
                Some((Sym::Star, 1))
            } else if c == '!' {
                Some((Sym::Bang, 1))
            } else {
                None
            }
        },
    }
}

fn read_token(s: &Vec<char>, i: usize) -> (r: Result<(Token, usize), ParseError>)
    requires
        i < s.len(),
    ensures
        r is Ok <==> token_at(s@, i as int) is Ok,
        r matches Ok((t, k)) ==> token_at(s@, i as int) == Ok::<(TokenV, int), ParseError>(
            (t@, k as int),
        ) && i < k <= s.len(),
        r is Err ==> token_at(s@, i as int) == Err::<(TokenV, int), ParseError>(r->Err_0),
{
    let c = s[i];
    if ('a' <= c && c <= 'z') || ('A' <= c && c <= 'Z') || c == '_' {
        let e = find_ident_end(s, i);
        Ok((Token::Ident(copy_range(s, i, e)), e))
    } else if '0' <= c && c <= '9' {
        let mut e: usize = i;
        while e < s.len() && '0' <= s[e] && s[e] <= '9'
            invariant
                i <= e <= s.len(),
                digits_end(s@, i as int) == digits_end(s@, e as int),
                forall|k: int| i <= k < e ==> is_digit(#[trigger] s@[k]),
                e > i || is_digit(s@[i as int]),
            decreases s.len() - e,
        {
            e += 1;
        }
        match read_digits(s, i, e, 0x8000_0000_0000_0000) {
            Some(v) => Ok((Token::Int(v as u64), e)),
            None => Err(ParseError { kind: ParseErrorKind::IntegerTooLarge, position: i }),
        }
    } else if c == '"' {
        let mut e: usize = i + 1;
        while e < s.len() && s[e] != '"'
            invariant
                i + 1 <= e,
                closing_quote(s@, i + 1) == closing_quote(s@, e as int),
            decreases s.len() - e,
        {
            if s[e] == '\\' {
                if e + 1 >= s.len() {
                    e = s.len();
                } else {
                    e += 2;
                }
            } else {
                e += 1;
            }
        }
        if e < s.len() {
            Ok((Token::Str(copy_range(s, i + 1, e)), e + 1))
        } else {
            Err(ParseError { kind: ParseErrorKind::BadString, position: i })
        }
    } else if c == '?' {
        let e = find_ident_end(s, i + 1);
        let word = copy_range(s, i + 1, e);
        if crate::text::text_is(&word, "principal") {
            proof {
                reveal_strlit("principal");
            }
            Ok((Token::Sym(Sym::SlotPrincipal), e))
        } else if crate::text::text_is(&word, "resource") {
            proof {
                reveal_strlit("resource");
            }
            Ok((Token::Sym(Sym::SlotResource), e))
        } else {
            Err(ParseError { kind: ParseErrorKind::UnexpectedCharacter, position: i })
        }
    } else {
        let d = if i + 1 < s.len() {
            Some(s[i + 1])
        } else {
            None
        };
        match symbol(c, d) {
            Some((sym, n)) => Ok((Token::Sym(sym), i + n)),
            None => Err(ParseError { kind: ParseErrorKind::UnexpectedCharacter, position: i }),
        }
    }
}

/// The tokens of `text`.
pub fn tokenize(text: &str) -> (r: Result<Vec<Token>, ParseError>)
    ensures
        r is Ok <==> tokens_of(text@) is Ok,
        r is Ok ==> tokens_view(r->Ok_0@) == tokens_of(text@)->Ok_0,
        r is Err ==> r->Err_0 == tokens_of(text@)->Err_0,
{
    let s = chars_of(text);
    let mut out: Vec<Token> = Vec::new();
    let mut i: usize = 0;
    assert(tokens_view(out@) =~= Seq::empty());
    loop
        invariant
            i <= s.len(),
            s@ == text@,
            tokens_of(text@) == tokens_from(s@, i as int, tokens_view(out@)),
        decreases s.len() - i,
    {
        let j = skip(&s, i);
        if j >= s.len() {
            return Ok(out);
        }
        match read_token(&s, j) {
            Err(e) => {
                return Err(e);
            },
            Ok((t, k)) => {
                let ghost before = tokens_view(out@);
                out.push(t);
                assert(tokens_view(out@) =~= before.push(t@));
                i = k;
            },
        }
    }
}

} // verus!

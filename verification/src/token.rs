use vstd::prelude::*;
use crate::ann::Ann;
use crate::data::Data;
use crate::data::DataModel;
use crate::local::Local;

verus! {

// ---------------------------------------------------------------------------
// Character classes of the token grammar.
// ---------------------------------------------------------------------------

/// Whitespace stripped between tokens: every Unicode white-space
/// character. A newline is not included: it is itself a separator token.
pub open spec fn is_space(c: char) -> bool {
    let w = c as u32;
    ||| w == 0x09
    ||| w == 0x0B
    ||| w == 0x0C
    ||| w == 0x0D
    ||| w == 0x20
    ||| w == 0x85
    ||| w == 0xA0
    ||| w == 0x1680
    ||| 0x2000 <= w && w <= 0x200A
    ||| w == 0x2028
    ||| w == 0x2029
    ||| w == 0x202F
    ||| w == 0x205F
    ||| w == 0x3000
}

/// A character that may open a symbol.
pub open spec fn is_symbol_start(c: char) -> bool {
    (97 <= c as u32 && c as u32 <= 122)  // 'a'..='z'
    || (65 <= c as u32 && c as u32 <= 90)  // 'A'..='Z'
    || c == '_'
}

/// A character that may continue a symbol.
pub open spec fn is_symbol_char(c: char) -> bool {
    is_symbol_start(c) || (48 <= c as u32 && c as u32 <= 57)  // '0'..='9'
}

pub fn space_char(c: char) -> (b: bool)
    ensures
        b == is_space(c),
{
    let w = c as u32;
    w == 0x09 || w == 0x0B || w == 0x0C || w == 0x0D || w == 0x20 || w == 0x85 || w == 0xA0 || w
        == 0x1680 || (0x2000 <= w && w <= 0x200A) || w == 0x2028 || w == 0x2029 || w == 0x202F
        || w == 0x205F || w == 0x3000
}

pub fn symbol_start_char(c: char) -> (b: bool)
    ensures
        b == is_symbol_start(c),
{
    let u = c as u32;
    (97 <= u && u <= 122) || (65 <= u && u <= 90) || c == '_'
}

pub fn symbol_char(c: char) -> (b: bool)
    ensures
        b == is_symbol_char(c),
{
    let u = c as u32;
    symbol_start_char(c) || (48 <= u && u <= 57)
}

// ---------------------------------------------------------------------------
// Maximal-munch lengths, as recursive scans over the character sequence.
// ---------------------------------------------------------------------------

/// How many leading whitespace characters a strip consumes.
pub open spec fn space_len(s: Seq<char>) -> nat
    decreases s.len(),
{
    if s.len() > 0 && is_space(s[0]) {
        1 + space_len(s.skip(1))
    } else {
        0
    }
}

/// How many leading symbol characters a symbol token consumes.
pub open spec fn symbol_len(s: Seq<char>) -> nat
    decreases s.len(),
{
    if s.len() > 0 && is_symbol_char(s[0]) {
        1 + symbol_len(s.skip(1))
    } else {
        0
    }
}

/// The length of a string literal's body: `s` is the text after the opening
/// quote, and the result counts the characters before the closing quote.
/// `None` means the literal is unterminated.
pub open spec fn string_body_len(s: Seq<char>) -> Option<nat>
    decreases s.len(),
{
    if s.len() == 0 {
        Option::None
    } else if s[0] == '"' {
        Option::Some(0)
    } else {
        match string_body_len(s.skip(1)) {
            Option::None => Option::None,
            Option::Some(n) => Option::Some(n + 1),
        }
    }
}

/// Characterizes `space_len` by its stopping point.
pub proof fn lemma_space_len_chars(s: Seq<char>, n: nat)
    requires
        n <= s.len(),
        forall|i: int| 0 <= i < n ==> is_space(#[trigger] s[i]),
        n == s.len() || !is_space(s[n as int]),
    ensures
        space_len(s) == n,
    decreases n,
{
    if n == 0 {
    } else {
        assert(is_space(s[0]));
        assert(forall|i: int| 0 <= i < n - 1 ==> #[trigger] s.skip(1)[i] == s[i + 1]);
        lemma_space_len_chars(s.skip(1), (n - 1) as nat);
    }
}

/// Characterizes `symbol_len` by its stopping point.
pub proof fn lemma_symbol_len_chars(s: Seq<char>, n: nat)
    requires
        n <= s.len(),
        forall|i: int| 0 <= i < n ==> is_symbol_char(#[trigger] s[i]),
        n == s.len() || !is_symbol_char(s[n as int]),
    ensures
        symbol_len(s) == n,
    decreases n,
{
    if n == 0 {
    } else {
        assert(is_symbol_char(s[0]));
        assert(forall|i: int| 0 <= i < n - 1 ==> #[trigger] s.skip(1)[i] == s[i + 1]);
        lemma_symbol_len_chars(s.skip(1), (n - 1) as nat);
    }
}

/// A string body closed at position `n` has body length `n`.
pub proof fn lemma_string_body_closed(s: Seq<char>, n: nat)
    requires
        n < s.len(),
        forall|i: int| 0 <= i < n ==> #[trigger] s[i] != '"',
        s[n as int] == '"',
    ensures
        string_body_len(s) == Option::Some(n),
    decreases n,
{
    if n == 0 {
    } else {
        assert(s[0] != '"');
        assert(forall|i: int| 0 <= i < n - 1 ==> #[trigger] s.skip(1)[i] == s[i + 1]);
        lemma_string_body_closed(s.skip(1), (n - 1) as nat);
    }
}

/// A string body with no closing quote anywhere is unterminated.
pub proof fn lemma_string_body_open(s: Seq<char>)
    requires
        forall|i: int| 0 <= i < s.len() ==> #[trigger] s[i] != '"',
    ensures
        string_body_len(s) == Option::None::<nat>,
    decreases s.len(),
{
    if s.len() > 0 {
        assert(forall|i: int| 0 <= i < s.len() - 1 ==> #[trigger] s.skip(1)[i] == s[i + 1]);
        lemma_string_body_open(s.skip(1));
    }
}

/// The munch lengths never overrun the text.
pub proof fn lemma_munch_bounds(s: Seq<char>)
    ensures
        space_len(s) <= s.len(),
        symbol_len(s) <= s.len(),
        string_body_len(s) matches Option::Some(n) ==> n < s.len(),
    decreases s.len(),
{
    if s.len() > 0 {
        lemma_munch_bounds(s.skip(1));
    }
}

// ---------------------------------------------------------------------------
// Tokens and their model.
// ---------------------------------------------------------------------------

/// The keyword spelling `true`.
pub open spec fn is_true_word(w: Seq<char>) -> bool {
    w.len() == 4 && w[0] == 't' && w[1] == 'r' && w[2] == 'u' && w[3] == 'e'
}

/// The keyword spelling `false`.
pub open spec fn is_false_word(w: Seq<char>) -> bool {
    w.len() == 5 && w[0] == 'f' && w[1] == 'a' && w[2] == 'l' && w[3] == 's' && w[4] == 'e'
}

/// The mathematical model of one token.
pub enum TokenModel {
    OpenBracket,
    CloseBracket,
    OpenParen,
    CloseParen,
    Sep,
    Assign,
    Lambda,
    Symbol(Seq<char>),
    Boolean(DataModel),
    Str(DataModel),
}

/// One token of the surface syntax.
#[derive(Clone, Debug, PartialEq, Eq)]
pub enum Token {
    OpenBracket,
    CloseBracket,
    OpenParen,
    CloseParen,
    Sep,
    Assign,
    Lambda,
    Symbol(Local),
    Boolean(Data),
    Str(Data),
}

impl View for Token {
    type V = TokenModel;

    open spec fn view(&self) -> TokenModel {
        match self {
            Token::OpenBracket => TokenModel::OpenBracket,
            Token::CloseBracket => TokenModel::CloseBracket,
            Token::OpenParen => TokenModel::OpenParen,
            Token::CloseParen => TokenModel::CloseParen,
            Token::Sep => TokenModel::Sep,
            Token::Assign => TokenModel::Assign,
            Token::Lambda => TokenModel::Lambda,
            Token::Symbol(l) => TokenModel::Symbol(l@),
            Token::Boolean(d) => TokenModel::Boolean(d@),
            Token::Str(d) => TokenModel::Str(d@),
        }
    }
}

/// The model of an annotated token: the token and the span it came from.
pub struct AnnTokenModel {
    pub kind: TokenModel,
    pub offset: nat,
    pub length: nat,
}

/// A token annotated with the span of source text it was produced from.
#[derive(Clone, Debug, PartialEq, Eq)]
pub struct AnnToken {
    pub kind: Token,
    pub ann: Ann,
}

impl View for AnnToken {
    type V = AnnTokenModel;

    open spec fn view(&self) -> AnnTokenModel {
        AnnTokenModel { kind: self.kind@, offset: self.ann.offset as nat, length: self.ann.length as nat }
    }
}

impl AnnToken {
    pub fn new(kind: Token, ann: Ann) -> (t: AnnToken)
        ensures
            t.kind == kind,
            t.ann == ann,
    {
        AnnToken { kind, ann }
    }
}

// ---------------------------------------------------------------------------
// The tokenizer: what the next token of a text is.
// ---------------------------------------------------------------------------

/// What token stands at the head of `s`, and how many characters it spans.
/// `None` means no token of the grammar starts here.
pub open spec fn next_token(s: Seq<char>) -> Option<(TokenModel, nat)> {
    if s.len() == 0 {
        Option::None
    } else {
        let c = s[0];
        if c == '{' {
            Option::Some((TokenModel::OpenBracket, 1 as nat))
        } else if c == '}' {
            Option::Some((TokenModel::CloseBracket, 1 as nat))
        } else if c == '(' {
            Option::Some((TokenModel::OpenParen, 1 as nat))
        } else if c == ')' {
            Option::Some((TokenModel::CloseParen, 1 as nat))
        } else if c == '\n' || c == ';' {
            Option::Some((TokenModel::Sep, 1 as nat))
        } else if c == '=' {
            Option::Some((TokenModel::Assign, 1 as nat))
        } else if c == '-' {
            if s.len() >= 2 && s[1] == '>' {
                Option::Some((TokenModel::Lambda, 2 as nat))
            } else {
                Option::None
            }
        } else if c == '"' {
            match string_body_len(s.skip(1)) {
                Option::None => Option::None,
                Option::Some(n) => Option::Some(
                    (TokenModel::Str(DataModel::Str(s.subrange(1, n as int + 1))), n + 2),
                ),
            }
        } else if is_symbol_start(c) {
            let n = symbol_len(s);
            let w = s.subrange(0, n as int);
            if is_true_word(w) {
                Option::Some((TokenModel::Boolean(DataModel::Boolean(true)), n))
            } else if is_false_word(w) {
                Option::Some((TokenModel::Boolean(DataModel::Boolean(false)), n))
            } else {
                Option::Some((TokenModel::Symbol(w), n))
            }
        } else {
            Option::None
        }
    }
}

/// A recognized token spans at least one and at most all of the characters.
pub proof fn lemma_next_token_len(s: Seq<char>)
    ensures
        next_token(s) matches Option::Some(p) ==> 1 <= p.1 <= s.len(),
{
    lemma_munch_bounds(s);
    lemma_munch_bounds(s.skip(1));
    if s.len() > 0 && is_symbol_start(s[0]) {
        assert(symbol_len(s) >= 1);
    }
}

impl Token {
    /// Identify the next token at the head of `text`.
    pub fn from(text: &str) -> (r: Option<(Token, usize)>)
        ensures
            match r {
                Option::None => next_token(text@) is None,
                Option::Some(p) => next_token(text@) == Option::Some((p.0@, p.1 as nat)),
            },
    {
        let len = text.unicode_len();
        if len == 0 {
            return None;
        }
        let c = text.get_char(0);
        if c == '{' {
            Some((Token::OpenBracket, 1))
        } else if c == '}' {
            Some((Token::CloseBracket, 1))
        } else if c == '(' {
            Some((Token::OpenParen, 1))
        } else if c == ')' {
            Some((Token::CloseParen, 1))
        } else if c == '\n' || c == ';' {
            Some((Token::Sep, 1))
        } else if c == '=' {
            Some((Token::Assign, 1))
        } else if c == '-' {
            if len >= 2 && text.get_char(1) == '>' {
                Some((Token::Lambda, 2))
            } else {
                None
            }
        } else if c == '"' {
            let mut j: usize = 1;
            while j < len && text.get_char(j) != '"'
                invariant
                    1 <= j <= len,
                    len == text@.len(),
                    forall|i: int| 1 <= i < j ==> #[trigger] text@[i] != '"',
                decreases len - j,
            {
                j += 1;
            }
            if j == len {
                proof {
                    assert(forall|i: int|
                        0 <= i < text@.skip(1).len() ==> #[trigger] text@.skip(1)[i] == text@[i + 1]);
                    lemma_string_body_open(text@.skip(1));
                }
                None
            } else {
                let body = text.substring_char(1, j);
                proof {
                    assert(forall|i: int|
                        0 <= i < text@.skip(1).len() ==> #[trigger] text@.skip(1)[i] == text@[i + 1]);
                    lemma_string_body_closed(text@.skip(1), (j - 1) as nat);
                    assert(text@.skip(1).subrange(0, j - 1) =~= text@.subrange(1, j as int));
                }
                Some((Token::Str(Data::Str(body.to_owned())), j + 1))
            }
        } else if symbol_start_char(c) {
            let mut n: usize = 0;
            while n < len && symbol_char(text.get_char(n))
                invariant
                    0 <= n <= len,
                    len == text@.len(),
                    forall|i: int| 0 <= i < n ==> is_symbol_char(#[trigger] text@[i]),
                decreases len - n,
            {
                n += 1;
            }
            proof {
                lemma_symbol_len_chars(text@, n as nat);
            }
            let word = text.substring_char(0, n);
            let is_true = n == 4 && text.get_char(0) == 't' && text.get_char(1) == 'r'
                && text.get_char(2) == 'u' && text.get_char(3) == 'e';
            let is_false = n == 5 && text.get_char(0) == 'f' && text.get_char(1) == 'a'
                && text.get_char(2) == 'l' && text.get_char(3) == 's' && text.get_char(4) == 'e';
            if is_true {
                Some((Token::Boolean(Data::Boolean(true)), n))
            } else if is_false {
                Some((Token::Boolean(Data::Boolean(false)), n))
            } else {
                Some((Token::Symbol(Local::new(word.to_owned())), n))
            }
        } else {
            None
        }
    }
}

} // verus!

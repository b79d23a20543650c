//! The lexer: source text to tokens with their spans, counted in characters.
//!
//! Tokens may be surrounded by white space. A semicolon stands for a dot
//! followed by a comma. Lexing stops at the first place where no token
//! starts.
use vstd::prelude::*;

use std::ops::Range;

verus! {

broadcast use vstd::string::group_string_axioms;

/// The characters with the Unicode `White_Space` property.
pub open spec fn is_white_space(c: char) -> bool {
    ||| c == '\t'
    ||| c == '\n'
    ||| c == '\u{0B}'
    ||| c == '\u{0C}'
    ||| c == '\r'
    ||| c == ' '
    ||| c == '\u{85}'
    ||| c == '\u{A0}'
    ||| c == '\u{1680}'
    ||| ('\u{2000}' <= c && c <= '\u{200A}')
    ||| c == '\u{2028}'
    ||| c == '\u{2029}'
    ||| c == '\u{202F}'
    ||| c == '\u{205F}'
    ||| c == '\u{3000}'
}

/// Whether `c` has the Unicode `White_Space` property.
pub fn white_space(c: char) -> (r: bool)
    ensures
        r == is_white_space(c),
{
    c == '\t' || c == '\n' || c == '\u{0B}' || c == '\u{0C}' || c == '\r' || c == ' ' || c == '\u{85}'
        || c == '\u{A0}' || c == '\u{1680}' || ('\u{2000}' <= c && c <= '\u{200A}') || c == '\u{2028}'
        || c == '\u{2029}' || c == '\u{202F}' || c == '\u{205F}' || c == '\u{3000}'
}

/// The characters of `s`, in order.
pub fn chars_of(s: &str) -> (r: Vec<char>)
    ensures
        r@ == s@,
{
    let mut r: Vec<char> = Vec::new();
    for c in iter: s.chars()
        invariant
            iter.seq() == s@,
            r@ == s@.take(iter.index() as int),
        ensures
            r@ == s@,
    {
        r.push(c);
    }
    r
}

/// A token.
#[derive(Debug, Clone, PartialEq)]
pub enum Token {
    Comment(String),
    Ident(String),
    Int(i64),
    Str(String),
    Uuid(u128),
    Brand(String),
    Let,
    In,
    Divide,
    Perform,
    TypeAnnotation,
    Trait,
    Attribute,
    FromHere,
    Sum,
    Product,
    Comma,
    Dot,
    Apply,
    ArrayBegin,
    ArrayEnd,
    SetBegin,
    SetEnd,
    Hole,
    Infer,
    Lambda,
    Reference,
    Continue,
    Arrow,
    EArrow,
    Minus,
    Include,
    Import,
    Export,
    NumberType,
    StringType,
    Alias,
    Brands,
    Type,
    This,
    Handle,
    Card,
    A,
}

/// Mathematical model of [`Token`].
pub enum SpecToken {
    Comment(Seq<char>),
    Ident(Seq<char>),
    Int(int),
    Str(Seq<char>),
    Uuid(u128),
    Brand(Seq<char>),
    Let,
    In,
    Divide,
    Perform,
    TypeAnnotation,
    Trait,
    Attribute,
    FromHere,
    Sum,
    Product,
    Comma,
    Dot,
    Apply,
    ArrayBegin,
    ArrayEnd,
    SetBegin,
    SetEnd,
    Hole,
    Infer,
    Lambda,
    Reference,
    Continue,
    Arrow,
    EArrow,
    Minus,
    Include,
    Import,
    Export,
    NumberType,
    StringType,
    Alias,
    Brands,
    Type,
    This,
    Handle,
    Card,
    A,
}

impl View for Token {
    type V = SpecToken;

    open spec fn view(&self) -> SpecToken {
        match self {
            Token::Comment(t) => SpecToken::Comment(t@),
            Token::Ident(t) => SpecToken::Ident(t@),
            Token::Int(v) => SpecToken::Int(*v as int),
            Token::Str(t) => SpecToken::Str(t@),
            Token::Uuid(v) => SpecToken::Uuid(*v),
            Token::Brand(t) => SpecToken::Brand(t@),
            Token::Let => SpecToken::Let,
            Token::In => SpecToken::In,
            Token::Divide => SpecToken::Divide,
            Token::Perform => SpecToken::Perform,
            Token::TypeAnnotation => SpecToken::TypeAnnotation,
            Token::Trait => SpecToken::Trait,
            Token::Attribute => SpecToken::Attribute,
            Token::FromHere => SpecToken::FromHere,
            Token::Sum => SpecToken::Sum,
            Token::Product => SpecToken::Product,
            Token::Comma => SpecToken::Comma,
            Token::Dot => SpecToken::Dot,
            Token::Apply => SpecToken::Apply,
            Token::ArrayBegin => SpecToken::ArrayBegin,
            Token::ArrayEnd => SpecToken::ArrayEnd,
            Token::SetBegin => SpecToken::SetBegin,
            Token::SetEnd => SpecToken::SetEnd,
            Token::Hole => SpecToken::Hole,
            Token::Infer => SpecToken::Infer,
            Token::Lambda => SpecToken::Lambda,
            Token::Reference => SpecToken::Reference,
            Token::Continue => SpecToken::Continue,
            Token::Arrow => SpecToken::Arrow,
            Token::EArrow => SpecToken::EArrow,
            Token::Minus => SpecToken::Minus,
            Token::Include => SpecToken::Include,
            Token::Import => SpecToken::Import,
            Token::Export => SpecToken::Export,
            Token::NumberType => SpecToken::NumberType,
            Token::StringType => SpecToken::StringType,
            Token::Alias => SpecToken::Alias,
            Token::Brands => SpecToken::Brands,
            Token::Type => SpecToken::Type,
            Token::This => SpecToken::This,
            Token::Handle => SpecToken::Handle,
            Token::Card => SpecToken::Card,
            Token::A => SpecToken::A,
        }
    }
}

/// The kinds of characters that runs are made of.
#[derive(Clone, Copy)]
pub enum CharClass {
    Digit,
    HexDigit,
    /// A character that can begin a word of an identifier.
    IdentStart,
    /// A character that can continue a word of an identifier.
    IdentRest,
    /// A character that can begin a keyword.
    KeywordStart,
    /// A character that can continue a keyword.
    KeywordRest,
    WhiteSpace,
}

/// The characters that end a word of an identifier.
pub open spec fn is_symbol_char(c: char) -> bool {
    ||| c == '%' ||| c == '/' ||| c == '&' ||| c == '$' ||| c == '<' ||| c == '>' ||| c == '!'
    ||| c == '#' ||| c == '*' ||| c == '^' ||| c == '?' ||| c == '\\' ||| c == '[' ||| c == ']'
    ||| c == '{' ||| c == '}' ||| c == '+' ||| c == '=' ||| c == ';' ||| c == ':' ||| c == '~'
    ||| c == ',' ||| c == '.' ||| c == '(' ||| c == ')'
}

pub open spec fn is_digit(c: char) -> bool {
    '0' <= c && c <= '9'
}

pub open spec fn is_ascii_alpha(c: char) -> bool {
    ('a' <= c && c <= 'z') || ('A' <= c && c <= 'Z')
}

pub open spec fn in_class(k: CharClass, c: char) -> bool {
    match k {
        CharClass::Digit => is_digit(c),
        CharClass::HexDigit => is_digit(c) || ('a' <= c && c <= 'f') || ('A' <= c && c <= 'F'),
        CharClass::IdentStart => !is_white_space(c) && !is_symbol_char(c) && !is_digit(c) && c != '@'
            && c != '_' && c != '-' && c != '"' && c != '\'',
        CharClass::IdentRest => !is_white_space(c) && !is_symbol_char(c),
        CharClass::KeywordStart => is_ascii_alpha(c) || c == '_',
        CharClass::KeywordRest => is_ascii_alpha(c) || is_digit(c) || c == '_',
        CharClass::WhiteSpace => is_white_space(c),
    }
}

/// The end of the longest run of characters of class `k` from `p`.
pub open spec fn run_end(s: Seq<char>, p: int, k: CharClass) -> int
    decreases s.len() - p,
{
    if 0 <= p < s.len() && in_class(k, s[p]) {
        run_end(s, p + 1, k)
    } else {
        p
    }
}

/// The place after the white space from `p`.
pub open spec fn skip_ws(s: Seq<char>, p: int) -> int {
    run_end(s, p, CharClass::WhiteSpace)
}

/// The end of a comment whose parentheses are open `depth` deep at `q`.
pub open spec fn comment_scan(s: Seq<char>, q: int, depth: nat) -> Option<int>
    decreases s.len() - q,
{
    if q < 0 || q >= s.len() {
        None
    } else if s[q] == ')' {
        if depth <= 1 {
            Some(q + 1)
        } else {
            comment_scan(s, q + 1, (depth - 1) as nat)
        }
    } else if s[q] == '(' {
        comment_scan(s, q + 1, depth + 1)
    } else {
        comment_scan(s, q + 1, depth)
    }
}

/// The end of the comment at `p`: a parenthesis and the text up to the one
/// that balances it.
pub open spec fn comment_end(s: Seq<char>, p: int) -> Option<int> {
    if 0 <= p < s.len() && s[p] == '(' {
        comment_scan(s, p + 1, 1)
    } else {
        None
    }
}

/// The end of the integer at `p`: an optional minus, then `0` or digits not
/// beginning with `0`.
pub open spec fn int_end(s: Seq<char>, p: int) -> Option<int> {
    let q = if 0 <= p < s.len() && s[p] == '-' { p + 1 } else { p };
    if 0 <= q < s.len() && s[q] == '0' {
        Some(q + 1)
    } else if 0 <= q < s.len() && is_digit(s[q]) {
        Some(run_end(s, q + 1, CharClass::Digit))
    } else {
        None
    }
}

/// The value of decimal digits.
pub open spec fn digits_value(d: Seq<char>) -> int
    decreases d.len(),
{
    if d.len() == 0 {
        0
    } else {
        digits_value(d.drop_last()) * 10 + (d.last() as int - '0' as int)
    }
}

/// The value of an integer's text.
pub open spec fn int_value(t: Seq<char>) -> int {
    if t.len() > 0 && t[0] == '-' {
        -digits_value(t.drop_first())
    } else {
        digits_value(t)
    }
}

/// The character that an escape with `c` stands for.
pub open spec fn escape_of(c: char) -> Option<char> {
    if c == '\\' {
        Some('\\')
    } else if c == '"' {
        Some('"')
    } else if c == 'n' {
        Some('\n')
    } else if c == 'r' {
        Some('\r')
    } else if c == 't' {
        Some('\t')
    } else {
        None
    }
}

/// The characters of a string from `q` up to its closing quote, escapes
/// read, and the place after the quote.
pub open spec fn string_scan(s: Seq<char>, q: int) -> Option<(Seq<char>, int)>
    decreases s.len() - q,
{
    if q < 0 || q >= s.len() {
        None
    } else if s[q] == '"' {
        Some((seq![], q + 1))
    } else if s[q] == '\\' {
        if q + 1 < s.len() && escape_of(s[q + 1]) is Some {
            match string_scan(s, q + 2) {
                Some((rest, e)) => Some((seq![escape_of(s[q + 1])->0] + rest, e)),
                None => None,
            }
        } else {
            None
        }
    } else {
        match string_scan(s, q + 1) {
            Some((rest, e)) => Some((seq![s[q]] + rest, e)),
            None => None,
        }
    }
}

/// `t` with each pair `a`, `b`, from left to right, replaced by `r`.
pub open spec fn replace_pair(t: Seq<char>, a: char, b: char, r: char) -> Seq<char>
    decreases t.len(),
{
    if t.len() == 0 {
        t
    } else if t.len() >= 2 && t[0] == a && t[1] == b {
        seq![r] + replace_pair(t.subrange(2, t.len() as int), a, b, r)
    } else {
        seq![t[0]] + replace_pair(t.drop_first(), a, b, r)
    }
}

/// The text of a string once escapes, read a second time, are replaced.
pub open spec fn unescape(t: Seq<char>) -> Seq<char> {
    replace_pair(
        replace_pair(
            replace_pair(replace_pair(replace_pair(t, '\\', '\\', '\\'), '\\', '"', '"'), '\\', 'n', '\n'),
            '\\',
            'r',
            '\r',
        ),
        '\\',
        't',
        '\t',
    )
}

/// The words of the identifier at `p`, joined by single spaces, and its
/// end: words are separated by white space.
pub open spec fn ident_scan(s: Seq<char>, p: int) -> Option<(Seq<char>, int)>
    decreases s.len() - p,
{
    if 0 <= p < s.len() && in_class(CharClass::IdentStart, s[p]) {
        let e = run_end(s, p + 1, CharClass::IdentRest);
        let w = skip_ws(s, e);
        proof {
            lemma_run_end(s, p + 1, CharClass::IdentRest);
            lemma_run_end(s, e, CharClass::WhiteSpace);
        }
        if w < s.len() && in_class(CharClass::IdentStart, s[w]) {
            match ident_scan(s, w) {
                Some((rest, f)) => Some((s.subrange(p, e) + seq![' '] + rest, f)),
                None => Some((s.subrange(p, e), e)),
            }
        } else {
            Some((s.subrange(p, e), e))
        }
    } else {
        None
    }
}

/// The hexadecimal digits of the groups at `q`, each of at least four
/// digits, separated by hyphens, and their end.
pub open spec fn hex_groups(s: Seq<char>, q: int) -> Option<(Seq<char>, int)>
    decreases s.len() - q,
{
    let e = run_end(s, q, CharClass::HexDigit);
    proof {
        lemma_run_end(s, q, CharClass::HexDigit);
    }
    if e - q >= 4 {
        if e < s.len() && s[e] == '-' {
            match hex_groups(s, e + 1) {
                Some((rest, f)) => Some((s.subrange(q, e) + rest, f)),
                None => Some((s.subrange(q, e), e)),
            }
        } else {
            Some((s.subrange(q, e), e))
        }
    } else {
        None
    }
}

/// The value of hexadecimal digits.
pub open spec fn hex_value(d: Seq<char>) -> int
    decreases d.len(),
{
    if d.len() == 0 {
        0
    } else {
        hex_value(d.drop_last()) * 16 + hex_digit_value(d.last())
    }
}

pub open spec fn hex_digit_value(c: char) -> int {
    if is_digit(c) {
        c as int - '0' as int
    } else if 'a' <= c && c <= 'f' {
        c as int - 'a' as int + 10
    } else {
        c as int - 'A' as int + 10
    }
}

/// The identifier that hexadecimal digits stand for: thirty-two digits, read
/// as one number.
pub open spec fn uuid_of(d: Seq<char>) -> Option<u128> {
    if d.len() == 32 {
        Some(hex_value(d) as u128)
    } else {
        None
    }
}

pub proof fn lemma_run_end(s: Seq<char>, p: int, k: CharClass)
    ensures
        run_end(s, p, k) >= p,
        0 <= p <= s.len() ==> run_end(s, p, k) <= s.len(),
        forall|i: int| p <= i < run_end(s, p, k) ==> in_class(k, #[trigger] s[i]),
        0 <= run_end(s, p, k) < s.len() ==> !in_class(k, s[run_end(s, p, k)]),
    decreases s.len() - p,
{
    if 0 <= p < s.len() && in_class(k, s[p]) {
        lemma_run_end(s, p + 1, k);
    }
}

/// Whether `c` is of class `k`.
pub fn class_has(k: CharClass, c: char) -> (r: bool)
    ensures
        r == in_class(k, c),
{
    let digit = '0' <= c && c <= '9';
    let alpha = ('a' <= c && c <= 'z') || ('A' <= c && c <= 'Z');
    match k {
        CharClass::Digit => digit,
        CharClass::HexDigit => digit || ('a' <= c && c <= 'f') || ('A' <= c && c <= 'F'),
        CharClass::IdentStart => !white_space(c) && !symbol_char(c) && !digit && c != '@' && c != '_' && c
            != '-' && c != '"' && c != '\'',
        CharClass::IdentRest => !white_space(c) && !symbol_char(c),
        CharClass::KeywordStart => alpha || c == '_',
        CharClass::KeywordRest => alpha || digit || c == '_',
        CharClass::WhiteSpace => white_space(c),
    }
}

fn symbol_char(c: char) -> (r: bool)
    ensures
        r == is_symbol_char(c),
{
    c == '%' || c == '/' || c == '&' || c == '$' || c == '<' || c == '>' || c == '!' || c == '#' || c == '*'
        || c == '^' || c == '?' || c == '\\' || c == '[' || c == ']' || c == '{' || c == '}' || c == '+'
        || c == '=' || c == ';' || c == ':' || c == '~' || c == ',' || c == '.' || c == '(' || c == ')'
}

/// The end of the longest run of characters of class `k` from `p`.
pub fn run_end_at(s: &Vec<char>, p: usize, k: CharClass) -> (r: usize)
    requires
        p <= s@.len(),
    ensures
        r == run_end(s@, p as int, k),
        p <= r <= s@.len(),
{
    let mut q = p;
    while q < s.len() && class_has(k, s[q])
        invariant
            p <= q <= s@.len(),
            run_end(s@, q as int, k) == run_end(s@, p as int, k),
        decreases s@.len() - q,
    {
        q += 1;
    }
    q
}

/// The end of the comment at `p`, if one is there.
fn comment_at(s: &Vec<char>, p: usize) -> (r: Option<usize>)
    requires
        p <= s@.len(),
    ensures
        match r {
            Some(e) => comment_end(s@, p as int) == Some(e as int),
            None => comment_end(s@, p as int) is None,
        },
        r matches Some(e) ==> p < e <= s@.len(),
{
    if p >= s.len() || s[p] != '(' {
        return None;
    }
    let mut q = p + 1;
    let mut depth: usize = 1;
    while q < s.len()
        invariant
            p < q <= s@.len(),
            1 <= depth <= q - p,
            comment_end(s@, p as int) == comment_scan(s@, q as int, depth as nat),
        decreases s@.len() - q,
    {
        if s[q] == ')' {
            if depth <= 1 {
                return Some(q + 1);
            }
            depth -= 1;
        } else if s[q] == '(' {
            depth += 1;
        }
        q += 1;
    }
    None
}

/// Digits of a number up to `j`, read as a decimal number, are no more than
/// all of its digits.
proof fn lemma_digits_prefix(d: Seq<char>, j: int)
    requires
        0 <= j <= d.len(),
        forall|i: int| 0 <= i < d.len() ==> is_digit(#[trigger] d[i]),
    ensures
        0 <= digits_value(d.subrange(0, j)) <= digits_value(d),
    decreases d.len() - j,
{
    if j < d.len() {
        let e = d.subrange(0, j + 1);
        assert(e.drop_last() =~= d.subrange(0, j));
        lemma_digits_prefix(d, j + 1);
    } else {
        assert(d.subrange(0, j) =~= d);
    }
    lemma_digits_nonneg(d.subrange(0, j));
}

proof fn lemma_digits_nonneg(d: Seq<char>)
    requires
        forall|i: int| 0 <= i < d.len() ==> is_digit(#[trigger] d[i]),
    ensures
        digits_value(d) >= 0,
    decreases d.len(),
{
    if d.len() > 0 {
        assert forall|i: int| 0 <= i < d.drop_last().len() implies is_digit(#[trigger] d.drop_last()[i]) by {
            assert(d.drop_last()[i] == d[i]);
        }
        lemma_digits_nonneg(d.drop_last());
    }
}

/// The integer at `p`, if one is there, with its end.
fn int_at(s: &Vec<char>, p: usize) -> (r: Option<(i64, usize)>)
    requires
        p <= s@.len(),
        int_end(s@, p as int) matches Some(e) ==> i64::MIN <= int_value(s@.subrange(p as int, e)) <= i64::MAX,
    ensures
        match r {
            Some((v, e)) => int_end(s@, p as int) == Some(e as int) && v == int_value(
                s@.subrange(p as int, e as int),
            ),
            None => int_end(s@, p as int) is None,
        },
        r matches Some((v, e)) ==> p < e <= s@.len(),
{
    let negative = p < s.len() && s[p] == '-';
    let q = if negative {
        p + 1
    } else {
        p
    };
    let e = if q < s.len() && s[q] == '0' {
        q + 1
    } else if q < s.len() && class_has(CharClass::Digit, s[q]) {
        run_end_at(s, q + 1, CharClass::Digit)
    } else {
        return None;
    };
    proof {
        lemma_run_end(s@, q + 1, CharClass::Digit);
    }
    let ghost t = s@.subrange(p as int, e as int);
    let ghost d = s@.subrange(q as int, e as int);
    proof {
        assert forall|i: int| 0 <= i < d.len() implies is_digit(#[trigger] d[i]) by {
            assert(d[i] == s@[q + i]);
        }
        if negative {
            assert(t.drop_first() =~= d);
        } else {
            assert(t =~= d);
        }
    }
    let mut v: i64 = 0;
    let mut j = q;
    while j < e
        invariant
            q <= j <= e <= s@.len(),
            d == s@.subrange(q as int, e as int),
            forall|i: int| 0 <= i < d.len() ==> is_digit(#[trigger] d[i]),
            i64::MIN <= (if negative { -digits_value(d) } else { digits_value(d) }) <= i64::MAX,
            v == (if negative {
                -digits_value(s@.subrange(q as int, j as int))
            } else {
                digits_value(s@.subrange(q as int, j as int))
            }),
        decreases e - j,
    {
        proof {
            assert(d[j - q] == s@[j as int]);
            assert(is_digit(s@[j as int]));
        }
        let digit = (s[j] as u32 - '0' as u32) as i64;
        proof {
            assert(s@.subrange(q as int, j + 1).drop_last() =~= s@.subrange(q as int, j as int));
            assert(s@.subrange(q as int, j + 1) =~= d.subrange(0, j + 1 - q));
            lemma_digits_prefix(d, j + 1 - q);
            assert(is_digit(d[j - q]));
            assert(d[j - q] == s@[j as int]);
        }
        if negative {
            v = v * 10 - digit;
        } else {
            v = v * 10 + digit;
        }
        j += 1;
    }
    proof {
        assert(s@.subrange(q as int, e as int) =~= d);
    }
    Some((v, e))
}

/// `String::push`: appends `c` to `s`.
#[verifier::external_body]
fn push_char(s: &mut String, c: char)
    ensures
        final(s)@ == old(s)@.push(c),
{
    s.push(c);
}

/// The string holding the characters `v`.
fn string_of(v: &Vec<char>) -> (r: String)
    ensures
        r@ == v@,
{
    let mut r = String::new();
    let mut i: usize = 0;
    while i < v.len()
        invariant
            i <= v@.len(),
            r@ == v@.subrange(0, i as int),
        decreases v@.len() - i,
    {
        push_char(&mut r, v[i]);
        proof {
            assert(v@.subrange(0, i + 1) =~= v@.subrange(0, i as int).push(v@[i as int]));
        }
        i += 1;
    }
    proof {
        assert(v@.subrange(0, v@.len() as int) =~= v@);
    }
    r
}

/// The characters of a string from `q` up to its closing quote, escapes
/// read, and the place after the quote.
fn string_scan_at(s: &Vec<char>, q: usize) -> (r: Option<(Vec<char>, usize)>)
    requires
        q <= s@.len(),
    ensures
        match r {
            Some((t, e)) => string_scan(s@, q as int) == Some((t@, e as int)),
            None => string_scan(s@, q as int) is None,
        },
        r matches Some((t, e)) ==> q < e <= s@.len(),
{
    let mut acc: Vec<char> = Vec::new();
    let mut j = q;
    while j < s.len()
        invariant
            q <= j <= s@.len(),
            string_scan(s@, q as int) == (match string_scan(s@, j as int) {
                Some((rest, e)) => Some((acc@ + rest, e)),
                None => None,
            }),
        decreases s@.len() - j,
    {
        let c = s[j];
        if c == '"' {
            proof {
                assert(acc@ + seq![] =~= acc@);
            }
            return Some((acc, j + 1));
        } else if c == '\\' {
            if j + 1 < s.len() {
                let n = s[j + 1];
                let escaped = if n == '\\' {
                    '\\'
                } else if n == '"' {
                    '"'
                } else if n == 'n' {
                    '\n'
                } else if n == 'r' {
                    '\r'
                } else if n == 't' {
                    '\t'
                } else {
                    return None;
                };
                proof {
                    assert(escape_of(n) == Some(escaped));
                    let ghost before = acc@;
                    assert forall|rest: Seq<char>| #[trigger] (before.push(escaped) + rest) == before + (seq![escaped] + rest) by {
                        assert(before.push(escaped) + rest =~= before + (seq![escaped] + rest));
                    }
                }
                acc.push(escaped);
                j += 2;
            } else {
                return None;
            }
        } else {
            proof {
                let ghost before = acc@;
                assert forall|rest: Seq<char>| #[trigger] (before.push(c) + rest) == before + (seq![c] + rest) by {
                    assert(before.push(c) + rest =~= before + (seq![c] + rest));
                }
            }
            acc.push(c);
            j += 1;
        }
    }
    None
}

/// `t` with each pair `a`, `b`, from left to right, replaced by `r`.
fn replace_pair_in(t: &Vec<char>, a: char, b: char, r: char) -> (out: Vec<char>)
    ensures
        out@ == replace_pair(t@, a, b, r),
{
    let mut out: Vec<char> = Vec::new();
    let mut i: usize = 0;
    proof {
        assert(t@.subrange(0, t@.len() as int) =~= t@);
        assert(out@ + replace_pair(t@, a, b, r) =~= replace_pair(t@, a, b, r));
    }
    while i < t.len()
        invariant
            i <= t@.len(),
            replace_pair(t@, a, b, r) == out@ + replace_pair(t@.subrange(i as int, t@.len() as int), a, b, r),
        decreases t@.len() - i,
    {
        let ghost rest = t@.subrange(i as int, t@.len() as int);
        if i + 1 < t.len() && t[i] == a && t[i + 1] == b {
            proof {
                assert(rest.subrange(2, rest.len() as int) =~= t@.subrange(i + 2, t@.len() as int));
                assert(out@.push(r) + replace_pair(t@.subrange(i + 2, t@.len() as int), a, b, r) =~= out@ + (seq![r]
                    + replace_pair(t@.subrange(i + 2, t@.len() as int), a, b, r)));
            }
            out.push(r);
            i += 2;
        } else {
            proof {
                assert(rest.drop_first() =~= t@.subrange(i + 1, t@.len() as int));
                assert(out@.push(t@[i as int]) + replace_pair(t@.subrange(i + 1, t@.len() as int), a, b, r) =~= out@
                    + (seq![t@[i as int]] + replace_pair(t@.subrange(i + 1, t@.len() as int), a, b, r)));
            }
            out.push(t[i]);
            i += 1;
        }
    }
    proof {
        assert(out@ + replace_pair(t@.subrange(i as int, t@.len() as int), a, b, r) =~= out@);
    }
    out
}

/// The text of a string once escapes, read a second time, are replaced.
fn unescape_chars(t: &Vec<char>) -> (r: Vec<char>)
    ensures
        r@ == unescape(t@),
{
    let t1 = replace_pair_in(t, '\\', '\\', '\\');
    let t2 = replace_pair_in(&t1, '\\', '"', '"');
    let t3 = replace_pair_in(&t2, '\\', 'n', '\n');
    let t4 = replace_pair_in(&t3, '\\', 'r', '\r');
    replace_pair_in(&t4, '\\', 't', '\t')
}

/// The words of the identifier at `p`, joined by single spaces, and its end.
fn ident_at(s: &Vec<char>, p: usize) -> (r: Option<(Vec<char>, usize)>)
    requires
        p <= s@.len(),
    ensures
        match r {
            Some((t, e)) => ident_scan(s@, p as int) == Some((t@, e as int)),
            None => ident_scan(s@, p as int) is None,
        },
        r matches Some((t, e)) ==> p < e <= s@.len(),
    decreases s@.len() - p,
{
    if p >= s.len() || !class_has(CharClass::IdentStart, s[p]) {
        return None;
    }
    let e = run_end_at(s, p + 1, CharClass::IdentRest);
    let w = run_end_at(s, e, CharClass::WhiteSpace);
    proof {
        lemma_run_end(s@, p + 1, CharClass::IdentRest);
        lemma_run_end(s@, e as int, CharClass::WhiteSpace);
    }
    let mut word: Vec<char> = Vec::new();
    let mut i = p;
    while i < e
        invariant
            p <= i <= e <= s@.len(),
            word@ == s@.subrange(p as int, i as int),
        decreases e - i,
    {
        word.push(s[i]);
        proof {
            assert(s@.subrange(p as int, i + 1) =~= s@.subrange(p as int, i as int).push(s@[i as int]));
        }
        i += 1;
    }
    if w < s.len() && class_has(CharClass::IdentStart, s[w]) {
        match ident_at(s, w) {
            Some((rest, f)) => {
                let ghost w0 = word@;
                let ghost r0 = rest@;
                word.push(' ');
                let mut rest = rest;
                word.append(&mut rest);
                proof {
                    assert(word@ =~= w0 + seq![' '] + r0);
                }
                Some((word, f))
            },
            None => Some((word, e)),
        }
    } else {
        Some((word, e))
    }
}

/// The hexadecimal digits of the groups at `q`, each of at least four
/// digits, separated by hyphens, and their end.
fn hex_groups_at(s: &Vec<char>, q: usize) -> (r: Option<(Vec<char>, usize)>)
    requires
        q <= s@.len(),
    ensures
        match r {
            Some((t, e)) => hex_groups(s@, q as int) == Some((t@, e as int)),
            None => hex_groups(s@, q as int) is None,
        },
        r matches Some((t, e)) ==> q < e <= s@.len() && forall|i: int|
            0 <= i < t@.len() ==> in_class(CharClass::HexDigit, #[trigger] t@[i]),
    decreases s@.len() - q,
{
    let e = run_end_at(s, q, CharClass::HexDigit);
    proof {
        lemma_run_end(s@, q as int, CharClass::HexDigit);
    }
    if e - q < 4 {
        return None;
    }
    let mut group: Vec<char> = Vec::new();
    let mut i = q;
    while i < e
        invariant
            q <= i <= e <= s@.len(),
            group@ == s@.subrange(q as int, i as int),
            forall|j: int| q <= j < e ==> in_class(CharClass::HexDigit, #[trigger] s@[j]),
        decreases e - i,
    {
        group.push(s[i]);
        proof {
            assert(s@.subrange(q as int, i + 1) =~= s@.subrange(q as int, i as int).push(s@[i as int]));
        }
        i += 1;
    }
    proof {
        assert forall|j: int| 0 <= j < group@.len() implies in_class(CharClass::HexDigit, #[trigger] group@[j]) by {
            assert(group@[j] == s@[q + j]);
        }
    }
    if e < s.len() && s[e] == '-' {
        match hex_groups_at(s, e + 1) {
            Some((rest, f)) => {
                let ghost g0 = group@;
                let ghost r0 = rest@;
                let mut rest = rest;
                group.append(&mut rest);
                proof {
                    assert(group@ =~= g0 + r0);
                    assert forall|j: int| 0 <= j < group@.len() implies in_class(CharClass::HexDigit, #[trigger] group@[j]) by {
                        if j < g0.len() {
                            assert(group@[j] == g0[j]);
                        } else {
                            assert(group@[j] == r0[j - g0.len()]);
                        }
                    }
                }
                Some((group, f))
            },
            None => Some((group, e)),
        }
    } else {
        Some((group, e))
    }
}

/// `uuid::Uuid::parse_str` on hexadecimal digits, then `Uuid::as_u128`:
/// thirty-two digits are read as one number, most significant first; any
/// other count is refused.
#[verifier::external_body]
fn parse_uuid(text: &str) -> (r: Option<u128>)
    requires
        forall|i: int| 0 <= i < text@.len() ==> in_class(CharClass::HexDigit, #[trigger] text@[i]),
    ensures
        r == uuid_of(text@),
{
    match uuid::Uuid::parse_str(text) {
        Ok(id) => Some(id.as_u128()),
        Err(_) => None,
    }
}

/// Whether the characters from `a` to `e` are those of `w`.
fn text_is(s: &Vec<char>, a: usize, e: usize, w: &str) -> (r: bool)
    requires
        a <= e <= s@.len(),
    ensures
        r == (s@.subrange(a as int, e as int) == w@),
{
    let wc = chars_of(w);
    if wc.len() != e - a {
        return false;
    }
    let mut i: usize = 0;
    while i < wc.len()
        invariant
            wc@ == w@,
            wc@.len() == e - a,
            a <= e <= s@.len(),
            i <= wc@.len(),
            forall|j: int| 0 <= j < i ==> s@[a + j] == wc@[j],
        decreases wc@.len() - i,
    {
        if s[a + i] != wc[i] {
            proof {
                assert(s@.subrange(a as int, e as int)[i as int] != wc@[i as int]);
            }
            return false;
        }
        i += 1;
    }
    proof {
        assert(s@.subrange(a as int, e as int) =~= wc@);
    }
    true
}

/// The token named by a keyword.
pub open spec fn keyword(w: Seq<char>) -> Option<SpecToken> {
    if w == "module"@ {
        Some(SpecToken::Include)
    } else if w == "import"@ {
        Some(SpecToken::Import)
    } else if w == "export"@ {
        Some(SpecToken::Export)
    } else if w == "number"@ {
        Some(SpecToken::NumberType)
    } else if w == "string"@ {
        Some(SpecToken::StringType)
    } else if w == "alias"@ {
        Some(SpecToken::Alias)
    } else if w == "brand"@ {
        Some(SpecToken::Brands)
    } else if w == "type"@ {
        Some(SpecToken::Type)
    } else if w == "this"@ {
        Some(SpecToken::This)
    } else if w == "handle"@ {
        Some(SpecToken::Handle)
    } else if w == "card"@ {
        Some(SpecToken::Card)
    } else if w == "a"@ {
        Some(SpecToken::A)
    } else {
        None
    }
}

fn keyword_at(s: &Vec<char>, a: usize, e: usize) -> (r: Option<Token>)
    requires
        a <= e <= s@.len(),
    ensures
        match r {
            Some(t) => keyword(s@.subrange(a as int, e as int)) == Some(t@),
            None => keyword(s@.subrange(a as int, e as int)) is None,
        },
{
    if text_is(s, a, e, "module") {
        Some(Token::Include)
    } else if text_is(s, a, e, "import") {
        Some(Token::Import)
    } else if text_is(s, a, e, "export") {
        Some(Token::Export)
    } else if text_is(s, a, e, "number") {
        Some(Token::NumberType)
    } else if text_is(s, a, e, "string") {
        Some(Token::StringType)
    } else if text_is(s, a, e, "alias") {
        Some(Token::Alias)
    } else if text_is(s, a, e, "brand") {
        Some(Token::Brands)
    } else if text_is(s, a, e, "type") {
        Some(Token::Type)
    } else if text_is(s, a, e, "this") {
        Some(Token::This)
    } else if text_is(s, a, e, "handle") {
        Some(Token::Handle)
    } else if text_is(s, a, e, "card") {
        Some(Token::Card)
    } else if text_is(s, a, e, "a") {
        Some(Token::A)
    } else {
        None
    }
}

/// The token that a single symbol character stands for.
pub open spec fn single_symbol(c: char) -> Option<SpecToken> {
    if c == '$' {
        Some(SpecToken::Let)
    } else if c == '~' {
        Some(SpecToken::In)
    } else if c == '/' {
        Some(SpecToken::Divide)
    } else if c == '!' {
        Some(SpecToken::Perform)
    } else if c == ':' {
        Some(SpecToken::TypeAnnotation)
    } else if c == '%' {
        Some(SpecToken::Trait)
    } else if c == '#' {
        Some(SpecToken::Attribute)
    } else if c == '^' {
        Some(SpecToken::FromHere)
    } else if c == '+' {
        Some(SpecToken::Sum)
    } else if c == '*' {
        Some(SpecToken::Product)
    } else if c == ',' {
        Some(SpecToken::Comma)
    } else if c == '.' {
        Some(SpecToken::Dot)
    } else if c == '>' {
        Some(SpecToken::Apply)
    } else if c == '[' {
        Some(SpecToken::ArrayBegin)
    } else if c == ']' {
        Some(SpecToken::ArrayEnd)
    } else if c == '{' {
        Some(SpecToken::SetBegin)
    } else if c == '}' {
        Some(SpecToken::SetEnd)
    } else if c == '?' {
        Some(SpecToken::Hole)
    } else if c == '_' {
        Some(SpecToken::Infer)
    } else if c == '\\' {
        Some(SpecToken::Lambda)
    } else if c == '&' {
        Some(SpecToken::Reference)
    } else {
        None
    }
}

/// The symbol at `p`: one character, or `<!`, `->`, `=>`, or else `-`.
pub open spec fn symbol(s: Seq<char>, p: int) -> Option<(SpecToken, int)> {
    if 0 <= p < s.len() {
        let c = s[p];
        match single_symbol(c) {
            Some(t) => Some((t, p + 1)),
            None => if c == '<' && p + 1 < s.len() && s[p + 1] == '!' {
                Some((SpecToken::Continue, p + 2))
            } else if c == '-' && p + 1 < s.len() && s[p + 1] == '>' {
                Some((SpecToken::Arrow, p + 2))
            } else if c == '=' && p + 1 < s.len() && s[p + 1] == '>' {
                Some((SpecToken::EArrow, p + 2))
            } else if c == '-' {
                Some((SpecToken::Minus, p + 1))
            } else {
                None
            },
        }
    } else {
        None
    }
}

fn single_symbol_of(c: char) -> (r: Option<Token>)
    ensures
        match r {
            Some(t) => single_symbol(c) == Some(t@),
            None => single_symbol(c) is None,
        },
{
    if c == '$' {
        Some(Token::Let)
    } else if c == '~' {
        Some(Token::In)
    } else if c == '/' {
        Some(Token::Divide)
    } else if c == '!' {
        Some(Token::Perform)
    } else if c == ':' {
        Some(Token::TypeAnnotation)
    } else if c == '%' {
        Some(Token::Trait)
    } else if c == '#' {
        Some(Token::Attribute)
    } else if c == '^' {
        Some(Token::FromHere)
    } else if c == '+' {
        Some(Token::Sum)
    } else if c == '*' {
        Some(Token::Product)
    } else if c == ',' {
        Some(Token::Comma)
    } else if c == '.' {
        Some(Token::Dot)
    } else if c == '>' {
        Some(Token::Apply)
    } else if c == '[' {
        Some(Token::ArrayBegin)
    } else if c == ']' {
        Some(Token::ArrayEnd)
    } else if c == '{' {
        Some(Token::SetBegin)
    } else if c == '}' {
        Some(Token::SetEnd)
    } else if c == '?' {
        Some(Token::Hole)
    } else if c == '_' {
        Some(Token::Infer)
    } else if c == '\\' {
        Some(Token::Lambda)
    } else if c == '&' {
        Some(Token::Reference)
    } else {
        None
    }
}

fn symbol_at(s: &Vec<char>, p: usize) -> (r: Option<(Token, usize)>)
    requires
        p <= s@.len(),
    ensures
        match r {
            Some((t, e)) => symbol(s@, p as int) == Some((t@, e as int)),
            None => symbol(s@, p as int) is None,
        },
{
    if p >= s.len() {
        return None;
    }
    let c = s[p];
    match single_symbol_of(c) {
        Some(t) => Some((t, p + 1)),
        None => {
            let next_is = |n: char| -> (b: bool)
                ensures
                    b == (p + 1 < s@.len() && s@[p + 1] == n),
                { p + 1 < s.len() && s[p + 1] == n };
            if c == '<' && next_is('!') {
                Some((Token::Continue, p + 2))
            } else if c == '-' && next_is('>') {
                Some((Token::Arrow, p + 2))
            } else if c == '=' && next_is('>') {
                Some((Token::EArrow, p + 2))
            } else if c == '-' {
                Some((Token::Minus, p + 1))
            } else {
                None
            }
        },
    }
}

/// The identifier token at `p`: `'uuid`, white space, then groups of
/// hexadecimal digits that make up thirty-two digits.
pub open spec fn uuid_token(s: Seq<char>, p: int) -> Option<(SpecToken, int)> {
    if 0 <= p && p + 5 <= s.len() && s.subrange(p, p + 5) == "'uuid"@ {
        match hex_groups(s, skip_ws(s, p + 5)) {
            Some((d, e)) => match uuid_of(d) {
                Some(v) => Some((SpecToken::Uuid(v), e)),
                None => None,
            },
            None => None,
        }
    } else {
        None
    }
}

/// The keyword token at `p`: a quote, then a word of ASCII letters, digits
/// and underscores that names a keyword.
pub open spec fn special(s: Seq<char>, p: int) -> Option<(SpecToken, int)> {
    if 0 <= p && p + 1 < s.len() && s[p] == '\'' && in_class(CharClass::KeywordStart, s[p + 1]) {
        let e = run_end(s, p + 2, CharClass::KeywordRest);
        match keyword(s.subrange(p + 1, e)) {
            Some(t) => Some((t, e)),
            None => None,
        }
    } else {
        None
    }
}

/// The token at `p` and its end: the first of a comment, an identifier
/// given by its digits, an integer, a string, a symbol, a keyword, a brand
/// and an identifier that is there.
pub open spec fn token(s: Seq<char>, p: int) -> Option<(SpecToken, int)> {
    if let Some(e) = comment_end(s, p) {
        Some((SpecToken::Comment(s.subrange(p, e)), e))
    } else if let Some(r) = uuid_token(s, p) {
        Some(r)
    } else if let Some(e) = int_end(s, p) {
        Some((SpecToken::Int(int_value(s.subrange(p, e))), e))
    } else if let Some((t, e)) = (if 0 <= p < s.len() && s[p] == '"' { string_scan(s, p + 1) } else { None }) {
        Some((SpecToken::Str(unescape(t)), e))
    } else if let Some(r) = symbol(s, p) {
        Some(r)
    } else if let Some(r) = special(s, p) {
        Some(r)
    } else if let Some((w, e)) = (if 0 <= p < s.len() && s[p] == '@' { ident_scan(s, p + 1) } else { None }) {
        Some((SpecToken::Brand(w), e))
    } else if let Some((w, e)) = ident_scan(s, p) {
        Some((SpecToken::Ident(w), e))
    } else {
        None
    }
}

/// Whether the token at `p`, if it is an integer, fits in 64 bits.
pub open spec fn token_fits(s: Seq<char>, p: int) -> bool {
    token(s, p) matches Some((SpecToken::Int(v), _)) ==> i64::MIN <= v <= i64::MAX
}

pub proof fn lemma_scans_advance(s: Seq<char>, p: int)
    requires
        0 <= p <= s.len(),
    ensures
        comment_end(s, p) matches Some(e) ==> p < e <= s.len(),
        int_end(s, p) matches Some(e) ==> p < e <= s.len(),
        string_scan(s, p) matches Some((t, e)) ==> p < e <= s.len(),
        ident_scan(s, p) matches Some((t, e)) ==> p < e <= s.len(),
        hex_groups(s, p) matches Some((t, e)) ==> p < e <= s.len(),
    decreases s.len() - p,
{
    lemma_comment_scan(s, p + 1, 1);
    lemma_run_end(s, p + 1, CharClass::Digit);
    lemma_run_end(s, p + 2, CharClass::Digit);
    lemma_run_end(s, p + 1, CharClass::IdentRest);
    lemma_run_end(s, run_end(s, p + 1, CharClass::IdentRest), CharClass::WhiteSpace);
    lemma_run_end(s, p, CharClass::HexDigit);
    if p < s.len() {
        lemma_scans_advance(s, p + 1);
        if p + 2 <= s.len() {
            lemma_scans_advance(s, p + 2);
        }
        let w = skip_ws(s, run_end(s, p + 1, CharClass::IdentRest));
        if w < s.len() && w > p {
            lemma_scans_advance(s, w);
        }
        let e = run_end(s, p, CharClass::HexDigit);
        if e + 1 <= s.len() && e + 1 > p {
            lemma_scans_advance(s, e + 1);
        }
    }
}

proof fn lemma_comment_scan(s: Seq<char>, q: int, depth: nat)
    ensures
        comment_scan(s, q, depth) matches Some(e) ==> q < e <= s.len(),
    decreases s.len() - q,
{
    if 0 <= q < s.len() {
        if s[q] == ')' {
            if depth > 1 {
                lemma_comment_scan(s, q + 1, (depth - 1) as nat);
            }
        } else if s[q] == '(' {
            lemma_comment_scan(s, q + 1, depth + 1);
        } else {
            lemma_comment_scan(s, q + 1, depth);
        }
    }
}

/// A token ends after its start, within the text.
pub proof fn lemma_token_advances(s: Seq<char>, p: int)
    requires
        0 <= p <= s.len(),
    ensures
        token(s, p) matches Some((t, e)) ==> p < e <= s.len(),
{
    lemma_scans_advance(s, p);
    if p + 1 <= s.len() {
        lemma_scans_advance(s, p + 1);
    }
    lemma_run_end(s, p + 2, CharClass::KeywordRest);
    if 0 <= p && p + 5 <= s.len() {
        lemma_run_end(s, p + 5, CharClass::WhiteSpace);
        lemma_scans_advance(s, skip_ws(s, p + 5));
    }
}

/// The tokens, each with its start and end, from `q` on, each surrounded
/// by white space, and the place after the last one and its white space.
pub open spec fn padded_tokens(s: Seq<char>, q: int) -> (Seq<(SpecToken, int, int)>, int)
    decreases s.len() - q,
{
    if 0 <= q <= s.len() {
        let a = skip_ws(s, q);
        proof {
            lemma_run_end(s, q, CharClass::WhiteSpace);
            lemma_token_advances(s, a);
        }
        match token(s, a) {
            Some((t, e)) => {
                proof {
                    lemma_run_end(s, e, CharClass::WhiteSpace);
                }
                let r = padded_tokens(s, skip_ws(s, e));
                (seq![(t, a, e)] + r.0, r.1)
            },
            None => (seq![], q),
        }
    } else {
        (seq![], q)
    }
}

pub proof fn lemma_padded_tokens(s: Seq<char>, q: int)
    ensures
        padded_tokens(s, q).0.len() > 0 ==> q < padded_tokens(s, q).1 <= s.len(),
        padded_tokens(s, q).0.len() == 0 ==> padded_tokens(s, q).1 == q,
    decreases s.len() - q,
{
    if 0 <= q <= s.len() {
        let a = skip_ws(s, q);
        lemma_run_end(s, q, CharClass::WhiteSpace);
        lemma_token_advances(s, a);
        if let Some((t, e)) = token(s, a) {
            lemma_run_end(s, e, CharClass::WhiteSpace);
            lemma_padded_tokens(s, skip_ws(s, e));
        }
    }
}

/// The tokens from `p` on, with their starts and ends, and the place where
/// no more can be read: runs of tokens surrounded by white space, and
/// semicolons, each of which stands for a dot and a comma at its place.
pub open spec fn lex_from(s: Seq<char>, p: int) -> (Seq<(SpecToken, int, int)>, int)
    decreases s.len() - p,
{
    let (ts, q) = padded_tokens(s, p);
    proof {
        lemma_padded_tokens(s, p);
    }
    if ts.len() > 0 && p < q {
        let r = lex_from(s, q);
        (ts + r.0, r.1)
    } else if ts.len() == 0 && 0 <= p < s.len() && s[p] == ';' {
        let r = lex_from(s, p + 1);
        (seq![(SpecToken::Dot, p, p + 1), (SpecToken::Comma, p, p + 1)] + r.0, r.1)
    } else {
        (seq![], p)
    }
}

/// An integer token's value fits in 64 bits.
pub open spec fn int_fits(t: SpecToken) -> bool {
    t matches SpecToken::Int(v) ==> i64::MIN <= v <= i64::MAX
}

/// Every integer among the tokens fits in 64 bits.
pub open spec fn all_fit(ts: Seq<(SpecToken, int, int)>) -> bool {
    forall|i: int| 0 <= i < ts.len() ==> int_fits(#[trigger] ts[i].0)
}

/// Tokens with their spans, by their models.
pub open spec fn tokens_view(v: Seq<(Token, Range<usize>)>) -> Seq<(SpecToken, int, int)> {
    Seq::new(v.len(), |i: int| (v[i].0@, v[i].1.start as int, v[i].1.end as int))
}

/// The characters from `a` to `e`.
fn chars_between(s: &Vec<char>, a: usize, e: usize) -> (r: Vec<char>)
    requires
        a <= e <= s@.len(),
    ensures
        r@ == s@.subrange(a as int, e as int),
{
    let mut r: Vec<char> = Vec::new();
    let mut i = a;
    while i < e
        invariant
            a <= i <= e <= s@.len(),
            r@ == s@.subrange(a as int, i as int),
        decreases e - i,
    {
        r.push(s[i]);
        proof {
            assert(s@.subrange(a as int, i + 1) =~= s@.subrange(a as int, i as int).push(s@[i as int]));
        }
        i += 1;
    }
    r
}

fn uuid_at(s: &Vec<char>, p: usize) -> (r: Option<(Token, usize)>)
    requires
        p <= s@.len(),
    ensures
        match r {
            Some((t, e)) => uuid_token(s@, p as int) == Some((t@, e as int)),
            None => uuid_token(s@, p as int) is None,
        },
{
    proof {
        reveal_strlit("'uuid");
    }
    if s.len() - p < 5 || !text_is(s, p, p + 5, "'uuid") {
        return None;
    }
    let w = run_end_at(s, p + 5, CharClass::WhiteSpace);
    match hex_groups_at(s, w) {
        Some((d, e)) => {
            let text = string_of(&d);
            match parse_uuid(text.as_str()) {
                Some(v) => Some((Token::Uuid(v), e)),
                None => None,
            }
        },
        None => None,
    }
}

fn special_at(s: &Vec<char>, p: usize) -> (r: Option<(Token, usize)>)
    requires
        p <= s@.len(),
    ensures
        match r {
            Some((t, e)) => special(s@, p as int) == Some((t@, e as int)),
            None => special(s@, p as int) is None,
        },
{
    if p < s.len() && s.len() - p > 1 && s[p] == '\'' && class_has(CharClass::KeywordStart, s[p + 1]) {
        let e = run_end_at(s, p + 2, CharClass::KeywordRest);
        match keyword_at(s, p + 1, e) {
            Some(t) => Some((t, e)),
            None => None,
        }
    } else {
        None
    }
}

/// The token at `p` and its end, if a token starts there.
pub fn token_at(s: &Vec<char>, p: usize) -> (r: Option<(Token, usize)>)
    requires
        p <= s@.len(),
        token(s@, p as int) matches Some((t, _)) ==> int_fits(t),
    ensures
        match r {
            Some((t, e)) => token(s@, p as int) == Some((t@, e as int)),
            None => token(s@, p as int) is None,
        },
{
    if let Some(e) = comment_at(s, p) {
        let text = chars_between(s, p, e);
        return Some((Token::Comment(string_of(&text)), e));
    }
    if let Some(r) = uuid_at(s, p) {
        return Some(r);
    }
    if let Some((v, e)) = int_at(s, p) {
        return Some((Token::Int(v), e));
    }
    if p < s.len() && s[p] == '"' {
        if let Some((t, e)) = string_scan_at(s, p + 1) {
            let text = unescape_chars(&t);
            return Some((Token::Str(string_of(&text)), e));
        }
    }
    if let Some(r) = symbol_at(s, p) {
        return Some(r);
    }
    if let Some(r) = special_at(s, p) {
        return Some(r);
    }
    if p < s.len() && s[p] == '@' {
        if let Some((w, e)) = ident_at(s, p + 1) {
            return Some((Token::Brand(string_of(&w)), e));
        }
    }
    if let Some((w, e)) = ident_at(s, p) {
        return Some((Token::Ident(string_of(&w)), e));
    }
    None
}

/// Reads the tokens from `q0` on, each surrounded by white space, onto
/// `out`, and returns the place after the last one and its white space.
fn padded_tokens_at(s: &Vec<char>, q0: usize, out: &mut Vec<(Token, Range<usize>)>) -> (r: usize)
    requires
        q0 <= s@.len(),
        all_fit(padded_tokens(s@, q0 as int).0),
    ensures
        tokens_view(final(out)@) == tokens_view(old(out)@) + padded_tokens(s@, q0 as int).0,
        r == padded_tokens(s@, q0 as int).1,
{
    let ghost mut acc: Seq<(SpecToken, int, int)> = seq![];
    let mut q = q0;
    proof {
        assert(tokens_view(out@) =~= tokens_view(out@) + acc);
        assert(acc + padded_tokens(s@, q as int).0 =~= padded_tokens(s@, q as int).0);
    }
    loop
        invariant
            q0 <= q <= s@.len(),
            tokens_view(out@) == tokens_view(old(out)@) + acc,
            padded_tokens(s@, q0 as int) == (acc + padded_tokens(s@, q as int).0, padded_tokens(s@, q as int).1),
            all_fit(padded_tokens(s@, q as int).0),
        decreases s@.len() - q,
    {
        let a = run_end_at(s, q, CharClass::WhiteSpace);
        proof {
            lemma_token_advances(s@, a as int);
            if let Some((t, e)) = token(s@, a as int) {
                assert(padded_tokens(s@, q as int).0[0] == (t, a as int, e));
                assert(int_fits(padded_tokens(s@, q as int).0[0].0));
            }
        }
        match token_at(s, a) {
            Some((t, e)) => {
                let ghost item = (t@, a as int, e as int);
                let ghost before = out@;
                out.push((t, Range { start: a, end: e }));
                proof {
                    assert(tokens_view(out@) =~= tokens_view(before).push(item));
                    let rest = padded_tokens(s@, skip_ws(s@, e as int));
                    assert(padded_tokens(s@, q as int).0 == seq![item] + rest.0);
                    assert((acc.push(item)) + rest.0 =~= acc + (seq![item] + rest.0));
                    assert forall|i: int| 0 <= i < rest.0.len() implies int_fits(#[trigger] rest.0[i].0) by {
                        assert(padded_tokens(s@, q as int).0[i + 1] == rest.0[i]);
                    }
                    assert(tokens_view(old(out)@) + acc.push(item) =~= (tokens_view(old(out)@) + acc).push(item));
                    acc = acc.push(item);
                }
                q = run_end_at(s, e, CharClass::WhiteSpace);
            },
            None => {
                proof {
                    assert(acc + seq![] =~= acc);
                }
                return q;
            },
        }
    }
}

/// The tokens of `s` and the place where no more can be read.
fn lex_tokens(s: &Vec<char>) -> (r: (Vec<(Token, Range<usize>)>, usize))
    requires
        all_fit(lex_from(s@, 0).0),
    ensures
        tokens_view(r.0@) == lex_from(s@, 0).0,
        r.1 == lex_from(s@, 0).1,
{
    let mut out: Vec<(Token, Range<usize>)> = Vec::new();
    let mut p: usize = 0;
    proof {
        assert(tokens_view(out@) + lex_from(s@, 0).0 =~= lex_from(s@, 0).0);
    }
    loop
        invariant
            p <= s@.len(),
            lex_from(s@, 0) == (tokens_view(out@) + lex_from(s@, p as int).0, lex_from(s@, p as int).1),
            all_fit(lex_from(s@, p as int).0),
        decreases s@.len() - p,
    {
        let ghost before = out@;
        let ghost ts = padded_tokens(s@, p as int);
        proof {
            lemma_padded_tokens(s@, p as int);
            if ts.0.len() > 0 {
                assert(lex_from(s@, p as int).0 == ts.0 + lex_from(s@, ts.1).0);
                assert forall|i: int| 0 <= i < ts.0.len() implies int_fits(#[trigger] ts.0[i].0) by {
                    assert(lex_from(s@, p as int).0[i] == ts.0[i]);
                }
            }
        }
        let n0 = out.len();
        let q = padded_tokens_at(s, p, &mut out);
        if out.len() > n0 {
            proof {
                let rest = lex_from(s@, q as int);
                assert(tokens_view(before) + ts.0 + rest.0 =~= tokens_view(before) + (ts.0 + rest.0));
                assert forall|i: int| 0 <= i < rest.0.len() implies int_fits(#[trigger] rest.0[i].0) by {
                    assert(lex_from(s@, p as int).0[ts.0.len() + i] == rest.0[i]);
                }
            }
            p = q;
        } else if p < s.len() && s[p] == ';' {
            out.push((Token::Dot, Range { start: p, end: p + 1 }));
            out.push((Token::Comma, Range { start: p, end: p + 1 }));
            proof {
                let pair = seq![(SpecToken::Dot, p as int, p + 1), (SpecToken::Comma, p as int, p + 1)];
                let rest = lex_from(s@, p + 1);
                assert(tokens_view(out@) =~= tokens_view(before) + pair);
                assert(tokens_view(before) + pair + rest.0 =~= tokens_view(before) + (pair + rest.0));
                assert forall|i: int| 0 <= i < rest.0.len() implies int_fits(#[trigger] rest.0[i].0) by {
                    assert(lex_from(s@, p as int).0[2 + i] == rest.0[i]);
                }
            }
            p += 1;
        } else {
            proof {
                assert(tokens_view(out@) + seq![] =~= tokens_view(out@));
            }
            return (out, p);
        }
    }
}

/// Where lexing stopped: no token starts at this place, counted in
/// characters, before the end of the text.
#[derive(Debug, PartialEq, Eq)]
pub struct LexerError {
    pub offset: usize,
}

/// The tokens at the beginning of `input`, with their spans, up to the
/// first place where none can be read.
pub fn lexer(input: &str) -> (r: Vec<(Token, Range<usize>)>)
    requires
        all_fit(lex_from(input@, 0).0),
    ensures
        tokens_view(r@) == lex_from(input@, 0).0,
{
    let s = chars_of(input);
    lex_tokens(&s).0
}

/// The tokens of the whole of `input`, with their spans, or where lexing
/// stopped before its end.
pub fn scan(input: &str) -> (r: Result<Vec<(Token, Range<usize>)>, LexerError>)
    requires
        all_fit(lex_from(input@, 0).0),
    ensures
        match r {
            Ok(v) => lex_from(input@, 0).1 == input@.len() && tokens_view(v@) == lex_from(input@, 0).0,
            Err(e) => lex_from(input@, 0).1 != input@.len() && e.offset == lex_from(input@, 0).1,
        },
{
    let s = chars_of(input);
    let (tokens, end) = lex_tokens(&s);
    if end == s.len() {
        Ok(tokens)
    } else {
        Err(LexerError { offset: end })
    }
}

/// The identifier at the beginning of `input`, its words joined by single
/// spaces, and its end.
pub fn ident(input: &str) -> (r: Option<(String, usize)>)
    ensures
        match r {
            Some((w, e)) => ident_scan(input@, 0) == Some((w@, e as int)),
            None => ident_scan(input@, 0) is None,
        },
{
    let s = chars_of(input);
    match ident_at(&s, 0) {
        Some((w, e)) => Some((string_of(&w), e)),
        None => None,
    }
}

/// Every span lies between `lo` and `hi` and ends after it starts.
pub open spec fn spans_within(ts: Seq<(SpecToken, int, int)>, lo: int, hi: int) -> bool {
    forall|i: int| 0 <= i < ts.len() ==> lo <= #[trigger] ts[i].1 && ts[i].1 < ts[i].2 <= hi
}

/// Each token ends before a later one starts, unless the two share their
/// span.
pub open spec fn spans_ordered(ts: Seq<(SpecToken, int, int)>) -> bool {
    forall|i: int, j: int|
        0 <= i < j < ts.len() ==> #[trigger] ts[i].2 <= #[trigger] ts[j].1 || (ts[i].1 == ts[j].1 && ts[i].2
            == ts[j].2)
}

/// One token of a sequence whose spans lie within `lo` and `hi`.
proof fn lemma_within_at(ts: Seq<(SpecToken, int, int)>, lo: int, hi: int, i: int)
    requires
        spans_within(ts, lo, hi),
        0 <= i < ts.len(),
    ensures
        lo <= ts[i].1,
        ts[i].1 < ts[i].2 <= hi,
{
    assert(lo <= ts[i].1 && ts[i].1 < ts[i].2 <= hi);
}

/// Two tokens of an ordered sequence.
proof fn lemma_ordered_at(ts: Seq<(SpecToken, int, int)>, i: int, j: int)
    requires
        spans_ordered(ts),
        0 <= i < j < ts.len(),
    ensures
        ts[i].2 <= ts[j].1 || (ts[i].1 == ts[j].1 && ts[i].2 == ts[j].2),
{
    assert(ts[i].2 <= ts[j].1 || (ts[i].1 == ts[j].1 && ts[i].2 == ts[j].2));
}

proof fn lemma_spans_concat(a: Seq<(SpecToken, int, int)>, b: Seq<(SpecToken, int, int)>, lo: int, m: int, hi: int)
    requires
        lo <= m <= hi,
        spans_within(a, lo, m),
        spans_within(b, m, hi),
        spans_ordered(a),
        spans_ordered(b),
    ensures
        spans_within(a + b, lo, hi),
        spans_ordered(a + b),
{
    let c = a + b;
    assert forall|i: int| 0 <= i < c.len() implies lo <= #[trigger] c[i].1 && c[i].1 < c[i].2 <= hi by {
        if i < a.len() {
            assert(c[i] == a[i]);
            lemma_within_at(a, lo, m, i);
        } else {
            assert(c[i] == b[i - a.len()]);
            lemma_within_at(b, m, hi, i - a.len());
        }
    }
    assert forall|i: int, j: int| 0 <= i < j < c.len() implies #[trigger] c[i].2 <= #[trigger] c[j].1 || (c[i].1
        == c[j].1 && c[i].2 == c[j].2) by {
        if j < a.len() {
            assert(c[i] == a[i] && c[j] == a[j]);
            lemma_ordered_at(a, i, j);
        } else if i >= a.len() {
            assert(c[i] == b[i - a.len()] && c[j] == b[j - a.len()]);
            lemma_ordered_at(b, i - a.len(), j - a.len());
        } else {
            assert(c[i] == a[i] && c[j] == b[j - a.len()]);
            lemma_within_at(a, lo, m, i);
            lemma_within_at(b, m, hi, j - a.len());
        }
    }
}

proof fn lemma_padded_spans(s: Seq<char>, q: int)
    requires
        0 <= q <= s.len(),
    ensures
        spans_within(padded_tokens(s, q).0, q, padded_tokens(s, q).1),
        spans_ordered(padded_tokens(s, q).0),
        q <= padded_tokens(s, q).1 <= s.len(),
    decreases s.len() - q,
{
    let a = skip_ws(s, q);
    lemma_run_end(s, q, CharClass::WhiteSpace);
    lemma_token_advances(s, a);
    if let Some((t, e)) = token(s, a) {
        let w = skip_ws(s, e);
        lemma_run_end(s, e, CharClass::WhiteSpace);
        lemma_padded_spans(s, w);
        lemma_spans_concat(seq![(t, a, e)], padded_tokens(s, w).0, q, w, padded_tokens(s, w).1);
    }
}

proof fn lemma_lex_spans(s: Seq<char>, p: int)
    requires
        0 <= p <= s.len(),
    ensures
        spans_within(lex_from(s, p).0, p, s.len() as int),
        spans_ordered(lex_from(s, p).0),
        p <= lex_from(s, p).1 <= s.len(),
    decreases s.len() - p,
{
    let (ts, q) = padded_tokens(s, p);
    lemma_padded_tokens(s, p);
    lemma_padded_spans(s, p);
    if ts.len() > 0 && p < q {
        lemma_lex_spans(s, q);
        lemma_spans_concat(ts, lex_from(s, q).0, p, q, s.len() as int);
    } else if ts.len() == 0 && 0 <= p < s.len() && s[p] == ';' {
        lemma_lex_spans(s, p + 1);
        lemma_spans_concat(
            seq![(SpecToken::Dot, p, p + 1), (SpecToken::Comma, p, p + 1)],
            lex_from(s, p + 1).0,
            p,
            p + 1,
            s.len() as int,
        );
    }
}

/// The tokens' spans lie within the text, each ends after it starts, and
/// they come in order: a token ends before the next one starts, except the
/// dot and the comma that a semicolon stands for, which share its span.
pub proof fn law_spans_in_order(s: Seq<char>)
    ensures
        spans_within(lex_from(s, 0).0, 0, s.len() as int),
        spans_ordered(lex_from(s, 0).0),
        lex_from(s, 0).1 <= s.len(),
{
    lemma_lex_spans(s, 0);
}

} // verus!

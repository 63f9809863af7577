//! Lexical scanner: turns source text into a sequence of tokens.
//!
//! The scanner is total: it never fails.  Identifiers and keywords start
//! with an ASCII letter or underscore and continue with ASCII alphanumerics
//! or underscores; integer literals are maximal digit runs (values too large
//! for a machine word saturate at `usize::MAX`); string literals run between
//! double quotes with no escapes (an unterminated string consumes the rest
//! of the input); `//` starts a line comment; any unrecognized character is
//! silently skipped.
use vstd::prelude::*;
use vstd::string::StrSliceExecFns;
use vstd::std_specs::iter::IteratorSpec;

verus! {

/// A single lexical token.
#[derive(Debug, PartialEq, Eq)]
pub enum Token {
    Number(usize),
    Str(String),
    Plus,
    DPlue,
    Minus,
    DMinus,
    Multiply,
    Divide,
    Equal,
    EquEqu,
    ExMark,
    NotEqu,
    Greater,
    Less,
    GreatEqu,
    LessEqu,
    OpenParen,
    CloseParen,
    OpenCurly,
    CloseCurly,
    Comma,
    Semi,
    Dot,
    DDot,
    ThinArrow,
    Let,
    Exit,
    Ident(String),
    If,
    Els,
    ElsIf,
    While,
    For,
    SysCall,
}

/// The mathematical value of a token: payloads are character sequences.
pub enum TokenV {
    Number(usize),
    Str(Seq<char>),
    Plus,
    DPlue,
    Minus,
    DMinus,
    Multiply,
    Divide,
    Equal,
    EquEqu,
    ExMark,
    NotEqu,
    Greater,
    Less,
    GreatEqu,
    LessEqu,
    OpenParen,
    CloseParen,
    OpenCurly,
    CloseCurly,
    Comma,
    Semi,
    Dot,
    DDot,
    ThinArrow,
    Let,
    Exit,
    Ident(Seq<char>),
    If,
    Els,
    ElsIf,
    While,
    For,
    SysCall,
}

impl View for Token {
    type V = TokenV;

    open spec fn view(&self) -> TokenV {
        match self {
            Token::Number(n) => TokenV::Number(*n),
            Token::Str(s) => TokenV::Str(s@),
            Token::Plus => TokenV::Plus,
            Token::DPlue => TokenV::DPlue,
            Token::Minus => TokenV::Minus,
            Token::DMinus => TokenV::DMinus,
            Token::Multiply => TokenV::Multiply,
            Token::Divide => TokenV::Divide,
            Token::Equal => TokenV::Equal,
            Token::EquEqu => TokenV::EquEqu,
            Token::ExMark => TokenV::ExMark,
            Token::NotEqu => TokenV::NotEqu,
            Token::Greater => TokenV::Greater,
            Token::Less => TokenV::Less,
            Token::GreatEqu => TokenV::GreatEqu,
            Token::LessEqu => TokenV::LessEqu,
            Token::OpenParen => TokenV::OpenParen,
            Token::CloseParen => TokenV::CloseParen,
            Token::OpenCurly => TokenV::OpenCurly,
            Token::CloseCurly => TokenV::CloseCurly,
            Token::Comma => TokenV::Comma,
            Token::Semi => TokenV::Semi,
            Token::Dot => TokenV::Dot,
            Token::DDot => TokenV::DDot,
            Token::ThinArrow => TokenV::ThinArrow,
            Token::Let => TokenV::Let,
            Token::Exit => TokenV::Exit,
            Token::Ident(s) => TokenV::Ident(s@),
            Token::If => TokenV::If,
            Token::Els => TokenV::Els,
            Token::ElsIf => TokenV::ElsIf,
            Token::While => TokenV::While,
            Token::For => TokenV::For,
            Token::SysCall => TokenV::SysCall,
        }
    }
}

/// View of a token sequence, element by element.
pub open spec fn tokens_view(ts: Seq<Token>) -> Seq<TokenV> {
    Seq::new(ts.len(), |i: int| ts[i]@)
}

pub open spec fn is_ident_start(c: char) -> bool {
    (97 <= c as u32 && c as u32 <= 122) || (65 <= c as u32 && c as u32 <= 90) || c == '_'
}

pub open spec fn is_digit_char(c: char) -> bool {
    48 <= c as u32 && c as u32 <= 57
}

pub open spec fn is_ident_cont(c: char) -> bool {
    is_ident_start(c) || is_digit_char(c)
}

/// Length of the longest prefix of identifier characters.
pub open spec fn ident_len(s: Seq<char>) -> int
    decreases s.len(),
{
    if s.len() > 0 && is_ident_cont(s[0]) {
        1 + ident_len(s.drop_first())
    } else {
        0
    }
}

/// Length of the longest prefix of decimal digits.
pub open spec fn digit_len(s: Seq<char>) -> int
    decreases s.len(),
{
    if s.len() > 0 && is_digit_char(s[0]) {
        1 + digit_len(s.drop_first())
    } else {
        0
    }
}

/// Length of the longest prefix free of a closing double quote.
pub open spec fn str_len(s: Seq<char>) -> int
    decreases s.len(),
{
    if s.len() > 0 && s[0] != '"' {
        1 + str_len(s.drop_first())
    } else {
        0
    }
}

/// Length of the longest prefix free of a newline.
pub open spec fn comment_len(s: Seq<char>) -> int
    decreases s.len(),
{
    if s.len() > 0 && s[0] != '\n' {
        1 + comment_len(s.drop_first())
    } else {
        0
    }
}

proof fn lemma_ident_len_bounds(s: Seq<char>)
    ensures
        0 <= ident_len(s) <= s.len(),
    decreases s.len(),
{
    if s.len() > 0 && is_ident_cont(s[0]) {
        lemma_ident_len_bounds(s.drop_first());
    }
}

proof fn lemma_digit_len_bounds(s: Seq<char>)
    ensures
        0 <= digit_len(s) <= s.len(),
    decreases s.len(),
{
    if s.len() > 0 && is_digit_char(s[0]) {
        lemma_digit_len_bounds(s.drop_first());
    }
}

proof fn lemma_str_len_bounds(s: Seq<char>)
    ensures
        0 <= str_len(s) <= s.len(),
    decreases s.len(),
{
    if s.len() > 0 && s[0] != '"' {
        lemma_str_len_bounds(s.drop_first());
    }
}

proof fn lemma_comment_len_bounds(s: Seq<char>)
    ensures
        0 <= comment_len(s) <= s.len(),
    decreases s.len(),
{
    if s.len() > 0 && s[0] != '\n' {
        lemma_comment_len_bounds(s.drop_first());
    }
}

proof fn lemma_ident_len_is(s: Seq<char>, m: int)
    requires
        0 <= m <= s.len(),
        forall|k: int| 0 <= k < m ==> is_ident_cont(s[k]),
        m == s.len() || !is_ident_cont(s[m]),
    ensures
        ident_len(s) == m,
    decreases m,
{
    if m == 0 {
    } else {
        assert(is_ident_cont(s[0]));
        assert(forall|k: int| 0 <= k < m - 1 ==> is_ident_cont(#[trigger] s.drop_first()[k]));
        lemma_ident_len_is(s.drop_first(), m - 1);
    }
}

proof fn lemma_digit_len_is(s: Seq<char>, m: int)
    requires
        0 <= m <= s.len(),
        forall|k: int| 0 <= k < m ==> is_digit_char(s[k]),
        m == s.len() || !is_digit_char(s[m]),
    ensures
        digit_len(s) == m,
    decreases m,
{
    if m == 0 {
    } else {
        assert(is_digit_char(s[0]));
        assert(forall|k: int| 0 <= k < m - 1 ==> is_digit_char(#[trigger] s.drop_first()[k]));
        lemma_digit_len_is(s.drop_first(), m - 1);
    }
}

proof fn lemma_str_len_is(s: Seq<char>, m: int)
    requires
        0 <= m <= s.len(),
        forall|k: int| 0 <= k < m ==> s[k] != '"',
        m == s.len() || s[m] == '"',
    ensures
        str_len(s) == m,
    decreases m,
{
    if m == 0 {
    } else {
        assert(s[0] != '"');
        assert(forall|k: int| 0 <= k < m - 1 ==> #[trigger] s.drop_first()[k] != '"');
        lemma_str_len_is(s.drop_first(), m - 1);
    }
}

proof fn lemma_comment_len_is(s: Seq<char>, m: int)
    requires
        0 <= m <= s.len(),
        forall|k: int| 0 <= k < m ==> s[k] != '\n',
        m == s.len() || s[m] == '\n',
    ensures
        comment_len(s) == m,
    decreases m,
{
    if m == 0 {
    } else {
        assert(s[0] != '\n');
        assert(forall|k: int| 0 <= k < m - 1 ==> #[trigger] s.drop_first()[k] != '\n');
        lemma_comment_len_is(s.drop_first(), m - 1);
    }
}

/// The numeric value of a digit character.
pub open spec fn digit_val(c: char) -> int {
    c as u32 - 48
}

/// Saturate a value at the largest machine word.
pub open spec fn sat_word(x: int) -> int {
    if x > usize::MAX as int {
        usize::MAX as int
    } else {
        x
    }
}

/// The value of a run of decimal digits, saturating at `usize::MAX`.
pub open spec fn digits_value(s: Seq<char>) -> int
    decreases s.len(),
{
    if s.len() == 0 {
        0
    } else {
        sat_word(digits_value(s.drop_last()) * 10 + digit_val(s.last()))
    }
}

/// Classification of a completed identifier word: keywords are matched by
/// exact string after the whole word is scanned.
pub open spec fn keyword_token(w: Seq<char>) -> TokenV {
    if w == "exit"@ {
        TokenV::Exit
    } else if w == "let"@ {
        TokenV::Let
    } else if w == "if"@ {
        TokenV::If
    } else if w == "els"@ {
        TokenV::Els
    } else if w == "elsif"@ {
        TokenV::ElsIf
    } else if w == "while"@ {
        TokenV::While
    } else if w == "for"@ {
        TokenV::For
    } else if w == "syscall"@ {
        TokenV::SysCall
    } else {
        TokenV::Ident(w)
    }
}

/// The token sequence produced by scanning `s` left to right.
pub open spec fn spec_tokenize(s: Seq<char>) -> Seq<TokenV>
    decreases s.len(),
    via spec_tokenize_dec
{
    if s.len() == 0 {
        Seq::empty()
    } else {
        let c = s[0];
        if is_ident_start(c) {
            let n: int = ident_len(s);
            seq![keyword_token(s.take(n))] + spec_tokenize(s.skip(n))
        } else if is_digit_char(c) {
            let n: int = digit_len(s);
            seq![TokenV::Number(digits_value(s.take(n)) as usize)] + spec_tokenize(s.skip(n))
        } else if c == '"' {
            let n: int = str_len(s.skip(1));
            let consumed: int = if 1 + n < s.len() {
                2 + n
            } else {
                1 + n
            };
            seq![TokenV::Str(s.subrange(1, 1 + n))] + spec_tokenize(s.skip(consumed))
        } else if c == '(' {
            seq![TokenV::OpenParen] + spec_tokenize(s.skip(1))
        } else if c == ')' {
            seq![TokenV::CloseParen] + spec_tokenize(s.skip(1))
        } else if c == '{' {
            seq![TokenV::OpenCurly] + spec_tokenize(s.skip(1))
        } else if c == '}' {
            seq![TokenV::CloseCurly] + spec_tokenize(s.skip(1))
        } else if c == '+' {
            if s.len() >= 2 && s[1] == '+' {
                seq![TokenV::DPlue] + spec_tokenize(s.skip(2))
            } else {
                seq![TokenV::Plus] + spec_tokenize(s.skip(1))
            }
        } else if c == '-' {
            if s.len() >= 2 && s[1] == '-' {
                seq![TokenV::DMinus] + spec_tokenize(s.skip(2))
            } else if s.len() >= 2 && s[1] == '>' {
                seq![TokenV::ThinArrow] + spec_tokenize(s.skip(2))
            } else {
                seq![TokenV::Minus] + spec_tokenize(s.skip(1))
            }
        } else if c == '*' {
            seq![TokenV::Multiply] + spec_tokenize(s.skip(1))
        } else if c == '/' {
            if s.len() >= 2 && s[1] == '/' {
                let n: int = comment_len(s.skip(2));
                let consumed: int = if 2 + n < s.len() {
                    3 + n
                } else {
                    2 + n
                };
                spec_tokenize(s.skip(consumed))
            } else {
                seq![TokenV::Divide] + spec_tokenize(s.skip(1))
            }
        } else if c == '=' {
            if s.len() >= 2 && s[1] == '=' {
                seq![TokenV::EquEqu] + spec_tokenize(s.skip(2))
            } else {
                seq![TokenV::Equal] + spec_tokenize(s.skip(1))
            }
        } else if c == '!' {
            if s.len() >= 2 && s[1] == '=' {
                seq![TokenV::NotEqu] + spec_tokenize(s.skip(2))
            } else {
                seq![TokenV::ExMark] + spec_tokenize(s.skip(1))
            }
        } else if c == '>' {
            if s.len() >= 2 && s[1] == '=' {
                seq![TokenV::GreatEqu] + spec_tokenize(s.skip(2))
            } else {
                seq![TokenV::Greater] + spec_tokenize(s.skip(1))
            }
        } else if c == '<' {
            if s.len() >= 2 && s[1] == '=' {
                seq![TokenV::LessEqu] + spec_tokenize(s.skip(2))
            } else {
                seq![TokenV::Less] + spec_tokenize(s.skip(1))
            }
        } else if c == '.' {
            if s.len() >= 2 && s[1] == '.' {
                seq![TokenV::DDot] + spec_tokenize(s.skip(2))
            } else {
                seq![TokenV::Dot] + spec_tokenize(s.skip(1))
            }
        } else if c == ',' {
            seq![TokenV::Comma] + spec_tokenize(s.skip(1))
        } else if c == ';' {
            seq![TokenV::Semi] + spec_tokenize(s.skip(1))
        } else {
            spec_tokenize(s.skip(1))
        }
    }
}

#[via_fn]
proof fn spec_tokenize_dec(s: Seq<char>) {
    if s.len() > 0 {
        lemma_ident_len_bounds(s);
        lemma_digit_len_bounds(s);
        if s.len() > 0 && is_ident_cont(s[0]) {
            lemma_ident_len_bounds(s.drop_first());
            assert(ident_len(s) == 1 + ident_len(s.drop_first()));
        }
        if s.len() > 0 && is_digit_char(s[0]) {
            lemma_digit_len_bounds(s.drop_first());
            assert(digit_len(s) == 1 + digit_len(s.drop_first()));
        }
        lemma_str_len_bounds(s.skip(1));
        if s.len() >= 2 {
            lemma_comment_len_bounds(s.skip(2));
        }
    }
}

/// Law: scanning is deterministic; two runs of `tokenize` over the same
/// source yield identical token sequences, since each result equals
/// `spec_tokenize` of the input.
pub proof fn lemma_tokenize_deterministic(src: Seq<char>, r1: Seq<TokenV>, r2: Seq<TokenV>)
    requires
        r1 == spec_tokenize(src),
        r2 == spec_tokenize(src),
    ensures
        r1 == r2,
{
}

fn is_ident_start_exec(c: char) -> (r: bool)
    ensures
        r == is_ident_start(c),
{
    let u: u32 = c as u32;
    (97 <= u && u <= 122) || (65 <= u && u <= 90) || c == '_'
}

fn is_digit_exec(c: char) -> (r: bool)
    ensures
        r == is_digit_char(c),
{
    let u: u32 = c as u32;
    48 <= u && u <= 57
}

fn is_ident_cont_exec(c: char) -> (r: bool)
    ensures
        r == is_ident_cont(c),
{
    is_ident_start_exec(c) || is_digit_exec(c)
}

/// Classify a completed word as a keyword token or an identifier.
fn keyword_token_exec(word: String) -> (t: Token)
    ensures
        t@ == keyword_token(word@),
{
    if word == "exit".to_owned() {
        Token::Exit
    } else if word == "let".to_owned() {
        Token::Let
    } else if word == "if".to_owned() {
        Token::If
    } else if word == "els".to_owned() {
        Token::Els
    } else if word == "elsif".to_owned() {
        Token::ElsIf
    } else if word == "while".to_owned() {
        Token::While
    } else if word == "for".to_owned() {
        Token::For
    } else if word == "syscall".to_owned() {
        Token::SysCall
    } else {
        Token::Ident(word)
    }
}

proof fn lemma_tokens_view_push(ts: Seq<Token>, t: Token)
    ensures
        tokens_view(ts.push(t)) == tokens_view(ts) + seq![t@],
{
    assert(tokens_view(ts.push(t)) =~= tokens_view(ts) + seq![t@]);
}

/// The scanner.  Holds the source text; `tokenize` consumes it.
pub struct Tokenizer {
    input: String,
}

impl View for Tokenizer {
    type V = Seq<char>;

    /// A scanner is its source text.
    closed spec fn view(&self) -> Seq<char> {
        self.input@
    }
}

impl Tokenizer {
    pub fn new(input: String) -> (t: Tokenizer)
        ensures
            t@ == input@,
    {
        Tokenizer { input }
    }

    /// Scan the whole source, left to right, into tokens.
    pub fn tokenize(self) -> (r: Vec<Token>)
        ensures
            tokens_view(r@) == spec_tokenize(self@),
    {
        let input = self.input;
        let sref: &str = input.as_str();
        let mut it = sref.chars();
        let mut chars: Vec<char> = Vec::new();
        proof {
            assert(vstd::string::spec_iter(sref).remaining() == sref@);
            assert(chars@ + it.remaining() =~= input@);
        }
        loop
            invariant
                chars@ + it.remaining() == input@,
                it.decrease() is Some,
            ensures
                chars@ == input@,
            decreases it.decrease()->0,
        {
            match it.next() {
                Some(c) => {
                    chars.push(c);
                    proof {
                        assert(chars@ + it.remaining() =~= input@);
                    }
                },
                None => {
                    proof {
                        assert(it.remaining().len() == 0);
                        assert(chars@ + it.remaining() =~= chars@);
                    }
                    break ;
                },
            }
        }
        let ghost full: Seq<char> = chars@;
        assert(full == input@);
        let n: usize = chars.len();
        let mut i: usize = 0;
        let mut tokens: Vec<Token> = Vec::new();
        proof {
            assert(full.skip(0) =~= full);
            assert(tokens_view(tokens@) =~= Seq::<TokenV>::empty());
            assert(tokens_view(tokens@) + spec_tokenize(full) =~= spec_tokenize(full));
        }
        while i < n
            invariant
                i <= n,
                n == full.len(),
                chars@ == full,
                full == input@,
                spec_tokenize(full) == tokens_view(tokens@) + spec_tokenize(full.skip(i as int)),
            decreases n - i,
        {
            let ghost s: Seq<char> = full.skip(i as int);
            let ghost prev: Seq<Token> = tokens@;
            assert(s[0] == full[i as int]);
            let c: char = chars[i];
            if is_ident_start_exec(c) {
                let mut j: usize = i;
                while j < n && is_ident_cont_exec(chars[j])
                    invariant
                        i <= j <= n,
                        n == full.len(),
                        chars@ == full,
                        forall|k: int| i <= k < j ==> is_ident_cont(full[k]),
                    decreases n - j,
                {
                    j = j + 1;
                }
                let word: String = input.as_str().substring_char(i, j).to_owned();
                let tok: Token = keyword_token_exec(word);
                tokens.push(tok);
                proof {
                    assert(forall|k: int| 0 <= k < j - i ==> is_ident_cont(#[trigger] s[k]));
                    assert(j - i == s.len() || !is_ident_cont(s[j - i]));
                    lemma_ident_len_is(s, j - i);
                    assert(s.take(j - i) =~= full.subrange(i as int, j as int));
                    assert(s.skip(j - i) =~= full.skip(j as int));
                    assert(word@ == full.subrange(i as int, j as int));
                    assert(spec_tokenize(s) == seq![keyword_token(s.take(j - i))]
                        + spec_tokenize(s.skip(j - i)));
                    lemma_tokens_view_push(prev, tok);
                    assert(tokens_view(prev) + (seq![tok@] + spec_tokenize(full.skip(j as int)))
                        =~= (tokens_view(prev) + seq![tok@]) + spec_tokenize(full.skip(j as int)));
                }
                i = j;
            } else if is_digit_exec(c) {
                let mut j: usize = i;
                let mut acc: usize = 0;
                proof {
                    assert(full.subrange(i as int, i as int) =~= Seq::<char>::empty());
                }
                while j < n && is_digit_exec(chars[j])
                    invariant
                        i <= j <= n,
                        n == full.len(),
                        chars@ == full,
                        forall|k: int| i <= k < j ==> is_digit_char(full[k]),
                        acc as int == digits_value(full.subrange(i as int, j as int)),
                    decreases n - j,
                {
                    let c2: char = chars[j];
                    assert(is_digit_char(c2));
                    let d: usize = (c2 as u32 - 48) as usize;
                    let ghost before: int = digits_value(full.subrange(i as int, j as int));
                    let next: usize = match acc.checked_mul(10) {
                        Some(m) => match m.checked_add(d) {
                            Some(v) => v,
                            None => usize::MAX,
                        },
                        None => usize::MAX,
                    };
                    proof {
                        let ext = full.subrange(i as int, j + 1);
                        assert(ext.drop_last() =~= full.subrange(i as int, j as int));
                        assert(ext.last() == full[j as int]);
                        assert(digits_value(ext) == sat_word(before * 10 + digit_val(c2)));
                        assert(next as int == sat_word(before * 10 + d));
                    }
                    acc = next;
                    j = j + 1;
                }
                let tok: Token = Token::Number(acc);
                tokens.push(tok);
                proof {
                    assert(forall|k: int| 0 <= k < j - i ==> is_digit_char(#[trigger] s[k]));
                    assert(j - i == s.len() || !is_digit_char(s[j - i]));
                    lemma_digit_len_is(s, j - i);
                    assert(s.take(j - i) =~= full.subrange(i as int, j as int));
                    assert(s.skip(j - i) =~= full.skip(j as int));
                    assert(digits_value(s.take(j - i)) == acc as int);
                    assert(spec_tokenize(s) == seq![TokenV::Number(acc)]
                        + spec_tokenize(s.skip(j - i)));
                    lemma_tokens_view_push(prev, tok);
                    assert(tokens_view(prev) + (seq![tok@] + spec_tokenize(full.skip(j as int)))
                        =~= (tokens_view(prev) + seq![tok@]) + spec_tokenize(full.skip(j as int)));
                }
                i = j;
            } else if c == '"' {
                let mut j: usize = i + 1;
                while j < n && chars[j] != '"'
                    invariant
                        i + 1 <= j <= n,
                        n == full.len(),
                        chars@ == full,
                        forall|k: int| i + 1 <= k < j ==> full[k] != '"',
                    decreases n - j,
                {
                    j = j + 1;
                }
                let body: String = input.as_str().substring_char(i + 1, j).to_owned();
                let tok: Token = Token::Str(body);
                tokens.push(tok);
                let next_i: usize = if j < n {
                    j + 1
                } else {
                    j
                };
                proof {
                    let t = s.skip(1);
                    assert(t =~= full.skip(i + 1));
                    assert(forall|k: int| 0 <= k < j - i - 1 ==> #[trigger] t[k] != '"');
                    assert(j - i - 1 == t.len() || t[j - i - 1] == '"');
                    lemma_str_len_is(t, j - i - 1);
                    assert(s.subrange(1, j - i) =~= full.subrange(i + 1, j as int));
                    assert(s.skip(next_i - i) =~= full.skip(next_i as int));
                    assert(spec_tokenize(s) == seq![TokenV::Str(full.subrange(i + 1, j as int))]
                        + spec_tokenize(full.skip(next_i as int)));
                    lemma_tokens_view_push(prev, tok);
                    assert(tokens_view(prev) + (seq![tok@] + spec_tokenize(full.skip(next_i as int)))
                        =~= (tokens_view(prev) + seq![tok@])
                        + spec_tokenize(full.skip(next_i as int)));
                }
                i = next_i;
            } else if c == '/' && i + 1 < n && chars[i + 1] == '/' {
                let mut j: usize = i + 2;
                while j < n && chars[j] != '\n'
                    invariant
                        i + 2 <= j <= n,
                        n == full.len(),
                        chars@ == full,
                        forall|k: int| i + 2 <= k < j ==> full[k] != '\n',
                    decreases n - j,
                {
                    j = j + 1;
                }
                let next_i: usize = if j < n {
                    j + 1
                } else {
                    j
                };
                proof {
                    let t = s.skip(2);
                    assert(t =~= full.skip(i + 2));
                    assert(forall|k: int| 0 <= k < j - i - 2 ==> #[trigger] t[k] != '\n');
                    assert(j - i - 2 == t.len() || t[j - i - 2] == '\n');
                    lemma_comment_len_is(t, j - i - 2);
                    assert(s.skip(next_i - i) =~= full.skip(next_i as int));
                    assert(spec_tokenize(s) == spec_tokenize(full.skip(next_i as int)));
                }
                i = next_i;
            } else {
                // single- and double-character operators and punctuation
                let two: bool = i + 1 < n;
                let mut tok: Option<Token> = None;
                let mut step: usize = 1;
                if c == '(' {
                    tok = Some(Token::OpenParen);
                } else if c == ')' {
                    tok = Some(Token::CloseParen);
                } else if c == '{' {
                    tok = Some(Token::OpenCurly);
                } else if c == '}' {
                    tok = Some(Token::CloseCurly);
                } else if c == '+' {
                    if two && chars[i + 1] == '+' {
                        tok = Some(Token::DPlue);
                        step = 2;
                    } else {
                        tok = Some(Token::Plus);
                    }
                } else if c == '-' {
                    if two && chars[i + 1] == '-' {
                        tok = Some(Token::DMinus);
                        step = 2;
                    } else if two && chars[i + 1] == '>' {
                        tok = Some(Token::ThinArrow);
                        step = 2;
                    } else {
                        tok = Some(Token::Minus);
                    }
                } else if c == '*' {
                    tok = Some(Token::Multiply);
                } else if c == '/' {
                    tok = Some(Token::Divide);
                } else if c == '=' {
                    if two && chars[i + 1] == '=' {
                        tok = Some(Token::EquEqu);
                        step = 2;
                    } else {
                        tok = Some(Token::Equal);
                    }
                } else if c == '!' {
                    if two && chars[i + 1] == '=' {
                        tok = Some(Token::NotEqu);
                        step = 2;
                    } else {
                        tok = Some(Token::ExMark);
                    }
                } else if c == '>' {
                    if two && chars[i + 1] == '=' {
                        tok = Some(Token::GreatEqu);
                        step = 2;
                    } else {
                        tok = Some(Token::Greater);
                    }
                } else if c == '<' {
                    if two && chars[i + 1] == '=' {
                        tok = Some(Token::LessEqu);
                        step = 2;
                    } else {
                        tok = Some(Token::Less);
                    }
                } else if c == '.' {
                    if two && chars[i + 1] == '.' {
                        tok = Some(Token::DDot);
                        step = 2;
                    } else {
                        tok = Some(Token::Dot);
                    }
                } else if c == ',' {
                    tok = Some(Token::Comma);
                } else if c == ';' {
                    tok = Some(Token::Semi);
                }
                proof {
                    assert(s.skip(1) =~= full.skip(i + 1));
                    if i + 2 <= n {
                        assert(s.skip(2) =~= full.skip(i + 2));
                        assert(s[1] == full[i + 1]);
                    }
                }
                match tok {
                    Some(t) => {
                        tokens.push(t);
                        proof {
                            lemma_tokens_view_push(prev, t);
                            assert(spec_tokenize(s) == seq![t@]
                                + spec_tokenize(full.skip(i + step)));
                            assert(tokens_view(prev) + (seq![t@]
                                + spec_tokenize(full.skip(i + step)))
                                =~= (tokens_view(prev) + seq![t@])
                                + spec_tokenize(full.skip(i + step)));
                        }
                    },
                    None => {
                        proof {
                            assert(spec_tokenize(s) == spec_tokenize(full.skip(i + 1)));
                        }
                    },
                }
                i = i + step;
            }
        }
        proof {
            assert(full.skip(n as int) =~= Seq::<char>::empty());
            assert(spec_tokenize(full.skip(i as int)) =~= Seq::<TokenV>::empty());
            assert(tokens_view(tokens@) + Seq::<TokenV>::empty() =~= tokens_view(tokens@));
        }
        tokens
    }
}

} // verus!

use vstd::prelude::*;
use vstd::string::StrSliceExecFns;

verus! {

/// A numeric literal as written: the decimal digits before the point and
/// those after it (empty when there is no point or no digit follows it).
/// Each element is a digit value in `0..=9`.
#[derive(Debug, Clone, PartialEq, Eq)]
pub struct Numeral {
    pub int_digits: Vec<u8>,
    pub frac_digits: Vec<u8>,
}

impl Numeral {
    /// A copy of this numeral, digit for digit.
    pub fn duplicate(&self) -> (r: Numeral)
        ensures
            r@ == self@,
    {
        let mut int_digits: Vec<u8> = Vec::new();
        let mut i: usize = 0;
        while i < self.int_digits.len()
            invariant
                i <= self.int_digits@.len(),
                int_digits@ == self.int_digits@.subrange(0, i as int),
            decreases self.int_digits@.len() - i,
        {
            int_digits.push(self.int_digits[i]);
            i = i + 1;
        }
        let mut frac_digits: Vec<u8> = Vec::new();
        let mut j: usize = 0;
        while j < self.frac_digits.len()
            invariant
                j <= self.frac_digits@.len(),
                frac_digits@ == self.frac_digits@.subrange(0, j as int),
            decreases self.frac_digits@.len() - j,
        {
            frac_digits.push(self.frac_digits[j]);
            j = j + 1;
        }
        assert(int_digits@ =~= self.int_digits@);
        assert(frac_digits@ =~= self.frac_digits@);
        Numeral { int_digits, frac_digits }
    }
}

/// The mathematical content of a numeral.
pub struct NumeralView {
    pub int_digits: Seq<u8>,
    pub frac_digits: Seq<u8>,
}

impl View for Numeral {
    type V = NumeralView;

    open spec fn view(&self) -> NumeralView {
        NumeralView { int_digits: self.int_digits@, frac_digits: self.frac_digits@ }
    }
}

/// One lexical unit.
#[derive(Debug, Clone, PartialEq)]
pub enum Token {
    Equal,
    Parallel,
    Series,
    Identifier(String),
    Number(Numeral),
    Multiplier(String),
    Comma,
    Evaluator,
    LeftParenthesis,
    RightParenthesis,
    EndOfLine,
}

/// What a token means, with its strings and digits as sequences.
pub enum TokenView {
    Equal,
    Parallel,
    Series,
    Identifier(Seq<char>),
    Number(NumeralView),
    Multiplier(Seq<char>),
    Comma,
    Evaluator,
    LeftParenthesis,
    RightParenthesis,
    EndOfLine,
}

impl View for Token {
    type V = TokenView;

    open spec fn view(&self) -> TokenView {
        match self {
            Token::Equal => TokenView::Equal,
            Token::Parallel => TokenView::Parallel,
            Token::Series => TokenView::Series,
            Token::Identifier(s) => TokenView::Identifier(s@),
            Token::Number(n) => TokenView::Number(n@),
            Token::Multiplier(s) => TokenView::Multiplier(s@),
            Token::Comma => TokenView::Comma,
            Token::Evaluator => TokenView::Evaluator,
            Token::LeftParenthesis => TokenView::LeftParenthesis,
            Token::RightParenthesis => TokenView::RightParenthesis,
            Token::EndOfLine => TokenView::EndOfLine,
        }
    }
}

/// The views of a sequence of tokens.
pub open spec fn tokens_view(ts: Seq<Token>) -> Seq<TokenView> {
    ts.map_values(|t: Token| t@)
}

/// A lexing failure: an unknown character or an incomplete `->` or `//`,
/// on the given 1-based line.
#[derive(Debug, Clone, Copy, PartialEq, Eq)]
pub struct LexError {
    pub line: usize,
}

pub open spec fn is_digit(c: char) -> bool {
    '0' <= c && c <= '9'
}

pub open spec fn is_letter(c: char) -> bool {
    ('a' <= c && c <= 'z') || ('A' <= c && c <= 'Z')
}

pub open spec fn is_ident_char(c: char) -> bool {
    is_letter(c) || is_digit(c) || c == '_'
}

pub open spec fn digit_value(c: char) -> u8 {
    (c as u32 - '0' as u32) as u8
}

pub open spec fn is_blank(c: char) -> bool {
    c == ' ' || c == '\t' || c == '\r'
}

/// The token of a character that is a token by itself, if it is one.
pub open spec fn single_token(c: char) -> Option<TokenView> {
    if c == '=' {
        Some(TokenView::Equal)
    } else if c == '?' {
        Some(TokenView::Evaluator)
    } else if c == '(' {
        Some(TokenView::LeftParenthesis)
    } else if c == ')' {
        Some(TokenView::RightParenthesis)
    } else if c == ',' {
        Some(TokenView::Comma)
    } else {
        None
    }
}

/// How many digits follow from position `j` on.
pub open spec fn digit_run(s: Seq<char>, j: int) -> nat
    decreases s.len() - j,
{
    if 0 <= j < s.len() && is_digit(s[j]) {
        1 + digit_run(s, j + 1)
    } else {
        0
    }
}

/// How many identifier characters follow from position `j` on.
pub open spec fn ident_run(s: Seq<char>, j: int) -> nat
    decreases s.len() - j,
{
    if 0 <= j < s.len() && is_ident_char(s[j]) {
        1 + ident_run(s, j + 1)
    } else {
        0
    }
}

pub open spec fn digit_values(s: Seq<char>, from: int, to: int) -> Seq<u8> {
    s.subrange(from, to).map_values(|c: char| digit_value(c))
}

/// Where the integer part of a numeral starting at `i` ends.
pub open spec fn int_end(s: Seq<char>, i: int) -> int {
    i + 1 + digit_run(s, i + 1)
}

pub open spec fn has_point(s: Seq<char>, i: int) -> bool {
    int_end(s, i) < s.len() && s[int_end(s, i)] == '.'
}

/// Where the digits of a numeral starting at `i` end, point and fraction included.
pub open spec fn numeral_end(s: Seq<char>, i: int) -> int {
    if has_point(s, i) {
        int_end(s, i) + 1 + digit_run(s, int_end(s, i) + 1)
    } else {
        int_end(s, i)
    }
}

pub open spec fn numeral_at(s: Seq<char>, i: int) -> NumeralView {
    NumeralView {
        int_digits: digit_values(s, i, int_end(s, i)),
        frac_digits: if has_point(s, i) {
            digit_values(s, int_end(s, i) + 1, numeral_end(s, i))
        } else {
            Seq::empty()
        },
    }
}

pub open spec fn has_suffix(s: Seq<char>, i: int) -> bool {
    numeral_end(s, i) < s.len() && s[numeral_end(s, i)] == 'k'
}

/// Where the token that starts at `i` with a digit ends, suffix included.
pub open spec fn number_end(s: Seq<char>, i: int) -> int {
    if has_suffix(s, i) {
        numeral_end(s, i) + 1
    } else {
        numeral_end(s, i)
    }
}

pub open spec fn number_tokens(s: Seq<char>, i: int) -> Seq<TokenView> {
    if has_suffix(s, i) {
        seq![TokenView::Number(numeral_at(s, i)), TokenView::Multiplier(seq!['k'])]
    } else {
        seq![TokenView::Number(numeral_at(s, i))]
    }
}

pub open spec fn ident_end(s: Seq<char>, i: int) -> int {
    i + 1 + ident_run(s, i + 1)
}

/// `ts` placed before the tokens of a successful rest; an error passes through.
pub open spec fn prepend(ts: Seq<TokenView>, rest: Result<Seq<TokenView>, nat>) -> Result<
    Seq<TokenView>,
    nat,
> {
    match rest {
        Ok(r) => Ok(ts + r),
        Err(l) => Err(l),
    }
}

/// The tokens of `s` from position `i` on, when the line there is `line`;
/// or the line of the first character that cannot be lexed.
pub open spec fn lex_from(s: Seq<char>, i: int, line: nat) -> Result<Seq<TokenView>, nat>
    decreases s.len() - i,
    via lex_from_decreases
{
    if i < 0 || i >= s.len() {
        Ok(Seq::empty())
    } else {
        let c = s[i];
        if is_blank(c) {
            lex_from(s, i + 1, line)
        } else if c == '\n' {
            prepend(seq![TokenView::EndOfLine], lex_from(s, i + 1, line + 1))
        } else if single_token(c) is Some {
            prepend(seq![single_token(c)->0], lex_from(s, i + 1, line))
        } else if c == '-' {
            if i + 1 < s.len() && s[i + 1] == '>' {
                prepend(seq![TokenView::Series], lex_from(s, i + 2, line))
            } else {
                Err(line)
            }
        } else if c == '/' {
            if i + 1 < s.len() && s[i + 1] == '/' {
                prepend(seq![TokenView::Parallel], lex_from(s, i + 2, line))
            } else {
                Err(line)
            }
        } else if is_digit(c) {
            prepend(number_tokens(s, i), lex_from(s, number_end(s, i), line))
        } else if is_letter(c) {
            prepend(
                seq![TokenView::Identifier(s.subrange(i, ident_end(s, i)))],
                lex_from(s, ident_end(s, i), line),
            )
        } else {
            Err(line)
        }
    }
}

/// The tokens of a whole input, lines counted from 1.
pub open spec fn lex_spec(s: Seq<char>) -> Result<Seq<TokenView>, nat> {
    lex_from(s, 0, 1)
}

pub proof fn lemma_digit_run_bound(s: Seq<char>, j: int)
    requires
        0 <= j <= s.len(),
    ensures
        j + digit_run(s, j) <= s.len(),
    decreases s.len() - j,
{
    if j < s.len() && is_digit(s[j]) {
        lemma_digit_run_bound(s, j + 1);
    }
}

pub proof fn lemma_ident_run_bound(s: Seq<char>, j: int)
    requires
        0 <= j <= s.len(),
    ensures
        j + ident_run(s, j) <= s.len(),
    decreases s.len() - j,
{
    if j < s.len() && is_ident_char(s[j]) {
        lemma_ident_run_bound(s, j + 1);
    }
}

/// A numeral that starts at `i` ends within the input, after `i`.
pub proof fn lemma_number_end_bound(s: Seq<char>, i: int)
    requires
        0 <= i < s.len(),
    ensures
        i < int_end(s, i) <= numeral_end(s, i) <= number_end(s, i) <= s.len(),
{
    lemma_digit_run_bound(s, i + 1);
    if has_point(s, i) {
        lemma_digit_run_bound(s, int_end(s, i) + 1);
    }
}

#[via_fn]
proof fn lex_from_decreases(s: Seq<char>, i: int, line: nat) {
    if 0 <= i < s.len() {
        lemma_number_end_bound(s, i);
        lemma_ident_run_bound(s, i + 1);
    }
}

proof fn lemma_prepend_assoc(
    a: Seq<TokenView>,
    b: Seq<TokenView>,
    r: Result<Seq<TokenView>, nat>,
)
    ensures
        prepend(a, prepend(b, r)) == prepend(a + b, r),
{
    if let Ok(x) = r {
        assert((a + b) + x =~= a + (b + x));
    }
}

proof fn lemma_prepend_empty(r: Result<Seq<TokenView>, nat>)
    ensures
        prepend(Seq::empty(), r) == r,
{
    if let Ok(x) = r {
        assert(Seq::<TokenView>::empty() + x =~= x);
    }
}

fn chars_of(input: &str) -> (r: Vec<char>)
    ensures
        r@ == input@,
{
    let mut r: Vec<char> = Vec::new();
    for c in it: input.chars()
        invariant
            it.seq() == input@,
            r@ == it.seq().subrange(0, it.index() as int),
    {
        r.push(c);
    }
    assert(r@ =~= input@);
    r
}

fn is_digit_exec(c: char) -> (r: bool)
    ensures
        r == is_digit(c),
{
    '0' <= c && c <= '9'
}

fn is_letter_exec(c: char) -> (r: bool)
    ensures
        r == is_letter(c),
{
    ('a' <= c && c <= 'z') || ('A' <= c && c <= 'Z')
}

/// Reads a run of digits of `s` from `start` on, and returns their values
/// and where the run ends.
fn scan_digits(s: &Vec<char>, start: usize) -> (r: (Vec<u8>, usize))
    requires
        start <= s@.len(),
    ensures
        r.1 == start + digit_run(s@, start as int),
        r.0@ == digit_values(s@, start as int, r.1 as int),
{
    let mut digits: Vec<u8> = Vec::new();
    let mut j: usize = start;
    proof {
        lemma_digit_run_bound(s@, start as int);
    }
    while j < s.len() && is_digit_exec(s[j])
        invariant
            start <= j <= s@.len(),
            digit_run(s@, start as int) == (j - start) + digit_run(s@, j as int),
            digits@ == digit_values(s@, start as int, j as int),
        decreases s@.len() - j,
    {
        digits.push((s[j] as u32 - '0' as u32) as u8);
        j = j + 1;
        assert(digits@ =~= digit_values(s@, start as int, j as int));
    }
    (digits, j)
}

/// Reads the rest of an identifier from `start` on, and returns where it ends.
fn scan_ident(s: &Vec<char>, start: usize) -> (r: usize)
    requires
        start <= s@.len(),
    ensures
        r == start + ident_run(s@, start as int),
{
    let mut j: usize = start;
    proof {
        lemma_ident_run_bound(s@, start as int);
    }
    while j < s.len() && (is_letter_exec(s[j]) || is_digit_exec(s[j]) || s[j] == '_')
        invariant
            start <= j <= s@.len(),
            ident_run(s@, start as int) == (j - start) + ident_run(s@, j as int),
        decreases s@.len() - j,
    {
        j = j + 1;
    }
    j
}

/// Splits an input into tokens.
///
/// Blanks are skipped, a newline gives an end-of-line token, `->` and `//`
/// are the two operators, a numeral is followed by a multiplier token when a
/// `k` comes right after it, and an identifier is a letter followed by
/// letters, digits and underscores. Anything else is an error that names the
/// line on which it stands.
pub fn lex(input: &str) -> (r: Result<Vec<Token>, LexError>)
    ensures
        match r {
            Ok(ts) => lex_spec(input@) == Ok::<Seq<TokenView>, nat>(tokens_view(ts@)),
            Err(e) => lex_spec(input@) == Err::<Seq<TokenView>, nat>(e.line as nat),
        },
{
    let s = chars_of(input);
    let n = s.len();
    let mut result: Vec<Token> = Vec::new();
    let mut i: usize = 0;
    let mut newlines: usize = 0;
    while i < n
        invariant
            n == s@.len(),
            s@ == input@,
            i <= n,
            newlines <= i,
            lex_spec(s@) == prepend(tokens_view(result@), lex_from(s@, i as int, newlines as nat + 1)),
        decreases n - i,
    {
        let ghost before = result@;
        let c = s[i];
        let ghost rest = lex_from(s@, i as int, newlines as nat + 1);
        let ghost mut added: Seq<TokenView> = Seq::empty();
        if c == ' ' || c == '\t' || c == '\r' {
            i = i + 1;
        } else if c == '\n' {
            result.push(Token::EndOfLine);
            proof {
                added = seq![TokenView::EndOfLine];
                assert(tokens_view(result@) =~= tokens_view(before) + added);
            }
            newlines = newlines + 1;
            i = i + 1;
        } else if c == '=' || c == '?' || c == '(' || c == ')' || c == ',' {
            let t = if c == '=' {
                Token::Equal
            } else if c == '?' {
                Token::Evaluator
            } else if c == '(' {
                Token::LeftParenthesis
            } else if c == ')' {
                Token::RightParenthesis
            } else {
                Token::Comma
            };
            result.push(t);
            proof {
                added = seq![t@];
                assert(tokens_view(result@) =~= tokens_view(before) + added);
            }
            i = i + 1;
        } else if c == '-' || c == '/' {
            let second = if c == '-' {
                '>'
            } else {
                '/'
            };
            if i + 1 < n && s[i + 1] == second {
                result.push(
                    if c == '-' {
                        Token::Series
                    } else {
                        Token::Parallel
                    },
                );
                proof {
                    added = seq![result@.last()@];
                    assert(tokens_view(result@) =~= tokens_view(before) + added);
                }
                i = i + 2;
            } else {
                return Err(LexError { line: newlines + 1 });
            }
        } else if is_digit_exec(c) {
            proof {
                lemma_number_end_bound(s@, i as int);
            }
            let (int_digits, ie) = scan_digits(&s, i + 1);
            let mut int_all: Vec<u8> = Vec::new();
            int_all.push((c as u32 - '0' as u32) as u8);
            let mut rest_digits = int_digits;
            int_all.append(&mut rest_digits);
            assert(int_all@ =~= digit_values(s@, i as int, int_end(s@, i as int)));
            let mut end = ie;
            let mut frac_digits: Vec<u8> = Vec::new();
            if ie < n && s[ie] == '.' {
                let (fd, fe) = scan_digits(&s, ie + 1);
                frac_digits = fd;
                end = fe;
            }
            let numeral = Numeral { int_digits: int_all, frac_digits };
            assert(numeral@ == numeral_at(s@, i as int));
            result.push(Token::Number(numeral));
            proof {
                added = seq![TokenView::Number(numeral_at(s@, i as int))];
                assert(tokens_view(result@) =~= tokens_view(before) + added);
            }
            if end < n && s[end] == 'k' {
                let k = "k";
                proof {
                    reveal_strlit("k");
                }
                let suffix = k.to_owned();
                assert(suffix@ =~= seq!['k']);
                result.push(Token::Multiplier(suffix));
                proof {
                    added = added.push(TokenView::Multiplier(seq!['k']));
                    assert(tokens_view(result@) =~= tokens_view(before) + added);
                }
                end = end + 1;
            }
            assert(end == number_end(s@, i as int));
            assert(added =~= number_tokens(s@, i as int));
            i = end;
        } else if is_letter_exec(c) {
            let end = scan_ident(&s, i + 1);
            proof {
                lemma_ident_run_bound(s@, i as int + 1);
            }
            let name = input.substring_char(i, end).to_owned();
            result.push(Token::Identifier(name));
            proof {
                added = seq![TokenView::Identifier(s@.subrange(i as int, end as int))];
                assert(tokens_view(result@) =~= tokens_view(before) + added);
            }
            i = end;
        } else {
            return Err(LexError { line: newlines + 1 });
        }
        proof {
            lemma_prepend_assoc(
                tokens_view(before),
                added,
                lex_from(s@, i as int, newlines as nat + 1),
            );
            lemma_prepend_empty(lex_from(s@, i as int, newlines as nat + 1));
            assert(tokens_view(result@) =~= tokens_view(before) + added);
            assert(rest == prepend(added, lex_from(s@, i as int, newlines as nat + 1)));
        }
    }
    assert(tokens_view(result@) + Seq::<TokenView>::empty() =~= tokens_view(result@));
    Ok(result)
}

} // verus!

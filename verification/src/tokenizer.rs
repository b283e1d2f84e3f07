//! Shell-like splitting of one command line into argument tokens.
//!
//! Tokens are separated by runs of spaces and tabs.  Inside a token, a
//! double-quoted segment copies characters verbatim except that `\"` and
//! `\\` stand for the quote and the backslash, while any other `\x` stays
//! the two characters `\x`; a single-quoted segment copies everything
//! verbatim.  A newline is never legal, and a quote that is still open at
//! the end of the input is an error.

use crate::text::{lemma_seq_span, seq_span, str_to_chars, string_from_chars};
use vstd::prelude::*;

verus! {

#[derive(Clone, Copy, Debug, PartialEq, Eq, Structural)]
pub enum TokenizeError {
    UnmatchedDoubleQuote,
    UnmatchedSingleQuote,
    NewlineInArgument,
    NewlineInDoubleQuote,
    NewlineInSingleQuote,
}

impl TokenizeError {
    /// The user-facing description of this error.
    pub fn message(&self) -> (r: &'static str)
        ensures
            r@ == spec_message(*self),
    {
        match self {
            TokenizeError::UnmatchedDoubleQuote => "unmatched double quote",
            TokenizeError::UnmatchedSingleQuote => "unmatched single quote",
            TokenizeError::NewlineInArgument => "newline within argument",
            TokenizeError::NewlineInDoubleQuote => "newline within double quote",
            TokenizeError::NewlineInSingleQuote => "newline within single quote",
        }
    }
}

pub open spec fn spec_message(e: TokenizeError) -> Seq<char> {
    match e {
        TokenizeError::UnmatchedDoubleQuote => "unmatched double quote"@,
        TokenizeError::UnmatchedSingleQuote => "unmatched single quote"@,
        TokenizeError::NewlineInArgument => "newline within argument"@,
        TokenizeError::NewlineInDoubleQuote => "newline within double quote"@,
        TokenizeError::NewlineInSingleQuote => "newline within single quote"@,
    }
}

/// A token separator: a plain space or tab.
pub open spec fn is_blank(c: char) -> bool {
    c == ' ' || c == '\t'
}

/// One step state of a double-quoted segment starting at `i` (just past the
/// opening quote), with `acc` the token text gathered so far.  Returns the
/// grown token text and the index just past the closing quote.
pub open spec fn spec_parse_double(s: Seq<char>, i: int, acc: Seq<char>) -> Result<
    (Seq<char>, int),
    TokenizeError,
>
    decreases s.len() - i,
{
    if i >= s.len() {
        Err(TokenizeError::UnmatchedDoubleQuote)
    } else if s[i] == '"' {
        Ok((acc, i + 1))
    } else if s[i] == '\n' {
        Err(TokenizeError::NewlineInDoubleQuote)
    } else if s[i] == '\\' {
        if i + 1 < s.len() {
            if s[i + 1] == '"' || s[i + 1] == '\\' {
                spec_parse_double(s, i + 2, acc.push(s[i + 1]))
            } else if s[i + 1] == '\n' {
                Err(TokenizeError::NewlineInDoubleQuote)
            } else {
                spec_parse_double(s, i + 2, acc.push('\\').push(s[i + 1]))
            }
        } else {
            Err(TokenizeError::UnmatchedDoubleQuote)
        }
    } else {
        spec_parse_double(s, i + 1, acc.push(s[i]))
    }
}

/// Like `spec_parse_double`, for a single-quoted segment: no escapes at all.
pub open spec fn spec_parse_single(s: Seq<char>, i: int, acc: Seq<char>) -> Result<
    (Seq<char>, int),
    TokenizeError,
>
    decreases s.len() - i,
{
    if i >= s.len() {
        Err(TokenizeError::UnmatchedSingleQuote)
    } else if s[i] == '\'' {
        Ok((acc, i + 1))
    } else if s[i] == '\n' {
        Err(TokenizeError::NewlineInSingleQuote)
    } else {
        spec_parse_single(s, i + 1, acc.push(s[i]))
    }
}

pub proof fn lemma_parse_double_advances(s: Seq<char>, i: int, acc: Seq<char>)
    ensures
        spec_parse_double(s, i, acc) matches Ok(r) ==> i < r.1 <= s.len(),
    decreases s.len() - i,
{
    if i >= s.len() {
    } else if s[i] == '"' {
    } else if s[i] == '\n' {
    } else if s[i] == '\\' {
        if i + 1 < s.len() {
            if s[i + 1] == '"' || s[i + 1] == '\\' {
                lemma_parse_double_advances(s, i + 2, acc.push(s[i + 1]));
            } else if s[i + 1] == '\n' {
            } else {
                lemma_parse_double_advances(s, i + 2, acc.push('\\').push(s[i + 1]));
            }
        }
    } else {
        lemma_parse_double_advances(s, i + 1, acc.push(s[i]));
    }
}

pub proof fn lemma_parse_single_advances(s: Seq<char>, i: int, acc: Seq<char>)
    ensures
        spec_parse_single(s, i, acc) matches Ok(r) ==> i < r.1 <= s.len(),
    decreases s.len() - i,
{
    if i >= s.len() {
    } else if s[i] == '\'' {
    } else if s[i] == '\n' {
    } else {
        lemma_parse_single_advances(s, i + 1, acc.push(s[i]));
    }
}

/// One token, starting at `i` with `acc` already gathered: plain characters
/// are copied, quoted segments are resolved, and a blank ends the token
/// (consuming the blank).  Returns the token and the index to resume at.
pub open spec fn spec_parse_word(s: Seq<char>, i: int, acc: Seq<char>) -> Result<
    (Seq<char>, int),
    TokenizeError,
>
    decreases s.len() - i,
    via spec_parse_word_decreases
{
    if i < 0 || i >= s.len() {
        Ok((acc, i))
    } else if s[i] == '"' {
        match spec_parse_double(s, i + 1, acc) {
            Ok(r) => spec_parse_word(s, r.1, r.0),
            Err(e) => Err(e),
        }
    } else if s[i] == '\'' {
        match spec_parse_single(s, i + 1, acc) {
            Ok(r) => spec_parse_word(s, r.1, r.0),
            Err(e) => Err(e),
        }
    } else if s[i] == '\n' {
        Err(TokenizeError::NewlineInArgument)
    } else if is_blank(s[i]) {
        Ok((acc, i + 1))
    } else {
        spec_parse_word(s, i + 1, acc.push(s[i]))
    }
}

#[via_fn]
proof fn spec_parse_word_decreases(s: Seq<char>, i: int, acc: Seq<char>) {
    lemma_parse_double_advances(s, i + 1, acc);
    lemma_parse_single_advances(s, i + 1, acc);
}

pub proof fn lemma_parse_word_advances(s: Seq<char>, i: int, acc: Seq<char>)
    requires
        0 <= i <= s.len(),
    ensures
        spec_parse_word(s, i, acc) matches Ok(r) ==> i <= r.1 <= s.len() && (i < s.len() ==> i
            < r.1),
    decreases s.len() - i,
{
    if i >= s.len() {
    } else if s[i] == '"' {
        lemma_parse_double_advances(s, i + 1, acc);
        if let Ok(r) = spec_parse_double(s, i + 1, acc) {
            lemma_parse_word_advances(s, r.1, r.0);
        }
    } else if s[i] == '\'' {
        lemma_parse_single_advances(s, i + 1, acc);
        if let Ok(r) = spec_parse_single(s, i + 1, acc) {
            lemma_parse_word_advances(s, r.1, r.0);
        }
    } else if s[i] == '\n' {
    } else if is_blank(s[i]) {
    } else {
        lemma_parse_word_advances(s, i + 1, acc.push(s[i]));
    }
}

/// The token list from index `i` on: skip blanks, then read one token and
/// continue after it.
pub open spec fn spec_tokenize_from(s: Seq<char>, i: int) -> Result<Seq<Seq<char>>, TokenizeError>
    decreases s.len() - i,
    via spec_tokenize_from_decreases
{
    if i < 0 {
        Ok(Seq::empty())
    } else {
        let j = seq_span(s, i, |c: char| is_blank(c));
        if j >= s.len() {
            Ok(Seq::empty())
        } else {
            match spec_parse_word(s, j, Seq::empty()) {
                Ok(r) => match spec_tokenize_from(s, r.1) {
                    Ok(rest) => Ok(seq![r.0] + rest),
                    Err(e) => Err(e),
                },
                Err(e) => Err(e),
            }
        }
    }
}

#[via_fn]
proof fn spec_tokenize_from_decreases(s: Seq<char>, i: int) {
    if 0 <= i <= s.len() {
        let j = seq_span(s, i, |c: char| is_blank(c));
        lemma_seq_span(s, i, |c: char| is_blank(c));
        lemma_parse_word_advances(s, j, Seq::empty());
    }
}

/// The whole tokenization of a line.
pub open spec fn spec_tokenize(s: Seq<char>) -> Result<Seq<Seq<char>>, TokenizeError> {
    spec_tokenize_from(s, 0)
}

/// Exec result of one token step against its specification.
pub open spec fn word_step_matches(
    r: Result<(Vec<char>, usize), TokenizeError>,
    sr: Result<(Seq<char>, int), TokenizeError>,
) -> bool {
    match r {
        Ok(p) => sr matches Ok(sp) && p.0@ == sp.0 && p.1 as int == sp.1,
        Err(e) => sr == Err::<(Seq<char>, int), TokenizeError>(e),
    }
}

/// Exec tokenization result against its specification.
pub open spec fn tokens_match(
    r: Result<Vec<String>, TokenizeError>,
    sr: Result<Seq<Seq<char>>, TokenizeError>,
) -> bool {
    match r {
        Ok(v) => sr matches Ok(sv) && v.deep_view() == sv,
        Err(e) => sr == Err::<Seq<Seq<char>>, TokenizeError>(e),
    }
}

/// A cursor-free tokenizer over the characters of one input line.
pub struct Shlex {
    pub chars: Vec<char>,
}

impl Shlex {
    pub fn new(in_str: &str) -> (r: Shlex)
        ensures
            r.chars@ == in_str@,
    {
        Shlex { chars: str_to_chars(in_str) }
    }

    /// Reads a double-quoted segment that starts at `start` (just past the
    /// opening quote), growing `acc`.
    #[verifier::loop_isolation(false)]
    pub fn parse_double(&self, start: usize, acc: Vec<char>) -> (r: Result<
        (Vec<char>, usize),
        TokenizeError,
    >)
        requires
            start <= self.chars@.len(),
        ensures
            word_step_matches(r, spec_parse_double(self.chars@, start as int, acc@)),
            r matches Ok(p) ==> start < p.1 <= self.chars@.len(),
    {
        let ghost s = self.chars@;
        let ghost acc0 = acc@;
        let n = self.chars.len();
        let mut i = start;
        let mut acc = acc;
        loop
            invariant
                start <= i <= n,
                n == s.len(),
                self.chars@ == s,
                spec_parse_double(s, start as int, acc0) == spec_parse_double(s, i as int, acc@),
            decreases n - i,
        {
            if i >= n {
                return Err(TokenizeError::UnmatchedDoubleQuote);
            }
            let c = self.chars[i];
            if c == '"' {
                return Ok((acc, i + 1));
            } else if c == '\n' {
                return Err(TokenizeError::NewlineInDoubleQuote);
            } else if c == '\\' {
                if i + 1 < n {
                    let c2 = self.chars[i + 1];
                    if c2 == '"' || c2 == '\\' {
                        acc.push(c2);
                    } else if c2 == '\n' {
                        return Err(TokenizeError::NewlineInDoubleQuote);
                    } else {
                        acc.push('\\');
                        acc.push(c2);
                    }
                    i = i + 2;
                } else {
                    return Err(TokenizeError::UnmatchedDoubleQuote);
                }
            } else {
                acc.push(c);
                i = i + 1;
            }
        }
    }

    /// Reads a single-quoted segment that starts at `start`, growing `acc`.
    #[verifier::loop_isolation(false)]
    pub fn parse_single(&self, start: usize, acc: Vec<char>) -> (r: Result<
        (Vec<char>, usize),
        TokenizeError,
    >)
        requires
            start <= self.chars@.len(),
        ensures
            word_step_matches(r, spec_parse_single(self.chars@, start as int, acc@)),
            r matches Ok(p) ==> start < p.1 <= self.chars@.len(),
    {
        let ghost s = self.chars@;
        let ghost acc0 = acc@;
        let n = self.chars.len();
        let mut i = start;
        let mut acc = acc;
        loop
            invariant
                start <= i <= n,
                n == s.len(),
                self.chars@ == s,
                spec_parse_single(s, start as int, acc0) == spec_parse_single(s, i as int, acc@),
            decreases n - i,
        {
            if i >= n {
                return Err(TokenizeError::UnmatchedSingleQuote);
            }
            let c = self.chars[i];
            if c == '\'' {
                return Ok((acc, i + 1));
            } else if c == '\n' {
                return Err(TokenizeError::NewlineInSingleQuote);
            } else {
                acc.push(c);
                i = i + 1;
            }
        }
    }

    /// Reads one token that starts at `start`, growing `acc`; the returned
    /// index is where scanning resumes, just past a terminating blank.
    #[verifier::loop_isolation(false)]
    pub fn parse_word(&self, start: usize, acc: Vec<char>) -> (r: Result<
        (Vec<char>, usize),
        TokenizeError,
    >)
        requires
            start <= self.chars@.len(),
        ensures
            word_step_matches(r, spec_parse_word(self.chars@, start as int, acc@)),
            r matches Ok(p) ==> start <= p.1 <= self.chars@.len() && (start < self.chars@.len()
                ==> start < p.1),
    {
        let ghost s = self.chars@;
        let ghost acc0 = acc@;
        let n = self.chars.len();
        let mut i = start;
        let mut acc = acc;
        loop
            invariant
                start <= i <= n,
                n == s.len(),
                self.chars@ == s,
                spec_parse_word(s, start as int, acc0) == spec_parse_word(s, i as int, acc@),
                start < n ==> (i == start ==> start < n),
            decreases n - i,
        {
            if i >= n {
                return Ok((acc, i));
            }
            let c = self.chars[i];
            if c == '"' {
                match self.parse_double(i + 1, acc) {
                    Ok(p) => {
                        acc = p.0;
                        i = p.1;
                    },
                    Err(e) => {
                        return Err(e);
                    },
                }
            } else if c == '\'' {
                match self.parse_single(i + 1, acc) {
                    Ok(p) => {
                        acc = p.0;
                        i = p.1;
                    },
                    Err(e) => {
                        return Err(e);
                    },
                }
            } else if c == '\n' {
                return Err(TokenizeError::NewlineInArgument);
            } else if c == ' ' || c == '\t' {
                return Ok((acc, i + 1));
            } else {
                acc.push(c);
                i = i + 1;
            }
        }
    }
}

/// Splits a command line into its argument tokens, resolving all quoting.
#[verifier::loop_isolation(false)]
pub fn command_split(s: &str) -> (r: Result<Vec<String>, TokenizeError>)
    ensures
        tokens_match(r, spec_tokenize(s@)),
{
    let shlex = Shlex::new(s);
    let ghost sv = shlex.chars@;
    let n = shlex.chars.len();
    let mut tokens: Vec<String> = Vec::new();
    let mut i: usize = 0;
    loop
        invariant
            i <= n,
            n == sv.len(),
            shlex.chars@ == sv,
            sv == s@,
            prepend_tokens(tokens.deep_view(), spec_tokenize_from(sv, i as int))
                == spec_tokenize(s@),
        decreases n - i,
    {
        let ghost i_head = i as int;
        let ghost blankp = |c: char| is_blank(c);
        while i < n && (shlex.chars[i] == ' ' || shlex.chars[i] == '\t')
            invariant
                i_head <= i <= n,
                n == sv.len(),
                shlex.chars@ == sv,
                seq_span(sv, i_head, blankp) == seq_span(sv, i as int, blankp),
            decreases n - i,
        {
            i = i + 1;
        }
        proof {
            assert(seq_span(sv, i as int, blankp) == i as int);
            lemma_seq_span(sv, i_head, blankp);
        }
        if i >= n {
            proof {
                assert(spec_tokenize_from(sv, i_head) == Ok::<_, TokenizeError>(
                    Seq::<Seq<char>>::empty(),
                ));
                assert(tokens.deep_view() + Seq::<Seq<char>>::empty() =~= tokens.deep_view());
            }
            return Ok(tokens);
        }
        match shlex.parse_word(i, Vec::new()) {
            Ok(p) => {
                let ghost old_tokens = tokens.deep_view();
                let word = string_from_chars(&p.0);
                tokens.push(word);
                proof {
                    lemma_parse_word_advances(sv, i as int, Seq::empty());
                    assert(tokens.deep_view() =~= old_tokens.push(p.0@));
                    let rest = spec_tokenize_from(sv, p.1 as int);
                    assert(spec_tokenize_from(sv, i_head) == match rest {
                        Ok(ts) => Ok::<_, TokenizeError>(seq![p.0@] + ts),
                        Err(e) => Err(e),
                    });
                    if let Ok(ts) = rest {
                        assert(old_tokens.push(p.0@) + ts =~= old_tokens + (seq![p.0@] + ts));
                    }
                }
                i = p.1;
            },
            Err(e) => {
                return Err(e);
            },
        }
    }
}

/// How spec-level token lists already produced combine with the outcome of
/// tokenizing the rest of the line.
pub open spec fn prepend_tokens(
    pre: Seq<Seq<char>>,
    r: Result<Seq<Seq<char>>, TokenizeError>,
) -> Result<Seq<Seq<char>>, TokenizeError> {
    match r {
        Ok(rest) => Ok(pre + rest),
        Err(e) => Err(e),
    }
}

/// How one character is written so that a double-quoted segment reads it
/// back unchanged: backslashes and double quotes gain a backslash.
pub open spec fn escape_char(c: char) -> Seq<char> {
    if c == '\\' {
        seq!['\\', '\\']
    } else if c == '"' {
        seq!['\\', '"']
    } else {
        seq![c]
    }
}

pub open spec fn spec_escape(s: Seq<char>) -> Seq<char>
    decreases s.len(),
{
    if s.len() == 0 {
        Seq::empty()
    } else {
        escape_char(s[0]) + spec_escape(s.drop_first())
    }
}

pub proof fn lemma_escape_snoc(s: Seq<char>, c: char)
    ensures
        spec_escape(s.push(c)) == spec_escape(s) + escape_char(c),
    decreases s.len(),
{
    if s.len() == 0 {
        assert(s.push(c)[0] == c);
        assert(s.push(c).drop_first() =~= Seq::<char>::empty());
        assert(spec_escape(Seq::<char>::empty()) == Seq::<char>::empty());
        assert(spec_escape(s.push(c)) == escape_char(c) + Seq::<char>::empty());
        assert(escape_char(c) + Seq::<char>::empty() =~= escape_char(c));
        assert(spec_escape(s) + escape_char(c) =~= escape_char(c));
    } else {
        assert(s.push(c).drop_first() =~= s.drop_first().push(c));
        lemma_escape_snoc(s.drop_first(), c);
        assert(escape_char(s[0]) + (spec_escape(s.drop_first()) + escape_char(c)) =~= (escape_char(
            s[0],
        ) + spec_escape(s.drop_first())) + escape_char(c));
    }
}

/// Doubles every backslash and puts a backslash before every double quote,
/// so that the result can stand between double quotes in a rendered record.
#[verifier::loop_isolation(false)]
pub fn escape_string(s: &str) -> (r: String)
    ensures
        r@ == spec_escape(s@),
{
    let chars = str_to_chars(s);
    let n = chars.len();
    let mut out: Vec<char> = Vec::new();
    let mut i: usize = 0;
    while i < n
        invariant
            i <= n,
            n == s@.len(),
            chars@ == s@,
            out@ == spec_escape(s@.subrange(0, i as int)),
        decreases n - i,
    {
        let c = chars[i];
        if c == '\\' {
            out.push('\\');
            out.push('\\');
        } else if c == '"' {
            out.push('\\');
            out.push('"');
        } else {
            out.push(c);
        }
        proof {
            lemma_escape_snoc(s@.subrange(0, i as int), s@[i as int]);
            assert(s@.subrange(0, i + 1) =~= s@.subrange(0, i as int).push(s@[i as int]));
            assert(out@ =~= spec_escape(s@.subrange(0, i as int)) + escape_char(s@[i as int]));
        }
        i = i + 1;
    }
    proof {
        assert(s@.subrange(0, n as int) =~= s@);
    }
    string_from_chars(&out)
}

pub open spec fn is_newline_error(e: TokenizeError) -> bool {
    e == TokenizeError::NewlineInArgument || e == TokenizeError::NewlineInDoubleQuote || e
        == TokenizeError::NewlineInSingleQuote
}

proof fn lemma_parse_double_newline(s: Seq<char>, i: int, acc: Seq<char>, p: int)
    requires
        0 <= i <= p < s.len(),
        s[p] == '\n',
    ensures
        match spec_parse_double(s, i, acc) {
            Ok(r) => r.1 <= p,
            Err(e) => is_newline_error(e),
        },
    decreases s.len() - i,
{
    if s[i] == '"' {
    } else if s[i] == '\n' {
    } else if s[i] == '\\' {
        if i + 1 < s.len() {
            if s[i + 1] == '"' || s[i + 1] == '\\' {
                if i + 2 <= p {
                    lemma_parse_double_newline(s, i + 2, acc.push(s[i + 1]), p);
                }
            } else if s[i + 1] == '\n' {
            } else {
                lemma_parse_double_newline(s, i + 2, acc.push('\\').push(s[i + 1]), p);
            }
        }
    } else {
        lemma_parse_double_newline(s, i + 1, acc.push(s[i]), p);
    }
}

proof fn lemma_parse_single_newline(s: Seq<char>, i: int, acc: Seq<char>, p: int)
    requires
        0 <= i <= p < s.len(),
        s[p] == '\n',
    ensures
        match spec_parse_single(s, i, acc) {
            Ok(r) => r.1 <= p,
            Err(e) => is_newline_error(e),
        },
    decreases s.len() - i,
{
    if s[i] == '\'' {
    } else if s[i] == '\n' {
    } else {
        lemma_parse_single_newline(s, i + 1, acc.push(s[i]), p);
    }
}

proof fn lemma_parse_word_newline(s: Seq<char>, i: int, acc: Seq<char>, p: int)
    requires
        0 <= i <= p < s.len(),
        s[p] == '\n',
    ensures
        match spec_parse_word(s, i, acc) {
            Ok(r) => r.1 <= p,
            Err(e) => is_newline_error(e),
        },
    decreases s.len() - i,
{
    if s[i] == '"' {
        lemma_parse_double_newline(s, i + 1, acc, p);
        lemma_parse_double_advances(s, i + 1, acc);
        if let Ok(r) = spec_parse_double(s, i + 1, acc) {
            lemma_parse_word_newline(s, r.1, r.0, p);
        }
    } else if s[i] == '\'' {
        lemma_parse_single_newline(s, i + 1, acc, p);
        lemma_parse_single_advances(s, i + 1, acc);
        if let Ok(r) = spec_parse_single(s, i + 1, acc) {
            lemma_parse_word_newline(s, r.1, r.0, p);
        }
    } else if s[i] == '\n' {
    } else if is_blank(s[i]) {
    } else {
        lemma_parse_word_newline(s, i + 1, acc.push(s[i]), p);
    }
}

proof fn lemma_tokenize_from_newline(s: Seq<char>, i: int, p: int)
    requires
        0 <= i <= p < s.len(),
        s[p] == '\n',
    ensures
        spec_tokenize_from(s, i) matches Err(e) && is_newline_error(e),
    decreases s.len() - i,
{
    let blankp = |c: char| is_blank(c);
    let j = seq_span(s, i, blankp);
    lemma_seq_span(s, i, blankp);
    assert(j <= p) by {
        if j > p {
            assert(blankp(s[p]));
        }
    }
    lemma_parse_word_newline(s, j, Seq::empty(), p);
    lemma_parse_word_advances(s, j, Seq::empty());
    if let Ok(r) = spec_parse_word(s, j, Seq::empty()) {
        lemma_tokenize_from_newline(s, r.1, p);
    }
}

/// A raw newline anywhere in the input, quoted or not, makes tokenization
/// fail, and always with one of the three newline error kinds.
pub proof fn lemma_tokenize_newline(s: Seq<char>)
    requires
        s.contains('\n'),
    ensures
        spec_tokenize(s) matches Err(e) && is_newline_error(e),
{
    let p = choose|k: int| 0 <= k < s.len() && s[k] == '\n';
    lemma_tokenize_from_newline(s, 0, p);
}

proof fn lemma_parse_double_escaped(full: Seq<char>, i: int, acc: Seq<char>, s: Seq<char>)
    requires
        0 <= i <= full.len(),
        full.subrange(i, full.len() as int) == spec_escape(s) + seq!['"'],
        !s.contains('\n'),
    ensures
        spec_parse_double(full, i, acc) == Ok::<(Seq<char>, int), TokenizeError>(
            (acc + s, full.len() as int),
        ),
    decreases s.len(),
{
    let suffix = full.subrange(i, full.len() as int);
    assert(suffix.len() == full.len() - i);
    if s.len() == 0 {
        assert(spec_escape(s) == Seq::<char>::empty());
        assert(suffix =~= seq!['"']);
        assert(suffix[0] == full[i]);
        assert(full[i] == '"');
        assert(i + 1 == full.len());
        assert(acc + s =~= acc);
    } else {
        let c = s[0];
        let tail = s.drop_first();
        let esc = spec_escape(s);
        let et = spec_escape(tail);
        assert(esc == escape_char(c) + et);
        assert(esc.len() == escape_char(c).len() + et.len());
        assert(!tail.contains('\n')) by {
            if tail.contains('\n') {
                let k = choose|k: int| 0 <= k < tail.len() && tail[k] == '\n';
                assert(s[k + 1] == '\n');
                assert(s.contains('\n'));
            }
        }
        assert(c != '\n') by {
            if c == '\n' {
                assert(s.contains('\n'));
            }
        }
        if c == '\\' || c == '"' {
            assert(escape_char(c).len() == 2 && escape_char(c)[0] == '\\' && escape_char(c)[1]
                == c);
            assert(esc[0] == escape_char(c)[0] && esc[1] == escape_char(c)[1]);
            assert(suffix[0] == esc[0] && suffix[1] == esc[1]);
            assert(full[i] == suffix[0] && full[i + 1] == suffix[1]);
            assert(full[i] == '\\' && full[i + 1] == c);
            assert(i + 2 < full.len());
            assert(full.subrange(i + 2, full.len() as int) =~= et + seq!['"']) by {
                assert forall|k: int| 0 <= k < full.len() - i - 2 implies full.subrange(
                    i + 2,
                    full.len() as int,
                )[k] == (et + seq!['"'])[k] by {
                    assert(full.subrange(i + 2, full.len() as int)[k] == full[i + 2 + k]);
                    assert(full[i + 2 + k] == suffix[2 + k]);
                    assert(suffix[2 + k] == (esc + seq!['"'])[2 + k]);
                    if 2 + k < esc.len() {
                        assert((esc + seq!['"'])[2 + k] == esc[2 + k]);
                        assert(esc[2 + k] == et[k]);
                        assert((et + seq!['"'])[k] == et[k]);
                    } else {
                        assert((esc + seq!['"'])[2 + k] == '"');
                        assert((et + seq!['"'])[k] == '"');
                    }
                }
            }
            lemma_parse_double_escaped(full, i + 2, acc.push(c), tail);
            assert(acc.push(c) + tail =~= acc + s);
            assert(spec_parse_double(full, i, acc) == spec_parse_double(full, i + 2, acc.push(c)));
        } else {
            assert(escape_char(c).len() == 1 && escape_char(c)[0] == c);
            assert(esc[0] == escape_char(c)[0]);
            assert(suffix[0] == esc[0]);
            assert(full[i] == suffix[0]);
            assert(full[i] == c);
            assert(i + 1 < full.len());
            assert(full.subrange(i + 1, full.len() as int) =~= et + seq!['"']) by {
                assert forall|k: int| 0 <= k < full.len() - i - 1 implies full.subrange(
                    i + 1,
                    full.len() as int,
                )[k] == (et + seq!['"'])[k] by {
                    assert(full.subrange(i + 1, full.len() as int)[k] == full[i + 1 + k]);
                    assert(full[i + 1 + k] == suffix[1 + k]);
                    assert(suffix[1 + k] == (esc + seq!['"'])[1 + k]);
                    if 1 + k < esc.len() {
                        assert((esc + seq!['"'])[1 + k] == esc[1 + k]);
                        assert(esc[1 + k] == et[k]);
                        assert((et + seq!['"'])[k] == et[k]);
                    } else {
                        assert((esc + seq!['"'])[1 + k] == '"');
                        assert((et + seq!['"'])[k] == '"');
                    }
                }
            }
            lemma_parse_double_escaped(full, i + 1, acc.push(c), tail);
            assert(acc.push(c) + tail =~= acc + s);
            assert(spec_parse_double(full, i, acc) == spec_parse_double(full, i + 1, acc.push(c)));
        }
    }
}

/// Escaping round trip: a string without newlines, escaped and wrapped in
/// double quotes as the renderer writes it, tokenizes back to exactly that
/// string as a single token.
pub proof fn lemma_escape_round_trip(s: Seq<char>)
    requires
        !s.contains('\n'),
    ensures
        spec_tokenize(seq!['"'] + spec_escape(s) + seq!['"']) == Ok::<Seq<Seq<char>>, TokenizeError>(
            seq![s],
        ),
{
    let full = seq!['"'] + spec_escape(s) + seq!['"'];
    let blankp = |c: char| is_blank(c);
    let head = seq!['"'] + spec_escape(s);
    assert(full[0] == head[0] && head[0] == '"');
    assert(seq_span(full, 0, blankp) == 0);
    assert(full.subrange(1, full.len() as int) =~= spec_escape(s) + seq!['"']) by {
        assert forall|k: int| 0 <= k < full.len() - 1 implies full.subrange(1, full.len() as int)[k]
            == (spec_escape(s) + seq!['"'])[k] by {
            assert(full.subrange(1, full.len() as int)[k] == full[1 + k]);
            if 1 + k < head.len() {
                assert(full[1 + k] == head[1 + k]);
                assert(head[1 + k] == spec_escape(s)[k]);
                assert((spec_escape(s) + seq!['"'])[k] == spec_escape(s)[k]);
            } else {
                assert(full[1 + k] == '"');
                assert((spec_escape(s) + seq!['"'])[k] == '"');
            }
        }
    }
    lemma_parse_double_escaped(full, 1, Seq::empty(), s);
    assert(Seq::<char>::empty() + s =~= s);
    assert(spec_parse_double(full, 1, Seq::empty()) == Ok::<(Seq<char>, int), TokenizeError>(
        (s, full.len() as int),
    ));
    assert(spec_parse_word(full, full.len() as int, s) == Ok::<(Seq<char>, int), TokenizeError>(
        (s, full.len() as int),
    ));
    assert(spec_parse_word(full, 0, Seq::empty()) == Ok::<(Seq<char>, int), TokenizeError>(
        (s, full.len() as int),
    ));
    assert(seq_span(full, full.len() as int, blankp) == full.len());
    assert(spec_tokenize_from(full, full.len() as int) == Ok::<Seq<Seq<char>>, TokenizeError>(
        Seq::empty(),
    ));
    assert(seq![s] + Seq::<Seq<char>>::empty() =~= seq![s]);
}

/// A double-quoted segment that never sees another quote (nor a newline)
/// before the end of the input always fails as an unmatched double quote.
pub proof fn lemma_unmatched_double_quote(s: Seq<char>, i: int, acc: Seq<char>)
    requires
        0 <= i <= s.len(),
        forall|k: int| i <= k < s.len() ==> s[k] != '"' && s[k] != '\n',
    ensures
        spec_parse_double(s, i, acc) == Err::<(Seq<char>, int), TokenizeError>(
            TokenizeError::UnmatchedDoubleQuote,
        ),
    decreases s.len() - i,
{
    if i >= s.len() {
    } else if s[i] == '\\' {
        if i + 1 < s.len() {
            if s[i + 1] == '"' || s[i + 1] == '\\' {
                lemma_unmatched_double_quote(s, i + 2, acc.push(s[i + 1]));
            } else {
                lemma_unmatched_double_quote(s, i + 2, acc.push('\\').push(s[i + 1]));
            }
        }
    } else {
        lemma_unmatched_double_quote(s, i + 1, acc.push(s[i]));
    }
}

/// A single-quoted segment that never sees a closing quote (nor a newline)
/// before the end of the input always fails as an unmatched single quote.
pub proof fn lemma_unmatched_single_quote(s: Seq<char>, i: int, acc: Seq<char>)
    requires
        0 <= i <= s.len(),
        forall|k: int| i <= k < s.len() ==> s[k] != '\'' && s[k] != '\n',
    ensures
        spec_parse_single(s, i, acc) == Err::<(Seq<char>, int), TokenizeError>(
            TokenizeError::UnmatchedSingleQuote,
        ),
    decreases s.len() - i,
{
    if i < s.len() {
        lemma_unmatched_single_quote(s, i + 1, acc.push(s[i]));
    }
}

} // verus!

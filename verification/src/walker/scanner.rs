//! The scanner of the tree-walking interpreter: a state machine fed one
//! character at a time, whose literal tokens carry their contents. A scan
//! goes on after an error, so that all errors of a source are reported.

use vstd::prelude::*;
use crate::debug::{decimal, push_decimal};

use crate::scanner::token::TokenType as TokenKind;
use crate::scanner::{
    invalid_char_message, is_alpha, is_digit, keyword_or_identifier, push_char, single_char_type,
    word_type,
};
use crate::walker::token::{kind, text, Token, TokenType};

verus! {

/// A scanning error: the line it was found on and what went wrong.
#[derive(Debug, PartialEq, Clone)]
pub struct ScanError {
    pub line: usize,
    pub message: String,
}

impl ScanError {
    /// The report of the error: `[Scan Error line: N] message`.
    pub fn text(&self) -> (res: String)
        ensures
            res@ == "[Scan Error line: "@ + decimal(self.line as nat) + "] "@ + self.message@,
    {
        let mut out = String::new();
        out.append("[Scan Error line: ");
        push_decimal(&mut out, self.line as usize);
        out.append("] ");
        out.append(self.message.as_str());
        out
    }
}

pub struct StateMachineError {
    pub message: String,
}

impl StateMachineError {
    pub fn to_scan_error(self, line: usize) -> (res: ScanError)
        ensures
            res.line == line,
            res.message@ == self.message@,
    {
        ScanError { line, message: self.message }
    }
}

/// What the machine remembers between two characters. The literal states hold
/// the characters read so far (a string without its opening quote).
pub enum StateMachine {
    Root,
    Bang,
    Equal,
    Less,
    Greater,
    Slash,
    InsideSingleLineComment,
    InsideBlockComment(usize),
    InsideBlockCommentSawStar(usize),
    InsideBlockCommentSawSlash(usize),
    InsideString(String),
    NumberStart(String),
    NumberWithDecimal(String),
    InsideIdentifier(String),
}

// ---------------------------------------------------------------------------
// The machine as mathematics.

/// A state, with the characters it holds as a sequence.
pub enum SState {
    Root,
    Bang,
    Equal,
    Less,
    Greater,
    Slash,
    LineComment,
    Block(usize),
    BlockSawStar(usize),
    BlockSawSlash(usize),
    Str(Seq<char>),
    Number(Seq<char>),
    NumberWithDecimal(Seq<char>),
    Identifier(Seq<char>),
}

pub open spec fn view_state(s: StateMachine) -> SState {
    match s {
        StateMachine::Root => SState::Root,
        StateMachine::Bang => SState::Bang,
        StateMachine::Equal => SState::Equal,
        StateMachine::Less => SState::Less,
        StateMachine::Greater => SState::Greater,
        StateMachine::Slash => SState::Slash,
        StateMachine::InsideSingleLineComment => SState::LineComment,
        StateMachine::InsideBlockComment(n) => SState::Block(n),
        StateMachine::InsideBlockCommentSawStar(n) => SState::BlockSawStar(n),
        StateMachine::InsideBlockCommentSawSlash(n) => SState::BlockSawSlash(n),
        StateMachine::InsideString(s) => SState::Str(s@),
        StateMachine::NumberStart(s) => SState::Number(s@),
        StateMachine::NumberWithDecimal(s) => SState::NumberWithDecimal(s@),
        StateMachine::InsideIdentifier(s) => SState::Identifier(s@),
    }
}

/// A token as its kind and the contents it carries.
pub type STok = (TokenKind, Seq<char>);

pub open spec fn tok_view(t: TokenType) -> STok {
    (kind(t), text(t))
}

pub open spec fn simple(k: TokenKind) -> STok {
    (k, Seq::empty())
}

/// The outcome of one character: the tokens it completes and the next
/// state, or an error message.
pub enum SStep {
    Emit(Seq<STok>, SState),
    Fail(Seq<char>),
}

pub open spec fn prepend(t: STok, s: SStep) -> SStep {
    match s {
        SStep::Emit(ts, st) => SStep::Emit(seq![t] + ts, st),
        SStep::Fail(m) => SStep::Fail(m),
    }
}

/// Leading zeros of an integer part, but for its last digit.
pub open spec fn strip_leading_zeros(s: Seq<char>) -> Seq<char>
    decreases s.len(),
{
    if s.len() > 1 && s[0] == '0' {
        strip_leading_zeros(s.subrange(1, s.len() as int))
    } else {
        s
    }
}

/// Trailing zeros of a fraction.
pub open spec fn strip_trailing_zeros(s: Seq<char>) -> Seq<char>
    decreases s.len(),
{
    if s.len() > 0 && s[s.len() - 1] == '0' {
        strip_trailing_zeros(s.subrange(0, s.len() - 1))
    } else {
        s
    }
}

/// Where the first `.` stands, or the length if there is none.
pub open spec fn dot_position(s: Seq<char>) -> int
    decreases s.len(),
{
    if s.len() == 0 {
        0
    } else if s[0] == '.' {
        0
    } else {
        1 + dot_position(s.subrange(1, s.len() as int))
    }
}

/// The canonical text of a number literal: no leading zeros (but a lone
/// `0`), no trailing zeros in the fraction, no dot without a fraction. For
/// literals of at most fifteen significant digits this is how the binary64
/// number nearest to the literal is displayed.
pub open spec fn canonical_number(s: Seq<char>) -> Seq<char> {
    let d = dot_position(s);
    let int_part = strip_leading_zeros(s.subrange(0, d));
    let frac = if d < s.len() {
        strip_trailing_zeros(s.subrange(d + 1, s.len() as int))
    } else {
        Seq::empty()
    };
    if frac.len() == 0 {
        int_part
    } else {
        int_part + "."@ + frac
    }
}

/// The token of a word: its keyword, or an identifier carrying it.
pub open spec fn word_tok(s: Seq<char>) -> STok {
    if word_type(s) == TokenKind::Identifier {
        (TokenKind::Identifier, s)
    } else {
        simple(word_type(s))
    }
}

pub open spec fn top_step(c: char) -> SStep {
    match single_char_type(c) {
        Some(k) => SStep::Emit(seq![simple(k)], SState::Root),
        None => if c == '!' {
            SStep::Emit(Seq::empty(), SState::Bang)
        } else if c == '=' {
            SStep::Emit(Seq::empty(), SState::Equal)
        } else if c == '<' {
            SStep::Emit(Seq::empty(), SState::Less)
        } else if c == '>' {
            SStep::Emit(Seq::empty(), SState::Greater)
        } else if c == '/' {
            SStep::Emit(Seq::empty(), SState::Slash)
        } else if c == ' ' || c == '\r' || c == '\t' || c == '\n' {
            SStep::Emit(Seq::empty(), SState::Root)
        } else if c == '"' {
            SStep::Emit(Seq::empty(), SState::Str(Seq::empty()))
        } else if is_digit(c) {
            SStep::Emit(Seq::empty(), SState::Number(seq![c]))
        } else if is_alpha(c) {
            SStep::Emit(Seq::empty(), SState::Identifier(seq![c]))
        } else {
            SStep::Fail(invalid_char_message(c))
        },
    }
}

pub open spec fn look_for_equal_step(c: char, if_equal: TokenKind, otherwise: TokenKind) -> SStep {
    if c == '=' {
        SStep::Emit(seq![simple(if_equal)], SState::Root)
    } else {
        prepend(simple(otherwise), top_step(c))
    }
}

pub open spec fn slash_step(c: char) -> SStep {
    if c == '/' {
        SStep::Emit(Seq::empty(), SState::LineComment)
    } else if c == '*' {
        SStep::Emit(Seq::empty(), SState::Block(0))
    } else {
        prepend(simple(TokenKind::Slash), top_step(c))
    }
}

pub open spec fn line_comment_state(c: char) -> SState {
    if c == '\n' {
        SState::Root
    } else {
        SState::LineComment
    }
}

pub open spec fn block_comment_state(c: char, n: usize, saw_star: bool, saw_slash: bool) -> SState {
    if saw_star && c == '/' {
        if n > 0 {
            SState::Block((n - 1) as usize)
        } else {
            SState::Root
        }
    } else if saw_slash && c == '*' {
        SState::Block((n + 1) as usize)
    } else if c == '*' {
        SState::BlockSawStar(n)
    } else if c == '/' {
        SState::BlockSawSlash(n)
    } else {
        SState::Block(n)
    }
}

pub open spec fn string_step(c: char, s: Seq<char>) -> SStep {
    if c == '"' {
        SStep::Emit(seq![(TokenKind::String, s)], SState::Root)
    } else {
        SStep::Emit(Seq::empty(), SState::Str(s.push(c)))
    }
}

pub open spec fn number_step(c: char, s: Seq<char>, has_seen_decimal: bool) -> SStep {
    if is_digit(c) {
        SStep::Emit(
            Seq::empty(),
            if has_seen_decimal {
                SState::NumberWithDecimal(s.push(c))
            } else {
                SState::Number(s.push(c))
            },
        )
    } else if c == '.' && !has_seen_decimal {
        SStep::Emit(Seq::empty(), SState::NumberWithDecimal(s.push(c)))
    } else {
        prepend((TokenKind::Number, canonical_number(s)), top_step(c))
    }
}

pub open spec fn identifier_step(c: char, s: Seq<char>) -> SStep {
    if is_alpha(c) || is_digit(c) {
        SStep::Emit(Seq::empty(), SState::Identifier(s.push(c)))
    } else {
        prepend(word_tok(s), top_step(c))
    }
}

/// What the character `c` does in state `st`.
pub open spec fn step(st: SState, c: char) -> SStep {
    match st {
        SState::Root => top_step(c),
        SState::Bang => look_for_equal_step(c, TokenKind::BangEqual, TokenKind::Bang),
        SState::Equal => look_for_equal_step(c, TokenKind::EqualEqual, TokenKind::Equal),
        SState::Less => look_for_equal_step(c, TokenKind::LessEqual, TokenKind::Less),
        SState::Greater => look_for_equal_step(c, TokenKind::GreaterEqual, TokenKind::Greater),
        SState::Slash => slash_step(c),
        SState::LineComment => SStep::Emit(Seq::empty(), line_comment_state(c)),
        SState::Block(n) => SStep::Emit(Seq::empty(), block_comment_state(c, n, false, false)),
        SState::BlockSawStar(n) => SStep::Emit(Seq::empty(), block_comment_state(c, n, true, false)),
        SState::BlockSawSlash(n) => SStep::Emit(Seq::empty(), block_comment_state(c, n, false, true)),
        SState::Str(s) => string_step(c, s),
        SState::Number(s) => number_step(c, s, false),
        SState::NumberWithDecimal(s) => number_step(c, s, true),
        SState::Identifier(s) => identifier_step(c, s),
    }
}

/// What the end of the source does in state `st`: a last token, an error,
/// or neither. A pending operator or comment is dropped.
pub open spec fn terminate(st: SState) -> (Option<STok>, Option<Seq<char>>) {
    match st {
        SState::Str(_) => (None, Some("Unterminated string."@)),
        SState::Number(s) => (Some((TokenKind::Number, canonical_number(s))), None),
        SState::NumberWithDecimal(s) => (Some((TokenKind::Number, canonical_number(s))), None),
        SState::Identifier(s) => (Some(word_tok(s)), None),
        _ => (None, None),
    }
}

/// The nesting of a block comment state, zero for other states.
pub open spec fn nesting(st: SState) -> int {
    match st {
        SState::Block(n) => n as int,
        SState::BlockSawStar(n) => n as int,
        SState::BlockSawSlash(n) => n as int,
        _ => 0,
    }
}

/// The scan of the first `n` characters: the state, the line, the tokens with
/// their lines, and the errors with theirs. A line ends after its `\n`; after
/// an error the machine starts over from `Root`.
pub open spec fn scan_prefix(src: Seq<char>, n: nat) -> (SState, nat, Seq<(STok, nat)>, Seq<(nat, Seq<char>)>)
    decreases n,
{
    if n == 0 || n > src.len() {
        (SState::Root, 1, Seq::empty(), Seq::empty())
    } else {
        let (st, line, toks, errs) = scan_prefix(src, (n - 1) as nat);
        let c = src[n - 1];
        let next_line = if c == '\n' {
            line + 1
        } else {
            line
        };
        match step(st, c) {
            SStep::Emit(ts, st2) => (
                st2,
                next_line,
                toks + ts.map_values(|t: STok| (t, line)),
                errs,
            ),
            SStep::Fail(m) => (SState::Root, next_line, toks, errs.push((line, m))),
        }
    }
}

/// The scan of a whole source: its tokens, ended by `Eof`, and its errors.
pub open spec fn scan(src: Seq<char>) -> (Seq<(STok, nat)>, Seq<(nat, Seq<char>)>) {
    let (st, line, toks, errs) = scan_prefix(src, src.len());
    let (last, err) = terminate(st);
    let toks2 = match last {
        Some(t) => toks.push((t, line)),
        None => toks,
    };
    let errs2 = match err {
        Some(m) => errs.push((line, m)),
        None => errs,
    };
    (toks2.push((simple(TokenKind::Eof), line)), errs2)
}

pub open spec fn output_matches(out: Seq<TokenType>, toks: Seq<STok>) -> bool {
    out.len() == toks.len() && forall|i: int| 0 <= i < out.len() ==> #[trigger] tok_view(out[i]) == toks[i]
}

pub open spec fn step_matches(res: Result<(Vec<TokenType>, StateMachine), StateMachineError>, s: SStep) -> bool {
    match (res, s) {
        (Ok((out, st)), SStep::Emit(toks, st2)) => output_matches(out@, toks) && view_state(st) == st2,
        (Err(e), SStep::Fail(m)) => e.message@ == m,
        _ => false,
    }
}

pub open spec fn tokens_match(out: Seq<Token>, toks: Seq<(STok, nat)>) -> bool {
    out.len() == toks.len() && forall|i: int|
        0 <= i < out.len() ==> tok_view(#[trigger] out[i].token_type) == toks[i].0 && out[i].line
            == toks[i].1
}

pub open spec fn errors_match(out: Seq<ScanError>, errs: Seq<(nat, Seq<char>)>) -> bool {
    out.len() == errs.len() && forall|i: int|
        0 <= i < out.len() ==> (#[trigger] out[i]).line == errs[i].0 && out[i].message@ == errs[i].1
}

// ---------------------------------------------------------------------------
// The machine.

fn string_of(s: &str) -> (res: String)
    ensures
        res@ == s@,
{
    s.to_owned()
}

fn single_token(t: TokenType) -> (res: Vec<TokenType>)
    ensures
        res@ == seq![t],
{
    let mut v = Vec::new();
    v.push(t);
    v
}

/// The token of a word: its keyword, or an identifier carrying it.
pub fn word_token(s: String) -> (res: TokenType)
    ensures
        tok_view(res) == word_tok(s@),
{
    let k = keyword_or_identifier(s.as_str());
    match k {
        TokenKind::And => TokenType::And,
        TokenKind::Class => TokenType::Class,
        TokenKind::Else => TokenType::Else,
        TokenKind::False => TokenType::False,
        TokenKind::For => TokenType::For,
        TokenKind::Fun => TokenType::Fun,
        TokenKind::If => TokenType::If,
        TokenKind::Nil => TokenType::Nil,
        TokenKind::Or => TokenType::Or,
        TokenKind::Print => TokenType::Print,
        TokenKind::Return => TokenType::Return,
        TokenKind::Super => TokenType::Super,
        TokenKind::This => TokenType::This,
        TokenKind::True => TokenType::True,
        TokenKind::Var => TokenType::Var,
        TokenKind::While => TokenType::While,
        TokenKind::Break => TokenType::Break,
        _ => TokenType::Identifier(s),
    }
}

fn chars_of(s: &str) -> (res: Vec<char>)
    ensures
        res@ == s@,
{
    let mut out: Vec<char> = Vec::new();
    for c in it: s.chars()
        invariant
            it.seq() == s@,
            out@ == s@.take(it.index()),
    {
        proof {
            assert(s@.take(it.index() + 1) =~= s@.take(it.index()).push(c));
        }
        out.push(c);
    }
    proof {
        assert(out@ =~= s@);
    }
    out
}

proof fn lemma_dot_position(s: Seq<char>, d: int)
    requires
        0 <= d <= s.len(),
        forall|j: int| 0 <= j < d ==> s[j] != '.',
        d == s.len() || s[d] == '.',
    ensures
        dot_position(s) == d,
    decreases s.len(),
{
    if s.len() > 0 && d > 0 {
        lemma_dot_position(s.subrange(1, s.len() as int), d - 1);
    }
}

/// The canonical text of a number literal (see `canonical_number`).
pub fn canonical_number_text(s: &str) -> (res: String)
    ensures
        res@ == canonical_number(s@),
{
    let chars = chars_of(s);
    let len = chars.len();
    let mut d: usize = 0;
    while d < len && chars[d] != '.'
        invariant
            d <= len,
            len == chars@.len(),
            forall|j: int| 0 <= j < d ==> chars@[j] != '.',
        decreases len - d,
    {
        d = d + 1;
    }
    proof {
        lemma_dot_position(chars@, d as int);
    }
    let mut a: usize = 0;
    while d > 0 && a < d - 1 && chars[a] == '0'
        invariant
            a <= d,
            d <= len,
            len == chars@.len(),
            strip_leading_zeros(chars@.subrange(0, d as int)) == strip_leading_zeros(
                chars@.subrange(a as int, d as int),
            ),
        decreases d - a,
    {
        proof {
            let t = chars@.subrange(a as int, d as int);
            assert(t.subrange(1, t.len() as int) =~= chars@.subrange(a + 1, d as int));
        }
        a = a + 1;
    }
    proof {
        let t = chars@.subrange(a as int, d as int);
        assert(strip_leading_zeros(t) == t);
    }
    let mut e: usize = len;
    if d < len {
        while e > d + 1 && chars[e - 1] == '0'
            invariant
                d + 1 <= e <= len,
                len == chars@.len(),
                strip_trailing_zeros(chars@.subrange(d + 1, len as int)) == strip_trailing_zeros(
                    chars@.subrange(d + 1, e as int),
                ),
            decreases e,
        {
            proof {
                let t = chars@.subrange(d + 1, e as int);
                assert(t.subrange(0, t.len() - 1) =~= chars@.subrange(d + 1, e - 1));
            }
            e = e - 1;
        }
        proof {
            let t = chars@.subrange(d + 1, e as int);
            assert(strip_trailing_zeros(t) == t);
        }
    }
    let mut out = String::new();
    let mut k: usize = a;
    while k < d
        invariant
            a <= k <= d,
            d <= len,
            len == chars@.len(),
            out@ == chars@.subrange(a as int, k as int),
        decreases d - k,
    {
        push_char(&mut out, chars[k]);
        proof {
            assert(chars@.subrange(a as int, k + 1) =~= chars@.subrange(a as int, k as int).push(chars@[k as int]));
        }
        k = k + 1;
    }
    if d < len && e > d + 1 {
        let ghost int_part = out@;
        push_char(&mut out, '.');
        proof {
            reveal_strlit(".");
            assert(out@ =~= int_part + "."@ + chars@.subrange(d + 1, d + 1));
        }
        let mut k: usize = d + 1;
        while k < e
            invariant
                d + 1 <= k <= e,
                e <= len,
                len == chars@.len(),
                out@ == int_part + "."@ + chars@.subrange(d + 1, k as int),
            decreases e - k,
        {
            push_char(&mut out, chars[k]);
            proof {
                assert(chars@.subrange(d + 1, k + 1) =~= chars@.subrange(d + 1, k as int).push(chars@[k as int]));
                assert(int_part + "."@ + chars@.subrange(d + 1, k + 1) =~= (int_part + "."@ + chars@.subrange(d + 1, k as int)).push(chars@[k as int]));
            }
            k = k + 1;
        }
    }
    proof {
        reveal_strlit(".");
        if !(d < len && e > d + 1) {
            if d < len {
                assert(chars@.subrange(d + 1, e as int).len() == 0);
            }
        }
    }
    out
}

impl StateMachine {
    pub fn new() -> (res: Self)
        ensures
            view_state(res) == SState::Root,
    {
        StateMachine::Root
    }

    pub fn process(self, c: char) -> (res: Result<(Vec<TokenType>, StateMachine), StateMachineError>)
        requires
            nesting(view_state(self)) < usize::MAX,
        ensures
            step_matches(res, step(view_state(self), c)),
    {
        match self {
            StateMachine::Root => Self::process_top_level(c),
            StateMachine::Bang => Self::process_look_for_equal(c, TokenType::BangEqual, TokenType::Bang),
            StateMachine::Equal => Self::process_look_for_equal(c, TokenType::EqualEqual, TokenType::Equal),
            StateMachine::Less => Self::process_look_for_equal(c, TokenType::LessEqual, TokenType::Less),
            StateMachine::Greater => Self::process_look_for_equal(
                c,
                TokenType::GreaterEqual,
                TokenType::Greater,
            ),
            StateMachine::Slash => Self::process_slash(c),
            StateMachine::InsideSingleLineComment => Ok((Vec::new(), Self::process_line_comment(c))),
            StateMachine::InsideBlockComment(n) => Ok(
                (Vec::new(), Self::process_block_comment(c, n, false, false)),
            ),
            StateMachine::InsideBlockCommentSawStar(n) => Ok(
                (Vec::new(), Self::process_block_comment(c, n, true, false)),
            ),
            StateMachine::InsideBlockCommentSawSlash(n) => Ok(
                (Vec::new(), Self::process_block_comment(c, n, false, true)),
            ),
            StateMachine::InsideString(s) => Self::process_string(c, s),
            StateMachine::NumberStart(s) => Self::process_number(c, s, false),
            StateMachine::NumberWithDecimal(s) => Self::process_number(c, s, true),
            StateMachine::InsideIdentifier(s) => Self::process_identifier(c, s),
        }
    }

    pub fn process_top_level(c: char) -> (res: Result<(Vec<TokenType>, StateMachine), StateMachineError>)
        ensures
            step_matches(res, top_step(c)),
    {
        proof {
            reveal_strlit("Invalid character encountered: ");
        }
        match c {
            '(' => Ok((single_token(TokenType::LeftParen), StateMachine::Root)),
            ')' => Ok((single_token(TokenType::RightParen), StateMachine::Root)),
            '{' => Ok((single_token(TokenType::LeftBrace), StateMachine::Root)),
            '}' => Ok((single_token(TokenType::RightBrace), StateMachine::Root)),
            ',' => Ok((single_token(TokenType::Comma), StateMachine::Root)),
            '.' => Ok((single_token(TokenType::Dot), StateMachine::Root)),
            '-' => Ok((single_token(TokenType::Minus), StateMachine::Root)),
            '+' => Ok((single_token(TokenType::Plus), StateMachine::Root)),
            ';' => Ok((single_token(TokenType::Semicolon), StateMachine::Root)),
            '*' => Ok((single_token(TokenType::Star), StateMachine::Root)),
            '!' => Ok((Vec::new(), StateMachine::Bang)),
            '=' => Ok((Vec::new(), StateMachine::Equal)),
            '<' => Ok((Vec::new(), StateMachine::Less)),
            '>' => Ok((Vec::new(), StateMachine::Greater)),
            '/' => Ok((Vec::new(), StateMachine::Slash)),
            ' ' | '\r' | '\t' | '\n' => Ok((Vec::new(), StateMachine::Root)),
            '"' => Ok((Vec::new(), StateMachine::InsideString(String::new()))),
            '0'..='9' => {
                let mut s = String::new();
                push_char(&mut s, c);
                Ok((Vec::new(), StateMachine::NumberStart(s)))
            },
            'a'..='z' | 'A'..='Z' | '_' => {
                let mut s = String::new();
                push_char(&mut s, c);
                Ok((Vec::new(), StateMachine::InsideIdentifier(s)))
            },
            _ => {
                let mut message = string_of("Invalid character encountered: ");
                push_char(&mut message, c);
                Err(StateMachineError { message })
            },
        }
    }

    /// Puts `t` in front of the outcome of the top level for `c`.
    fn prepend_top_level(t: TokenType, c: char) -> (res: Result<(Vec<TokenType>, StateMachine), StateMachineError>)
        ensures
            step_matches(res, prepend(tok_view(t), top_step(c))),
    {
        match Self::process_top_level(c) {
            Ok((tokens, next_state)) => {
                let mut out = single_token(t);
                let mut rest = tokens;
                let ghost old_rest = rest@;
                out.append(&mut rest);
                proof {
                    assert(out@ =~= seq![t] + old_rest);
                    match top_step(c) {
                        SStep::Emit(ts, _) => {
                            assert forall|i: int| 0 <= i < out@.len() implies #[trigger] tok_view(out@[i]) == (seq![tok_view(t)] + ts)[i] by {
                                if i > 0 {
                                    assert(out@[i] == old_rest[i - 1]);
                                }
                            }
                        },
                        SStep::Fail(_) => {},
                    }
                }
                Ok((out, next_state))
            },
            Err(e) => Err(e),
        }
    }

    pub fn process_look_for_equal(c: char, if_equal: TokenType, otherwise: TokenType) -> (res: Result<(Vec<TokenType>, StateMachine), StateMachineError>)
        requires
            text(if_equal) == Seq::<char>::empty(),
            text(otherwise) == Seq::<char>::empty(),
        ensures
            step_matches(res, look_for_equal_step(c, kind(if_equal), kind(otherwise))),
    {
        if c == '=' {
            Ok((single_token(if_equal), StateMachine::Root))
        } else {
            Self::prepend_top_level(otherwise, c)
        }
    }

    pub fn process_slash(c: char) -> (res: Result<(Vec<TokenType>, StateMachine), StateMachineError>)
        ensures
            step_matches(res, slash_step(c)),
    {
        match c {
            '/' => Ok((Vec::new(), StateMachine::InsideSingleLineComment)),
            '*' => Ok((Vec::new(), StateMachine::InsideBlockComment(0))),
            _ => Self::prepend_top_level(TokenType::Slash, c),
        }
    }

    pub fn process_line_comment(c: char) -> (res: StateMachine)
        ensures
            view_state(res) == line_comment_state(c),
    {
        if c == '\n' {
            StateMachine::Root
        } else {
            StateMachine::InsideSingleLineComment
        }
    }

    pub fn process_block_comment(c: char, nesting_level: usize, saw_star: bool, saw_slash: bool) -> (res: StateMachine)
        requires
            nesting_level < usize::MAX,
        ensures
            view_state(res) == block_comment_state(c, nesting_level, saw_star, saw_slash),
    {
        if saw_star && c == '/' {
            if nesting_level > 0 {
                StateMachine::InsideBlockComment(nesting_level - 1)
            } else {
                StateMachine::Root
            }
        } else if saw_slash && c == '*' {
            StateMachine::InsideBlockComment(nesting_level + 1)
        } else if c == '*' {
            StateMachine::InsideBlockCommentSawStar(nesting_level)
        } else if c == '/' {
            StateMachine::InsideBlockCommentSawSlash(nesting_level)
        } else {
            StateMachine::InsideBlockComment(nesting_level)
        }
    }

    pub fn process_string(c: char, s: String) -> (res: Result<(Vec<TokenType>, StateMachine), StateMachineError>)
        ensures
            step_matches(res, string_step(c, s@)),
    {
        let mut s = s;
        if c == '"' {
            Ok((single_token(TokenType::String(s)), StateMachine::Root))
        } else {
            push_char(&mut s, c);
            Ok((Vec::new(), StateMachine::InsideString(s)))
        }
    }

    pub fn process_number(c: char, s: String, has_seen_decimal: bool) -> (res: Result<(Vec<TokenType>, StateMachine), StateMachineError>)
        ensures
            step_matches(res, number_step(c, s@, has_seen_decimal)),
    {
        let mut s = s;
        if '0' <= c && c <= '9' {
            push_char(&mut s, c);
            Ok(
                (
                    Vec::new(),
                    if has_seen_decimal {
                        StateMachine::NumberWithDecimal(s)
                    } else {
                        StateMachine::NumberStart(s)
                    },
                ),
            )
        } else if c == '.' && !has_seen_decimal {
            push_char(&mut s, c);
            Ok((Vec::new(), StateMachine::NumberWithDecimal(s)))
        } else {
            let number = canonical_number_text(s.as_str());
            Self::prepend_top_level(TokenType::Number(number), c)
        }
    }

    pub fn process_identifier(c: char, s: String) -> (res: Result<(Vec<TokenType>, StateMachine), StateMachineError>)
        ensures
            step_matches(res, identifier_step(c, s@)),
    {
        let mut s = s;
        if ('a' <= c && c <= 'z') || ('A' <= c && c <= 'Z') || c == '_' || ('0' <= c && c <= '9') {
            push_char(&mut s, c);
            Ok((Vec::new(), StateMachine::InsideIdentifier(s)))
        } else {
            let token_type = word_token(s);
            Self::prepend_top_level(token_type, c)
        }
    }

    pub fn terminate_scanning(self) -> (res: (Option<TokenType>, Option<StateMachineError>))
        ensures
            ({
                let (t, e) = terminate(view_state(self));
                &&& (res.0 is Some <==> t is Some)
                &&& (res.0 matches Some(x) ==> tok_view(x) == t->0)
                &&& (res.1 is Some <==> e is Some)
                &&& (res.1 matches Some(m) ==> m.message@ == e->0)
            }),
    {
        match self {
            StateMachine::NumberStart(s) => (Some(TokenType::Number(canonical_number_text(s.as_str()))), None),
            StateMachine::NumberWithDecimal(s) => (Some(TokenType::Number(canonical_number_text(s.as_str()))), None),
            StateMachine::InsideIdentifier(s) => (Some(word_token(s)), None),
            StateMachine::InsideString(_) => (None, Some(StateMachineError { message: string_of("Unterminated string.") })),
            _ => (None, None),
        }
    }
}

/// Scans a whole source. The tokens end with `Eof`; if any character could
/// not be scanned, all the errors are returned instead.
pub fn scan_tokens(source: &str) -> (res: Result<Vec<Token>, Vec<ScanError>>)
    requires
        source@.len() + 2 < usize::MAX,
    ensures
        ({
            let (toks, errs) = scan(source@);
            &&& (res is Ok <==> errs.len() == 0)
            &&& (res matches Ok(ts) ==> tokens_match(ts@, toks))
            &&& (res matches Err(es) ==> errors_match(es@, errs))
        }),
{
    let chars = chars_of(source);
    let mut state = StateMachine::new();
    let mut tokens: Vec<Token> = Vec::new();
    let mut errors: Vec<ScanError> = Vec::new();
    let mut line: usize = 1;
    let mut i: usize = 0;
    while i < chars.len()
        invariant
            chars@ == source@,
            i <= chars@.len(),
            chars@.len() + 2 < usize::MAX,
            line <= i + 1,
            nesting(view_state(state)) <= i,
            ({
                let (st, l, toks, errs) = scan_prefix(source@, i as nat);
                &&& view_state(state) == st
                &&& line == l
                &&& tokens_match(tokens@, toks)
                &&& errors_match(errors@, errs)
            }),
        decreases chars.len() - i,
    {
        let c = chars[i];
        let ghost prev = scan_prefix(source@, i as nat);
        let ghost st_before = view_state(state);
        let current = state;
        state = StateMachine::Root;
        match current.process(c) {
            Ok((new_tokens, next_state)) => {
                let ghost base = tokens@;
                let ghost fresh = new_tokens@;
                let mut rest = new_tokens;
                let mut j: usize = 0;
                while rest.len() > 0
                    invariant
                        j + rest@.len() == fresh.len(),
                        fresh.len() <= usize::MAX,
                        rest@ =~= fresh.subrange(j as int, fresh.len() as int),
                        tokens@.len() == base.len() + j,
                        forall|k: int| 0 <= k < base.len() ==> tokens@[k] == base[k],
                        forall|k: int| 0 <= k < j ==> tokens@[base.len() + k].token_type == fresh[k]
                            && tokens@[base.len() + k].line == line,
                    decreases rest.len(),
                {
                    let t = rest.remove(0);
                    tokens.push(Token { token_type: t, line });
                    j = j + 1;
                }
                proof {
                    match step(st_before, c) {
                        SStep::Emit(ts, _) => {
                            let wrapped = ts.map_values(|t: STok| (t, prev.1));
                            assert forall|k: int| 0 <= k < tokens@.len() implies tok_view(#[trigger] tokens@[k].token_type) == (prev.2 + wrapped)[k].0 && tokens@[k].line == (prev.2 + wrapped)[k].1 by {
                                if k >= base.len() {
                                    assert(tokens@[k].token_type == fresh[k - base.len()]);
                                    assert(tok_view(fresh[k - base.len()]) == ts[k - base.len()]);
                                } else {
                                    assert(tokens@[k] == base[k]);
                                    assert(tok_view(base[k].token_type) == prev.2[k].0);
                                }
                            }
                        },
                        SStep::Fail(_) => {},
                    }
                }
                state = next_state;
            },
            Err(e) => {
                errors.push(e.to_scan_error(line));
            },
        }
        if c == '\n' {
            line = line + 1;
        }
        i = i + 1;
    }
    let (last, err) = state.terminate_scanning();
    match last {
        Some(t) => tokens.push(Token { token_type: t, line }),
        None => {},
    }
    match err {
        Some(e) => errors.push(e.to_scan_error(line)),
        None => {},
    }
    tokens.push(Token { token_type: TokenType::Eof, line });
    if errors.len() > 0 {
        Err(errors)
    } else {
        Ok(tokens)
    }
}

} // verus!

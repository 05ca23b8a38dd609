//! The scanner of the bytecode compiler: a character-at-a-time state
//! machine that hands out tokens on demand. Positions are character
//! positions in the source.

use vstd::prelude::*;
use vstd::string::StrSliceExecFns;

use crate::value::str_equal;
use crate::debug::{decimal, push_decimal};

pub mod token;

pub use token::{Token, TokenType};

verus! {

/// A scanning error: the line it was found on and what went wrong.
#[derive(Debug)]
pub struct ScanError {
    pub line: u32,
    pub message: String,
}

impl ScanError {
    /// The report of the error: `[Scan Error line: N] message`.
    pub fn text(&self) -> (res: String)
        ensures
            res@ == "[Scan Error line: "@ + decimal(self.line as nat) + "] "@ + self.message@,
    {
        let mut out = String::new();
        out.append("[Scan Error line: ");
        push_decimal(&mut out, self.line as usize);
        out.append("] ");
        out.append(self.message.as_str());
        out
    }
}

pub struct StateMachineError {
    pub message: String,
}

impl StateMachineError {
    pub fn to_scan_error(self, line: u32) -> (res: ScanError)
        ensures
            res.line == line,
            res.message == self.message,
    {
        ScanError { line, message: self.message }
    }
}

/// Where the lexeme being scanned began.
#[derive(Clone, Copy, Debug, PartialEq, Eq, Structural)]
pub struct LexemeStart(pub usize);

/// How many block comments enclose the current one.
#[derive(Clone, Copy, Debug, PartialEq, Eq, Structural)]
pub struct BlockCommentNesting(pub usize);

#[derive(Clone, Copy, Debug, PartialEq, Eq, Structural)]
pub enum NumberState {
    BeforeDecimal,
    JustSawDecimal,
    AfterDecimalSawNumber,
}

#[derive(Clone, Copy, Debug, PartialEq, Eq, Structural)]
pub enum StateMachine {
    Root,
    Bang(LexemeStart),
    Equal(LexemeStart),
    Less(LexemeStart),
    Greater(LexemeStart),
    Slash(LexemeStart),
    InsideSingleLineComment,
    InsideBlockComment(BlockCommentNesting),
    InsideBlockCommentSawStar(BlockCommentNesting),
    InsideBlockCommentSawSlash(BlockCommentNesting),
    InsideString(LexemeStart),
    InsideNumber(LexemeStart, NumberState),
    InsideIdentifier(LexemeStart),
}

/// The tokens completed by one character: handling the end of a number can
/// complete three at once (the number, a trailing dot, and the next token).
pub enum TokenOutput<'a> {
    Zero,
    One(Token<'a>),
    Two((Token<'a>, Token<'a>)),
    Three((Token<'a>, Token<'a>, Token<'a>)),
}

/// One character of the source, with its position and line.
pub struct ProcessInput<'a> {
    pub char: char,
    pub char_start: usize,
    pub char_end: usize,
    pub line: u32,
    pub source: &'a str,
}

// ---------------------------------------------------------------------------
// The state machine, stated over character positions.

/// A token as the machine describes it: type, line, and the positions of its
/// first character and one past its last.
pub struct SpecToken {
    pub token_type: TokenType,
    pub line: u32,
    pub start: int,
    pub end: int,
}

/// What one character does: emit tokens and move to a state, or fail with a
/// message.
pub enum Step {
    Emit(Seq<SpecToken>, StateMachine),
    Fail(Seq<char>),
}

pub open spec fn spec_token(token_type: TokenType, line: u32, start: int, end: int) -> SpecToken {
    SpecToken { token_type, line, start, end }
}

/// `t` is the token `st` describes in `src`.
pub open spec fn token_matches(t: Token, st: SpecToken, src: Seq<char>) -> bool {
    &&& t.token_type == st.token_type
    &&& t.line == st.line
    &&& 0 <= st.start <= st.end <= src.len()
    &&& t.lexeme@ == src.subrange(st.start, st.end)
}

pub open spec fn output_matches(out: TokenOutput, toks: Seq<SpecToken>, src: Seq<char>) -> bool {
    match out {
        TokenOutput::Zero => toks.len() == 0,
        TokenOutput::One(a) => toks.len() == 1 && token_matches(a, toks[0], src),
        TokenOutput::Two((a, b)) => toks.len() == 2 && token_matches(a, toks[0], src)
            && token_matches(b, toks[1], src),
        TokenOutput::Three((a, b, c)) => toks.len() == 3 && token_matches(a, toks[0], src)
            && token_matches(b, toks[1], src) && token_matches(c, toks[2], src),
    }
}

pub open spec fn result_matches(
    res: Result<(TokenOutput, StateMachine), StateMachineError>,
    step: Step,
    src: Seq<char>,
) -> bool {
    match (res, step) {
        (Ok((out, st)), Step::Emit(toks, st2)) => st == st2 && output_matches(out, toks, src),
        (Err(e), Step::Fail(m)) => e.message@ == m,
        _ => false,
    }
}

pub open spec fn is_digit(c: char) -> bool {
    '0' <= c <= '9'
}

pub open spec fn is_alpha(c: char) -> bool {
    ('a' <= c <= 'z') || ('A' <= c <= 'Z') || c == '_'
}

/// The type of a token made of the single character `c` alone.
pub open spec fn single_char_type(c: char) -> Option<TokenType> {
    if c == '(' {
        Some(TokenType::LeftParen)
    } else if c == ')' {
        Some(TokenType::RightParen)
    } else if c == '{' {
        Some(TokenType::LeftBrace)
    } else if c == '}' {
        Some(TokenType::RightBrace)
    } else if c == ',' {
        Some(TokenType::Comma)
    } else if c == '.' {
        Some(TokenType::Dot)
    } else if c == '-' {
        Some(TokenType::Minus)
    } else if c == '+' {
        Some(TokenType::Plus)
    } else if c == ';' {
        Some(TokenType::Semicolon)
    } else if c == '*' {
        Some(TokenType::Star)
    } else {
        None
    }
}

/// The state that `c`, seen between tokens at `start`, leads to when it
/// does not complete a token by itself.
pub open spec fn top_level_state(c: char, start: int) -> Option<StateMachine> {
    let ls = LexemeStart(start as usize);
    if c == '!' {
        Some(StateMachine::Bang(ls))
    } else if c == '=' {
        Some(StateMachine::Equal(ls))
    } else if c == '<' {
        Some(StateMachine::Less(ls))
    } else if c == '>' {
        Some(StateMachine::Greater(ls))
    } else if c == '/' {
        Some(StateMachine::Slash(ls))
    } else if c == ' ' || c == '\r' || c == '\t' || c == '\n' {
        Some(StateMachine::Root)
    } else if c == '"' {
        Some(StateMachine::InsideString(ls))
    } else if is_digit(c) {
        Some(StateMachine::InsideNumber(ls, NumberState::BeforeDecimal))
    } else if is_alpha(c) {
        Some(StateMachine::InsideIdentifier(ls))
    } else {
        None
    }
}

/// The message for a character that starts no token.
pub open spec fn invalid_char_message(c: char) -> Seq<char> {
    "Invalid character encountered: "@.push(c)
}

/// Handling `c` at `start` between tokens.
pub open spec fn top_level_step(c: char, start: int, line: u32) -> Step {
    match single_char_type(c) {
        Some(t) => Step::Emit(seq![spec_token(t, line, start, start + 1)], StateMachine::Root),
        None => match top_level_state(c, start) {
            Some(st) => Step::Emit(Seq::empty(), st),
            None => Step::Fail(invalid_char_message(c)),
        },
    }
}

/// `tok` emitted before whatever `step` emits.
pub open spec fn prepend(tok: SpecToken, step: Step) -> Step {
    match step {
        Step::Emit(toks, st) => Step::Emit(seq![tok] + toks, st),
        Step::Fail(m) => Step::Fail(m),
    }
}

pub open spec fn look_for_equal_step(
    c: char,
    start: int,
    line: u32,
    lexeme_start: int,
    if_equal: TokenType,
    otherwise: TokenType,
) -> Step {
    if c == '=' {
        Step::Emit(seq![spec_token(if_equal, line, lexeme_start, start + 1)], StateMachine::Root)
    } else {
        prepend(spec_token(otherwise, line, lexeme_start, start), top_level_step(c, start, line))
    }
}

pub open spec fn slash_step(c: char, start: int, line: u32, lexeme_start: int) -> Step {
    if c == '/' {
        Step::Emit(Seq::empty(), StateMachine::InsideSingleLineComment)
    } else if c == '*' {
        Step::Emit(Seq::empty(), StateMachine::InsideBlockComment(BlockCommentNesting(0)))
    } else {
        prepend(
            spec_token(TokenType::Slash, line, lexeme_start, start),
            top_level_step(c, start, line),
        )
    }
}

pub open spec fn line_comment_state(c: char) -> StateMachine {
    if c == '\n' {
        StateMachine::Root
    } else {
        StateMachine::InsideSingleLineComment
    }
}

/// Block comments nest: `/*` inside one opens another, and `*/` closes the
/// innermost.
pub open spec fn block_comment_state(c: char, nesting: usize, saw_star: bool, saw_slash: bool) -> StateMachine {
    if saw_star && c == '/' {
        if nesting > 0 {
            StateMachine::InsideBlockComment(BlockCommentNesting((nesting - 1) as usize))
        } else {
            StateMachine::Root
        }
    } else if saw_slash && c == '*' {
        StateMachine::InsideBlockComment(BlockCommentNesting((nesting + 1) as usize))
    } else if c == '*' {
        StateMachine::InsideBlockCommentSawStar(BlockCommentNesting(nesting))
    } else if c == '/' {
        StateMachine::InsideBlockCommentSawSlash(BlockCommentNesting(nesting))
    } else {
        StateMachine::InsideBlockComment(BlockCommentNesting(nesting))
    }
}

pub open spec fn string_step(c: char, start: int, line: u32, lexeme_start: int) -> Step {
    if c == '"' {
        Step::Emit(
            seq![spec_token(TokenType::String, line, lexeme_start, start + 1)],
            StateMachine::Root,
        )
    } else {
        Step::Emit(Seq::empty(), StateMachine::InsideString(LexemeStart(lexeme_start as usize)))
    }
}

pub open spec fn number_step(c: char, start: int, line: u32, lexeme_start: int, state: NumberState) -> Step {
    let ls = LexemeStart(lexeme_start as usize);
    if is_digit(c) && state != NumberState::BeforeDecimal {
        Step::Emit(Seq::empty(), StateMachine::InsideNumber(ls, NumberState::AfterDecimalSawNumber))
    } else if is_digit(c) {
        Step::Emit(Seq::empty(), StateMachine::InsideNumber(ls, NumberState::BeforeDecimal))
    } else if c == '.' && state == NumberState::BeforeDecimal {
        Step::Emit(Seq::empty(), StateMachine::InsideNumber(ls, NumberState::JustSawDecimal))
    } else if state == NumberState::JustSawDecimal {
        // The dot was not followed by a digit: it is a token of its own.
        prepend(
            spec_token(TokenType::Number, line, lexeme_start, start - 1),
            prepend(spec_token(TokenType::Dot, line, start - 1, start), top_level_step(c, start, line)),
        )
    } else {
        prepend(spec_token(TokenType::Number, line, lexeme_start, start), top_level_step(c, start, line))
    }
}

/// The type of a word: its keyword, if it is one, else `Identifier`.
pub open spec fn word_type(s: Seq<char>) -> TokenType {
    if s == "and"@ {
        TokenType::And
    } else if s == "class"@ {
        TokenType::Class
    } else if s == "else"@ {
        TokenType::Else
    } else if s == "false"@ {
        TokenType::False
    } else if s == "for"@ {
        TokenType::For
    } else if s == "fun"@ {
        TokenType::Fun
    } else if s == "if"@ {
        TokenType::If
    } else if s == "nil"@ {
        TokenType::Nil
    } else if s == "or"@ {
        TokenType::Or
    } else if s == "print"@ {
        TokenType::Print
    } else if s == "return"@ {
        TokenType::Return
    } else if s == "super"@ {
        TokenType::Super
    } else if s == "this"@ {
        TokenType::This
    } else if s == "true"@ {
        TokenType::True
    } else if s == "var"@ {
        TokenType::Var
    } else if s == "while"@ {
        TokenType::While
    } else if s == "break"@ {
        TokenType::Break
    } else {
        TokenType::Identifier
    }
}

pub open spec fn identifier_step(c: char, start: int, line: u32, lexeme_start: int, src: Seq<char>) -> Step {
    if is_alpha(c) || is_digit(c) {
        Step::Emit(Seq::empty(), StateMachine::InsideIdentifier(LexemeStart(lexeme_start as usize)))
    } else {
        prepend(
            spec_token(word_type(src.subrange(lexeme_start, start)), line, lexeme_start, start),
            top_level_step(c, start, line),
        )
    }
}

/// What the machine in state `state` does with character `c` at `start`.
pub open spec fn step(state: StateMachine, c: char, start: int, line: u32, src: Seq<char>) -> Step {
    match state {
        StateMachine::Root => top_level_step(c, start, line),
        StateMachine::Bang(ls) => look_for_equal_step(c, start, line, ls.0 as int, TokenType::BangEqual, TokenType::Bang),
        StateMachine::Equal(ls) => look_for_equal_step(c, start, line, ls.0 as int, TokenType::EqualEqual, TokenType::Equal),
        StateMachine::Less(ls) => look_for_equal_step(c, start, line, ls.0 as int, TokenType::LessEqual, TokenType::Less),
        StateMachine::Greater(ls) => look_for_equal_step(c, start, line, ls.0 as int, TokenType::GreaterEqual, TokenType::Greater),
        StateMachine::Slash(ls) => slash_step(c, start, line, ls.0 as int),
        StateMachine::InsideSingleLineComment => Step::Emit(Seq::empty(), line_comment_state(c)),
        StateMachine::InsideBlockComment(n) => Step::Emit(Seq::empty(), block_comment_state(c, n.0, false, false)),
        StateMachine::InsideBlockCommentSawStar(n) => Step::Emit(Seq::empty(), block_comment_state(c, n.0, true, false)),
        StateMachine::InsideBlockCommentSawSlash(n) => Step::Emit(Seq::empty(), block_comment_state(c, n.0, false, true)),
        StateMachine::InsideString(ls) => string_step(c, start, line, ls.0 as int),
        StateMachine::InsideNumber(ls, ns) => number_step(c, start, line, ls.0 as int, ns),
        StateMachine::InsideIdentifier(ls) => identifier_step(c, start, line, ls.0 as int, src),
    }
}

/// The positions that a state refers to are behind `pos`, and a dot that
/// follows a number has at least one digit before it.
pub open spec fn state_wf(state: StateMachine, pos: int) -> bool {
    match state {
        StateMachine::Root => true,
        StateMachine::Bang(ls) => ls.0 < pos,
        StateMachine::Equal(ls) => ls.0 < pos,
        StateMachine::Less(ls) => ls.0 < pos,
        StateMachine::Greater(ls) => ls.0 < pos,
        StateMachine::Slash(ls) => ls.0 < pos,
        StateMachine::InsideSingleLineComment => true,
        StateMachine::InsideBlockComment(n) => n.0 < pos,
        StateMachine::InsideBlockCommentSawStar(n) => n.0 < pos,
        StateMachine::InsideBlockCommentSawSlash(n) => n.0 < pos,
        StateMachine::InsideString(ls) => ls.0 < pos,
        StateMachine::InsideNumber(ls, ns) => if ns == NumberState::JustSawDecimal {
            ls.0 + 1 < pos
        } else {
            ls.0 < pos
        },
        StateMachine::InsideIdentifier(ls) => ls.0 < pos,
    }
}

/// Every token a step emits lies within `src`, and the state it leads to is
/// well formed one character further on.
pub open spec fn step_wf(s: Step, pos: int, src: Seq<char>) -> bool {
    match s {
        Step::Emit(toks, st) => state_wf(st, pos + 1) && forall|i: int|
            #![trigger toks[i]]
            0 <= i < toks.len() ==> 0 <= toks[i].start <= toks[i].end <= src.len(),
        Step::Fail(_) => true,
    }
}

proof fn lemma_top_level_wf(c: char, start: int, line: u32, src: Seq<char>)
    requires
        0 <= start < src.len(),
        src.len() < usize::MAX,
    ensures
        step_wf(top_level_step(c, start, line), start, src),
{
}

proof fn lemma_prepend_wf(tok: SpecToken, s: Step, start: int, src: Seq<char>)
    requires
        step_wf(s, start, src),
        0 <= tok.start <= tok.end <= src.len(),
    ensures
        step_wf(prepend(tok, s), start, src),
{
    if let Step::Emit(toks, st) = s {
        let all = seq![tok] + toks;
        assert forall|i: int| 0 <= i < all.len() implies 0 <= #[trigger] all[i].start <= all[i].end
            <= src.len() by {
            if i > 0 {
                assert(all[i] == toks[i - 1]);
            }
        }
    }
}

proof fn lemma_step_wf(state: StateMachine, c: char, start: int, line: u32, src: Seq<char>)
    requires
        state_wf(state, start),
        0 <= start < src.len(),
        src.len() < usize::MAX,
    ensures
        step_wf(step(state, c, start, line, src), start, src),
{
    lemma_top_level_wf(c, start, line, src);
    let top = top_level_step(c, start, line);
    match state {
        StateMachine::Bang(ls) => {
            lemma_prepend_wf(spec_token(TokenType::Bang, line, ls.0 as int, start), top, start, src);
        },
        StateMachine::Equal(ls) => {
            lemma_prepend_wf(spec_token(TokenType::Equal, line, ls.0 as int, start), top, start, src);
        },
        StateMachine::Less(ls) => {
            lemma_prepend_wf(spec_token(TokenType::Less, line, ls.0 as int, start), top, start, src);
        },
        StateMachine::Greater(ls) => {
            lemma_prepend_wf(spec_token(TokenType::Greater, line, ls.0 as int, start), top, start, src);
        },
        StateMachine::Slash(ls) => {
            lemma_prepend_wf(spec_token(TokenType::Slash, line, ls.0 as int, start), top, start, src);
        },
        StateMachine::InsideNumber(ls, ns) => {
            lemma_prepend_wf(spec_token(TokenType::Number, line, ls.0 as int, start), top, start, src);
            if ns == NumberState::JustSawDecimal {
                let dot = spec_token(TokenType::Dot, line, start - 1, start);
                lemma_prepend_wf(dot, top, start, src);
                lemma_prepend_wf(
                    spec_token(TokenType::Number, line, ls.0 as int, start - 1),
                    prepend(dot, top),
                    start,
                    src,
                );
            }
        },
        StateMachine::InsideIdentifier(ls) => {
            lemma_prepend_wf(
                spec_token(word_type(src.subrange(ls.0 as int, start)), line, ls.0 as int, start),
                top,
                start,
                src,
            );
        },
        _ => {},
    }
}

/// The end of the source in state `state`: a number or word in progress is
/// completed; ending inside a string, or right after a number's dot, is an
/// error.
pub open spec fn terminate(state: StateMachine, src: Seq<char>, line: u32) -> (Option<SpecToken>, Option<Seq<char>>) {
    let end = src.len() as int;
    match state {
        StateMachine::InsideNumber(ls, ns) => if ns == NumberState::JustSawDecimal {
            (
                Some(spec_token(TokenType::Number, line, ls.0 as int, end)),
                Some("Numbers must not have trailing decimal: "@ + src.subrange(ls.0 as int, end)),
            )
        } else {
            (Some(spec_token(TokenType::Number, line, ls.0 as int, end)), None)
        },
        StateMachine::InsideIdentifier(ls) => (
            Some(spec_token(word_type(src.subrange(ls.0 as int, end)), line, ls.0 as int, end)),
            None,
        ),
        StateMachine::InsideString(_) => (None, Some("Unterminated string."@)),
        _ => (None, None),
    }
}

pub open spec fn input_wf(input: ProcessInput) -> bool {
    &&& input.char_start < input.source@.len()
    &&& input.source@[input.char_start as int] == input.char
    &&& input.char_end == input.char_start + 1
    &&& input.source@.len() < usize::MAX
}

// ---------------------------------------------------------------------------
// The machine itself.

/// Appends `c` to `s` with std's `String::push`. Not proved here: the
/// contract takes from std's documentation that the characters of `s` gain
/// `c` at the end and are otherwise unchanged.
#[verifier::external_body]
pub(crate) fn push_char(s: &mut String, c: char)
    ensures
        final(s)@ == old(s)@.push(c),
{
    s.push(c);
}

/// The type of the word `lexeme`: its keyword, or `Identifier`.
pub fn keyword_or_identifier(lexeme: &str) -> (res: TokenType)
    ensures
        res == word_type(lexeme@),
{
    if str_equal(lexeme, "and") {
        TokenType::And
    } else if str_equal(lexeme, "class") {
        TokenType::Class
    } else if str_equal(lexeme, "else") {
        TokenType::Else
    } else if str_equal(lexeme, "false") {
        TokenType::False
    } else if str_equal(lexeme, "for") {
        TokenType::For
    } else if str_equal(lexeme, "fun") {
        TokenType::Fun
    } else if str_equal(lexeme, "if") {
        TokenType::If
    } else if str_equal(lexeme, "nil") {
        TokenType::Nil
    } else if str_equal(lexeme, "or") {
        TokenType::Or
    } else if str_equal(lexeme, "print") {
        TokenType::Print
    } else if str_equal(lexeme, "return") {
        TokenType::Return
    } else if str_equal(lexeme, "super") {
        TokenType::Super
    } else if str_equal(lexeme, "this") {
        TokenType::This
    } else if str_equal(lexeme, "true") {
        TokenType::True
    } else if str_equal(lexeme, "var") {
        TokenType::Var
    } else if str_equal(lexeme, "while") {
        TokenType::While
    } else if str_equal(lexeme, "break") {
        TokenType::Break
    } else {
        TokenType::Identifier
    }
}

pub open spec fn top_level_matches(
    res: Result<(Option<Token>, StateMachine), StateMachineError>,
    step: Step,
    src: Seq<char>,
) -> bool {
    match (res, step) {
        (Ok((None, st)), Step::Emit(toks, st2)) => st == st2 && toks.len() == 0,
        (Ok((Some(t), st)), Step::Emit(toks, st2)) => st == st2 && toks.len() == 1 && token_matches(
            t,
            toks[0],
            src,
        ),
        (Err(e), Step::Fail(m)) => e.message@ == m,
        _ => false,
    }
}

/// Turns `tok` and the outcome of the top level after it into one output.
fn prepend_output<'a>(
    tok: Token<'a>,
    rest: Result<(Option<Token<'a>>, StateMachine), StateMachineError>,
) -> (res: Result<(TokenOutput<'a>, StateMachine), StateMachineError>)
    ensures
        forall|st: SpecToken, s: Step, src: Seq<char>|
            token_matches(tok, st, src) && top_level_matches(rest, s, src) ==> result_matches(
                res,
                prepend(st, s),
                src,
            ),
{
    match rest {
        Ok((maybe_token, next_state)) => {
            let out = match maybe_token {
                Some(next_token) => TokenOutput::Two((tok, next_token)),
                None => TokenOutput::One(tok),
            };
            proof {
                assert forall|st: SpecToken, s: Step, src: Seq<char>|
                    token_matches(tok, st, src) && top_level_matches(rest, s, src) implies result_matches(
                    Ok::<(TokenOutput<'a>, StateMachine), StateMachineError>((out, next_state)),
                    prepend(st, s),
                    src,
                ) by {
                    if let Step::Emit(toks, st2) = s {
                        assert((seq![st] + toks)[0] == st);
                        if toks.len() == 1 {
                            assert((seq![st] + toks)[1] == toks[0]);
                        }
                    }
                }
            }
            Ok((out, next_state))
        },
        Err(e) => Err(e),
    }
}

impl StateMachine {
    pub fn new() -> (res: Self)
        ensures
            res == StateMachine::Root,
    {
        Self::Root
    }

    /// Feeds one character to the machine.
    pub fn process<'a>(&self, process_input: ProcessInput<'a>) -> (res: Result<(TokenOutput<'a>, StateMachine), StateMachineError>)
        requires
            input_wf(process_input),
            state_wf(*self, process_input.char_start as int),
        ensures
            result_matches(
                res,
                step(*self, process_input.char, process_input.char_start as int, process_input.line, process_input.source@),
                process_input.source@,
            ),
    {
        match self {
            StateMachine::Root => {
                let ghost src = process_input.source@;
                let ghost c = process_input.char;
                let ghost start = process_input.char_start as int;
                let ghost line = process_input.line;
                let r = Self::process_top_level(process_input);
                match r {
                    Ok((maybe_token, next_state)) => Ok((
                        match maybe_token {
                            Some(token) => TokenOutput::One(token),
                            None => TokenOutput::Zero,
                        },
                        next_state,
                    )),
                    Err(e) => Err(e),
                }
            },
            StateMachine::Bang(lexeme_start) => Self::process_look_for_equal(
                process_input,
                *lexeme_start,
                TokenType::BangEqual,
                TokenType::Bang,
            ),
            StateMachine::Equal(lexeme_start) => Self::process_look_for_equal(
                process_input,
                *lexeme_start,
                TokenType::EqualEqual,
                TokenType::Equal,
            ),
            StateMachine::Less(lexeme_start) => Self::process_look_for_equal(
                process_input,
                *lexeme_start,
                TokenType::LessEqual,
                TokenType::Less,
            ),
            StateMachine::Greater(lexeme_start) => Self::process_look_for_equal(
                process_input,
                *lexeme_start,
                TokenType::GreaterEqual,
                TokenType::Greater,
            ),
            StateMachine::Slash(lexeme_start) => Self::process_slash(process_input, *lexeme_start),
            StateMachine::InsideSingleLineComment => Ok(
                (TokenOutput::Zero, Self::process_line_comment(process_input.char)),
            ),
            StateMachine::InsideBlockComment(n) => Ok(
                (TokenOutput::Zero, Self::process_block_comment(process_input.char, n.0, false, false)),
            ),
            StateMachine::InsideBlockCommentSawStar(n) => Ok(
                (TokenOutput::Zero, Self::process_block_comment(process_input.char, n.0, true, false)),
            ),
            StateMachine::InsideBlockCommentSawSlash(n) => Ok(
                (TokenOutput::Zero, Self::process_block_comment(process_input.char, n.0, false, true)),
            ),
            StateMachine::InsideString(lexeme_start) => Self::process_string(process_input, *lexeme_start),
            StateMachine::InsideNumber(lexeme_start, state) => Self::process_number(
                process_input,
                *lexeme_start,
                *state,
            ),
            StateMachine::InsideIdentifier(lexeme_start) => Self::process_identifier(
                process_input,
                *lexeme_start,
            ),
        }
    }

    /// Handles a character between tokens.
    pub fn process_top_level<'a>(process_input: ProcessInput<'a>) -> (res: Result<(Option<Token<'a>>, StateMachine), StateMachineError>)
        requires
            input_wf(process_input),
        ensures
            top_level_matches(
                res,
                top_level_step(process_input.char, process_input.char_start as int, process_input.line),
                process_input.source@,
            ),
    {
        let c = process_input.char;
        let start = process_input.char_start;
        let single = if c == '(' {
            Some(TokenType::LeftParen)
        } else if c == ')' {
            Some(TokenType::RightParen)
        } else if c == '{' {
            Some(TokenType::LeftBrace)
        } else if c == '}' {
            Some(TokenType::RightBrace)
        } else if c == ',' {
            Some(TokenType::Comma)
        } else if c == '.' {
            Some(TokenType::Dot)
        } else if c == '-' {
            Some(TokenType::Minus)
        } else if c == '+' {
            Some(TokenType::Plus)
        } else if c == ';' {
            Some(TokenType::Semicolon)
        } else if c == '*' {
            Some(TokenType::Star)
        } else {
            None
        };
        match single {
            Some(t) => {
                let lexeme = process_input.source.substring_char(start, process_input.char_end);
                Ok((Some(t.to_token(process_input.line, lexeme)), StateMachine::Root))
            },
            None => {
                let ls = LexemeStart(start);
                if c == '!' {
                    Ok((None, StateMachine::Bang(ls)))
                } else if c == '=' {
                    Ok((None, StateMachine::Equal(ls)))
                } else if c == '<' {
                    Ok((None, StateMachine::Less(ls)))
                } else if c == '>' {
                    Ok((None, StateMachine::Greater(ls)))
                } else if c == '/' {
                    Ok((None, StateMachine::Slash(ls)))
                } else if c == ' ' || c == '\r' || c == '\t' || c == '\n' {
                    Ok((None, StateMachine::Root))
                } else if c == '"' {
                    Ok((None, StateMachine::InsideString(ls)))
                } else if '0' <= c && c <= '9' {
                    Ok((None, StateMachine::InsideNumber(ls, NumberState::BeforeDecimal)))
                } else if ('a' <= c && c <= 'z') || ('A' <= c && c <= 'Z') || c == '_' {
                    Ok((None, StateMachine::InsideIdentifier(ls)))
                } else {
                    let mut message = String::from_str("Invalid character encountered: ");
                    push_char(&mut message, c);
                    Err(StateMachineError { message })
                }
            },
        }
    }

    /// Handles the character after `!`, `=`, `<` or `>`: an `=` makes the
    /// two-character token, anything else completes the one-character token
    /// and is handled on its own.
    pub fn process_look_for_equal<'a>(
        process_input: ProcessInput<'a>,
        lexeme_start: LexemeStart,
        if_equal: TokenType,
        otherwise: TokenType,
    ) -> (res: Result<(TokenOutput<'a>, StateMachine), StateMachineError>)
        requires
            input_wf(process_input),
            lexeme_start.0 < process_input.char_start,
        ensures
            result_matches(
                res,
                look_for_equal_step(
                    process_input.char,
                    process_input.char_start as int,
                    process_input.line,
                    lexeme_start.0 as int,
                    if_equal,
                    otherwise,
                ),
                process_input.source@,
            ),
    {
        if process_input.char == '=' {
            let lexeme = process_input.source.substring_char(lexeme_start.0, process_input.char_end);
            Ok((TokenOutput::One(if_equal.to_token(process_input.line, lexeme)), StateMachine::Root))
        } else {
            let line = process_input.line;
            let slice = process_input.source.substring_char(lexeme_start.0, process_input.char_start);
            let otherwise = otherwise.to_token(line, slice);
            let rest = Self::process_top_level(process_input);
            prepend_output(otherwise, rest)
        }
    }

    /// Handles the character after `/`: a second `/` starts a line comment,
    /// `*` a block comment; anything else completes the slash.
    pub fn process_slash<'a>(process_input: ProcessInput<'a>, lexeme_start: LexemeStart) -> (res: Result<(TokenOutput<'a>, StateMachine), StateMachineError>)
        requires
            input_wf(process_input),
            lexeme_start.0 < process_input.char_start,
        ensures
            result_matches(
                res,
                slash_step(process_input.char, process_input.char_start as int, process_input.line, lexeme_start.0 as int),
                process_input.source@,
            ),
    {
        if process_input.char == '/' {
            Ok((TokenOutput::Zero, StateMachine::InsideSingleLineComment))
        } else if process_input.char == '*' {
            Ok((TokenOutput::Zero, StateMachine::InsideBlockComment(BlockCommentNesting(0))))
        } else {
            let slash_token = TokenType::Slash.to_token(
                process_input.line,
                process_input.source.substring_char(lexeme_start.0, process_input.char_start),
            );
            let rest = Self::process_top_level(process_input);
            prepend_output(slash_token, rest)
        }
    }

    /// A line comment ends at the end of its line.
    pub fn process_line_comment(char: char) -> (res: StateMachine)
        ensures
            res == line_comment_state(char),
    {
        if char == '\n' {
            StateMachine::Root
        } else {
            StateMachine::InsideSingleLineComment
        }
    }

    /// Follows nested block comments. `saw_star` and `saw_slash` say what the
    /// previous character was.
    pub fn process_block_comment(char: char, nesting_level: usize, saw_star: bool, saw_slash: bool) -> (res: StateMachine)
        requires
            nesting_level < usize::MAX,
        ensures
            res == block_comment_state(char, nesting_level, saw_star, saw_slash),
    {
        if saw_star && char == '/' {
            if nesting_level > 0 {
                StateMachine::InsideBlockComment(BlockCommentNesting(nesting_level - 1))
            } else {
                StateMachine::Root
            }
        } else if saw_slash && char == '*' {
            StateMachine::InsideBlockComment(BlockCommentNesting(nesting_level + 1))
        } else if char == '*' {
            StateMachine::InsideBlockCommentSawStar(BlockCommentNesting(nesting_level))
        } else if char == '/' {
            StateMachine::InsideBlockCommentSawSlash(BlockCommentNesting(nesting_level))
        } else {
            StateMachine::InsideBlockComment(BlockCommentNesting(nesting_level))
        }
    }

    /// Inside a string: a quote ends it; everything else belongs to it.
    pub fn process_string<'a>(process_input: ProcessInput<'a>, lexeme_start: LexemeStart) -> (res: Result<(TokenOutput<'a>, StateMachine), StateMachineError>)
        requires
            input_wf(process_input),
            lexeme_start.0 < process_input.char_start,
        ensures
            result_matches(
                res,
                string_step(process_input.char, process_input.char_start as int, process_input.line, lexeme_start.0 as int),
                process_input.source@,
            ),
    {
        if process_input.char == '"' {
            let lexeme_slice = process_input.source.substring_char(lexeme_start.0, process_input.char_end);
            Ok((TokenOutput::One(TokenType::String.to_token(process_input.line, lexeme_slice)), StateMachine::Root))
        } else {
            Ok((TokenOutput::Zero, StateMachine::InsideString(lexeme_start)))
        }
    }

    /// Inside a number: digits, and one dot that a digit must follow.
    pub fn process_number<'a>(process_input: ProcessInput<'a>, lexeme_start: LexemeStart, state: NumberState) -> (res: Result<(TokenOutput<'a>, StateMachine), StateMachineError>)
        requires
            input_wf(process_input),
            lexeme_start.0 < process_input.char_start,
            state == NumberState::JustSawDecimal ==> lexeme_start.0 + 1 < process_input.char_start,
        ensures
            result_matches(
                res,
                number_step(process_input.char, process_input.char_start as int, process_input.line, lexeme_start.0 as int, state),
                process_input.source@,
            ),
    {
        let c = process_input.char;
        let is_digit = '0' <= c && c <= '9';
        if is_digit && (state == NumberState::JustSawDecimal || state == NumberState::AfterDecimalSawNumber) {
            Ok((TokenOutput::Zero, StateMachine::InsideNumber(lexeme_start, NumberState::AfterDecimalSawNumber)))
        } else if is_digit {
            Ok((TokenOutput::Zero, StateMachine::InsideNumber(lexeme_start, NumberState::BeforeDecimal)))
        } else if c == '.' && state == NumberState::BeforeDecimal {
            Ok((TokenOutput::Zero, StateMachine::InsideNumber(lexeme_start, NumberState::JustSawDecimal)))
        } else if state == NumberState::JustSawDecimal {
            // The number ends before the dot, which becomes a token of its
            // own (leaving room for method calls on numbers).
            let line = process_input.line;
            let start = process_input.char_start;
            let number_str = process_input.source.substring_char(lexeme_start.0, start - 1);
            let number_token = TokenType::Number.to_token(line, number_str);
            let dot_token = TokenType::Dot.to_token(line, process_input.source.substring_char(start - 1, start));
            let ghost src = process_input.source@;
            let rest = Self::process_top_level(process_input);
            match rest {
                Ok((maybe_token, next_state)) => {
                    let out = match maybe_token {
                        Some(next_next_token) => TokenOutput::Three((number_token, dot_token, next_next_token)),
                        None => TokenOutput::Two((number_token, dot_token)),
                    };
                    proof {
                        let s = top_level_step(c, start as int, line);
                        if let Step::Emit(toks, st2) = s {
                            let all = seq![spec_token(TokenType::Number, line, lexeme_start.0 as int, start - 1)]
                                + (seq![spec_token(TokenType::Dot, line, start - 1, start as int)] + toks);
                            assert(all[0] == spec_token(TokenType::Number, line, lexeme_start.0 as int, start - 1));
                            assert(all[1] == spec_token(TokenType::Dot, line, start - 1, start as int));
                            if toks.len() == 1 {
                                assert(all[2] == toks[0]);
                            }
                        }
                    }
                    Ok((out, next_state))
                },
                Err(e) => Err(e),
            }
        } else {
            let number_str = process_input.source.substring_char(lexeme_start.0, process_input.char_start);
            let number_token = TokenType::Number.to_token(process_input.line, number_str);
            let rest = Self::process_top_level(process_input);
            prepend_output(number_token, rest)
        }
    }

    /// Inside a word: letters, digits and underscores; anything else ends it
    /// as a keyword or an identifier.
    pub fn process_identifier<'a>(process_input: ProcessInput<'a>, lexeme_start: LexemeStart) -> (res: Result<(TokenOutput<'a>, StateMachine), StateMachineError>)
        requires
            input_wf(process_input),
            lexeme_start.0 < process_input.char_start,
        ensures
            result_matches(
                res,
                identifier_step(process_input.char, process_input.char_start as int, process_input.line, lexeme_start.0 as int, process_input.source@),
                process_input.source@,
            ),
    {
        let c = process_input.char;
        if ('a' <= c && c <= 'z') || ('A' <= c && c <= 'Z') || c == '_' || ('0' <= c && c <= '9') {
            Ok((TokenOutput::Zero, StateMachine::InsideIdentifier(lexeme_start)))
        } else {
            let lexeme = process_input.source.substring_char(lexeme_start.0, process_input.char_start);
            let token_type = keyword_or_identifier(lexeme);
            let token = token_type.to_token(process_input.line, lexeme);
            let rest = Self::process_top_level(process_input);
            prepend_output(token, rest)
        }
    }

    /// Finishes scanning at the end of the source: the token in progress, if
    /// any, and the error, if ending here is one.
    pub fn terminate_scanning<'a>(&self, source: &'a str, line: u32) -> (res: (Option<Token<'a>>, Option<StateMachineError>))
        requires
            state_wf(*self, source@.len() as int),
        ensures
            ({
                let (t, e) = terminate(*self, source@, line);
                &&& match (res.0, t) {
                    (None, None) => true,
                    (Some(a), Some(b)) => token_matches(a, b, source@),
                    _ => false,
                }
                &&& match (res.1, e) {
                    (None, None) => true,
                    (Some(a), Some(b)) => a.message@ == b,
                    _ => false,
                }
            }),
    {
        let end = source.unicode_len();
        match self {
            StateMachine::InsideNumber(lexeme_start, state) => {
                let number_str = source.substring_char(lexeme_start.0, end);
                let token = TokenType::Number.to_token(line, number_str);
                if *state == NumberState::JustSawDecimal {
                    let mut message = String::from_str("Numbers must not have trailing decimal: ");
                    message.append(number_str);
                    (Some(token), Some(StateMachineError { message }))
                } else {
                    (Some(token), None)
                }
            },
            StateMachine::InsideIdentifier(lexeme_start) => {
                let lexeme = source.substring_char(lexeme_start.0, end);
                let token_type = keyword_or_identifier(lexeme);
                (Some(token_type.to_token(line, lexeme)), None)
            },
            StateMachine::InsideString(_) => (
                None,
                Some(StateMachineError { message: String::from_str("Unterminated string.") }),
            ),
            _ => (None, None),
        }
    }
}

// ---------------------------------------------------------------------------
// The scanner: runs the machine over the source, one token per request.

/// What running the machine until it has something to say produced.
pub enum Event {
    Tokens(Seq<SpecToken>),
    Failed(Seq<char>),
    Exhausted,
}

/// The number of newlines among the first `n` characters of `s`.
pub open spec fn newlines(s: Seq<char>, n: int) -> nat
    decreases n,
{
    if n <= 0 || n > s.len() {
        0
    } else {
        newlines(s, n - 1) + if s[n - 1] == '\n' {
            1nat
        } else {
            0nat
        }
    }
}

/// A longer prefix holds at least as many newlines, and no more than
/// characters.
pub proof fn lemma_newlines_bounds(s: Seq<char>, i: int, j: int)
    requires
        0 <= i <= j <= s.len(),
    ensures
        newlines(s, i) <= newlines(s, j),
        newlines(s, j) <= j,
    decreases j - i + j,
{
    if j > 0 {
        if i < j {
            lemma_newlines_bounds(s, i, j - 1);
        } else {
            lemma_newlines_bounds(s, j - 1, j - 1);
        }
    }
}

/// Counts the newlines of `s`.
pub fn count_newlines(s: &str) -> (res: usize)
    ensures
        res == newlines(s@, s@.len() as int),
{
    let n = s.unicode_len();
    let mut count: usize = 0;
    let mut i: usize = 0;
    while i < n
        invariant
            n == s@.len(),
            i <= n,
            count == newlines(s@, i as int),
        decreases n - i,
    {
        proof {
            lemma_newlines_bounds(s@, i as int, i as int);
        }
        if s.get_char(i) == '\n' {
            count = count + 1;
        }
        i = i + 1;
    }
    count
}

/// The line after reading `c` on line `line`: a token that the newline
/// ends is still on `line`, what follows it on the next.
pub open spec fn line_after(c: char, line: u32) -> u32 {
    if c == '\n' {
        (line + 1) as u32
    } else {
        line
    }
}

/// Runs the machine from position `pos` until a character completes a token,
/// is rejected, or the source ends. Gives what happened, and the state,
/// position and line after it.
pub open spec fn run_until_output(state: StateMachine, src: Seq<char>, pos: int, line: u32) -> (Event, StateMachine, int, u32)
    decreases src.len() - pos,
{
    if pos >= src.len() || pos < 0 {
        (Event::Exhausted, state, pos, line)
    } else {
        let c = src[pos];
        let l = line_after(c, line);
        match step(state, c, pos, line, src) {
            Step::Fail(m) => (Event::Failed(m), StateMachine::Root, pos + 1, l),
            Step::Emit(toks, st) => if toks.len() == 0 {
                run_until_output(st, src, pos + 1, l)
            } else {
                (Event::Tokens(toks), st, pos + 1, l)
            },
        }
    }
}

/// Tokens completed but not yet handed out.
#[derive(Clone, Copy)]
pub enum ScanResultsQueue<'a> {
    Zero,
    One(Token<'a>),
    Two((Token<'a>, Token<'a>)),
}

pub struct Scanner<'a> {
    source: &'a str,
    source_len: usize,
    position: usize,
    state: StateMachine,
    line: u32,
    scan_results_queue: ScanResultsQueue<'a>,
}

/// The tokens waiting in a queue, as the machine describes them.
pub open spec fn queue_matches(q: ScanResultsQueue, toks: Seq<SpecToken>, src: Seq<char>) -> bool {
    match q {
        ScanResultsQueue::Zero => toks.len() == 0,
        ScanResultsQueue::One(a) => toks.len() == 1 && token_matches(a, toks[0], src),
        ScanResultsQueue::Two((a, b)) => toks.len() == 2 && token_matches(a, toks[0], src)
            && token_matches(b, toks[1], src),
    }
}

/// The token that ends every scan.
pub open spec fn eof_token(line: u32) -> SpecToken {
    spec_token(TokenType::Eof, line, 0, 0)
}

impl<'a> Scanner<'a> {
    pub closed spec fn spec_source(&self) -> Seq<char> {
        self.source@
    }

    pub closed spec fn spec_position(&self) -> int {
        self.position as int
    }

    pub closed spec fn spec_state(&self) -> StateMachine {
        self.state
    }

    pub closed spec fn spec_line(&self) -> u32 {
        self.line
    }

    pub closed spec fn spec_queue(&self) -> ScanResultsQueue<'a> {
        self.scan_results_queue
    }

    pub closed spec fn wf(&self) -> bool {
        &&& self.source_len == self.source@.len()
        &&& newlines(self.source@, self.source@.len() as int) + 2 < u32::MAX
        &&& self.source@.len() < usize::MAX
        &&& self.position <= self.source_len
        &&& self.line == newlines(self.source@, self.position as int) + 1
        &&& state_wf(self.state, self.position as int)
    }

    /// A scanner at the start of `source`, on line 1.
    pub fn new(source: &'a str) -> (res: Scanner<'a>)
        requires
            newlines(source@, source@.len() as int) + 2 < u32::MAX,
            source@.len() < usize::MAX,
        ensures
            res.wf(),
            res.spec_source() == source@,
            res.spec_position() == 0,
            res.spec_state() == StateMachine::Root,
            res.spec_line() == 1,
            res.spec_queue() is Zero,
    {
        Scanner {
            source,
            source_len: source.unicode_len(),
            position: 0,
            state: StateMachine::new(),
            line: 1,
            scan_results_queue: ScanResultsQueue::Zero,
        }
    }

    /// Feeds the character at the current position to the machine, moving
    /// past it. A rejected character resets the machine.
    fn feed_next_char(&mut self) -> (res: Result<TokenOutput<'a>, StateMachineError>)
        requires
            old(self).wf(),
            old(self).spec_position() < old(self).spec_source().len(),
        ensures
            final(self).wf(),
            final(self).source == old(self).source,
            final(self).spec_queue() == old(self).spec_queue(),
            final(self).spec_position() == old(self).spec_position() + 1,
            ({
                let src = old(self).spec_source();
                let c = src[old(self).spec_position()];
                &&& final(self).spec_line() == line_after(c, old(self).spec_line())
                &&& match step(old(self).spec_state(), c, old(self).spec_position(), old(self).spec_line(), src) {
                    Step::Emit(toks, st) => res matches Ok(out) && output_matches(out, toks, src)
                        && final(self).spec_state() == st,
                    Step::Fail(m) => res matches Err(e) && e.message@ == m && final(self).spec_state()
                        == StateMachine::Root,
                }
            }),
    {
        let char_start = self.position;
        let char = self.source.get_char(char_start);
        proof {
            lemma_step_wf(self.state, char, char_start as int, self.line, self.source@);
            lemma_newlines_bounds(self.source@, char_start + 1, self.source@.len() as int);
        }
        let process_results = self.state.process(
            ProcessInput { char, char_start, char_end: char_start + 1, line: self.line, source: self.source },
        );
        if char == '\n' {
            self.line = self.line + 1;
        }
        self.position = char_start + 1;
        match process_results {
            Ok((maybe_tokens, new_state)) => {
                self.state = new_state;
                Ok(maybe_tokens)
            },
            Err(e) => {
                self.state = StateMachine::new();
                Err(e)
            },
        }
    }

    /// The next token, or the error that stopped the character that should
    /// have made it. After an error the machine starts afresh at the next
    /// character, so later tokens still come out. At the end of the source
    /// the token in progress is completed and `Eof` follows.
    pub fn scan_token(&mut self) -> (res: Result<Token<'a>, ScanError>)
        requires
            old(self).wf(),
        ensures
            final(self).wf(),
            final(self).spec_source() == old(self).spec_source(),
            ({
                let src = old(self).spec_source();
                match old(self).spec_queue() {
                    ScanResultsQueue::Two((a, b)) => res == Ok::<Token<'a>, ScanError>(a)
                        && final(self).spec_queue() == ScanResultsQueue::One(b)
                        && final(self).spec_position() == old(self).spec_position()
                        && final(self).spec_state() == old(self).spec_state()
                        && final(self).spec_line() == old(self).spec_line(),
                    ScanResultsQueue::One(a) => res == Ok::<Token<'a>, ScanError>(a)
                        && final(self).spec_queue() is Zero
                        && final(self).spec_position() == old(self).spec_position()
                        && final(self).spec_state() == old(self).spec_state()
                        && final(self).spec_line() == old(self).spec_line(),
                    ScanResultsQueue::Zero => {
                        let (ev, st, pos, line) = run_until_output(
                            old(self).spec_state(),
                            src,
                            old(self).spec_position(),
                            old(self).spec_line(),
                        );
                        &&& final(self).spec_position() == pos
                        &&& final(self).spec_line() == line
                        &&& final(self).spec_state() == st
                        &&& match ev {
                            Event::Tokens(toks) => res matches Ok(t) && token_matches(t, toks[0], src)
                                && queue_matches(final(self).spec_queue(), toks.drop_first(), src),
                            Event::Failed(m) => res matches Err(e) && e.message@ == m && e.line == line
                                && final(self).spec_queue() is Zero,
                            Event::Exhausted => {
                                let (tok, err) = terminate(st, src, line);
                                match (tok, err) {
                                    (None, None) => res matches Ok(t) && token_matches(t, eof_token(line), src)
                                        && final(self).spec_queue() is Zero,
                                    (None, Some(m)) => res matches Err(e) && e.message@ == m && e.line == line
                                        && queue_matches(final(self).spec_queue(), seq![eof_token(line)], src),
                                    (Some(t0), None) => res matches Ok(t) && token_matches(t, t0, src)
                                        && queue_matches(final(self).spec_queue(), seq![eof_token(line)], src),
                                    (Some(t0), Some(m)) => res matches Err(e) && e.message@ == m && e.line == line
                                        && queue_matches(final(self).spec_queue(), seq![t0, eof_token(line)], src),
                                }
                            },
                        }
                    },
                }
            }),
    {
        match self.scan_results_queue {
            ScanResultsQueue::Two((token1, token2)) => {
                self.scan_results_queue = ScanResultsQueue::One(token2);
                Ok(token1)
            },
            ScanResultsQueue::One(token) => {
                self.scan_results_queue = ScanResultsQueue::Zero;
                Ok(token)
            },
            ScanResultsQueue::Zero => {
                let ghost src = self.source@;
                let ghost target = run_until_output(self.state, src, self.position as int, self.line);
                loop
                    invariant
                        self.wf(),
                        self.source@ == src,
                        self.scan_results_queue is Zero,
                        run_until_output(self.state, src, self.position as int, self.line) == target,
                        self.source == old(self).source,
                        old(self).scan_results_queue is Zero,
                        target == run_until_output(old(self).state, old(self).source@, old(self).position as int, old(self).line),
                    decreases self.source_len - self.position,
                {
                    if self.position < self.source_len {
                        let ghost st0 = self.state;
                        let ghost p0 = self.position as int;
                        let ghost l0 = self.line;
                        let fed = self.feed_next_char();
                        proof {
                            let c = src[p0];
                            let l = line_after(c, l0);
                            assert(l == self.line);
                            assert(run_until_output(st0, src, p0, l0) == match step(st0, c, p0, l0, src) {
                                Step::Fail(m) => (Event::Failed(m), StateMachine::Root, p0 + 1, l),
                                Step::Emit(toks, st) => if toks.len() == 0 {
                                    run_until_output(st, src, p0 + 1, l)
                                } else {
                                    (Event::Tokens(toks), st, p0 + 1, l)
                                },
                            });
                        }
                        match fed {
                            Ok(maybe_tokens) => {
                                match maybe_tokens {
                                    TokenOutput::Zero => {},
                                    TokenOutput::One(token) => {
                                        return Ok(token);
                                    },
                                    TokenOutput::Two((token1, token2)) => {
                                        self.scan_results_queue = ScanResultsQueue::One(token2);
                                        return Ok(token1);
                                    },
                                    TokenOutput::Three((token1, token2, token3)) => {
                                        self.scan_results_queue = ScanResultsQueue::Two((token2, token3));
                                        return Ok(token1);
                                    },
                                }
                            },
                            Err(e) => {
                                let r = e.to_scan_error(self.line);
                                return Err(r);
                            },
                        }
                    } else {
                        // The source is used up: finish what is in progress.
                        assert(target == (Event::Exhausted, self.state, self.position as int, self.line));

                        let (maybe_token, maybe_error) = self.state.terminate_scanning(self.source, self.line);
                        let eof = TokenType::Eof.to_token(self.line, self.source.substring_char(0, 0));
                        match (maybe_token, maybe_error) {
                            (None, None) => {
                                return Ok(eof);
                            },
                            (None, Some(e)) => {
                                self.scan_results_queue = ScanResultsQueue::One(eof);
                                return Err(e.to_scan_error(self.line));
                            },
                            (Some(token), None) => {
                                self.scan_results_queue = ScanResultsQueue::One(eof);
                                return Ok(token);
                            },
                            (Some(token), Some(e)) => {
                                self.scan_results_queue = ScanResultsQueue::Two((token, eof));
                                return Err(e.to_scan_error(self.line));
                            },
                        }
                    }
                }
            },
        }
    }
}

} // verus!

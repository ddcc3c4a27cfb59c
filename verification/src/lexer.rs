//! The scanner: source characters to tokens.
//!
//! The scanner walks the source one character at a time, tracking a line and
//! a column for diagnostics, and records every lexical error rather than
//! stopping at the first one.  Its whole behaviour is pinned by a positional
//! model: `scan_token` says what one call produces and where the cursor
//! lands, and `scan_all` folds it over the input.
//!
//! Letters and digits are the ASCII ones: a word is a maximal run of ASCII
//! letters, digits and `:`, `_`, `-`, `@`, `.`.  A number that does not fit
//! its place (a register above 255, an integer above the 32-bit range), an
//! unterminated string literal and a stray NUL character are lexical errors;
//! the cursor still moves past them so later errors are found too.

use vstd::prelude::*;

use crate::instruction::Opcode;
use crate::token::Token;
use crate::token::TokenModel;
use crate::token::DirectiveType;
use crate::token::token_views;
use vstd::std_specs::iter::IteratorSpec;

verus! {

/// A lexical error: what went wrong, where, and the text it points at.
#[derive(Debug, PartialEq)]
pub struct LexerError {
    pub message: String,
    pub line: usize,
    pub column: usize,
    pub context: Option<String>,
}

/// The model of a lexical error.
pub struct LexErrorModel {
    pub message: Seq<char>,
    pub line: nat,
    pub column: nat,
    pub context: Option<Seq<char>>,
}

impl View for LexerError {
    type V = LexErrorModel;

    open spec fn view(&self) -> LexErrorModel {
        LexErrorModel {
            message: self.message@,
            line: self.line as nat,
            column: self.column as nat,
            context: match self.context {
                Some(c) => Some(c@),
                None => None,
            },
        }
    }
}

impl LexerError {
    pub fn new(message: &str, line: usize, column: usize, context: Option<String>) -> (r:
        LexerError)
        ensures
            r@ == (LexErrorModel {
                message: message@,
                line: line as nat,
                column: column as nat,
                context: match context {
                    Some(c) => Some(c@),
                    None => None::<Seq<char>>,
                },
            }),
    {
        let r = LexerError { message: String::from_str(message), line, column, context };
        r
    }
}

impl Clone for LexerError {
    /// A clone reports the same error at the same place.
    fn clone(&self) -> (res: LexerError)
        ensures
            res@ == self@,
    {
        LexerError {
            message: self.message.clone(),
            line: self.line,
            column: self.column,
            context: match &self.context {
                Some(c) => Some(c.clone()),
                None => None,
            },
        }
    }
}

/// The models of a sequence of errors, in order.
pub open spec fn error_views(es: Seq<LexerError>) -> Seq<LexErrorModel> {
    es.map_values(|e: LexerError| e@)
}

/// A sequence of no elements or one, from an optional value.
pub open spec fn opt_seq<A>(x: Option<A>) -> Seq<A> {
    match x {
        Some(v) => seq![v],
        None => Seq::empty(),
    }
}

/// The scanner's cursor: a character index capped at the input length, and
/// the line and column that index stands on.  Lines count from 1; a line
/// feed starts the next line at column 0.
#[verifier::ext_equal]
pub struct LexPos {
    pub at: nat,
    pub line: nat,
    pub col: nat,
}

pub open spec fn is_space(c: char) -> bool {
    c == ' ' || c == '\t' || c == '\n' || c == '\r'
}

pub open spec fn is_letter(c: char) -> bool {
    (97 <= c as u32 && c as u32 <= 122) || (65 <= c as u32 && c as u32 <= 90)
}

pub open spec fn is_digit_ch(c: char) -> bool {
    48 <= c as u32 && c as u32 <= 57
}

pub open spec fn is_word_char(c: char) -> bool {
    is_letter(c) || is_digit_ch(c) || c == ':' || c == '_' || c == '-' || c == '@' || c == '.'
}

/// Where the cursor starts: on the first character, with its line and
/// column already counted, as the scanner's first read establishes them.
pub open spec fn start_pos(s: Seq<char>) -> LexPos {
    if s.len() == 0 {
        LexPos { at: 0, line: 1, col: 0 }
    } else if s[0] == '\n' {
        LexPos { at: 0, line: 2, col: 0 }
    } else {
        LexPos { at: 0, line: 1, col: 1 }
    }
}

/// One character ahead.  Past the end the cursor stays at the length and
/// the line and column stop moving.
pub open spec fn advance(s: Seq<char>, p: LexPos) -> LexPos {
    if p.at + 1 < s.len() {
        if s[p.at + 1int] == '\n' {
            LexPos { at: (p.at + 1) as nat, line: (p.line + 1) as nat, col: 0 }
        } else {
            LexPos { at: (p.at + 1) as nat, line: p.line, col: (p.col + 1) as nat }
        }
    } else {
        LexPos { at: s.len(), line: p.line, col: p.col }
    }
}

/// The cursor advanced one character at a time until its index reaches
/// `target` (or the end of the input, if that comes first).
pub open spec fn advance_to(s: Seq<char>, p: LexPos, target: nat) -> LexPos
    decreases target - p.at,
{
    if p.at < target && p.at < s.len() {
        advance_to(s, advance(s, p), target)
    } else {
        p
    }
}

/// The cursor past any run of whitespace.
pub open spec fn skip_ws_pos(s: Seq<char>, p: LexPos) -> LexPos
    decreases s.len() - p.at,
{
    if p.at < s.len() && is_space(s[p.at as int]) {
        skip_ws_pos(s, advance(s, p))
    } else {
        p
    }
}

/// The index just past the maximal run of word characters starting at `i`.
pub open spec fn word_end(s: Seq<char>, i: nat) -> nat
    decreases s.len() - i,
{
    if i < s.len() && is_word_char(s[i as int]) {
        word_end(s, (i + 1) as nat)
    } else {
        i
    }
}

/// The index just past the maximal run of ASCII digits starting at `i`.
pub open spec fn digit_run_end(s: Seq<char>, i: nat) -> nat
    decreases s.len() - i,
{
    if i < s.len() && is_digit_ch(s[i as int]) {
        digit_run_end(s, (i + 1) as nat)
    } else {
        i
    }
}

/// The index of the first `"` at or after `i`, or the input length.
pub open spec fn quote_end(s: Seq<char>, i: nat) -> nat
    decreases s.len() - i,
{
    if i >= s.len() {
        i
    } else if s[i as int] == '"' {
        i
    } else {
        quote_end(s, (i + 1) as nat)
    }
}

/// The decimal value of the digits `s[i..j)`.
pub open spec fn digits_value(s: Seq<char>, i: int, j: int) -> int
    decreases j - i,
{
    if i >= j {
        0
    } else {
        digits_value(s, i, j - 1) * 10 + ((s[j - 1] as u32) as int - 48)
    }
}

/// What one `next_token` call produces: at most one token, at most one
/// recorded error, and the cursor afterward.
pub struct ScanStep {
    pub token: Option<TokenModel>,
    pub error: Option<LexErrorModel>,
    pub pos: LexPos,
}

/// The token a bare word stands for: a mnemonic, a directive, or nothing.
pub open spec fn keyword_token_model(w: Seq<char>) -> Option<TokenModel> {
    if w == ".asciiz"@ {
        Some(TokenModel::Directive { directive_type: DirectiveType::Asciiz, literal: w })
    } else if w == ".code"@ {
        Some(TokenModel::Directive { directive_type: DirectiveType::Code, literal: w })
    } else if w == ".data"@ {
        Some(TokenModel::Directive { directive_type: DirectiveType::Data, literal: w })
    } else if w == "load"@ {
        Some(TokenModel::Op { code: Opcode::LOAD })
    } else if w == "add"@ {
        Some(TokenModel::Op { code: Opcode::ADD })
    } else if w == "sub"@ {
        Some(TokenModel::Op { code: Opcode::SUB })
    } else if w == "mul"@ {
        Some(TokenModel::Op { code: Opcode::MUL })
    } else if w == "div"@ {
        Some(TokenModel::Op { code: Opcode::DIV })
    } else if w == "eq"@ {
        Some(TokenModel::Op { code: Opcode::EQ })
    } else if w == "jmp"@ {
        Some(TokenModel::Op { code: Opcode::JMP })
    } else if w == "jeq"@ {
        Some(TokenModel::Op { code: Opcode::JEQ })
    } else if w == "jneq"@ {
        Some(TokenModel::Op { code: Opcode::JNEQ })
    } else if w == "alloc"@ {
        Some(TokenModel::Op { code: Opcode::ALLOC })
    } else if w == "inc"@ {
        Some(TokenModel::Op { code: Opcode::INC })
    } else if w == "dec"@ {
        Some(TokenModel::Op { code: Opcode::DEC })
    } else {
        None
    }
}

/// Scanning a word that starts at `p` (a letter, `@` or `.`): a label
/// declaration when it ends in `:`, a label usage when it starts with `@`,
/// else a mnemonic or directive; any other word is an error.
pub open spec fn scan_word(s: Seq<char>, p: LexPos) -> ScanStep {
    let end = word_end(s, p.at);
    let w = s.subrange(p.at as int, end as int);
    let p2 = advance_to(s, p, end);
    if w.len() > 0 && w.last() == ':' {
        ScanStep {
            token: Some(TokenModel::LabelDeclaration { value: w.drop_last() }),
            error: None,
            pos: p2,
        }
    } else if w.len() > 0 && w.first() == '@' {
        ScanStep {
            token: Some(TokenModel::LabelUsage { value: w.drop_first() }),
            error: None,
            pos: p2,
        }
    } else {
        match keyword_token_model(w) {
            Some(t) => ScanStep { token: Some(t), error: None, pos: p2 },
            None => ScanStep {
                token: None,
                error: Some(LexErrorModel {
                    message: "Unexpected word"@,
                    line: p2.line,
                    column: p2.col,
                    context: Some(w),
                }),
                pos: p2,
            },
        }
    }
}

/// Scanning a string literal at `p` (an opening `"`): everything up to the
/// closing quote, verbatim; an input that ends first is an error.
pub open spec fn scan_string(s: Seq<char>, p: LexPos) -> ScanStep {
    let q = quote_end(s, (p.at + 1) as nat);
    if q < s.len() {
        ScanStep {
            token: Some(TokenModel::StringLiteral { value: s.subrange(p.at + 1int, q as int) }),
            error: None,
            pos: advance_to(s, p, (q + 1) as nat),
        }
    } else {
        let p2 = advance_to(s, p, s.len());
        ScanStep {
            token: None,
            error: Some(LexErrorModel {
                message: "Unterminated string literal"@,
                line: p2.line,
                column: p2.col,
                context: None,
            }),
            pos: p2,
        }
    }
}

/// Scanning `$` at `p`: a register number, 0 to 255.
pub open spec fn scan_register(s: Seq<char>, p: LexPos) -> ScanStep {
    let p1 = advance(s, p);
    if p1.at < s.len() && is_digit_ch(s[p1.at as int]) {
        let end = digit_run_end(s, p1.at);
        let v = digits_value(s, p1.at as int, end as int);
        let p2 = advance_to(s, p1, end);
        if v <= 255 {
            ScanStep {
                token: Some(TokenModel::Register { reg_number: v as u8 }),
                error: None,
                pos: p2,
            }
        } else {
            ScanStep {
                token: None,
                error: Some(LexErrorModel {
                    message: "Register number out of range"@,
                    line: p2.line,
                    column: p2.col,
                    context: None,
                }),
                pos: p2,
            }
        }
    } else {
        ScanStep {
            token: None,
            error: Some(LexErrorModel {
                message: "Expected number after '$' symbol"@,
                line: p1.line,
                column: p1.col,
                context: None,
            }),
            pos: advance(s, p1),
        }
    }
}

/// Scanning `#` at `p`: a decimal integer operand.
pub open spec fn scan_integer(s: Seq<char>, p: LexPos) -> ScanStep {
    let p1 = advance(s, p);
    if p1.at < s.len() && is_digit_ch(s[p1.at as int]) {
        let end = digit_run_end(s, p1.at);
        let v = digits_value(s, p1.at as int, end as int);
        let p2 = advance_to(s, p1, end);
        if v <= i32::MAX {
            ScanStep {
                token: Some(TokenModel::IntegerOp { value: v as i32 }),
                error: None,
                pos: p2,
            }
        } else {
            ScanStep {
                token: None,
                error: Some(LexErrorModel {
                    message: "Integer literal out of range"@,
                    line: p2.line,
                    column: p2.col,
                    context: None,
                }),
                pos: p2,
            }
        }
    } else {
        ScanStep {
            token: None,
            error: Some(LexErrorModel {
                message: "Expected number after '#' symbol"@,
                line: p1.line,
                column: p1.col,
                context: None,
            }),
            pos: p1,
        }
    }
}

/// What one `next_token` call does from cursor `p0`: skip whitespace, then
/// scan whatever the next character starts.  At the end of the input it
/// yields the sentinel ZERO opcode token that terminates a token stream.
pub open spec fn scan_token(s: Seq<char>, p0: LexPos) -> ScanStep {
    let p = skip_ws_pos(s, p0);
    if p.at >= s.len() {
        ScanStep { token: Some(TokenModel::Op { code: Opcode::ZERO }), error: None, pos: p }
    } else {
        let c = s[p.at as int];
        if c == '"' {
            scan_string(s, p)
        } else if is_letter(c) || c == '@' || c == '.' {
            scan_word(s, p)
        } else if c == '$' {
            scan_register(s, p)
        } else if c == '#' {
            scan_integer(s, p)
        } else {
            ScanStep {
                token: None,
                error: Some(LexErrorModel {
                    message: "Unexpected character"@,
                    line: p.line,
                    column: p.col,
                    context: None,
                }),
                pos: advance(s, p),
            }
        }
    }
}

/// Every token and every error the scanner produces from cursor `p` to the
/// end of the input, in order.
pub open spec fn scan_all(s: Seq<char>, p: LexPos) -> (Seq<TokenModel>, Seq<LexErrorModel>)
    decreases s.len() + 1 - p.at,
    via scan_all_decreases
{
    if p.at + 1 < s.len() {
        let st = scan_token(s, p);
        let rest = scan_all(s, st.pos);
        (opt_seq(st.token) + rest.0, opt_seq(st.error) + rest.1)
    } else {
        (Seq::empty(), Seq::empty())
    }
}

#[via_fn]
proof fn scan_all_decreases(s: Seq<char>, p: LexPos) {
    if p.at + 1 < s.len() {
        lemma_scan_token_advances(s, p);
    }
}

proof fn lemma_skip_ws_bounds(s: Seq<char>, p: LexPos)
    requires
        p.at <= s.len(),
    ensures
        p.at <= skip_ws_pos(s, p).at <= s.len(),
    decreases s.len() - p.at,
{
    if p.at < s.len() && is_space(s[p.at as int]) {
        lemma_skip_ws_bounds(s, advance(s, p));
    }
}

proof fn lemma_word_end_bounds(s: Seq<char>, i: nat)
    requires
        i <= s.len(),
    ensures
        i <= word_end(s, i) <= s.len(),
    decreases s.len() - i,
{
    if i < s.len() && is_word_char(s[i as int]) {
        lemma_word_end_bounds(s, (i + 1) as nat);
    }
}

proof fn lemma_digit_run_end_bounds(s: Seq<char>, i: nat)
    requires
        i <= s.len(),
    ensures
        i <= digit_run_end(s, i) <= s.len(),
    decreases s.len() - i,
{
    if i < s.len() && is_digit_ch(s[i as int]) {
        lemma_digit_run_end_bounds(s, (i + 1) as nat);
    }
}

proof fn lemma_quote_end_bounds(s: Seq<char>, i: nat)
    requires
        i <= s.len(),
    ensures
        i <= quote_end(s, i) <= s.len(),
        quote_end(s, i) < s.len() ==> s[quote_end(s, i) as int] == '"',
    decreases s.len() - i,
{
    if i < s.len() && s[i as int] != '"' {
        lemma_quote_end_bounds(s, (i + 1) as nat);
    }
}

proof fn lemma_advance_to_at(s: Seq<char>, p: LexPos, target: nat)
    requires
        p.at <= target <= s.len(),
    ensures
        advance_to(s, p, target).at == target,
    decreases target - p.at,
{
    if p.at < target {
        lemma_advance_to_at(s, advance(s, p), target);
    }
}

/// One more character: advancing to `target + 1` is advancing to `target`
/// and then one step.
proof fn lemma_advance_to_snoc(s: Seq<char>, p: LexPos, target: nat)
    requires
        p.at <= target < s.len(),
    ensures
        advance_to(s, p, (target + 1) as nat) == advance(s, advance_to(s, p, target)),
    decreases target - p.at,
{
    if p.at < target {
        lemma_advance_to_snoc(s, advance(s, p), target);
        assert(advance_to(s, p, (target + 1) as nat) == advance_to(
            s,
            advance(s, p),
            (target + 1) as nat,
        ));
        assert(advance_to(s, p, target) == advance_to(s, advance(s, p), target));
    } else {
        assert(p.at == target);
        assert(advance_to(s, p, target) == p);
        assert(advance(s, p).at == target + 1);
        assert(advance_to(s, advance(s, p), (target + 1) as nat) == advance(s, p));
        assert(advance_to(s, p, (target + 1) as nat) == advance_to(
            s,
            advance(s, p),
            (target + 1) as nat,
        ));
    }
}

/// From any cursor that the token loop continues at, one scan moves the
/// cursor strictly forward and never past the end.
proof fn lemma_scan_token_advances(s: Seq<char>, p: LexPos)
    requires
        p.at + 1 < s.len(),
    ensures
        p.at < scan_token(s, p).pos.at <= s.len(),
{
    let pw = skip_ws_pos(s, p);
    lemma_skip_ws_bounds(s, p);
    if pw.at >= s.len() {
        assert(pw.at == s.len());
    } else {
        let c = s[pw.at as int];
        if c == '"' {
            let q = quote_end(s, (pw.at + 1) as nat);
            lemma_quote_end_bounds(s, (pw.at + 1) as nat);
            if q < s.len() {
                lemma_advance_to_at(s, pw, (q + 1) as nat);
            } else {
                lemma_advance_to_at(s, pw, s.len());
            }
        } else if is_letter(c) || c == '@' || c == '.' {
            let end = word_end(s, pw.at);
            lemma_word_end_bounds(s, pw.at);
            assert(end == word_end(s, (pw.at + 1) as nat));
            lemma_word_end_bounds(s, (pw.at + 1) as nat);
            lemma_advance_to_at(s, pw, end);
        } else if c == '$' {
            let p1 = advance(s, pw);
            if p1.at < s.len() && is_digit_ch(s[p1.at as int]) {
                let end = digit_run_end(s, p1.at);
                lemma_digit_run_end_bounds(s, (p1.at + 1) as nat);
                lemma_advance_to_at(s, p1, end);
            }
        } else if c == '#' {
            let p1 = advance(s, pw);
            if p1.at < s.len() && is_digit_ch(s[p1.at as int]) {
                let end = digit_run_end(s, p1.at);
                lemma_digit_run_end_bounds(s, (p1.at + 1) as nat);
                lemma_advance_to_at(s, p1, end);
            }
        } else {
        }
    }
}

/// The model of the scanner's whole state.
#[verifier::ext_equal]
pub struct LexerModel {
    pub source: Seq<char>,
    pub pos: LexPos,
    pub errors: Seq<LexErrorModel>,
}

/// The scanner.  `source` holds the input character by character; `text`
/// holds the same input as the string it came from, for taking substrings.
pub struct Lexer {
    source: Vec<char>,
    text: String,
    position: usize,
    current_line: usize,
    current_column: usize,
    errors: Vec<LexerError>,
}

impl View for Lexer {
    type V = LexerModel;

    closed spec fn view(&self) -> LexerModel {
        LexerModel {
            source: self.source@,
            pos: LexPos {
                at: self.position as nat,
                line: self.current_line as nat,
                col: self.current_column as nat,
            },
            errors: error_views(self.errors@),
        }
    }
}

impl Lexer {
    /// The scanner's internal consistency: the cursor sits inside the
    /// input, both copies of the input agree, and the line and column
    /// counts cannot overflow.
    pub closed spec fn wf(&self) -> bool {
        &&& self.position <= self.source@.len()
        &&& self.text@ == self.source@
        &&& self.source@.len() + 2 <= usize::MAX
        &&& 1 <= self.current_line
        &&& self.current_line + self.current_column <= self.position + 2
    }

    /// A scanner over `input`, with the cursor on the first character.  The
    /// length bound keeps line and column counters inside machine range.
    pub fn new(input: String) -> (r: Lexer)
        requires
            input@.len() + 2 <= usize::MAX,
        ensures
            r.wf(),
            r@ == (LexerModel {
                source: input@,
                pos: start_pos(input@),
                errors: Seq::empty(),
            }),
    {
        let source = chars_vec(input.as_str());
        let mut lexer = Lexer {
            source,
            text: input,
            position: 0,
            current_line: 1,
            current_column: 0,
            errors: Vec::new(),
        };
        if lexer.source.len() > 0 {
            if lexer.source[0] == '\n' {
                lexer.current_line = 2;
            } else {
                lexer.current_column = 1;
            }
        }
        proof {
            assert(error_views(lexer.errors@) =~= Seq::<LexErrorModel>::empty());
            assert(lexer@ =~= (LexerModel {
                source: lexer.text@,
                pos: start_pos(lexer.text@),
                errors: Seq::empty(),
            }));
        }
        lexer
    }

    /// Move the cursor one character ahead, counting lines and columns.
    pub fn read_char(&mut self)
        requires
            old(self).wf(),
        ensures
            final(self).wf(),
            final(self)@ == (LexerModel {
                pos: advance(old(self)@.source, old(self)@.pos),
                ..old(self)@
            }),
    {
        if self.position + 1 < self.source.len() {
            let next = self.source[self.position + 1];
            self.position = self.position + 1;
            if next == '\n' {
                self.current_line = self.current_line + 1;
                self.current_column = 0;
            } else {
                self.current_column = self.current_column + 1;
            }
        } else {
            self.position = self.source.len();
        }
        proof {
            assert(self@ =~= (LexerModel {
                pos: advance(old(self)@.source, old(self)@.pos),
                ..old(self)@
            }));
        }
    }

    /// Move the cursor past any whitespace.
    pub fn skip_whitespace(&mut self)
        requires
            old(self).wf(),
        ensures
            final(self).wf(),
            final(self)@ == (LexerModel {
                pos: skip_ws_pos(old(self)@.source, old(self)@.pos),
                ..old(self)@
            }),
    {
        let ghost s = self.source@;
        let ghost p0 = self@.pos;
        while self.position < self.source.len() && is_space_c(self.source[self.position])
            invariant
                self.wf(),
                s == old(self)@.source,
                p0 == old(self)@.pos,
                self@.source == s,
                self@.errors == old(self)@.errors,
                skip_ws_pos(s, p0) == skip_ws_pos(s, self@.pos),
            decreases s.len() - self.position,
        {
            self.read_char();
        }
        proof {
            assert(self@ =~= (LexerModel { pos: skip_ws_pos(s, p0), ..old(self)@ }));
        }
    }

    /// Read the maximal run of word characters under the cursor and hand it
    /// back as text; the cursor ends just past the run.
    pub fn read_word(&mut self) -> (r: String)
        requires
            old(self).wf(),
        ensures
            final(self).wf(),
            ({
                let s = old(self)@.source;
                let p0 = old(self)@.pos;
                let end = word_end(s, p0.at);
                &&& final(self)@ == (LexerModel { pos: advance_to(s, p0, end), ..old(self)@ })
                &&& r@ == s.subrange(p0.at as int, end as int)
            }),
    {
        let ghost s = self.source@;
        let ghost p0 = self@.pos;
        let ghost end = word_end(s, p0.at);
        proof {
            lemma_word_end_bounds(s, p0.at);
        }
        let start = self.position;
        while self.position < self.source.len() && is_word_c(self.source[self.position])
            invariant
                self.wf(),
                s == old(self)@.source,
                p0 == old(self)@.pos,
                end == word_end(s, p0.at),
                self@.source == s,
                self@.errors == old(self)@.errors,
                start == p0.at,
                p0.at <= self.position,
                word_end(s, self@.pos.at) == end,
                advance_to(s, p0, end) == advance_to(s, self@.pos, end),
            decreases s.len() - self.position,
        {
            proof {
                assert(self@.pos.at < end) by {
                    lemma_word_end_bounds(s, (self@.pos.at + 1) as nat);
                };
            }
            self.read_char();
        }
        proof {
            assert(word_end(s, self@.pos.at) == self@.pos.at);
            assert(self@.pos.at == end);
            assert(self@ =~= (LexerModel { pos: advance_to(s, p0, end), ..old(self)@ }));
        }
        let r = self.text.as_str().substring_char(start, self.position).to_owned();
        r
    }

    /// Read the maximal run of digits under the cursor as a decimal value:
    /// its value when there is a run and it fits a 32-bit signed integer,
    /// nothing otherwise.  The cursor ends just past the run either way.
    pub fn read_number(&mut self) -> (r: Option<i32>)
        requires
            old(self).wf(),
        ensures
            final(self).wf(),
            ({
                let s = old(self)@.source;
                let p0 = old(self)@.pos;
                let end = digit_run_end(s, p0.at);
                let v = digits_value(s, p0.at as int, end as int);
                &&& final(self)@ == (LexerModel { pos: advance_to(s, p0, end), ..old(self)@ })
                &&& r == if end > p0.at && v <= i32::MAX {
                    Some(v as i32)
                } else {
                    None::<i32>
                }
                &&& v >= 0
            }),
    {
        let ghost s = self.source@;
        let ghost p0 = self@.pos;
        let ghost end = digit_run_end(s, p0.at);
        proof {
            lemma_digit_run_end_bounds(s, p0.at);
        }
        let start = self.position;
        let mut acc: u64 = 0;
        let mut overflow: bool = false;
        while self.position < self.source.len() && is_digit_c(self.source[self.position])
            invariant
                self.wf(),
                s == old(self)@.source,
                p0 == old(self)@.pos,
                end == digit_run_end(s, p0.at),
                self@.source == s,
                self@.errors == old(self)@.errors,
                start == p0.at,
                p0.at <= self.position,
                digit_run_end(s, self@.pos.at) == end,
                advance_to(s, p0, end) == advance_to(s, self@.pos, end),
                !overflow ==> acc == digits_value(s, start as int, self.position as int) && acc
                    <= i32::MAX as u64,
                overflow ==> digits_value(s, start as int, self.position as int) > i32::MAX,
            decreases s.len() - self.position,
        {
            let c = self.source[self.position];
            let u = c as u32;
            proof {
                assert(self@.pos.at < end) by {
                    lemma_digit_run_end_bounds(s, (self@.pos.at + 1) as nat);
                };
            }
            let d = u - 48;
            let ghost before = self.position as int;
            if !overflow {
                let next: u64 = acc * 10 + (d as u64);
                if next > i32::MAX as u64 {
                    overflow = true;
                } else {
                    acc = next;
                }
                proof {
                    assert(digits_value(s, start as int, before + 1) == digits_value(
                        s,
                        start as int,
                        before,
                    ) * 10 + ((s[before] as u32) as int - 48));
                }
            } else {
                proof {
                    assert(digits_value(s, start as int, before + 1) == digits_value(
                        s,
                        start as int,
                        before,
                    ) * 10 + ((s[before] as u32) as int - 48));
                }
            }
            self.read_char();
        }
        proof {
            assert(digit_run_end(s, self@.pos.at) == self@.pos.at);
            assert(self@.pos.at == end);
            assert(self@ =~= (LexerModel { pos: advance_to(s, p0, end), ..old(self)@ }));
        }
        if overflow {
            None
        } else if self.position > start {
            Some(acc as i32)
        } else {
            None
        }
    }

    /// Read a string literal: the cursor stands on the opening quote; the
    /// text up to the closing quote comes back, or nothing when the input
    /// ends first.
    fn read_string_literal(&mut self) -> (r: Option<String>)
        requires
            old(self).wf(),
            old(self)@.pos.at < old(self)@.source.len(),
            old(self)@.source[old(self)@.pos.at as int] == '"',
        ensures
            final(self).wf(),
            ({
                let s = old(self)@.source;
                let p0 = old(self)@.pos;
                let q = quote_end(s, (p0.at + 1) as nat);
                if q < s.len() {
                    &&& final(self)@ == (LexerModel {
                        pos: advance_to(s, p0, (q + 1) as nat),
                        ..old(self)@
                    })
                    &&& r matches Some(t) && t@ == s.subrange(p0.at + 1int, q as int)
                } else {
                    &&& final(self)@ == (LexerModel { pos: advance_to(s, p0, s.len()), ..old(self)@ })
                    &&& r is None
                }
            }),
    {
        let ghost s = self.source@;
        let ghost p0 = self@.pos;
        let ghost q = quote_end(s, (p0.at + 1) as nat);
        proof {
            lemma_quote_end_bounds(s, (p0.at + 1) as nat);
        }
        let start = self.position;
        self.read_char();
        let ghost p1 = self@.pos;
        proof {
            assert(p1 == advance(s, p0));
        }
        while self.position < self.source.len() && self.source[self.position] != '"'
            invariant
                self.wf(),
                s == old(self)@.source,
                p0 == old(self)@.pos,
                p1 == advance(s, p0),
                q == quote_end(s, (p0.at + 1) as nat),
                p0.at < s.len(),
                self@.source == s,
                self@.errors == old(self)@.errors,
                p1.at <= self@.pos.at,
                quote_end(s, self@.pos.at) == q,
                advance_to(s, p1, q) == advance_to(s, self@.pos, q),
            decreases s.len() - self.position,
        {
            proof {
                assert(self@.pos.at < q) by {
                    lemma_quote_end_bounds(s, (self@.pos.at + 1) as nat);
                };
            }
            self.read_char();
        }
        proof {
            assert(quote_end(s, self@.pos.at) == self@.pos.at || self@.pos.at == s.len());
            assert(self@.pos.at == q || (self@.pos.at == s.len() && q >= s.len()));
        }
        if self.position < self.source.len() {
            let content_end = self.position;
            proof {
                assert(content_end == q);
                assert(advance_to(s, p1, q) == self@.pos);
                assert(advance_to(s, p0, (q + 1) as nat) == advance(s, advance_to(s, p0, q)))
                    by {
                    lemma_advance_to_snoc(s, p0, q);
                };
            }
            self.read_char();
            proof {
                assert(self@ =~= (LexerModel {
                    pos: advance_to(s, p0, (q + 1) as nat),
                    ..old(self)@
                }));
            }
            let r = self.text.as_str().substring_char(start + 1, content_end).to_owned();
            Some(r)
        } else {
            proof {
                assert(q == s.len());
                assert(self@.pos.at == s.len());
                assert(advance_to(s, p0, s.len()) == advance_to(s, p1, s.len()));
                assert(advance_to(s, p1, q) == self@.pos);
                assert(self@ =~= (LexerModel { pos: advance_to(s, p0, s.len()), ..old(self)@ }));
            }
            None
        }
    }

    /// Record one lexical error at the cursor's line and column.
    fn record_error(&mut self, message: &str, context: Option<String>)
        requires
            old(self).wf(),
        ensures
            final(self).wf(),
            final(self)@ == (LexerModel {
                errors: old(self)@.errors.push(LexErrorModel {
                    message: message@,
                    line: old(self)@.pos.line,
                    column: old(self)@.pos.col,
                    context: match context {
                        Some(c) => Some(c@),
                        None => None::<Seq<char>>,
                    },
                }),
                ..old(self)@
            }),
    {
        let err = LexerError::new(message, self.current_line, self.current_column, context);
        self.errors.push(err);
        proof {
            assert(error_views(self.errors@) =~= old(self)@.errors.push(self.errors@.last()@));
            assert(self@ =~= (LexerModel {
                errors: old(self)@.errors.push(self.errors@.last()@),
                ..old(self)@
            }));
        }
    }

    /// Scan one token: whitespace is skipped, then the next lexical unit is
    /// read, or an error is recorded and the cursor moves past the problem.
    /// At the end of the input the sentinel ZERO opcode token comes back.
    pub fn next_token(&mut self) -> (r: Option<Token>)
        requires
            old(self).wf(),
        ensures
            final(self).wf(),
            ({
                let st = scan_token(old(self)@.source, old(self)@.pos);
                &&& final(self)@.source == old(self)@.source
                &&& final(self)@.pos == st.pos
                &&& final(self)@.errors == old(self)@.errors + opt_seq(st.error)
                &&& match (r, st.token) {
                    (Some(t), Some(m)) => t@ == m,
                    (None, None) => true,
                    _ => false,
                }
            }),
    {
        let ghost s = self.source@;
        let ghost p0 = self@.pos;
        self.skip_whitespace();
        let ghost p = self@.pos;
        proof {
            lemma_skip_ws_bounds(s, p0);
        }
        if self.position >= self.source.len() {
            proof {
                assert(self@.errors =~= old(self)@.errors + opt_seq(scan_token(s, p0).error));
            }
            return Some(Token::Op { code: Opcode::ZERO });
        }
        let c = self.source[self.position];
        let u = c as u32;
        if c == '"' {
            let taken = self.read_string_literal();
            match taken {
                Some(value) => {
                    proof {
                        assert(self@.errors =~= old(self)@.errors + opt_seq(
                            scan_token(s, p0).error,
                        ));
                    }
                    Some(Token::StringLiteral { value })
                },
                None => {
                    self.record_error("Unterminated string literal", None);
                    proof {
                        assert(self@.errors =~= old(self)@.errors + opt_seq(
                            scan_token(s, p0).error,
                        ));
                    }
                    None
                },
            }
        } else if (97 <= u && u <= 122) || (65 <= u && u <= 90) || c == '@' || c == '.' {
            let start = self.position;
            let word = self.read_word();
            let ghost end = word_end(s, p.at);
            proof {
                lemma_word_end_bounds(s, p.at);
                assert(end == word_end(s, (p.at + 1) as nat));
                lemma_word_end_bounds(s, (p.at + 1) as nat);
                lemma_advance_to_at(s, p, end);
                assert(self.position == end && start < self.position);
            }
            let wlen = self.position - start;
            proof {
                assert(word@.len() == wlen);
            }
            if word.as_str().get_char(wlen - 1) == ':' {
                let value = word.as_str().substring_char(0, wlen - 1).to_owned();
                proof {
                    assert(value@ =~= word@.drop_last());
                    assert(self@.errors =~= old(self)@.errors + opt_seq(scan_token(s, p0).error));
                }
                Some(Token::LabelDeclaration { value })
            } else if word.as_str().get_char(0) == '@' {
                let value = word.as_str().substring_char(1, wlen).to_owned();
                proof {
                    assert(value@ =~= word@.drop_first());
                    assert(self@.errors =~= old(self)@.errors + opt_seq(scan_token(s, p0).error));
                }
                Some(Token::LabelUsage { value })
            } else {
                let keyword = keyword_token(&word);
                match keyword {
                    Some(t) => {
                        proof {
                            assert(self@.errors =~= old(self)@.errors + opt_seq(
                                scan_token(s, p0).error,
                            ));
                        }
                        Some(t)
                    },
                    None => {
                        self.record_error("Unexpected word", Some(word));
                        proof {
                            assert(self@.errors =~= old(self)@.errors + opt_seq(
                                scan_token(s, p0).error,
                            ));
                        }
                        None
                    },
                }
            }
        } else if c == '$' {
            self.read_char();
            let ghost p1 = self@.pos;
            let at_digit = self.position < self.source.len() && is_digit_c(
                self.source[self.position],
            );
            if at_digit {
                let number = self.read_number();
                let fits = match number {
                    Some(v) => v <= 255,
                    None => false,
                };
                if fits {
                    let v = match number {
                        Some(v) => v,
                        None => 0,
                    };
                    proof {
                        assert(self@.errors =~= old(self)@.errors + opt_seq(
                            scan_token(s, p0).error,
                        ));
                    }
                    Some(Token::Register { reg_number: v as u8 })
                } else {
                    proof {
                        assert(digit_run_end(s, p1.at) == digit_run_end(s, (p1.at + 1) as nat));
                        lemma_digit_run_end_bounds(s, (p1.at + 1) as nat);
                        assert(digit_run_end(s, p1.at) > p1.at);
                    }
                    self.record_error("Register number out of range", None);
                    proof {
                        assert(self@.errors =~= old(self)@.errors + opt_seq(
                            scan_token(s, p0).error,
                        ));
                    }
                    None
                }
            } else {
                self.record_error("Expected number after '$' symbol", None);
                self.read_char();
                proof {
                    assert(self@.errors =~= old(self)@.errors + opt_seq(scan_token(s, p0).error));
                }
                None
            }
        } else if c == '#' {
            self.read_char();
            let ghost p1 = self@.pos;
            let at_digit = self.position < self.source.len() && is_digit_c(
                self.source[self.position],
            );
            if at_digit {
                let number = self.read_number();
                proof {
                    assert(digit_run_end(s, p1.at) == digit_run_end(s, (p1.at + 1) as nat));
                    lemma_digit_run_end_bounds(s, (p1.at + 1) as nat);
                    assert(digit_run_end(s, p1.at) > p1.at);
                }
                match number {
                    Some(v) => {
                        proof {
                            assert(self@.errors =~= old(self)@.errors + opt_seq(
                                scan_token(s, p0).error,
                            ));
                        }
                        Some(Token::IntegerOp { value: v })
                    },
                    None => {
                        self.record_error("Integer literal out of range", None);
                        proof {
                            assert(self@.errors =~= old(self)@.errors + opt_seq(
                                scan_token(s, p0).error,
                            ));
                        }
                        None
                    },
                }
            } else {
                self.record_error("Expected number after '#' symbol", None);
                proof {
                    assert(self@.errors =~= old(self)@.errors + opt_seq(scan_token(s, p0).error));
                }
                None
            }
        } else {
            self.record_error("Unexpected character", None);
            self.read_char();
            proof {
                assert(self@.errors =~= old(self)@.errors + opt_seq(scan_token(s, p0).error));
            }
            None
        }
    }

    /// Scan the whole input: all tokens in order when no lexical error was
    /// met, else every error, in order.  A source whose trailing whitespace
    /// runs to the end yields the sentinel ZERO token last, as the model
    /// says.
    pub fn tokenize(&mut self) -> (r: Result<Vec<Token>, Vec<LexerError>>)
        requires
            old(self).wf(),
        ensures
            final(self).wf(),
            final(self)@.source == old(self)@.source,
            ({
                let (toks, errs) = scan_all(old(self)@.source, old(self)@.pos);
                &&& final(self)@.errors == old(self)@.errors + errs
                &&& match r {
                    Ok(ts) => final(self)@.errors.len() == 0 && token_views(ts@) == toks,
                    Err(es) => final(self)@.errors.len() > 0 && error_views(es@) == final(self)@.errors,
                }
            }),
    {
        let ghost s = self.source@;
        let ghost p0 = self@.pos;
        let mut tokens: Vec<Token> = Vec::new();
        while self.position + 1 < self.source.len()
            invariant
                self.wf(),
                self@.source == s,
                old(self)@.source == s,
                old(self)@.pos == p0,
                token_views(tokens@) + scan_all(s, self@.pos).0 == scan_all(s, p0).0,
                old(self)@.errors + scan_all(s, p0).1 == self@.errors + scan_all(s, self@.pos).1,
            decreases s.len() + 1 - self@.pos.at,
        {
            let ghost cur = self@.pos;
            proof {
                lemma_scan_token_advances(s, cur);
            }
            let taken = self.next_token();
            match taken {
                Some(token) => {
                    proof {
                        assert(token_views(tokens@.push(token)) =~= token_views(tokens@).push(
                            token@,
                        ));
                        assert(token_views(tokens@).push(token@) + scan_all(s, self@.pos).0
                            =~= token_views(tokens@) + scan_all(s, cur).0);
                    }
                    tokens.push(token);
                },
                None => {
                    proof {
                        assert(token_views(tokens@) + scan_all(s, self@.pos).0 =~= token_views(
                            tokens@,
                        ) + scan_all(s, cur).0);
                    }
                },
            }
            proof {
                assert(old(self)@.errors + scan_all(s, p0).1 =~= self@.errors + scan_all(
                    s,
                    self@.pos,
                ).1);
            }
        }
        proof {
            assert(scan_all(s, self@.pos).0 =~= Seq::<TokenModel>::empty());
            assert(scan_all(s, self@.pos).1 =~= Seq::<LexErrorModel>::empty());
            assert(token_views(tokens@) =~= scan_all(s, p0).0);
            assert(self@.errors =~= old(self)@.errors + scan_all(s, p0).1);
        }
        if self.errors.is_empty() {
            Ok(tokens)
        } else {
            Err(clone_errors(&self.errors))
        }
    }
}

/// Whether `c` is one of the whitespace characters the scanner skips.
fn is_space_c(c: char) -> (r: bool)
    ensures
        r == is_space(c),
{
    c == ' ' || c == '\t' || c == '\n' || c == '\r'
}

/// Whether `c` can continue a word.
fn is_word_c(c: char) -> (r: bool)
    ensures
        r == is_word_char(c),
{
    let u = c as u32;
    (97 <= u && u <= 122) || (65 <= u && u <= 90) || (48 <= u && u <= 57) || c == ':' || c == '_'
        || c == '-' || c == '@' || c == '.'
}

/// Whether `c` is an ASCII decimal digit.
fn is_digit_c(c: char) -> (r: bool)
    ensures
        r == is_digit_ch(c),
{
    let u = c as u32;
    48 <= u && u <= 57
}

/// The characters of a string slice, one vector element each.
pub(crate) fn chars_vec(input: &str) -> (r: Vec<char>)
    ensures
        r@ == input@,
{
    broadcast use vstd::string::group_string_axioms;

    let mut v: Vec<char> = Vec::new();
    let mut it = input.chars();
    proof {
        assert(v@ + it.remaining() =~= input@);
    }
    loop
        invariant
            it.obeys_prophetic_iter_laws(),
            v@ + it.remaining() == input@,
        ensures
            v@ + it.remaining() == input@,
            it.remaining().len() == 0,
        decreases input@.len() - v@.len(),
    {
        match it.next() {
            Some(c) => {
                v.push(c);
                proof {
                    assert(v@ + it.remaining() =~= input@);
                }
            },
            None => {
                proof {
                    assert(it.remaining().len() == 0);
                }
                break;
            },
        }
    }
    proof {
        assert(v@ =~= input@);
    }
    v
}

/// Whether a string equals a fixed word, by contents.
pub(crate) fn str_eq(a: &String, b: &str) -> (r: bool)
    ensures
        r == (a@ == b@),
{
    let bs = String::from_str(b);
    *a == bs
}

/// The token a bare word stands for, per the mnemonic and directive tables.
fn keyword_token(word: &String) -> (r: Option<Token>)
    ensures
        match (r, keyword_token_model(word@)) {
            (Some(t), Some(m)) => t@ == m,
            (None, None) => true,
            _ => false,
        },
{
    if str_eq(word, ".asciiz") {
        Some(Token::Directive {
            directive_type: DirectiveType::Asciiz,
            literal: String::from_str(".asciiz"),
        })
    } else if str_eq(word, ".code") {
        Some(Token::Directive {
            directive_type: DirectiveType::Code,
            literal: String::from_str(".code"),
        })
    } else if str_eq(word, ".data") {
        Some(Token::Directive {
            directive_type: DirectiveType::Data,
            literal: String::from_str(".data"),
        })
    } else if str_eq(word, "load") {
        Some(Token::Op { code: Opcode::LOAD })
    } else if str_eq(word, "add") {
        Some(Token::Op { code: Opcode::ADD })
    } else if str_eq(word, "sub") {
        Some(Token::Op { code: Opcode::SUB })
    } else if str_eq(word, "mul") {
        Some(Token::Op { code: Opcode::MUL })
    } else if str_eq(word, "div") {
        Some(Token::Op { code: Opcode::DIV })
    } else if str_eq(word, "eq") {
        Some(Token::Op { code: Opcode::EQ })
    } else if str_eq(word, "jmp") {
        Some(Token::Op { code: Opcode::JMP })
    } else if str_eq(word, "jeq") {
        Some(Token::Op { code: Opcode::JEQ })
    } else if str_eq(word, "jneq") {
        Some(Token::Op { code: Opcode::JNEQ })
    } else if str_eq(word, "alloc") {
        Some(Token::Op { code: Opcode::ALLOC })
    } else if str_eq(word, "inc") {
        Some(Token::Op { code: Opcode::INC })
    } else if str_eq(word, "dec") {
        Some(Token::Op { code: Opcode::DEC })
    } else {
        None
    }
}

/// A copy of every recorded error, in order.
fn clone_errors(es: &Vec<LexerError>) -> (r: Vec<LexerError>)
    ensures
        error_views(r@) == error_views(es@),
{
    let mut r: Vec<LexerError> = Vec::new();
    let mut i: usize = 0;
    while i < es.len()
        invariant
            i <= es.len(),
            r@.len() == i as int,
            forall|k: int| 0 <= k < i ==> (#[trigger] r@[k])@ == es@[k]@,
        decreases es.len() - i,
    {
        r.push(es[i].clone());
        i = i + 1;
    }
    proof {
        assert(error_views(r@) =~= error_views(es@));
    }
    r
}

} // verus!

//! The grammar of Unicode table files, read byte by byte.
//!
//! A file is a sequence of lines. A line holds an equivalence set, a comment starting with `#`,
//! both, or nothing but blanks. An equivalence set is a comma-separated list of graphemes; a
//! grapheme is a blank-separated list of codepoints; a codepoint is `U+` followed by one or more
//! hexadecimal digits. Blanks are spaces, tabs and carriage returns.
use crate::chars::{char_from_u32, is_scalar_value};
use vstd::prelude::*;

verus! {

/// A `U+` token: its value, whether its digits overflow 32 bits, and where it starts.
#[derive(Clone, Copy, Debug, PartialEq, Eq, Structural)]
pub struct CodepointToken {
    pub value: u32,
    pub overflow: bool,
    pub line: usize,
    pub column: usize,
}

/// What the scanner expects next.
#[derive(Clone, Copy, Debug, PartialEq, Eq, Structural)]
pub enum ScanMode {
    /// Between tokens.
    Idle,
    /// After the `U` of a token.
    AfterU,
    /// After the `U+` of a token.
    AfterPlus,
    /// Within the digits of a token.
    Hex,
    /// Within a comment.
    Comment,
}

/// The scanner's state after some prefix of the input.
pub struct ScanState {
    /// The equivalence sets of the lines read so far.
    pub sets: Seq<Seq<Seq<CodepointToken>>>,
    /// The graphemes of the current line that are complete.
    pub set: Seq<Seq<CodepointToken>>,
    /// The complete codepoints of the current grapheme.
    pub grapheme: Seq<CodepointToken>,
    /// The token being read.
    pub token: CodepointToken,
    pub mode: ScanMode,
    /// Position of the next byte, counting from 1 up to the largest `usize`.
    pub line: int,
    pub column: int,
    /// Where the input stopped following the grammar, if it did.
    pub error: Option<(int, int)>,
    /// The first complete token that names no Unicode scalar value, if any.
    pub invalid: Option<CodepointToken>,
}

/// Whether a token names a Unicode scalar value.
pub open spec fn token_ok(t: CodepointToken) -> bool {
    !t.overflow && is_scalar_value(t.value)
}

/// No token of the state is invalid unless one has been recorded.
pub open spec fn tokens_ok(s: ScanState) -> bool {
    s.invalid is None ==> {
        &&& forall|i: int, j: int, k: int|
            0 <= i < s.sets.len() && 0 <= j < s.sets[i].len() && 0 <= k < s.sets[i][j].len()
                ==> token_ok(#[trigger] s.sets[i][j][k])
        &&& forall|j: int, k: int|
            0 <= j < s.set.len() && 0 <= k < s.set[j].len() ==> token_ok(#[trigger] s.set[j][k])
        &&& forall|k: int| 0 <= k < s.grapheme.len() ==> token_ok(#[trigger] s.grapheme[k])
    }
}

pub open spec fn is_blank(b: u8) -> bool {
    b == 0x20 || b == 0x09 || b == 0x0D
}

pub open spec fn is_hex_digit(b: u8) -> bool {
    (0x30 <= b <= 0x39) || (0x41 <= b <= 0x46) || (0x61 <= b <= 0x66)
}

pub open spec fn hex_digit_value(b: u8) -> u32 {
    if b <= 0x39 {
        (b - 0x30) as u32
    } else if b <= 0x46 {
        (b - 0x41 + 10) as u32
    } else {
        (b - 0x61 + 10) as u32
    }
}

/// The state before any input.
pub open spec fn initial_state() -> ScanState {
    ScanState {
        sets: seq![],
        set: seq![],
        grapheme: seq![],
        token: CodepointToken { value: 0, overflow: false, line: 0, column: 0 },
        mode: ScanMode::Idle,
        line: 1,
        column: 1,
        error: None,
        invalid: None,
    }
}

/// Stops at the current position.
pub open spec fn fail(s: ScanState) -> ScanState {
    ScanState { error: Some((s.line, s.column)), ..s }
}

/// Appends one more hexadecimal digit to a token.
pub open spec fn push_digit(t: CodepointToken, b: u8) -> CodepointToken {
    if t.overflow || t.value > 0x0FFF_FFFF {
        CodepointToken { overflow: true, ..t }
    } else {
        CodepointToken { value: (t.value * 16 + hex_digit_value(b)) as u32, ..t }
    }
}

/// Adds the token just read to the current grapheme, recording it if it is the first invalid
/// one.
pub open spec fn push_token(s: ScanState) -> ScanState {
    ScanState {
        grapheme: s.grapheme.push(s.token),
        mode: ScanMode::Idle,
        invalid: if s.invalid is None && !token_ok(s.token) {
            Some(s.token)
        } else {
            s.invalid
        },
        ..s
    }
}

/// Closes the current grapheme and adds it to the current set.
pub open spec fn end_grapheme(s: ScanState) -> ScanState {
    ScanState { set: s.set.push(s.grapheme), grapheme: seq![], ..s }
}

/// Closes the current line: its set, if any, joins the sets read so far. A comma with no
/// grapheme after it is an error.
pub open spec fn end_line(s: ScanState) -> ScanState {
    if s.grapheme.len() > 0 {
        let t = end_grapheme(s);
        ScanState { sets: t.sets.push(t.set), set: seq![], ..t }
    } else if s.set.len() > 0 {
        fail(s)
    } else {
        s
    }
}

/// The effect of byte `b` on the state, apart from moving the position.
pub open spec fn react(s: ScanState, b: u8) -> ScanState {
    match s.mode {
        ScanMode::Idle => {
            if b == 0x55 {
                ScanState {
                    mode: ScanMode::AfterU,
                    token: CodepointToken {
                        value: 0,
                        overflow: false,
                        line: s.line as usize,
                        column: s.column as usize,
                    },
                    ..s
                }
            } else if is_blank(b) {
                s
            } else if b == 0x2C {
                if s.grapheme.len() == 0 {
                    fail(s)
                } else {
                    end_grapheme(s)
                }
            } else if b == 0x23 {
                ScanState { mode: ScanMode::Comment, ..end_line(s) }
            } else if b == 0x0A {
                end_line(s)
            } else {
                fail(s)
            }
        },
        ScanMode::AfterU => {
            if b == 0x2B {
                ScanState { mode: ScanMode::AfterPlus, ..s }
            } else {
                fail(s)
            }
        },
        ScanMode::AfterPlus => {
            if is_hex_digit(b) {
                ScanState {
                    mode: ScanMode::Hex,
                    token: CodepointToken { value: hex_digit_value(b), ..s.token },
                    ..s
                }
            } else {
                fail(s)
            }
        },
        ScanMode::Hex => {
            if is_hex_digit(b) {
                ScanState { token: push_digit(s.token, b), ..s }
            } else {
                let t = push_token(s);
                if is_blank(b) {
                    t
                } else if b == 0x2C {
                    end_grapheme(t)
                } else if b == 0x23 {
                    ScanState { mode: ScanMode::Comment, ..end_line(t) }
                } else if b == 0x0A {
                    end_line(t)
                } else {
                    fail(s)
                }
            }
        },
        ScanMode::Comment => {
            if b == 0x0A {
                ScanState { mode: ScanMode::Idle, ..s }
            } else {
                s
            }
        },
    }
}

/// The next line or column number; the count stops at the largest `usize`.
pub open spec fn count_up(n: int) -> int {
    if n < usize::MAX {
        n + 1
    } else {
        n
    }
}

/// One byte of input: its effect, then the move to the next position. A state that has
/// stopped stays as it is.
pub open spec fn step(s: ScanState, b: u8) -> ScanState {
    if s.error is Some {
        s
    } else {
        let t = react(s, b);
        if t.error is Some {
            t
        } else if b == 0x0A {
            ScanState { line: count_up(t.line), column: 1, ..t }
        } else {
            ScanState { column: count_up(t.column), ..t }
        }
    }
}

/// The state after reading all of `input`.
pub open spec fn run(input: Seq<u8>) -> ScanState
    decreases input.len(),
{
    if input.len() == 0 {
        initial_state()
    } else {
        step(run(input.drop_last()), input.last())
    }
}

/// The end of the input closes the last line; it cannot come within a token's `U+`.
pub open spec fn finish(s: ScanState) -> ScanState {
    if s.error is Some {
        s
    } else {
        match s.mode {
            ScanMode::AfterU | ScanMode::AfterPlus => fail(s),
            ScanMode::Hex => end_line(push_token(s)),
            _ => end_line(s),
        }
    }
}

/// The equivalence sets of `input` with its first invalid token, if any; or the position where
/// the input stops following the grammar.
pub open spec fn scan(input: Seq<u8>) -> Result<
    (Seq<Seq<Seq<CodepointToken>>>, Option<CodepointToken>),
    (int, int),
> {
    let s = finish(run(input));
    match s.error {
        Some(p) => Err(p),
        None => Ok((s.sets, s.invalid)),
    }
}

proof fn lemma_push_token_ok(s: ScanState)
    requires
        tokens_ok(s),
    ensures
        tokens_ok(push_token(s)),
{
    let t = push_token(s);
    if t.invalid is None {
        assert forall|k: int| 0 <= k < t.grapheme.len() implies token_ok(#[trigger] t.grapheme[k]) by {
            if k < s.grapheme.len() {
                assert(t.grapheme[k] == s.grapheme[k]);
            }
        }
    }
}

proof fn lemma_end_grapheme_ok(s: ScanState)
    requires
        tokens_ok(s),
    ensures
        tokens_ok(end_grapheme(s)),
{
    let t = end_grapheme(s);
    if t.invalid is None {
        assert forall|j: int, k: int| 0 <= j < t.set.len() && 0 <= k < t.set[j].len() implies token_ok(
            #[trigger] t.set[j][k],
        ) by {
            if j < s.set.len() {
                assert(t.set[j] == s.set[j]);
            } else {
                assert(t.set[j] == s.grapheme);
            }
        }
    }
}

proof fn lemma_end_line_ok(s: ScanState)
    requires
        tokens_ok(s),
    ensures
        tokens_ok(end_line(s)),
{
    if s.grapheme.len() > 0 {
        lemma_end_grapheme_ok(s);
        let t = end_grapheme(s);
        let u = end_line(s);
        if u.invalid is None {
            assert forall|i: int, j: int, k: int|
                0 <= i < u.sets.len() && 0 <= j < u.sets[i].len() && 0 <= k
                    < u.sets[i][j].len() implies token_ok(#[trigger] u.sets[i][j][k]) by {
                if i < t.sets.len() {
                    assert(u.sets[i] == t.sets[i]);
                } else {
                    assert(u.sets[i] == t.set);
                }
            }
        }
    }
}

/// Reading input never leaves an invalid token unrecorded.
proof fn lemma_run_tokens_ok(input: Seq<u8>)
    ensures
        tokens_ok(run(input)),
        tokens_ok(finish(run(input))),
    decreases input.len(),
{
    if input.len() > 0 {
        lemma_run_tokens_ok(input.drop_last());
        let s = run(input.drop_last());
        lemma_push_token_ok(s);
        lemma_end_grapheme_ok(s);
        lemma_end_line_ok(s);
        lemma_end_grapheme_ok(push_token(s));
        lemma_end_line_ok(push_token(s));
    }
    let s = run(input);
    lemma_push_token_ok(s);
    lemma_end_line_ok(s);
    lemma_end_line_ok(push_token(s));
}

/// Once the input stops following the grammar, further input changes nothing.
proof fn lemma_error_persists(input: Seq<u8>, i: int)
    requires
        0 <= i <= input.len(),
        run(input.take(i)).error is Some,
    ensures
        run(input) == run(input.take(i)),
    decreases input.len() - i,
{
    if i < input.len() {
        assert(input.take(i + 1).drop_last() =~= input.take(i));
        lemma_error_persists(input, i + 1);
    } else {
        assert(input.take(i) =~= input);
    }
}

/// Every completed set and grapheme of the state holds at least one member.
pub open spec fn shapes_ok(s: ScanState) -> bool {
    &&& forall|i: int| 0 <= i < s.sets.len() ==> (#[trigger] s.sets[i]).len() > 0
    &&& forall|i: int, j: int|
        0 <= i < s.sets.len() && 0 <= j < s.sets[i].len() ==> (#[trigger] s.sets[i][j]).len() > 0
    &&& forall|j: int| 0 <= j < s.set.len() ==> (#[trigger] s.set[j]).len() > 0
}

proof fn lemma_end_grapheme_shapes(s: ScanState)
    requires
        shapes_ok(s),
        s.grapheme.len() > 0,
    ensures
        shapes_ok(end_grapheme(s)),
{
    let t = end_grapheme(s);
    assert forall|j: int| 0 <= j < t.set.len() implies (#[trigger] t.set[j]).len() > 0 by {
        if j < s.set.len() {
            assert(t.set[j] == s.set[j]);
        }
    }
}

proof fn lemma_end_line_shapes(s: ScanState)
    requires
        shapes_ok(s),
    ensures
        shapes_ok(end_line(s)),
{
    if s.grapheme.len() > 0 {
        lemma_end_grapheme_shapes(s);
        let t = end_grapheme(s);
        let u = end_line(s);
        assert forall|i: int| 0 <= i < u.sets.len() implies (#[trigger] u.sets[i]).len() > 0 by {
            if i < t.sets.len() {
                assert(u.sets[i] == t.sets[i]);
            } else {
                assert(u.sets[i] == t.set);
            }
        }
        assert forall|i: int, j: int|
            0 <= i < u.sets.len() && 0 <= j < u.sets[i].len() implies (#[trigger] u.sets[i][j]).len()
            > 0 by {
            if i < t.sets.len() {
                assert(u.sets[i] == t.sets[i]);
            } else {
                assert(u.sets[i] == t.set);
            }
        }
    }
}

/// Reading input only ever completes sets and graphemes that hold at least one member.
proof fn lemma_run_shapes_ok(input: Seq<u8>)
    ensures
        shapes_ok(run(input)),
        shapes_ok(finish(run(input))),
    decreases input.len(),
{
    if input.len() > 0 {
        lemma_run_shapes_ok(input.drop_last());
        let s = run(input.drop_last());
        lemma_end_line_shapes(s);
        if s.grapheme.len() > 0 {
            lemma_end_grapheme_shapes(s);
        }
        lemma_end_grapheme_shapes(push_token(s));
        lemma_end_line_shapes(push_token(s));
    }
    let s = run(input);
    lemma_end_line_shapes(s);
    lemma_end_line_shapes(push_token(s));
}

/// The sets that reading yields, and each of their graphemes, hold at least one member.
pub proof fn lemma_sets_not_empty(input: Seq<u8>)
    ensures
        scan(input) is Ok ==> {
            let sets = scan(input)->Ok_0.0;
            &&& forall|a: int| 0 <= a < sets.len() ==> (#[trigger] sets[a]).len() > 0
            &&& forall|a: int, b: int|
                0 <= a < sets.len() && 0 <= b < sets[a].len() ==> (#[trigger] sets[a][b]).len() > 0
        },
{
    lemma_run_shapes_ok(input);
}

/// When the input follows the grammar and no invalid token was recorded, every token is valid.
pub proof fn lemma_tokens_all_ok(input: Seq<u8>)
    ensures
        scan(input) is Ok && scan(input)->Ok_0.1 is None ==> forall|a: int, b: int, c: int|
            0 <= a < scan(input)->Ok_0.0.len() && 0 <= b < scan(input)->Ok_0.0[a].len() && 0 <= c
                < scan(input)->Ok_0.0[a][b].len() ==> token_ok(
                #[trigger] scan(input)->Ok_0.0[a][b][c],
            ),
{
    lemma_run_tokens_ok(input);
}

/// The token sequences held in nested vectors.
pub open spec fn token_sets(v: Seq<Vec<Vec<CodepointToken>>>) -> Seq<Seq<Seq<CodepointToken>>> {
    v.map_values(|s: Vec<Vec<CodepointToken>>| token_seqs(s@))
}

/// The token sequences held in vectors.
pub open spec fn token_seqs(v: Seq<Vec<CodepointToken>>) -> Seq<Seq<CodepointToken>> {
    v.map_values(|g: Vec<CodepointToken>| g@)
}

/// The executable scanner; its view is the state of the grammar.
struct Scanner {
    sets: Vec<Vec<Vec<CodepointToken>>>,
    set: Vec<Vec<CodepointToken>>,
    grapheme: Vec<CodepointToken>,
    token: CodepointToken,
    mode: ScanMode,
    line: usize,
    column: usize,
    failed: bool,
    invalid: Option<CodepointToken>,
}

impl Scanner {
    spec fn view(&self) -> ScanState {
        ScanState {
            sets: token_sets(self.sets@),
            set: token_seqs(self.set@),
            grapheme: self.grapheme@,
            token: self.token,
            mode: self.mode,
            line: self.line as int,
            column: self.column as int,
            error: if self.failed {
                Some((self.line as int, self.column as int))
            } else {
                None
            },
            invalid: self.invalid,
        }
    }

    fn push_token(&mut self)
        ensures
            final(self).view() == push_token(old(self).view()),
            final(self).line == old(self).line,
            final(self).column == old(self).column,
            final(self).failed == old(self).failed,
    {
        if self.invalid.is_none() && (self.token.overflow || char_from_u32(self.token.value).is_none()) {
            self.invalid = Some(self.token);
        }
        self.grapheme.push(self.token);
        self.mode = ScanMode::Idle;
    }

    fn end_grapheme(&mut self)
        ensures
            final(self).view() == end_grapheme(old(self).view()),
            final(self).line == old(self).line,
            final(self).column == old(self).column,
            final(self).failed == old(self).failed,
    {
        let mut g: Vec<CodepointToken> = Vec::new();
        std::mem::swap(&mut g, &mut self.grapheme);
        self.set.push(g);
        assert(self.view().set =~= end_grapheme(old(self).view()).set);
    }

    fn end_line(&mut self)
        ensures
            final(self).view() == end_line(old(self).view()),
            final(self).line == old(self).line,
            final(self).column == old(self).column,
    {
        if self.grapheme.len() > 0 {
            self.end_grapheme();
            let mut s: Vec<Vec<CodepointToken>> = Vec::new();
            std::mem::swap(&mut s, &mut self.set);
            self.sets.push(s);
            assert(self.view().sets =~= end_line(old(self).view()).sets);
            assert(self.view().set =~= end_line(old(self).view()).set);
        } else if self.set.len() > 0 {
            self.failed = true;
        }
    }

    fn react(&mut self, b: u8)
        requires
            !old(self).failed,
        ensures
            final(self).view() == react(old(self).view(), b),
            final(self).line == old(self).line,
            final(self).column == old(self).column,
    {
        let blank = b == 0x20 || b == 0x09 || b == 0x0D;
        let hex = (0x30 <= b && b <= 0x39) || (0x41 <= b && b <= 0x46) || (0x61 <= b && b <= 0x66);
        match self.mode {
            ScanMode::Idle => {
                if b == 0x55 {
                    self.mode = ScanMode::AfterU;
                    self.token = CodepointToken {
                        value: 0,
                        overflow: false,
                        line: self.line,
                        column: self.column,
                    };
                } else if blank {
                } else if b == 0x2C {
                    if self.grapheme.len() == 0 {
                        self.failed = true;
                    } else {
                        self.end_grapheme();
                    }
                } else if b == 0x23 {
                    self.end_line();
                    self.mode = ScanMode::Comment;
                } else if b == 0x0A {
                    self.end_line();
                } else {
                    self.failed = true;
                }
            },
            ScanMode::AfterU => {
                if b == 0x2B {
                    self.mode = ScanMode::AfterPlus;
                } else {
                    self.failed = true;
                }
            },
            ScanMode::AfterPlus => {
                if hex {
                    self.mode = ScanMode::Hex;
                    self.token.value = hex_digit(b);
                } else {
                    self.failed = true;
                }
            },
            ScanMode::Hex => {
                if hex {
                    if self.token.overflow || self.token.value > 0x0FFF_FFFF {
                        self.token.overflow = true;
                    } else {
                        self.token.value = self.token.value * 16 + hex_digit(b);
                    }
                } else if blank || b == 0x2C || b == 0x23 || b == 0x0A {
                    self.push_token();
                    if b == 0x2C {
                        self.end_grapheme();
                    } else if b == 0x23 {
                        self.end_line();
                        self.mode = ScanMode::Comment;
                    } else if b == 0x0A {
                        self.end_line();
                    }
                } else {
                    self.failed = true;
                }
            },
            ScanMode::Comment => {
                if b == 0x0A {
                    self.mode = ScanMode::Idle;
                }
            },
        }
    }
}

/// Reads Unicode table files.
pub struct UnicodeTableParser;

impl UnicodeTableParser {
    /// Splits a table file into equivalence sets of graphemes of `U+` tokens, and finds its first
    /// token that names no Unicode scalar value. Fails with the line and column, counted from 1,
    /// of the first byte that does not follow the grammar, or of the end of the input when it
    /// ends within a token.
    pub fn parse(input: &[u8]) -> (r: Result<
        (Vec<Vec<Vec<CodepointToken>>>, Option<CodepointToken>),
        (usize, usize),
    >)
        ensures
            match scan(input@) {
                Err(p) => r matches Err(q) && q.0 as int == p.0 && q.1 as int == p.1,
                Ok(res) => r matches Ok(v) && token_sets(v.0@) == res.0 && v.1 == res.1,
            },
    {
        let mut sc = Scanner {
            sets: Vec::new(),
            set: Vec::new(),
            grapheme: Vec::new(),
            token: CodepointToken { value: 0, overflow: false, line: 0, column: 0 },
            mode: ScanMode::Idle,
            line: 1,
            column: 1,
            failed: false,
            invalid: None,
        };
        proof {
            assert(sc.view().sets =~= initial_state().sets);
            assert(sc.view().set =~= initial_state().set);
            assert(sc.view().grapheme =~= initial_state().grapheme);
            assert(input@.take(0) =~= Seq::<u8>::empty());
        }
        let mut i: usize = 0;
        while i < input.len()
            invariant
                i <= input@.len(),
                sc.view() == run(input@.take(i as int)),
                !sc.failed,
            decreases input@.len() - i,
        {
            let b = input[i];
            assert(input@.take(i + 1).drop_last() =~= input@.take(i as int));
            assert(input@.take(i + 1).last() == b);
            sc.react(b);
            if sc.failed {
                proof {
                    lemma_error_persists(input@, i + 1);
                }
                return Err((sc.line, sc.column));
            }
            if b == 0x0A {
                if sc.line < usize::MAX {
                    sc.line = sc.line + 1;
                }
                sc.column = 1;
            } else if sc.column < usize::MAX {
                sc.column = sc.column + 1;
            }
            i = i + 1;
        }
        assert(input@.take(i as int) =~= input@);
        match sc.mode {
            ScanMode::AfterU | ScanMode::AfterPlus => {
                return Err((sc.line, sc.column));
            },
            ScanMode::Hex => {
                sc.push_token();
                sc.end_line();
            },
            _ => {
                sc.end_line();
            },
        }
        if sc.failed {
            return Err((sc.line, sc.column));
        }
        Ok((sc.sets, sc.invalid))
    }
}

/// The value of a hexadecimal digit.
fn hex_digit(b: u8) -> (r: u32)
    requires
        is_hex_digit(b),
    ensures
        r == hex_digit_value(b),
        r < 16,
{
    if b <= 0x39 {
        (b - 0x30) as u32
    } else if b <= 0x46 {
        (b - 0x41 + 10) as u32
    } else {
        (b - 0x61 + 10) as u32
    }
}

} // verus!

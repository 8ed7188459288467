//! The scanner: drives the lexical automaton over the line-split source,
//! assembles tokens, keeps the symbol table, and records lexical
//! diagnostics. Every call to `scan` yields exactly one token; `safe_scan`
//! filters out error-class tokens so the parser only sees well-formed ones.
use vstd::prelude::*;
use crate::class::Class;
use crate::lexical_afd::AFD;
use crate::lexical_afd::AFDState;
use crate::lexical_afd::Action;
use crate::lexical_afd::spec_advance;
use crate::symbol_table::SymbolTable;
use crate::symbol_table::spec_reserved_map;
use crate::token::Token;
use crate::token::TokenV;
use crate::token_type::TokenType;
use crate::text::push_char;
use crate::text::split_lines;
use crate::text::spec_split_lines;
use crate::text::lemma_split_lines_nonempty;
use crate::text::lemma_split_lines_count;
use crate::token::spec_token_from_lexeme;

verus! {

/// One lexical diagnostic: the error code, the cursor position at the time
/// it was recorded, and the character that provoked it.
#[derive(Clone, Copy, Debug, PartialEq, Eq, Structural)]
pub struct LexicalError {
    pub code: u8,
    pub row: usize,
    pub col: usize,
    pub ch: char,
}

/// Reading position over the line-split source. `row` is one-based once
/// reading has started; `col` indexes the next unread character of the
/// current line.
pub ghost struct CursorV {
    pub lines: Seq<Seq<char>>,
    pub row: int,
    pub col: int,
    pub eof: bool,
}

pub ghost struct ScannerV {
    pub cursor: CursorV,
    pub table: Map<Seq<char>, TokenV>,
    pub errors: Seq<LexicalError>,
}

/// The token and scanner state one `scan` call yields.
pub ghost struct ScanOut {
    pub token: TokenV,
    pub s: ScannerV,
}

/// No stored token carries the error class: the scanner only stores
/// reserved words and identifiers.
pub open spec fn table_wf(t: Map<Seq<char>, TokenV>) -> bool {
    forall|k: Seq<char>|
        t.contains_key(k) ==> (#[trigger] t[k]).class != Some(Class::Erro)
}

pub proof fn lemma_reserved_map_wf()
    ensures
        table_wf(spec_reserved_map()),
{
}

pub open spec fn cursor_wf(c: CursorV) -> bool {
    &&& c.lines.len() < usize::MAX
    &&& 0 <= c.row <= c.lines.len() + 1
    &&& 0 <= c.col
    &&& (c.row == 0 ==> c.col == 0 && !c.eof)
    &&& (1 <= c.row <= c.lines.len() ==> c.col <= c.lines[c.row - 1].len() && !c.eof)
    &&& (c.row == c.lines.len() + 1 ==> c.eof && c.col == 0)
    &&& (forall|i: int| 0 <= i < c.lines.len() ==> (#[trigger] c.lines[i]).len() > 0)
}

/// One character read: hand out the next character and move the cursor,
/// entering the next line when the current one is exhausted and flagging
/// the end of the input when there is none.
pub open spec fn spec_read_char(c: CursorV) -> (Option<char>, CursorV) {
    if c.eof {
        (None, c)
    } else if c.row == 0 || c.col == c.lines[c.row - 1].len() {
        if c.row + 1 > c.lines.len() {
            (None, CursorV { row: c.row + 1, col: 0, eof: true, ..c })
        } else {
            (Some(c.lines[c.row][0]), CursorV { row: c.row + 1, col: 1, ..c })
        }
    } else {
        (Some(c.lines[c.row - 1][c.col]), CursorV { col: c.col + 1, ..c })
    }
}

/// Characters of the lines from index `i` on.
pub open spec fn tail_len(lines: Seq<Seq<char>>, i: int) -> nat
    decreases lines.len() - i,
{
    if i < 0 || i >= lines.len() {
        0
    } else {
        tail_len(lines, i + 1) + lines[i].len()
    }
}

/// How many characters are still unread.
pub open spec fn cursor_remaining(c: CursorV) -> nat {
    if c.row == 0 {
        tail_len(c.lines, 0)
    } else if c.row <= c.lines.len() {
        if 0 <= c.col <= c.lines[c.row - 1].len() {
            ((c.lines[c.row - 1].len() - c.col) + tail_len(c.lines, c.row)) as nat
        } else {
            tail_len(c.lines, c.row)
        }
    } else {
        0
    }
}

proof fn lemma_read_char_step(c: CursorV)
    requires
        cursor_wf(c),
    ensures
        cursor_wf(spec_read_char(c).1),
        spec_read_char(c).1.lines == c.lines,
        spec_read_char(c).0 is Some ==> spec_read_char(c).1.col >= 1,
        spec_read_char(c).0 is Some ==> cursor_remaining(spec_read_char(c).1) == cursor_remaining(
            c,
        ) - 1,
        spec_read_char(c).0 is None ==> cursor_remaining(c) == 0 && spec_read_char(c).1.eof,
        spec_read_char(c).0 is None ==> cursor_remaining(spec_read_char(c).1) == 0,
{
    if !c.eof {
        if c.row == 0 || c.col == c.lines[c.row - 1].len() {
            if c.row + 1 <= c.lines.len() {
                let r = c.row;
                assert(tail_len(c.lines, r) == tail_len(c.lines, r + 1) + c.lines[r].len());
            }
        }
    }
}

/// Record a lexical diagnostic for an automaton error state.
pub open spec fn spec_err_push(
    errors: Seq<LexicalError>,
    st: AFDState,
    row: int,
    col: int,
    c: char,
) -> Seq<LexicalError> {
    match st {
        AFDState::Error(k) => if k <= 6 {
            errors.push(LexicalError { code: k, row: row as usize, col: col as usize, ch: c })
        } else {
            errors
        },
        _ => errors,
    }
}

/// Token assembly from the final automaton state: numbers, literals and
/// operators are classified directly; an identifier is resolved through the
/// symbol table, which stores it on first sight; an error state yields the
/// error-class token.
pub open spec fn spec_assemble(
    lexeme: Seq<char>,
    st: AFDState,
    table: Map<Seq<char>, TokenV>,
) -> (TokenV, Map<Seq<char>, TokenV>) {
    match st {
        AFDState::Accept(k) => if k == 1 || k == 25 {
            (
                TokenV {
                    class: Some(Class::Num),
                    lexeme: Some(lexeme),
                    token_type: Some(TokenType::Inteiro),
                },
                table,
            )
        } else if k == 3 || k == 6 {
            (
                TokenV {
                    class: Some(Class::Num),
                    lexeme: Some(lexeme),
                    token_type: Some(TokenType::Real),
                },
                table,
            )
        } else if k == 8 {
            (
                TokenV {
                    class: Some(Class::Lit),
                    lexeme: Some(lexeme),
                    token_type: Some(TokenType::Literal),
                },
                table,
            )
        } else if k == 9 {
            if table.contains_key(lexeme) {
                (table[lexeme], table)
            } else {
                let t = TokenV { class: Some(Class::Id), lexeme: Some(lexeme), token_type: None };
                (t, table.insert(lexeme, t))
            }
        } else if k == 13 || k == 15 || k == 16 || k == 17 {
            (TokenV { class: Some(Class::Opr), lexeme: Some(lexeme), token_type: None }, table)
        } else if k == 14 || k == 18 {
            (TokenV { class: Some(Class::Rcb), lexeme: Some(lexeme), token_type: None }, table)
        } else if k == 19 {
            (TokenV { class: Some(Class::Opm), lexeme: Some(lexeme), token_type: None }, table)
        } else if k == 20 {
            (TokenV { class: Some(Class::Abp), lexeme: Some(lexeme), token_type: None }, table)
        } else if k == 21 {
            (TokenV { class: Some(Class::Fcp), lexeme: Some(lexeme), token_type: None }, table)
        } else if k == 22 {
            (TokenV { class: Some(Class::Ptv), lexeme: Some(lexeme), token_type: None }, table)
        } else if k == 23 {
            (TokenV { class: Some(Class::Vir), lexeme: Some(lexeme), token_type: None }, table)
        } else {
            (TokenV { class: None, lexeme: Some(lexeme), token_type: None }, table)
        },
        AFDState::Error(_) => (
            TokenV { class: Some(Class::Erro), lexeme: None, token_type: None },
            table,
        ),
        _ => (TokenV { class: None, lexeme: Some(lexeme), token_type: None }, table),
    }
}

/// The scan loop: feed characters to the automaton until it halts. On end
/// of input a pending lexeme is accepted or reported as unterminated
/// (lexical error 6); with nothing pending the synthetic EOF token is
/// returned.
pub open spec fn spec_scan_loop(s: ScannerV, afd: AFD, lexeme: Seq<char>) -> ScanOut
    decreases cursor_remaining(s.cursor),
    when cursor_wf(s.cursor)
    via spec_scan_loop_decreases
{
    let (rc, cur1) = spec_read_char(s.cursor);
    match rc {
        None => {
            if lexeme.len() > 0 && afd.state is Accept {
                let (tok, table2) = spec_assemble(lexeme, afd.state, s.table);
                ScanOut {
                    token: tok,
                    s: ScannerV { cursor: cur1, table: table2, errors: s.errors },
                }
            } else if lexeme.len() > 0 && afd.state is NonAccept {
                let errs = spec_err_push(s.errors, AFDState::Error(6), cur1.row, cur1.col, ' ');
                let (tok, table2) = spec_assemble(lexeme, AFDState::Error(6), s.table);
                ScanOut { token: tok, s: ScannerV { cursor: cur1, table: table2, errors: errs } }
            } else {
                ScanOut {
                    token: TokenV {
                        class: Some(Class::Eof),
                        lexeme: Some("EOF"@),
                        token_type: None,
                    },
                    s: ScannerV { cursor: cur1, table: s.table, errors: s.errors },
                }
            }
        },
        Some(c) => {
            let a1 = spec_advance(afd, c);
            let cur2 = if a1.action == Action::GoBack {
                CursorV { col: cur1.col - 1, ..cur1 }
            } else {
                cur1
            };
            let lex2 = if a1.action == Action::Standard {
                lexeme.push(c)
            } else if a1.action == Action::Clear {
                Seq::empty()
            } else {
                lexeme
            };
            let errs2 = if a1.action == Action::ShowErrMessage {
                spec_err_push(s.errors, a1.state, cur1.row, cur1.col, c)
            } else {
                s.errors
            };
            if a1.done {
                let (tok, table2) = spec_assemble(lex2, a1.state, s.table);
                ScanOut { token: tok, s: ScannerV { cursor: cur2, table: table2, errors: errs2 } }
            } else {
                spec_scan_loop(ScannerV { cursor: cur2, table: s.table, errors: errs2 }, a1, lex2)
            }
        },
    }
}

#[via_fn]
proof fn spec_scan_loop_decreases(s: ScannerV, afd: AFD, lexeme: Seq<char>) {
    lemma_read_char_step(s.cursor);
}

/// What one `scan` call computes, from a fresh automaton and an empty
/// lexeme.
pub open spec fn spec_scan(s: ScannerV) -> ScanOut {
    spec_scan_loop(
        s,
        AFD { state: AFDState::Initial, done: false, action: Action::Idle },
        Seq::empty(),
    )
}

/// The scan loop never moves the cursor backwards past its entry position,
/// and an error-class token always either consumed input or crossed into
/// the end of it.
pub proof fn lemma_scan_loop_progress(s: ScannerV, afd: AFD, lexeme: Seq<char>)
    requires
        cursor_wf(s.cursor),
        table_wf(s.table),
    ensures
        cursor_wf(spec_scan_loop(s, afd, lexeme).s.cursor),
        table_wf(spec_scan_loop(s, afd, lexeme).s.table),
        spec_scan_loop(s, afd, lexeme).s.cursor.lines == s.cursor.lines,
        cursor_remaining(spec_scan_loop(s, afd, lexeme).s.cursor) <= cursor_remaining(s.cursor),
        spec_scan_loop(s, afd, lexeme).token.class == Some(Class::Erro) ==> (cursor_remaining(
            spec_scan_loop(s, afd, lexeme).s.cursor,
        ) < cursor_remaining(s.cursor) || (!s.cursor.eof && spec_scan_loop(
            s,
            afd,
            lexeme,
        ).s.cursor.eof) || (s.cursor.eof && lexeme.len() > 0)),
    decreases cursor_remaining(s.cursor),
{
    lemma_read_char_step(s.cursor);
    let (rc, cur1) = spec_read_char(s.cursor);
    if rc is Some {
        let c = rc->0;
        let a1 = spec_advance(afd, c);
        let cur2 = if a1.action == Action::GoBack {
            CursorV { col: cur1.col - 1, ..cur1 }
        } else {
            cur1
        };
        let lex2 = if a1.action == Action::Standard {
            lexeme.push(c)
        } else if a1.action == Action::Clear {
            Seq::empty()
        } else {
            lexeme
        };
        let errs2 = if a1.action == Action::ShowErrMessage {
            spec_err_push(s.errors, a1.state, cur1.row, cur1.col, c)
        } else {
            s.errors
        };
        if a1.done {
            assert(a1.action == Action::GoBack ==> cursor_wf(cur2) && cursor_remaining(cur2)
                <= cursor_remaining(s.cursor));
        } else {
            lemma_scan_loop_progress(
                ScannerV { cursor: cur2, table: s.table, errors: errs2 },
                a1,
                lex2,
            );
        }
    }
}

pub struct Scanner {
    lines: Vec<Vec<char>>,
    row: usize,
    col: usize,
    eof: bool,
    pub symbol_table: SymbolTable,
    error_messages: Vec<LexicalError>,
}

impl View for Scanner {
    type V = ScannerV;

    closed spec fn view(&self) -> ScannerV {
        ScannerV {
            cursor: CursorV {
                lines: self.lines.deep_view(),
                row: self.row as int,
                col: self.col as int,
                eof: self.eof,
            },
            table: self.symbol_table@,
            errors: self.error_messages@,
        }
    }
}

impl Scanner {
    pub closed spec fn wf(&self) -> bool {
        cursor_wf(self@.cursor) && self.symbol_table.wf() && table_wf(self@.table)
    }

    /// A scanner at the start of the given source text, with the symbol
    /// table holding the reserved words and no diagnostics yet.
    pub fn new(source: Vec<char>) -> (r: Scanner)
        requires
            source@.len() < usize::MAX,
        ensures
            r.wf(),
            r@ == (ScannerV {
                cursor: CursorV {
                    lines: spec_split_lines(source@),
                    row: 0,
                    col: 0,
                    eof: false,
                },
                table: spec_reserved_map(),
                errors: Seq::<LexicalError>::empty(),
            }),
    {
        let lines = split_lines(&source);
        proof {
            lemma_split_lines_nonempty(source@);
            lemma_split_lines_count(source@);
            lemma_reserved_map_wf();
        }
        Scanner {
            lines,
            row: 0,
            col: 0,
            eof: false,
            symbol_table: SymbolTable::new(),
            error_messages: Vec::new(),
        }
    }

    pub fn get_row(&self) -> (r: usize)
        ensures
            r == self@.cursor.row,
    {
        self.row
    }

    pub fn get_col(&self) -> (r: usize)
        ensures
            r == self@.cursor.col,
    {
        self.col
    }

    /// The lexical diagnostics recorded so far, in scan order.
    pub fn error_messages(&self) -> (r: &Vec<LexicalError>)
        ensures
            r@ == self@.errors,
    {
        &self.error_messages
    }

    fn read_char(&mut self) -> (r: Option<char>)
        requires
            old(self).wf(),
        ensures
            final(self).wf(),
            final(self)@.table == old(self)@.table,
            final(self)@.errors == old(self)@.errors,
            (r, final(self)@.cursor) == spec_read_char(old(self)@.cursor),
            r is Some ==> final(self).col() >= 1,
    {
        proof {
            lemma_read_char_step(old(self)@.cursor);
        }
        if self.eof {
            return None;
        }
        let cur_len = if self.row == 0 {
            0
        } else {
            proof {
                assert(self@.cursor.lines[self.row - 1] =~= self.lines@[self.row - 1]@);
            }
            self.lines[self.row - 1].len()
        };
        if self.row == 0 || self.col == cur_len {
            self.row = self.row + 1;
            self.col = 0;
            if self.row > self.lines.len() {
                self.eof = true;
                return None;
            }
        }
        proof {
            assert(self@.cursor.lines[self.row - 1] =~= self.lines@[self.row - 1]@);
        }
        let c = self.lines[self.row - 1][self.col];
        self.col = self.col + 1;
        Some(c)
    }

    #[verifier::when_used_as_spec(spec_col)]
    fn col(&self) -> (r: usize)
        ensures
            r == self@.cursor.col,
    {
        self.col
    }

    pub closed spec fn spec_col(&self) -> usize {
        self.col
    }

    /// Un-consume the character just read: the automaton looked one
    /// character past the lexeme.
    fn go_back(&mut self)
        requires
            old(self).wf(),
            old(self)@.cursor.col >= 1,
        ensures
            final(self).wf(),
            final(self)@ == (ScannerV {
                cursor: CursorV { col: old(self)@.cursor.col - 1, ..old(self)@.cursor },
                table: old(self)@.table,
                errors: old(self)@.errors,
            }),
    {
        self.col = self.col - 1;
    }

    /// Append the diagnostic for an automaton error state, at the current
    /// cursor position.
    fn insert_err_message(&mut self, c: char, afd_state: &AFDState)
        requires
            old(self).wf(),
        ensures
            final(self).wf(),
            final(self)@.cursor == old(self)@.cursor,
            final(self)@.table == old(self)@.table,
            final(self)@.errors == spec_err_push(
                old(self)@.errors,
                *afd_state,
                old(self)@.cursor.row,
                old(self)@.cursor.col,
                c,
            ),
    {
        match afd_state {
            AFDState::Error(k) => {
                if *k <= 6 {
                    self.error_messages.push(
                        LexicalError { code: *k, row: self.row, col: self.col, ch: c },
                    );
                }
            },
            _ => {},
        }
    }

    /// Classify the finished lexeme. Identifiers go through the symbol
    /// table: a stored token (reserved word or already-seen identifier) is
    /// returned verbatim, a new identifier is stored first.
    fn assemble_token(&mut self, lexeme: String, afd_state: AFDState) -> (r: Token)
        requires
            old(self).wf(),
        ensures
            final(self).wf(),
            final(self)@.cursor == old(self)@.cursor,
            final(self)@.errors == old(self)@.errors,
            r@ == spec_assemble(lexeme@, afd_state, old(self)@.table).0,
            final(self)@.table == spec_assemble(lexeme@, afd_state, old(self)@.table).1,
    {
        match afd_state {
            AFDState::Accept(k) => {
                if k == 1 || k == 25 {
                    Token::new(Some(Class::Num), Some(lexeme), Some(TokenType::Inteiro))
                } else if k == 3 || k == 6 {
                    Token::new(Some(Class::Num), Some(lexeme), Some(TokenType::Real))
                } else if k == 8 {
                    Token::new(Some(Class::Lit), Some(lexeme), Some(TokenType::Literal))
                } else if k == 9 {
                    match self.symbol_table.get(lexeme.clone()) {
                        Some(token) => token,
                        None => {
                            let stored = Token::new(Some(Class::Id), Some(lexeme.clone()), None);
                            self.symbol_table.insert(lexeme.clone(), stored);
                            Token::new(Some(Class::Id), Some(lexeme), None)
                        },
                    }
                } else if k == 13 || k == 15 || k == 16 || k == 17 {
                    Token::new(Some(Class::Opr), Some(lexeme), None)
                } else if k == 14 || k == 18 {
                    Token::new(Some(Class::Rcb), Some(lexeme), None)
                } else if k == 19 {
                    Token::new(Some(Class::Opm), Some(lexeme), None)
                } else if k == 20 {
                    Token::new(Some(Class::Abp), Some(lexeme), None)
                } else if k == 21 {
                    Token::new(Some(Class::Fcp), Some(lexeme), None)
                } else if k == 22 {
                    Token::new(Some(Class::Ptv), Some(lexeme), None)
                } else if k == 23 {
                    Token::new(Some(Class::Vir), Some(lexeme), None)
                } else {
                    Token::new(None, Some(lexeme), None)
                }
            },
            AFDState::Error(_) => Token::new(Some(Class::Erro), None, None),
            _ => Token::new(None, Some(lexeme), None),
        }
    }

    /// Produce the next token of the source, recording any lexical
    /// diagnostics found on the way.
    pub fn scan(&mut self) -> (r: Token)
        requires
            old(self).wf(),
        ensures
            final(self).wf(),
            r@ == spec_scan(old(self)@).token,
            final(self)@ == spec_scan(old(self)@).s,
    {
        let mut lexeme = String::new();
        let mut afd = AFD::new();
        let mut lexeme_empty = true;
        loop
            invariant
                self.wf(),
                afd.done == false,
                lexeme_empty == (lexeme@.len() == 0),
                spec_scan_loop(self@, afd, lexeme@) == spec_scan(old(self)@),
            decreases cursor_remaining(self@.cursor),
        {
            let ghost pre = self@;
            let ghost pre_afd = afd;
            let ghost pre_lex = lexeme@;
            proof {
                lemma_read_char_step(pre.cursor);
            }
            let rc = self.read_char();
            match rc {
                None => {
                    if !lexeme_empty {
                        match afd.state {
                            AFDState::Accept(_) => {
                                return self.assemble_token(lexeme, afd.state);
                            },
                            AFDState::NonAccept(_) => {
                                afd.state = AFDState::Error(6);
                                let st = afd.state;
                                self.insert_err_message(' ', &st);
                                return self.assemble_token(lexeme, afd.state);
                            },
                            _ => {},
                        }
                    }
                    return Token::new(Some(Class::Eof), Some("EOF".to_owned()), None);
                },
                Some(c) => {
                    afd.advance(c);
                    match afd.action {
                        Action::GoBack => self.go_back(),
                        Action::Standard => {
                            push_char(&mut lexeme, c);
                            lexeme_empty = false;
                        },
                        Action::Clear => {
                            lexeme = String::new();
                            lexeme_empty = true;
                        },
                        Action::ShowErrMessage => {
                            let st = afd.state;
                            self.insert_err_message(c, &st);
                        },
                        Action::Idle => {},
                    }
                    if afd.done {
                        return self.assemble_token(lexeme, afd.state);
                    }
                },
            }
        }
    }

    /// The next token whose class is not the lexical-error sentinel: the
    /// parser never sees error-class tokens.
    pub fn safe_scan(&mut self) -> (r: Token)
        requires
            old(self).wf(),
        ensures
            final(self).wf(),
            r@ == spec_safe_scan(old(self)@).token,
            final(self)@ == spec_safe_scan(old(self)@).s,
    {
        loop
            invariant
                self.wf(),
                spec_safe_scan(self@) == spec_safe_scan(old(self)@),
            decreases cursor_remaining(self@.cursor), (if self@.cursor.eof { 0int } else { 1int }),
        {
            let ghost pre = self@;
            proof {
                lemma_scan_loop_progress(
                    pre,
                    AFD { state: AFDState::Initial, done: false, action: Action::Idle },
                    Seq::empty(),
                );
            }
            let token = self.scan();
            let is_erro = match token.class {
                Some(Class::Erro) => true,
                _ => false,
            };
            if !is_erro {
                return token;
            }
        }
    }
}

/// What `safe_scan` computes: scan until the token is not error-class.
pub open spec fn spec_safe_scan(s: ScannerV) -> ScanOut
    decreases cursor_remaining(s.cursor), (if s.cursor.eof { 0int } else { 1int }),
    when cursor_wf(s.cursor) && table_wf(s.table)
    via spec_safe_scan_decreases
{
    let out = spec_scan(s);
    if out.token.class == Some(Class::Erro) {
        spec_safe_scan(out.s)
    } else {
        out
    }
}

#[via_fn]
proof fn spec_safe_scan_decreases(s: ScannerV) {
    lemma_scan_loop_progress(
        s,
        AFD { state: AFDState::Initial, done: false, action: Action::Idle },
        Seq::empty(),
    );
}


/// After a successful read the cursor stands exactly one past the
/// character just consumed; a push-back then re-exposes that character.
pub proof fn lemma_cursor_past_consumed(c: CursorV)
    requires
        cursor_wf(c),
        spec_read_char(c).0 is Some,
    ensures
        ({
            let (r, c2) = spec_read_char(c);
            &&& 1 <= c2.row <= c2.lines.len()
            &&& 1 <= c2.col <= c2.lines[c2.row - 1].len()
            &&& c2.lines[c2.row - 1][c2.col - 1] == r->0
        }),
{
}


/// The characters the scanner has consumed: everything before the cursor.
pub open spec fn consumed_prefix(c: CursorV) -> Seq<char> {
    if c.row == 0 {
        Seq::empty()
    } else {
        c.lines.take(c.row - 1).flatten_alt() + c.lines[c.row - 1].take(c.col)
    }
}

/// Reading consumes the source in order, one character at a time: a
/// successful read appends exactly the returned character to the consumed
/// prefix, and once reads fail the whole source has been consumed, the
/// cursor past its last character.
pub proof fn lemma_read_char_consumes(c: CursorV)
    requires
        cursor_wf(c),
    ensures
        spec_read_char(c).0 is Some ==> consumed_prefix(spec_read_char(c).1) == consumed_prefix(
            c,
        ).push(spec_read_char(c).0->0),
        spec_read_char(c).0 is None ==> consumed_prefix(spec_read_char(c).1)
            == c.lines.flatten_alt(),
        spec_read_char(c).0 is None ==> consumed_prefix(spec_read_char(c).1) == consumed_prefix(c),
{
    let (r, c2) = spec_read_char(c);
    if c.eof {
        assert(c.lines.take(c.row - 1) =~= c.lines);
        assert(c.lines[c.row - 1].take(c.col) =~= Seq::<char>::empty());
        assert(consumed_prefix(c2) =~= c.lines.flatten_alt());
    } else if c.row == 0 || c.col == c.lines[c.row - 1].len() {
        if c.row + 1 > c.lines.len() {
            if c.row == 0 {
                assert(c.lines.len() == 0);
                assert(c.lines.take(c2.row - 1) =~= c.lines);
                assert(c.lines[c2.row - 1].take(0) =~= Seq::<char>::empty());
                assert(consumed_prefix(c2) =~= c.lines.flatten_alt());
                assert(consumed_prefix(c) =~= consumed_prefix(c2));
            } else {
                assert(c.row == c.lines.len());
                assert(c.lines.take(c2.row - 1) =~= c.lines);
                assert(c.lines[c2.row - 1].take(0) =~= Seq::<char>::empty());
                assert(consumed_prefix(c2) =~= c.lines.flatten_alt());
                assert(c.lines.take(c.row).drop_last() =~= c.lines.take(c.row - 1));
                assert(c.lines.take(c.row).last() == c.lines[c.row - 1]);
                assert(c.lines.take(c.row) =~= c.lines);
                assert(c.lines[c.row - 1].take(c.col) =~= c.lines[c.row - 1]);
                assert(consumed_prefix(c) =~= c.lines.flatten_alt());
            }
        } else {
            let i = c.row;
            // what was consumed so far is exactly the first `i` whole lines
            assert(c.lines.take(i + 1).drop_last() =~= c.lines.take(i));
            assert(c.lines.take(i + 1).last() == c.lines[i]);
            assert(c.lines.take(i + 1).flatten_alt() == c.lines.take(i).flatten_alt() + c.lines[i]);
            if c.row == 0 {
                assert(c.lines.take(0int).flatten_alt() == Seq::<char>::empty());
                assert(consumed_prefix(c) =~= c.lines.take(i).flatten_alt());
            } else {
                assert(c.lines[c.row - 1].take(c.col) =~= c.lines[c.row - 1]);
                assert(c.lines.take(i).drop_last() =~= c.lines.take(i - 1));
                assert(c.lines.take(i).last() == c.lines[i - 1]);
                assert(c.lines.take(i).flatten_alt() == c.lines.take(i - 1).flatten_alt()
                    + c.lines[i - 1]);
                assert(consumed_prefix(c) =~= c.lines.take(i).flatten_alt());
            }
            // one character of the next line is now consumed
            assert(c.lines[i].take(1) =~= Seq::<char>::empty().push(c.lines[i][0]));
            assert(consumed_prefix(c2) == c.lines.take(i).flatten_alt() + c.lines[i].take(1));
            assert(consumed_prefix(c2) =~= consumed_prefix(c).push(c.lines[i][0]));
        }
    } else {
        assert(c.lines[c.row - 1].take(c.col + 1) =~= c.lines[c.row - 1].take(c.col).push(
            c.lines[c.row - 1][c.col],
        ));
        assert(consumed_prefix(c2) =~= consumed_prefix(c).push(c.lines[c.row - 1][c.col]));
    }
}


pub open spec fn is_prefix_of(p: Seq<char>, s: Seq<char>) -> bool {
    p.len() <= s.len() && p == s.take(p.len() as int)
}

proof fn lemma_prefix_trans(a: Seq<char>, b: Seq<char>, c: Seq<char>)
    requires
        is_prefix_of(a, b),
        is_prefix_of(b, c),
    ensures
        is_prefix_of(a, c),
{
    assert(c.take(a.len() as int) =~= c.take(b.len() as int).take(a.len() as int));
}

/// What has been consumed is always an initial segment of the source.
proof fn lemma_consumed_is_source_prefix(c: CursorV)
    requires
        cursor_wf(c),
    ensures
        is_prefix_of(consumed_prefix(c), c.lines.flatten_alt()),
{
    if c.row == 0 {
        assert(consumed_prefix(c).len() == 0);
        assert(c.lines.flatten_alt().take(0int) =~= Seq::<char>::empty());
    } else {
        assert(c.lines[c.row - 1].take(c.col).len() <= c.lines[c.row - 1].len());
        lemma_flatten_alt_take_prefix(c.lines, c.row - 1);
        let head = c.lines.take(c.row - 1).flatten_alt();
        let full = c.lines.flatten_alt();
        let part = c.lines[c.row - 1].take(c.col);
        if c.row <= c.lines.len() {
            assert(c.lines.take(c.row).drop_last() =~= c.lines.take(c.row - 1));
            assert(c.lines.take(c.row).last() == c.lines[c.row - 1]);
            assert(c.lines.take(c.row).flatten_alt() == head + c.lines[c.row - 1]);
            lemma_flatten_alt_take_prefix(c.lines, c.row);
            assert(is_prefix_of(c.lines.take(c.row).flatten_alt(), full));
            assert((head + c.lines[c.row - 1]).take((head.len() + part.len()) as int) =~= head
                + part);
            assert(full.take((head + c.lines[c.row - 1]).len() as int).take(
                (head.len() + part.len()) as int,
            ) =~= full.take((head.len() + part.len()) as int));
        } else {
            assert(c.lines.take(c.row - 1) =~= c.lines);
            assert(part =~= Seq::<char>::empty());
            assert(head + part =~= full);
            assert(full.take(full.len() as int) =~= full);
        }
    }
}

/// The first `r` lines flatten to an initial segment of the whole source.
proof fn lemma_flatten_alt_take_prefix(lines: Seq<Seq<char>>, r: int)
    requires
        0 <= r <= lines.len(),
    ensures
        is_prefix_of(lines.take(r).flatten_alt(), lines.flatten_alt()),
    decreases lines.len() - r,
{
    if r == lines.len() {
        assert(lines.take(r) =~= lines);
        assert(lines.flatten_alt().take(lines.flatten_alt().len() as int) =~= lines.flatten_alt());
    } else {
        lemma_flatten_alt_take_prefix(lines, r + 1);
        assert(lines.take(r + 1).drop_last() =~= lines.take(r));
        assert(lines.take(r + 1).last() == lines[r]);
        assert(lines.take(r + 1).flatten_alt() == lines.take(r).flatten_alt() + lines[r]);
        let a = lines.take(r).flatten_alt();
        let b = lines.take(r + 1).flatten_alt();
        assert(b.take(a.len() as int) =~= a);
        lemma_prefix_trans(a, b, lines.flatten_alt());
    }
}

/// Tokens flow in strict source order: a scan only moves the cursor
/// forward, so what was consumed before the call stays an initial segment
/// of what is consumed after it.
pub proof fn lemma_scan_extends_consumed(s: ScannerV, afd: AFD, lexeme: Seq<char>)
    requires
        cursor_wf(s.cursor),
    ensures
        is_prefix_of(
            consumed_prefix(s.cursor),
            consumed_prefix(spec_scan_loop(s, afd, lexeme).s.cursor),
        ),
    decreases cursor_remaining(s.cursor),
{
    lemma_read_char_step(s.cursor);
    lemma_read_char_consumes(s.cursor);
    let c0 = s.cursor;
    let (rc, cur1) = spec_read_char(c0);
    match rc {
        None => {
            lemma_consumed_is_source_prefix(c0);
        },
        Some(ch) => {
            let a1 = spec_advance(afd, ch);
            let cur2 = if a1.action == Action::GoBack {
                CursorV { col: cur1.col - 1, ..cur1 }
            } else {
                cur1
            };
            assert(consumed_prefix(cur1) == consumed_prefix(c0).push(ch));
            assert(consumed_prefix(cur1).take(consumed_prefix(c0).len() as int) =~= consumed_prefix(
                c0,
            ));
            if a1.action == Action::GoBack {
                assert(cur2.row == cur1.row && cur2.col == cur1.col - 1);
                assert(cur1.lines[cur1.row - 1].take(cur1.col).drop_last() =~= cur1.lines[cur1.row
                    - 1].take(cur1.col - 1));
                assert(consumed_prefix(cur2) =~= consumed_prefix(cur1).drop_last());
                assert(consumed_prefix(cur2) =~= consumed_prefix(c0));
            }
            assert(consumed_prefix(c0).take(consumed_prefix(c0).len() as int) =~= consumed_prefix(
                c0,
            ));
            assert(is_prefix_of(consumed_prefix(c0), consumed_prefix(cur2)));
            if a1.done {
            } else {
                let lex2 = if a1.action == Action::Standard {
                    lexeme.push(ch)
                } else if a1.action == Action::Clear {
                    Seq::empty()
                } else {
                    lexeme
                };
                let errs2 = if a1.action == Action::ShowErrMessage {
                    spec_err_push(s.errors, a1.state, cur1.row, cur1.col, ch)
                } else {
                    s.errors
                };
                assert(cursor_wf(cur2));
                lemma_scan_extends_consumed(
                    ScannerV { cursor: cur2, table: s.table, errors: errs2 },
                    a1,
                    lex2,
                );
                lemma_prefix_trans(
                    consumed_prefix(c0),
                    consumed_prefix(cur2),
                    consumed_prefix(
                        spec_scan_loop(
                            ScannerV { cursor: cur2, table: s.table, errors: errs2 },
                            a1,
                            lex2,
                        ).s.cursor,
                    ),
                );
            }
        },
    }
}


pub open spec fn spec_is_ws(c: char) -> bool {
    c == ' ' || c == '\n' || c == '\r'
}

/// The significant characters of a stretch of source: everything that is
/// not whitespace, in order.
pub open spec fn keep_significant(s: Seq<char>) -> Seq<char>
    decreases s.len(),
{
    if s.len() == 0 {
        Seq::empty()
    } else if spec_is_ws(s.last()) {
        keep_significant(s.drop_last())
    } else {
        keep_significant(s.drop_last()).push(s.last())
    }
}

/// A source with no string-literal quotes and no comment braces.
pub open spec fn plain_lines(lines: Seq<Seq<char>>) -> bool {
    forall|i: int, j: int|
        0 <= i < lines.len() && 0 <= j < lines[i].len() ==> (#[trigger] lines[i][j]) != '"'
            && lines[i][j] != '{'
}

/// The automaton configurations reachable mid-token over such a source.
pub open spec fn plain_afd(a: AFD) -> bool {
    !a.done && match a.state {
        AFDState::Initial => true,
        AFDState::Accept(k) => k == 1 || k == 3 || k == 6 || k == 9 || k == 13 || k == 16 || k
            == 25,
        AFDState::NonAccept(k) => k == 2 || k == 4 || k == 5 || k == 24,
        AFDState::Error(_) => false,
    }
}

/// Every stored token is keyed by its own lexeme and is an ordinary token:
/// neither the end-of-input marker nor an error token.
pub open spec fn table_plain(t: Map<Seq<char>, TokenV>) -> bool {
    forall|k: Seq<char>|
        t.contains_key(k) ==> (#[trigger] t[k]).lexeme == Some(k) && t[k].class != Some(Class::Eof)
            && t[k].class != Some(Class::Erro)
}

pub proof fn lemma_reserved_map_plain()
    ensures
        table_plain(spec_reserved_map()),
{
    assert forall|k: Seq<char>| spec_reserved_map().contains_key(k) implies (
    #[trigger] spec_reserved_map()[k]).lexeme == Some(k) && spec_reserved_map()[k].class != Some(
        Class::Eof,
    ) && spec_reserved_map()[k].class != Some(Class::Erro) by {
        reveal_strlit("inicio");
        reveal_strlit("varinicio");
        reveal_strlit("varfim");
        reveal_strlit("escreva");
        reveal_strlit("leia");
        reveal_strlit("se");
        reveal_strlit("entao");
        reveal_strlit("fimse");
        reveal_strlit("repita");
        reveal_strlit("fimrepita");
        reveal_strlit("fim");
        reveal_strlit("inteiro");
        reveal_strlit("literal");
        reveal_strlit("real");
        reveal_strlit("eof");
        assert(spec_reserved_map()[k] == spec_token_from_lexeme(k));
    }
}

/// Token assembly keeps the table plain and, from an accepting state,
/// yields an ordinary token carrying exactly the finished lexeme.
proof fn lemma_assemble_plain(lexeme: Seq<char>, st: AFDState, table: Map<Seq<char>, TokenV>)
    requires
        table_plain(table),
    ensures
        ({
            let (tok, table2) = spec_assemble(lexeme, st, table);
            &&& table_plain(table2)
            &&& (st is Accept ==> tok.class != Some(Class::Eof) && tok.class != Some(Class::Erro)
                && tok.lexeme == Some(lexeme))
            &&& (st is Error ==> tok.class == Some(Class::Erro) && table2 == table)
        }),
{
    let (tok, table2) = spec_assemble(lexeme, st, table);
    match st {
        AFDState::Accept(k) => {
            if k == 9 {
                if table.contains_key(lexeme) {
                    assert(tok == table[lexeme]);
                } else {
                    let stored = TokenV {
                        class: Some(Class::Id),
                        lexeme: Some(lexeme),
                        token_type: None,
                    };
                    assert forall|k2: Seq<char>| table2.contains_key(k2) implies (
                    #[trigger] table2[k2]).lexeme == Some(k2) && table2[k2].class != Some(
                        Class::Eof,
                    ) && table2[k2].class != Some(Class::Erro) by {
                        if k2 == lexeme {
                            assert(table2[k2] == stored);
                        } else {
                            assert(table2[k2] == table[k2]);
                        }
                    }
                }
            }
        },
        _ => {},
    }
}

/// What reconstruction says of one scan: the token's lexeme is exactly
/// what the scan added to the significant characters of the consumed
/// source, and the end-of-input token adds nothing.
pub open spec fn scan_reconstructs(out: ScanOut, base: Seq<char>, afd: AFD, lexeme: Seq<char>) -> bool {
    &&& table_plain(out.s.table)
    &&& (out.token.class != Some(Class::Erro) && out.token.class != Some(Class::Eof) ==> (
    out.token.lexeme matches Some(l) && keep_significant(consumed_prefix(out.s.cursor)) == base
        + l))
    &&& (afd.state is Initial && lexeme.len() == 0 && out.token.class == Some(Class::Eof)
        ==> keep_significant(consumed_prefix(out.s.cursor)) == base)
    &&& ((afd.state is Accept || afd.state is NonAccept) && lexeme.len() > 0
        ==> out.token.class != Some(Class::Eof))
    &&& (out.token.class == Some(Class::Eof) ==> consumed_prefix(out.s.cursor)
        == out.s.cursor.lines.flatten_alt())
}

/// Scanning a source without literals or comments reconstructs it token by
/// token: a scan extends the significant characters of the consumed source
/// by exactly the lexeme of the token it returns, and the end-of-input
/// token adds nothing.
pub proof fn lemma_scan_reconstructs(s: ScannerV, afd: AFD, lexeme: Seq<char>, base: Seq<char>)
    requires
        cursor_wf(s.cursor),
        plain_lines(s.cursor.lines),
        plain_afd(afd),
        table_plain(s.table),
        keep_significant(consumed_prefix(s.cursor)) == base + lexeme,
    ensures
        scan_reconstructs(spec_scan_loop(s, afd, lexeme), base, afd, lexeme),
    decreases cursor_remaining(s.cursor),
{
    lemma_read_char_step(s.cursor);
    lemma_read_char_consumes(s.cursor);
    let c0 = s.cursor;
    let (rc, cur1) = spec_read_char(c0);
    match rc {
        None => {
            assert(consumed_prefix(cur1) == consumed_prefix(c0));
            let out = spec_scan_loop(s, afd, lexeme);
            if lexeme.len() > 0 && afd.state is Accept {
                lemma_assemble_plain(lexeme, afd.state, s.table);
                assert(out.token == spec_assemble(lexeme, afd.state, s.table).0);
                assert(out.s.cursor == cur1);
                assert(table_plain(out.s.table));
                assert(out.token.lexeme == Some(lexeme));
                assert(keep_significant(consumed_prefix(out.s.cursor)) == base + lexeme);
            } else if lexeme.len() > 0 && afd.state is NonAccept {
                lemma_assemble_plain(lexeme, AFDState::Error(6), s.table);
                assert(out.token.class == Some(Class::Erro));
                assert(table_plain(out.s.table));
            } else {
                assert(out.token.class == Some(Class::Eof));
                assert(keep_significant(consumed_prefix(out.s.cursor)) == base + lexeme);
                if lexeme.len() == 0 {
                    assert(base + lexeme =~= base);
                }
                assert(consumed_prefix(cur1) == c0.lines.flatten_alt());
                assert(table_plain(out.s.table));
            }
            assert(scan_reconstructs(out, base, afd, lexeme));
        },
        Some(ch) => {
            assert(ch != '"' && ch != '{') by {
                if !(c0.row == 0 || c0.col == c0.lines[c0.row - 1].len()) {
                    assert(c0.lines[c0.row - 1][c0.col] == ch);
                } else {
                    assert(c0.lines[c0.row][0] == ch);
                }
            }
            let a1 = spec_advance(afd, ch);
            assert((consumed_prefix(c0).push(ch)).drop_last() =~= consumed_prefix(c0));
            if spec_is_ws(ch) {
                assert(keep_significant(consumed_prefix(cur1)) == base + lexeme);
            } else {
                assert(keep_significant(consumed_prefix(cur1)) == (base + lexeme).push(ch));
                assert((base + lexeme).push(ch) =~= base + lexeme.push(ch));
            }
            let cur2 = if a1.action == Action::GoBack {
                CursorV { col: cur1.col - 1, ..cur1 }
            } else {
                cur1
            };
            if a1.action == Action::GoBack {
                assert(cur1.lines[cur1.row - 1].take(cur1.col).drop_last() =~= cur1.lines[cur1.row
                    - 1].take(cur1.col - 1));
                assert(consumed_prefix(cur2) =~= consumed_prefix(cur1).drop_last());
                assert(consumed_prefix(cur2) =~= consumed_prefix(c0));
            }
            let lex2 = if a1.action == Action::Standard {
                lexeme.push(ch)
            } else if a1.action == Action::Clear {
                Seq::empty()
            } else {
                lexeme
            };
            let errs2 = if a1.action == Action::ShowErrMessage {
                spec_err_push(s.errors, a1.state, cur1.row, cur1.col, ch)
            } else {
                s.errors
            };
            if a1.done {
                assert(a1.action != Action::Clear && a1.action != Action::Idle);
                assert(a1.state is Accept || a1.state is Error);
                lemma_assemble_plain(lex2, a1.state, s.table);
                if a1.state is Accept {
                    assert(keep_significant(consumed_prefix(cur2)) == base + lex2);
                }
                assert(scan_reconstructs(spec_scan_loop(s, afd, lexeme), base, afd, lexeme));
            } else {
                assert(plain_afd(a1));
                assert(a1.action == Action::Idle ==> spec_is_ws(ch));
                assert(a1.action == Action::Standard ==> !spec_is_ws(ch));
                assert(a1.action != Action::Clear && a1.action != Action::GoBack
                    && a1.action != Action::ShowErrMessage);
                assert(cursor_wf(cur2));
                assert(keep_significant(consumed_prefix(cur2)) == base + lex2);
                assert((afd.state is Accept || afd.state is NonAccept) ==> (a1.action
                    == Action::Standard && (a1.state is Accept || a1.state is NonAccept)));
                assert(afd.state is Initial && a1.action == Action::Standard ==> (a1.state
                    is Accept || a1.state is NonAccept) && lex2.len() > 0);
                lemma_scan_reconstructs(
                    ScannerV { cursor: cur2, table: s.table, errors: errs2 },
                    a1,
                    lex2,
                    base,
                );
                assert(spec_scan_loop(s, afd, lexeme) == spec_scan_loop(
                    ScannerV { cursor: cur2, table: s.table, errors: errs2 },
                    a1,
                    lex2,
                ));
                assert(scan_reconstructs(spec_scan_loop(s, afd, lexeme), base, afd, lexeme));
            }
        },
    }
}


/// From a fresh automaton every token but the end-of-input one consumes at
/// least one character.
pub proof fn lemma_scan_consumes_on_token(s: ScannerV, afd: AFD, lexeme: Seq<char>)
    requires
        cursor_wf(s.cursor),
        table_wf(s.table),
        afd.state is Initial,
    ensures
        spec_scan_loop(s, afd, lexeme).token.class != Some(Class::Eof) ==> cursor_remaining(
            spec_scan_loop(s, afd, lexeme).s.cursor,
        ) < cursor_remaining(s.cursor),
{
    lemma_read_char_step(s.cursor);
    let c0 = s.cursor;
    let (rc, cur1) = spec_read_char(c0);
    match rc {
        None => {},
        Some(ch) => {
            let a1 = spec_advance(afd, ch);
            assert(a1.action != Action::GoBack);
            if !a1.done {
                let lex2 = if a1.action == Action::Standard {
                    lexeme.push(ch)
                } else if a1.action == Action::Clear {
                    Seq::empty()
                } else {
                    lexeme
                };
                let errs2 = if a1.action == Action::ShowErrMessage {
                    spec_err_push(s.errors, a1.state, cur1.row, cur1.col, ch)
                } else {
                    s.errors
                };
                lemma_scan_loop_progress(
                    ScannerV { cursor: cur1, table: s.table, errors: errs2 },
                    a1,
                    lex2,
                );
            }
        },
    }
}


/// The whole token stream of a scanner: scan after scan up to and
/// including the end-of-input token.
pub open spec fn spec_token_stream(s: ScannerV) -> Seq<TokenV>
    decreases cursor_remaining(s.cursor),
    when cursor_wf(s.cursor) && table_wf(s.table)
    via spec_token_stream_decreases
{
    let out = spec_scan(s);
    if out.token.class == Some(Class::Eof) {
        seq![out.token]
    } else {
        seq![out.token] + spec_token_stream(out.s)
    }
}

#[via_fn]
proof fn spec_token_stream_decreases(s: ScannerV) {
    lemma_scan_loop_progress(
        s,
        AFD { state: AFDState::Initial, done: false, action: Action::Idle },
        Seq::empty(),
    );
    lemma_scan_consumes_on_token(
        s,
        AFD { state: AFDState::Initial, done: false, action: Action::Idle },
        Seq::empty(),
    );
}

/// The lexemes of a token run, concatenated in order.
pub open spec fn stream_lexemes(toks: Seq<TokenV>) -> Seq<char>
    decreases toks.len(),
{
    if toks.len() == 0 {
        Seq::empty()
    } else {
        (match toks[0].lexeme {
            Some(l) => l,
            None => Seq::empty(),
        }) + stream_lexemes(toks.drop_first())
    }
}

/// Scanning a source without string literals or comment blocks, then
/// concatenating the lexemes of every token before the end-of-input one,
/// rebuilds the source with its whitespace removed — provided no lexical
/// error occurred, since an error token carries no lexeme.
pub proof fn lemma_stream_reconstructs_source(s: ScannerV)
    requires
        cursor_wf(s.cursor),
        plain_lines(s.cursor.lines),
        table_wf(s.table),
        table_plain(s.table),
        forall|i: int|
            0 <= i < spec_token_stream(s).len() ==> (#[trigger] spec_token_stream(s)[i]).class
                != Some(Class::Erro),
    ensures
        keep_significant(consumed_prefix(s.cursor)) + stream_lexemes(
            spec_token_stream(s).take(spec_token_stream(s).len() - 1),
        ) == keep_significant(s.cursor.lines.flatten_alt()),
    decreases cursor_remaining(s.cursor),
{
    let afd0 = AFD { state: AFDState::Initial, done: false, action: Action::Idle };
    let base = keep_significant(consumed_prefix(s.cursor));
    assert(base + Seq::<char>::empty() =~= base);
    lemma_scan_loop_progress(s, afd0, Seq::empty());
    lemma_scan_consumes_on_token(s, afd0, Seq::empty());
    lemma_scan_reconstructs(s, afd0, Seq::empty(), base);
    let out = spec_scan(s);
    let stream = spec_token_stream(s);
    if out.token.class == Some(Class::Eof) {
        assert(stream == seq![out.token]);
        assert(stream.take(stream.len() - 1) =~= Seq::<TokenV>::empty());
        assert(consumed_prefix(out.s.cursor) == out.s.cursor.lines.flatten_alt());
        assert(keep_significant(consumed_prefix(out.s.cursor)) == base);
    } else {
        assert(stream == seq![out.token] + spec_token_stream(out.s));
        assert(stream[0] == out.token);
        assert(out.token.class != Some(Class::Erro));
        let l = out.token.lexeme->0;
        assert(out.token.lexeme == Some(l));
        assert(keep_significant(consumed_prefix(out.s.cursor)) == base + l);
        let tail = spec_token_stream(out.s);
        assert forall|i: int| 0 <= i < tail.len() implies (#[trigger] tail[i]).class != Some(
            Class::Erro,
        ) by {
            assert(stream[i + 1] == tail[i]);
        }
        lemma_stream_reconstructs_source(out.s);
        assert(out.s.cursor.lines == s.cursor.lines);
        let kept = stream.take(stream.len() - 1);
        assert(kept[0] == out.token);
        assert(kept.drop_first() =~= tail.take(tail.len() - 1));
        assert(stream_lexemes(kept) == l + stream_lexemes(tail.take(tail.len() - 1)));
        assert(base + (l + stream_lexemes(tail.take(tail.len() - 1))) =~= (base + l)
            + stream_lexemes(tail.take(tail.len() - 1)));
    }
}

} // verus!

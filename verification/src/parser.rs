//! The SLR(1) driver: a stack of table states, a look-ahead buffer for
//! recovery, and the shift/reduce loop. Error actions invoke a closed set
//! of recovery policies that insert or drop tokens; a per-parse counter
//! caps recoverable errors at 100. The whole loop is specified as a
//! deterministic step function, so that what a parse run produces is a
//! function of the parser's and the scanner's starting states alone.
use vstd::prelude::*;
use crate::class::Class;
use crate::class::spec_class_to_str;
use crate::grammar::Grammar;
use crate::grammar::GrammarRuleV;
use crate::grammar::spec_grammar;
use crate::scanner::Scanner;
use crate::scanner::ScannerV;
use crate::scanner::spec_safe_scan;
use crate::slr_table::ActionTable;
use crate::slr_table::GotoTable;
use crate::slr_table::SLRAction;
use crate::slr_table::spec_action_lookup;
use crate::token::Token;
use crate::token::TokenV;
use crate::token::spec_token_from_lexeme;

verus! {

/// One syntactic diagnostic: the recovery code and the scanner's cursor
/// position when it was recorded.
#[derive(Clone, Copy, Debug, PartialEq, Eq, Structural)]
pub struct SyntacticError {
    pub code: u8,
    pub row: usize,
    pub col: usize,
}

struct SyntaticStack {
    stack: Vec<u8>,
}

impl View for SyntaticStack {
    type V = Seq<u8>;

    closed spec fn view(&self) -> Seq<u8> {
        self.stack@
    }
}

impl SyntaticStack {
    fn new() -> (r: SyntaticStack)
        ensures
            r@ == seq![0u8],
    {
        let mut stack: Vec<u8> = Vec::new();
        stack.push(0);
        proof {
            assert(stack@ =~= seq![0u8]);
        }
        SyntaticStack { stack }
    }

    fn top(&self) -> (r: u8)
        requires
            self@.len() >= 1,
        ensures
            r == self@.last(),
    {
        self.stack[self.stack.len() - 1]
    }

    fn push(&mut self, n: u8)
        ensures
            final(self)@ == old(self)@.push(n),
    {
        self.stack.push(n);
    }

    fn len(&self) -> (r: usize)
        ensures
            r == self@.len(),
    {
        self.stack.len()
    }

    fn at(&self, i: usize) -> (r: u8)
        requires
            i < self@.len(),
        ensures
            r == self@[i as int],
    {
        self.stack[i]
    }

    /// Drop `count` states off the top; the bottom state is never popped.
    fn pop(&mut self, count: usize)
        requires
            count < old(self)@.len(),
        ensures
            final(self)@ == old(self)@.take(old(self)@.len() - count),
    {
        let mut i: usize = 0;
        while i < count
            invariant
                0 <= i <= count,
                count < old(self)@.len(),
                self@ == old(self)@.take(old(self)@.len() - i),
            decreases count - i,
        {
            let ghost prev = self@;
            let popped = self.stack.pop();
            proof {
                assert(self@ =~= old(self)@.take(old(self)@.len() - (i + 1)));
            }
            i = i + 1;
        }
    }
}

/// Mathematical image of the parser: the state stack, the fixed grammar and
/// tables, the look-ahead buffer (its last element is drawn first), the
/// diagnostics, the recoverable-error count and the reduction trace.
pub ghost struct ParserV {
    pub stack: Seq<u8>,
    pub grammar: Seq<GrammarRuleV>,
    pub action: Map<(int, Seq<char>), SLRAction>,
    pub goto: Map<(int, Seq<char>), u8>,
    pub buffer: Seq<TokenV>,
    pub errors: Seq<SyntacticError>,
    pub err_count: int,
    pub trace: Seq<u8>,
}

/// A running configuration: parser, scanner and the current look-ahead.
pub ghost struct ParseConfig {
    pub p: ParserV,
    pub s: ScannerV,
    pub tok: TokenV,
}

/// A finished parse: the final states and whether the input was accepted.
pub ghost struct ParseEnd {
    pub p: ParserV,
    pub s: ScannerV,
    pub accepted: bool,
}

pub ghost enum StepOut {
    Next(ParseConfig),
    Halt(ParseEnd),
}

/// Where the next look-ahead comes from: the buffer if it holds anything,
/// otherwise a fresh (error-filtered) token from the scanner.
pub open spec fn spec_next_token(p: ParserV, s: ScannerV) -> (TokenV, ParserV, ScannerV) {
    if p.buffer.len() == 0 {
        let out = spec_safe_scan(s);
        (out.token, p, out.s)
    } else {
        (p.buffer.last(), ParserV { buffer: p.buffer.drop_last(), ..p }, s)
    }
}

pub open spec fn spec_synt_err(code: u8, row: int, col: int) -> SyntacticError {
    SyntacticError { code, row: row as usize, col: col as usize }
}

/// One recovery policy, by error code. The current look-ahead has already
/// been pushed into the buffer. Codes 1 to 6 mend the token stream and
/// continue; 7, 8 and anything else abort. Past 100 recoverable errors
/// every code aborts, without a further diagnostic.
pub open spec fn spec_recovery(p: ParserV, code: u8, row: int, col: int) -> (ParserV, bool) {
    let p1 = ParserV { err_count: p.err_count + 1, ..p };
    if p1.err_count > 100 {
        (p1, false)
    } else if code == 1 {
        (
            ParserV {
                buffer: seq![spec_token_from_lexeme("eof"@)],
                errors: p1.errors.push(spec_synt_err(1, row, col)),
                ..p1
            },
            true,
        )
    } else if code == 2 {
        (
            ParserV {
                buffer: p1.buffer.push(
                    TokenV { class: Some(Class::Ptv), lexeme: Some(";"@), token_type: None },
                ),
                errors: p1.errors.push(spec_synt_err(2, row, col)),
                ..p1
            },
            true,
        )
    } else if code == 3 {
        (
            ParserV {
                buffer: p1.buffer.drop_last(),
                errors: p1.errors.push(spec_synt_err(3, row, col)),
                ..p1
            },
            true,
        )
    } else if code == 4 {
        (
            ParserV {
                buffer: p1.buffer.drop_last(),
                errors: p1.errors.push(spec_synt_err(4, row, col)),
                ..p1
            },
            true,
        )
    } else if code == 5 {
        (
            ParserV {
                buffer: p1.buffer.drop_last().push(
                    TokenV { class: Some(Class::Abp), lexeme: Some("("@), token_type: None },
                ),
                errors: p1.errors.push(spec_synt_err(5, row, col)),
                ..p1
            },
            true,
        )
    } else if code == 6 {
        (
            ParserV {
                buffer: p1.buffer.push(
                    TokenV { class: Some(Class::Abp), lexeme: Some("("@), token_type: None },
                ),
                errors: p1.errors.push(spec_synt_err(6, row, col)),
                ..p1
            },
            true,
        )
    } else if code == 7 {
        (ParserV { errors: p1.errors.push(spec_synt_err(7, row, col)), ..p1 }, false)
    } else if code == 8 {
        (ParserV { errors: p1.errors.push(spec_synt_err(8, row, col)), ..p1 }, false)
    } else {
        (ParserV { errors: p1.errors.push(spec_synt_err(0, row, col)), ..p1 }, false)
    }
}

/// One step of the driver: consult Action[top, look-ahead]. A shift pushes
/// the state and advances; a reduction pops the right-hand side, follows
/// Goto and logs the rule; Acc halts with success; an error code starts
/// recovery. A reduction that the tables cannot support (rule number out of
/// range, stack too short, Goto undefined) halts without success.
pub open spec fn spec_parse_step(c: ParseConfig) -> StepOut {
    let s_top = c.p.stack.last();
    let name = spec_class_to_str(c.tok.class);
    let action = spec_action_lookup(c.p.action, s_top as int, name);
    match action {
        SLRAction::S(t) => {
            let p2 = ParserV { stack: c.p.stack.push(t), ..c.p };
            let (tok2, p3, s3) = spec_next_token(p2, c.s);
            StepOut::Next(ParseConfig { p: p3, s: s3, tok: tok2 })
        },
        SLRAction::R(r) => {
            if r < c.p.grammar.len() {
                let rule = c.p.grammar[r as int];
                let blen = rule.right.len();
                if blen < c.p.stack.len() {
                    let stack2 = c.p.stack.take(c.p.stack.len() - blen);
                    let t = stack2.last();
                    if c.p.goto.contains_key((t as int, rule.left.text)) {
                        let g = c.p.goto[(t as int, rule.left.text)];
                        StepOut::Next(
                            ParseConfig {
                                p: ParserV {
                                    stack: stack2.push(g),
                                    trace: c.p.trace.push(r),
                                    ..c.p
                                },
                                s: c.s,
                                tok: c.tok,
                            },
                        )
                    } else {
                        StepOut::Halt(ParseEnd { p: c.p, s: c.s, accepted: false })
                    }
                } else {
                    StepOut::Halt(ParseEnd { p: c.p, s: c.s, accepted: false })
                }
            } else {
                StepOut::Halt(ParseEnd { p: c.p, s: c.s, accepted: false })
            }
        },
        SLRAction::Acc => StepOut::Halt(ParseEnd { p: c.p, s: c.s, accepted: true }),
        SLRAction::E(e) => {
            let p2 = ParserV { buffer: c.p.buffer.push(c.tok), ..c.p };
            let (p3, cont) = spec_recovery(p2, e, c.s.cursor.row, c.s.cursor.col);
            if cont {
                let (tok2, p4, s4) = spec_next_token(p3, c.s);
                StepOut::Next(ParseConfig { p: p4, s: s4, tok: tok2 })
            } else {
                StepOut::Halt(ParseEnd { p: p3, s: c.s, accepted: false })
            }
        },
    }
}

/// The driver run with a step budget: `None` when it has not halted within
/// `fuel` steps.
pub open spec fn spec_parse_run(c: ParseConfig, fuel: nat) -> Option<ParseEnd>
    decreases fuel,
{
    if fuel == 0 {
        None
    } else {
        match spec_parse_step(c) {
            StepOut::Next(c2) => spec_parse_run(c2, (fuel - 1) as nat),
            StepOut::Halt(end) => Some(end),
        }
    }
}

/// The configuration still running after `k` steps, if the driver has not
/// halted by then.
pub open spec fn spec_parse_at(c: ParseConfig, k: nat) -> StepOut
    decreases k,
{
    if k == 0 {
        StepOut::Next(c)
    } else {
        match spec_parse_step(c) {
            StepOut::Next(c2) => spec_parse_at(c2, (k - 1) as nat),
            StepOut::Halt(end) => StepOut::Halt(end),
        }
    }
}

proof fn lemma_parse_at_step(c: ParseConfig, k: nat, c1: ParseConfig)
    requires
        spec_parse_at(c, k) == StepOut::Next(c1),
    ensures
        spec_parse_at(c, k + 1) == spec_parse_step(c1),
        spec_parse_step(c1) is Halt ==> spec_parse_run(c, k + 1) == Some(
            spec_parse_step(c1)->Halt_0,
        ),
        spec_parse_run(c, k) is None,
    decreases k,
{
    if k == 0 {
        assert(c1 == c);
        match spec_parse_step(c) {
            StepOut::Next(c2) => {
                assert(spec_parse_at(c, k + 1) == spec_parse_at(c2, 0nat));
                assert(spec_parse_at(c2, 0nat) == StepOut::Next(c2));
            },
            StepOut::Halt(end) => {
                assert(spec_parse_at(c, k + 1) == StepOut::Halt(end));
            },
        }
    } else {
        match spec_parse_step(c) {
            StepOut::Next(c2) => {
                lemma_parse_at_step(c2, (k - 1) as nat, c1);
                assert(spec_parse_at(c, k + 1) == spec_parse_at(c2, k));
                assert(spec_parse_run(c, k + 1) == spec_parse_run(c2, k));
                assert(spec_parse_run(c, k) == spec_parse_run(c2, (k - 1) as nat));
            },
            StepOut::Halt(end) => {},
        }
    }
}

/// The driver's fuel only widens the window: a halt seen with some budget
/// is seen, unchanged, with any larger one.
pub proof fn lemma_parse_run_monotone(c: ParseConfig, n: nat, m: nat)
    requires
        spec_parse_run(c, n) is Some,
        n <= m,
    ensures
        spec_parse_run(c, m) == spec_parse_run(c, n),
    decreases n,
{
    if n > 0 {
        match spec_parse_step(c) {
            StepOut::Next(c2) => {
                lemma_parse_run_monotone(c2, (n - 1) as nat, (m - 1) as nat);
            },
            StepOut::Halt(end) => {},
        }
    }
}

/// Running the parser again from equal starting states ends equally: the
/// step function is deterministic, so diagnostics, trace and outcome are a
/// function of the starting configuration alone.
pub proof fn lemma_parse_deterministic(c: ParseConfig, n1: nat, n2: nat, e1: ParseEnd, e2: ParseEnd)
    requires
        spec_parse_run(c, n1) == Some(e1),
        spec_parse_run(c, n2) == Some(e2),
    ensures
        e1 == e2,
{
    if n1 <= n2 {
        lemma_parse_run_monotone(c, n1, n2);
    } else {
        lemma_parse_run_monotone(c, n2, n1);
    }
}

/// A reduction by a rule with `k` right-hand symbols pops exactly `k`
/// states and pushes one: the stack shrinks by exactly `k - 1`, and the
/// trace grows by exactly that reduction. Every other continuing step
/// leaves the trace unchanged and pushes one state.
pub proof fn lemma_reduce_stack_shrink(c: ParseConfig, r: u8)
    requires
        spec_action_lookup(
            c.p.action,
            c.p.stack.last() as int,
            spec_class_to_str(c.tok.class),
        ) == SLRAction::R(r),
        spec_parse_step(c) is Next,
    ensures
        ({
            let c2 = spec_parse_step(c)->Next_0;
            let blen = c.p.grammar[r as int].right.len();
            &&& r < c.p.grammar.len()
            &&& blen < c.p.stack.len()
            &&& c2.p.stack.len() == c.p.stack.len() - blen + 1
            &&& c2.p.trace == c.p.trace.push(r)
            &&& c2.tok == c.tok
        }),
{
}

/// The starting configuration of a parse: the error counter is reset for
/// the session and the first look-ahead is drawn.
pub open spec fn spec_parse_init(p: ParserV, s: ScannerV) -> ParseConfig {
    let p0 = ParserV { err_count: 0, ..p };
    let (tok, p1, s1) = spec_next_token(p0, s);
    ParseConfig { p: p1, s: s1, tok }
}

/// The step budget an executable parse is willing to spend before giving
/// up; unreachable for any table the grammar admits.
pub const PARSE_FUEL: u64 = 18446744073709551615;

pub struct Parser {
    syntatic_stack: SyntaticStack,
    grammar: Grammar,
    action_table: ActionTable,
    goto_table: GotoTable,
    token_buffer: Vec<Token>,
    error_messages: Vec<SyntacticError>,
    syntatic_errors: u8,
    trace: Vec<u8>,
}

impl View for Parser {
    type V = ParserV;

    closed spec fn view(&self) -> ParserV {
        ParserV {
            stack: self.syntatic_stack@,
            grammar: self.grammar@,
            action: self.action_table@,
            goto: self.goto_table@,
            buffer: self.token_buffer.deep_view(),
            errors: self.error_messages@,
            err_count: self.syntatic_errors as int,
            trace: self.trace@,
        }
    }
}

impl Parser {
    pub closed spec fn wf(&self) -> bool {
        self.syntatic_stack@.len() >= 1 && self.action_table.wf() && self.goto_table.wf()
    }

    /// A parser over the given tables, with the fixed grammar, the stack
    /// holding only state 0, and nothing buffered, logged or counted yet.
    pub fn new(action_table: ActionTable, goto_table: GotoTable) -> (r: Parser)
        requires
            action_table.wf(),
            goto_table.wf(),
        ensures
            r.wf(),
            r@ == (ParserV {
                stack: seq![0u8],
                grammar: spec_grammar(),
                action: action_table@,
                goto: goto_table@,
                buffer: Seq::<TokenV>::empty(),
                errors: Seq::<SyntacticError>::empty(),
                err_count: 0,
                trace: Seq::<u8>::empty(),
            }),
    {
        let r = Parser {
            syntatic_stack: SyntaticStack::new(),
            grammar: Grammar::new(),
            action_table,
            goto_table,
            token_buffer: Vec::new(),
            error_messages: Vec::new(),
            syntatic_errors: 0,
            trace: Vec::new(),
        };
        proof {
            assert(r.token_buffer.deep_view() =~= Seq::<TokenV>::empty());
        }
        r
    }

    /// The syntactic diagnostics recorded so far, in parse order.
    pub fn error_messages(&self) -> (r: &Vec<SyntacticError>)
        ensures
            r@ == self@.errors,
    {
        &self.error_messages
    }

    /// The reduction trace: the rule numbers applied, in order.
    pub fn trace(&self) -> (r: &Vec<u8>)
        ensures
            r@ == self@.trace,
    {
        &self.trace
    }

    fn next_token(&mut self, scanner: &mut Scanner) -> (r: Token)
        requires
            old(self).wf(),
            old(scanner).wf(),
        ensures
            final(self).wf(),
            final(scanner).wf(),
            (r@, final(self)@, final(scanner)@) == spec_next_token(old(self)@, old(scanner)@),
    {
        if self.token_buffer.len() == 0 {
            scanner.safe_scan()
        } else {
            let ghost prev = self.token_buffer.deep_view();
            let t = self.token_buffer.pop().unwrap();
            proof {
                assert(self.token_buffer.deep_view() =~~= prev.drop_last());
            }
            t
        }
    }

    /// Apply the recovery policy for this error code, reading the
    /// diagnostic position off the scanner's cursor.
    fn error_recovery(&mut self, error_code: u8, scanner: &Scanner) -> (r: bool)
        requires
            old(self).wf(),
            old(self)@.err_count <= 100,
            old(self)@.buffer.len() >= 1,
        ensures
            final(self).wf(),
            (final(self)@, r) == spec_recovery(
                old(self)@,
                error_code,
                scanner@.cursor.row,
                scanner@.cursor.col,
            ),
    {
        self.syntatic_errors = self.syntatic_errors + 1;
        if self.syntatic_errors > 100 {
            return false;
        }
        let row = scanner.get_row();
        let col = scanner.get_col();
        let ghost prev = self.token_buffer.deep_view();
        if error_code == 1 {
            self.token_buffer = Vec::new();
            self.token_buffer.push(Token::new_from_lexeme("eof"));
            self.error_messages.push(SyntacticError { code: 1, row, col });
            proof {
                assert(self.token_buffer.deep_view() =~~= seq![spec_token_from_lexeme("eof"@)]);
            }
            true
        } else if error_code == 2 {
            self.token_buffer.push(Token::new(Some(Class::Ptv), Some(";".to_owned()), None));
            self.error_messages.push(SyntacticError { code: 2, row, col });
            proof {
                assert(self.token_buffer.deep_view() =~~= prev.push(
                    TokenV { class: Some(Class::Ptv), lexeme: Some(";"@), token_type: None },
                ));
            }
            true
        } else if error_code == 3 {
            let dropped = self.token_buffer.pop();
            self.error_messages.push(SyntacticError { code: 3, row, col });
            proof {
                assert(self.token_buffer.deep_view() =~~= prev.drop_last());
            }
            true
        } else if error_code == 4 {
            let dropped = self.token_buffer.pop();
            self.error_messages.push(SyntacticError { code: 4, row, col });
            proof {
                assert(self.token_buffer.deep_view() =~~= prev.drop_last());
            }
            true
        } else if error_code == 5 {
            let dropped = self.token_buffer.pop();
            self.token_buffer.push(Token::new(Some(Class::Abp), Some("(".to_owned()), None));
            self.error_messages.push(SyntacticError { code: 5, row, col });
            proof {
                assert(self.token_buffer.deep_view() =~~= prev.drop_last().push(
                    TokenV { class: Some(Class::Abp), lexeme: Some("("@), token_type: None },
                ));
            }
            true
        } else if error_code == 6 {
            self.token_buffer.push(Token::new(Some(Class::Abp), Some("(".to_owned()), None));
            self.error_messages.push(SyntacticError { code: 6, row, col });
            proof {
                assert(self.token_buffer.deep_view() =~~= prev.push(
                    TokenV { class: Some(Class::Abp), lexeme: Some("("@), token_type: None },
                ));
            }
            true
        } else if error_code == 7 {
            self.error_messages.push(SyntacticError { code: 7, row, col });
            false
        } else if error_code == 8 {
            self.error_messages.push(SyntacticError { code: 8, row, col });
            false
        } else {
            self.error_messages.push(SyntacticError { code: 0, row, col });
            false
        }
    }

    /// Run the shift/reduce loop to acceptance or to an unrecoverable
    /// error. The result, the final parser state (diagnostics, trace,
    /// stack) and the final scanner state are exactly what the driver's
    /// step function computes from the starting states; `true` means the
    /// source was accepted.
    pub fn parse(&mut self, scanner: &mut Scanner) -> (r: bool)
        requires
            old(self).wf(),
            old(scanner).wf(),
        ensures
            final(self).wf(),
            final(scanner).wf(),
            (exists|n: nat|
                spec_parse_run(spec_parse_init(old(self)@, old(scanner)@), n) == Some(
                    ParseEnd { p: final(self)@, s: final(scanner)@, accepted: r },
                )) || (!r && forall|n: nat|
                n <= PARSE_FUEL ==> spec_parse_run(
                    spec_parse_init(old(self)@, old(scanner)@),
                    n,
                ) is None),
    {
        self.syntatic_errors = 0;
        let mut token = self.next_token(scanner);
        let ghost init_cfg = spec_parse_init(old(self)@, old(scanner)@);
        proof {
            assert(init_cfg == ParseConfig { p: self@, s: scanner@, tok: token@ });
        }
        let mut steps: u64 = 0;
        loop
            invariant
                self.wf(),
                scanner.wf(),
                self@.err_count <= 100,
                steps <= PARSE_FUEL,
                init_cfg == spec_parse_init(old(self)@, old(scanner)@),
                spec_parse_at(init_cfg, steps as nat) == StepOut::Next(
                    ParseConfig { p: self@, s: scanner@, tok: token@ },
                ),
            decreases PARSE_FUEL - steps,
        {
            let ghost cfg = ParseConfig { p: self@, s: scanner@, tok: token@ };
            proof {
                lemma_parse_at_step(init_cfg, steps as nat, cfg);
            }
            if steps >= PARSE_FUEL {
                proof {
                    assert forall|n: nat|
                        n <= PARSE_FUEL implies spec_parse_run(init_cfg, n) is None by {
                        if spec_parse_run(init_cfg, n) is Some {
                            lemma_parse_run_monotone(init_cfg, n, steps as nat);
                        }
                    }
                }
                return false;
            }
            let s_top = self.syntatic_stack.top();
            let name = Class::to_str(token.class);
            let action = self.action_table.get(&(s_top, name));
            match action {
                SLRAction::S(t) => {
                    self.syntatic_stack.push(t);
                    token = self.next_token(scanner);
                },
                SLRAction::R(r) => {
                    let glen = self.grammar.len();
                    if (r as usize) >= glen {
                        return false;
                    }
                    let rule = self.grammar.get_rule(r as usize);
                    let blen = rule.right.len();
                    let slen = self.syntatic_stack.len();
                    if blen >= slen {
                        return false;
                    }
                    let t = self.syntatic_stack.at(slen - blen - 1);
                    proof {
                        assert(t == self@.stack.take(slen - blen).last());
                    }
                    let goto = self.goto_table.get(&(t, rule.left.text));
                    match goto {
                        Some(g) => {
                            self.syntatic_stack.pop(blen);
                            self.syntatic_stack.push(g);
                            self.trace.push(r);
                        },
                        None => {
                            return false;
                        },
                    }
                },
                SLRAction::Acc => {
                    return true;
                },
                SLRAction::E(e) => {
                    let ghost prev_buf = self.token_buffer.deep_view();
                    self.token_buffer.push(token);
                    proof {
                        assert(self.token_buffer.deep_view() =~~= prev_buf.push(cfg.tok));
                    }
                    let cont = self.error_recovery(e, scanner);
                    if !cont {
                        return false;
                    }
                    token = self.next_token(scanner);
                },
            }
            steps = steps + 1;
        }
    }
}


/// The trace records exactly the reductions: a continuing step extends it
/// by one rule number when it reduces and leaves it unchanged otherwise, so
/// the number of reductions a parse emits equals its trace's length.
pub proof fn lemma_trace_counts_reductions(c: ParseConfig)
    requires
        spec_parse_step(c) is Next,
    ensures
        ({
            let c2 = spec_parse_step(c)->Next_0;
            match spec_action_lookup(
                c.p.action,
                c.p.stack.last() as int,
                spec_class_to_str(c.tok.class),
            ) {
                SLRAction::R(r) => c2.p.trace == c.p.trace.push(r),
                _ => c2.p.trace == c.p.trace,
            }
        }),
{
}


/// The stack is never empty and its bottom state 0 is never popped: every
/// continuing step keeps both.
pub proof fn lemma_stack_bottom_preserved(c: ParseConfig)
    requires
        c.p.stack.len() >= 1,
        c.p.stack[0] == 0,
        spec_parse_step(c) is Next,
    ensures
        ({
            let c2 = spec_parse_step(c)->Next_0;
            c2.p.stack.len() >= 1 && c2.p.stack[0] == 0
        }),
{
}

/// After a shift the new top of the stack is exactly the state the action
/// named.
pub proof fn lemma_shift_pushes_state(c: ParseConfig, t: u8)
    requires
        c.p.stack.len() >= 1,
        spec_action_lookup(
            c.p.action,
            c.p.stack.last() as int,
            spec_class_to_str(c.tok.class),
        ) == SLRAction::S(t),
    ensures
        ({
            let c2 = spec_parse_step(c)->Next_0;
            spec_parse_step(c) is Next && c2.p.stack == c.p.stack.push(t) && c2.p.stack.last() == t
        }),
{
}

} // verus!

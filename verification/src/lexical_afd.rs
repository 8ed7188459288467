//! The hand-written deterministic automaton behind the scanner. States keep
//! their numeric labels as stable diagnostic identifiers; the transition
//! function is stated once as a specification and implemented to match it
//! exactly.
use vstd::prelude::*;

verus! {

#[derive(Clone, Copy, Debug, PartialEq, Eq, Structural)]
pub enum AFDState {
    Initial,
    Accept(u8),
    NonAccept(u8),
    Error(u8),
}

/// What the scanner must do with the character just fed to the automaton.
#[derive(Clone, Copy, Debug, PartialEq, Eq, Structural)]
pub enum Action {
    Idle,
    GoBack,
    Standard,
    Clear,
    ShowErrMessage,
}

#[derive(Clone, Copy, Debug, PartialEq, Eq, Structural)]
pub struct AFD {
    pub state: AFDState,
    pub done: bool,
    pub action: Action,
}

pub open spec fn spec_is_digit(c: char) -> bool {
    '0' <= c <= '9'
}

pub open spec fn spec_is_letter(c: char) -> bool {
    ('a' <= c <= 'z') || ('A' <= c <= 'Z')
}

/// The alphabet: every character a source file may contain. A character
/// outside it is a lexical error wherever it appears.
pub open spec fn spec_is_valid(c: char) -> bool {
    spec_is_digit(c) || spec_is_letter(c) || c == ',' || c == '.' || c == ';' || c == ':' || c
        == '<' || c == '>' || c == '=' || c == '(' || c == ')' || c == '[' || c == ']' || c == '{'
        || c == '}' || c == '+' || c == '-' || c == '*' || c == '/' || c == '!' || c == '?' || c
        == '\\' || c == '"' || c == '\'' || c == '\n' || c == '\r' || c == ' ' || c == '_'
}

/// Record a lexical error of the given kind: the automaton halts and asks
/// the scanner to log a diagnostic.
pub open spec fn spec_err(kind: u8) -> AFD {
    AFD { state: AFDState::Error(kind), done: true, action: Action::ShowErrMessage }
}

/// Halt in the current state, handing the character back to the input.
pub open spec fn spec_end(state: AFDState) -> AFD {
    AFD { state, done: true, action: Action::GoBack }
}

pub open spec fn spec_shift(a: AFD, state: AFDState) -> AFD {
    AFD { state, done: a.done, action: Action::Standard }
}

pub open spec fn spec_last_shift(state: AFDState) -> AFD {
    AFD { state, done: true, action: Action::Standard }
}

/// One step of the automaton on character `c` from configuration `a`. The
/// previous `done` and `action` fields carry no weight: the step classifies
/// `c` against the current state alone.
pub open spec fn spec_advance(a: AFD, c: char) -> AFD {
    match a.state {
        AFDState::Initial => if spec_is_digit(c) {
            spec_shift(a, AFDState::Accept(1))
        } else if c == '"' {
            spec_shift(a, AFDState::NonAccept(7))
        } else if spec_is_letter(c) {
            spec_shift(a, AFDState::Accept(9))
        } else if c == '{' {
            spec_shift(a, AFDState::NonAccept(10))
        } else if c == '<' {
            spec_shift(a, AFDState::Accept(13))
        } else if c == '>' {
            spec_shift(a, AFDState::Accept(16))
        } else if c == '=' {
            spec_last_shift(AFDState::Accept(18))
        } else if c == '+' || c == '-' || c == '*' || c == '/' {
            spec_last_shift(AFDState::Accept(19))
        } else if c == '(' {
            spec_last_shift(AFDState::Accept(20))
        } else if c == ')' {
            spec_last_shift(AFDState::Accept(21))
        } else if c == ';' {
            spec_last_shift(AFDState::Accept(22))
        } else if c == ',' {
            spec_last_shift(AFDState::Accept(23))
        } else if c == '\n' || c == '\r' || c == ' ' {
            AFD { state: AFDState::Initial, done: a.done, action: Action::Idle }
        } else if spec_is_valid(c) {
            spec_err(1)
        } else {
            spec_err(0)
        },
        AFDState::Accept(1) => if spec_is_digit(c) {
            spec_shift(a, AFDState::Accept(1))
        } else if c == '.' {
            spec_shift(a, AFDState::NonAccept(2))
        } else if c == 'e' || c == 'E' {
            spec_shift(a, AFDState::NonAccept(4))
        } else if spec_is_valid(c) {
            spec_end(a.state)
        } else {
            spec_err(0)
        },
        AFDState::Accept(3) => if spec_is_digit(c) {
            spec_shift(a, AFDState::Accept(3))
        } else if c == 'e' || c == 'E' {
            spec_shift(a, AFDState::NonAccept(4))
        } else if spec_is_valid(c) {
            spec_end(a.state)
        } else {
            spec_err(0)
        },
        AFDState::Accept(6) => if spec_is_digit(c) {
            spec_shift(a, AFDState::Accept(6))
        } else if spec_is_valid(c) {
            spec_end(a.state)
        } else {
            spec_err(0)
        },
        AFDState::Accept(9) => if spec_is_digit(c) || spec_is_letter(c) || c == '_' {
            spec_shift(a, AFDState::Accept(9))
        } else if spec_is_valid(c) {
            spec_end(a.state)
        } else {
            spec_err(0)
        },
        AFDState::Accept(13) => if c == '=' || c == '>' {
            spec_last_shift(AFDState::Accept(15))
        } else if c == '-' {
            spec_last_shift(AFDState::Accept(14))
        } else if spec_is_valid(c) {
            spec_end(a.state)
        } else {
            spec_err(0)
        },
        AFDState::Accept(16) => if c == '=' {
            spec_last_shift(AFDState::Accept(17))
        } else if spec_is_valid(c) {
            spec_end(a.state)
        } else {
            spec_err(0)
        },
        AFDState::Accept(25) => if spec_is_digit(c) {
            spec_shift(a, AFDState::Accept(25))
        } else if spec_is_valid(c) {
            spec_end(a.state)
        } else {
            spec_err(0)
        },
        AFDState::NonAccept(2) => if spec_is_digit(c) {
            spec_shift(a, AFDState::Accept(3))
        } else {
            spec_err(2)
        },
        AFDState::NonAccept(4) => if c == '-' {
            spec_shift(a, AFDState::NonAccept(5))
        } else if c == '+' {
            spec_shift(a, AFDState::NonAccept(24))
        } else if spec_is_digit(c) {
            spec_shift(a, AFDState::Accept(25))
        } else {
            spec_err(3)
        },
        AFDState::NonAccept(5) => if spec_is_digit(c) {
            spec_shift(a, AFDState::Accept(6))
        } else {
            spec_err(5)
        },
        AFDState::NonAccept(7) => if c == '"' {
            spec_last_shift(AFDState::Accept(8))
        } else if spec_is_valid(c) {
            spec_shift(a, AFDState::NonAccept(7))
        } else {
            spec_err(0)
        },
        AFDState::NonAccept(10) => if c == '}' {
            AFD { state: AFDState::Initial, done: a.done, action: Action::Clear }
        } else if spec_is_valid(c) {
            spec_shift(a, AFDState::NonAccept(10))
        } else {
            spec_err(0)
        },
        AFDState::NonAccept(24) => if spec_is_digit(c) {
            spec_shift(a, AFDState::Accept(25))
        } else {
            spec_err(4)
        },
        _ => AFD { state: a.state, done: a.done, action: Action::Standard },
    }
}

pub fn is_valid(c: char) -> (r: bool)
    ensures
        r == spec_is_valid(c),
{
    (c >= '0' && c <= '9') || (c >= 'a' && c <= 'z') || (c >= 'A' && c <= 'Z') || c == ',' || c
        == '.' || c == ';' || c == ':' || c == '<' || c == '>' || c == '=' || c == '(' || c == ')'
        || c == '[' || c == ']' || c == '{' || c == '}' || c == '+' || c == '-' || c == '*' || c
        == '/' || c == '!' || c == '?' || c == '\\' || c == '"' || c == '\'' || c == '\n' || c
        == '\r' || c == ' ' || c == '_'
}

impl AFD {
    pub fn new() -> (r: AFD)
        ensures
            r == (AFD { state: AFDState::Initial, done: false, action: Action::Idle }),
    {
        AFD { state: AFDState::Initial, done: false, action: Action::Idle }
    }

    fn err(&mut self, kind: u8)
        ensures
            *final(self) == spec_err(kind),
    {
        self.done = true;
        self.state = AFDState::Error(kind);
        self.action = Action::ShowErrMessage;
    }

    fn end(&mut self)
        ensures
            *final(self) == spec_end(old(self).state),
    {
        self.done = true;
        self.action = Action::GoBack;
    }

    /// Feed one character to the automaton.
    pub fn advance(&mut self, c: char)
        ensures
            *final(self) == spec_advance(*old(self), c),
    {
        self.action = Action::Standard;

        match self.state {
            AFDState::Initial => {
                if c >= '0' && c <= '9' {
                    self.state = AFDState::Accept(1);
                } else if c == '"' {
                    self.state = AFDState::NonAccept(7);
                } else if (c >= 'a' && c <= 'z') || (c >= 'A' && c <= 'Z') {
                    self.state = AFDState::Accept(9);
                } else if c == '{' {
                    self.state = AFDState::NonAccept(10);
                } else if c == '<' {
                    self.state = AFDState::Accept(13);
                } else if c == '>' {
                    self.state = AFDState::Accept(16);
                } else if c == '=' {
                    self.done = true;
                    self.state = AFDState::Accept(18);
                } else if c == '+' || c == '-' || c == '*' || c == '/' {
                    self.done = true;
                    self.state = AFDState::Accept(19);
                } else if c == '(' {
                    self.done = true;
                    self.state = AFDState::Accept(20);
                } else if c == ')' {
                    self.done = true;
                    self.state = AFDState::Accept(21);
                } else if c == ';' {
                    self.done = true;
                    self.state = AFDState::Accept(22);
                } else if c == ',' {
                    self.done = true;
                    self.state = AFDState::Accept(23);
                } else if c == '\n' || c == '\r' || c == ' ' {
                    self.state = AFDState::Initial;
                    self.action = Action::Idle;
                } else if is_valid(c) {
                    self.err(1);
                } else {
                    self.err(0);
                }
            },
            AFDState::Accept(1) => {
                if c >= '0' && c <= '9' {
                    self.state = AFDState::Accept(1);
                } else if c == '.' {
                    self.state = AFDState::NonAccept(2);
                } else if c == 'e' || c == 'E' {
                    self.state = AFDState::NonAccept(4);
                } else if is_valid(c) {
                    self.end();
                } else {
                    self.err(0);
                }
            },
            AFDState::Accept(3) => {
                if c >= '0' && c <= '9' {
                    self.state = AFDState::Accept(3);
                } else if c == 'e' || c == 'E' {
                    self.state = AFDState::NonAccept(4);
                } else if is_valid(c) {
                    self.end();
                } else {
                    self.err(0);
                }
            },
            AFDState::Accept(6) => {
                if c >= '0' && c <= '9' {
                    self.state = AFDState::Accept(6);
                } else if is_valid(c) {
                    self.end();
                } else {
                    self.err(0);
                }
            },
            AFDState::Accept(9) => {
                if (c >= '0' && c <= '9') || (c >= 'a' && c <= 'z') || (c >= 'A' && c <= 'Z') || c
                    == '_' {
                    self.state = AFDState::Accept(9);
                } else if is_valid(c) {
                    self.end();
                } else {
                    self.err(0);
                }
            },
            AFDState::Accept(13) => {
                if c == '=' || c == '>' {
                    self.done = true;
                    self.state = AFDState::Accept(15);
                } else if c == '-' {
                    self.done = true;
                    self.state = AFDState::Accept(14);
                } else if is_valid(c) {
                    self.end();
                } else {
                    self.err(0);
                }
            },
            AFDState::Accept(16) => {
                if c == '=' {
                    self.done = true;
                    self.state = AFDState::Accept(17);
                } else if is_valid(c) {
                    self.end();
                } else {
                    self.err(0);
                }
            },
            AFDState::Accept(25) => {
                if c >= '0' && c <= '9' {
                    self.state = AFDState::Accept(25);
                } else if is_valid(c) {
                    self.end();
                } else {
                    self.err(0);
                }
            },
            AFDState::NonAccept(2) => {
                if c >= '0' && c <= '9' {
                    self.state = AFDState::Accept(3);
                } else {
                    self.err(2);
                }
            },
            AFDState::NonAccept(4) => {
                if c == '-' {
                    self.state = AFDState::NonAccept(5);
                } else if c == '+' {
                    self.state = AFDState::NonAccept(24);
                } else if c >= '0' && c <= '9' {
                    self.state = AFDState::Accept(25);
                } else {
                    self.err(3);
                }
            },
            AFDState::NonAccept(5) => {
                if c >= '0' && c <= '9' {
                    self.state = AFDState::Accept(6);
                } else {
                    self.err(5);
                }
            },
            AFDState::NonAccept(7) => {
                if c == '"' {
                    self.done = true;
                    self.state = AFDState::Accept(8);
                } else if is_valid(c) {
                    self.state = AFDState::NonAccept(7);
                } else {
                    self.err(0);
                }
            },
            AFDState::NonAccept(10) => {
                if c == '}' {
                    self.state = AFDState::Initial;
                    self.action = Action::Clear;
                } else if is_valid(c) {
                    self.state = AFDState::NonAccept(10);
                } else {
                    self.err(0);
                }
            },
            AFDState::NonAccept(24) => {
                if c >= '0' && c <= '9' {
                    self.state = AFDState::Accept(25);
                } else {
                    self.err(4);
                }
            },
            _ => (),
        }
    }
}

} // verus!

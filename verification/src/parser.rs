//! The line classifier: a character-driven state machine over the source.
//!
//! A forward-only cursor walks the character buffer; each call of
//! [`Parser::advance`] consumes one logical line, decomposes it into its
//! fields (address text, or compute/destination/jump text), classifies it,
//! and counts it when it emits an instruction.  The machine's meaning is the
//! spec function [`scan`], which `advance` is proved to follow exactly.

use vstd::prelude::*;

verus! {

/// The scanner's states, one per syntactic position within a line.
#[derive(PartialEq, Eq, Structural, Clone, Copy, Debug)]
pub enum State {
    StartLine,
    InComment,
    InLabel,
    InACommand,
    InCCompare,
    InCJump,
}

/// The classification of one logical line.
#[derive(PartialEq, Eq, Structural, Clone, Copy, Debug)]
pub enum CommandType {
    A,
    C,
    Label,
    Comment,
    Invalid,
}

/// A tab or a plain space: skipped wherever it stands.
pub open spec fn is_space(c: char) -> bool {
    c == ' ' || c == '\t'
}

/// A line-break character.
pub open spec fn is_break(c: char) -> bool {
    c == '\n' || c == '\r'
}

/// A line that emits an instruction: an address or compute line.
pub open spec fn emits(k: CommandType) -> bool {
    k == CommandType::A || k == CommandType::C
}

/// The decomposed fields of one logical line as the scanner accumulates
/// them: the classification and the four field texts.
pub ghost struct LineAcc {
    pub kind: CommandType,
    pub addr: Seq<char>,
    pub comp: Seq<char>,
    pub dest: Seq<char>,
    pub jump: Seq<char>,
}

impl LineAcc {
    /// The accumulator at the start of a line: nothing classified, every
    /// field empty.
    pub open spec fn init() -> LineAcc {
        LineAcc {
            kind: CommandType::Invalid,
            addr: Seq::empty(),
            comp: Seq::empty(),
            dest: Seq::empty(),
            jump: Seq::empty(),
        }
    }

    pub open spec fn with_kind(self, k: CommandType) -> LineAcc {
        LineAcc { kind: k, addr: self.addr, comp: self.comp, dest: self.dest, jump: self.jump }
    }

    pub open spec fn push_addr(self, c: char) -> LineAcc {
        LineAcc {
            kind: self.kind,
            addr: self.addr.push(c),
            comp: self.comp,
            dest: self.dest,
            jump: self.jump,
        }
    }

    pub open spec fn push_comp(self, c: char) -> LineAcc {
        LineAcc {
            kind: self.kind,
            addr: self.addr,
            comp: self.comp.push(c),
            dest: self.dest,
            jump: self.jump,
        }
    }

    pub open spec fn push_jump(self, c: char) -> LineAcc {
        LineAcc {
            kind: self.kind,
            addr: self.addr,
            comp: self.comp,
            dest: self.dest,
            jump: self.jump.push(c),
        }
    }

    /// An `=` ends the destination chunk: what accumulated as the compute
    /// field so far was really the destination.
    pub open spec fn shift_dest(self) -> LineAcc {
        LineAcc {
            kind: self.kind,
            addr: self.addr,
            comp: Seq::empty(),
            dest: self.comp,
            jump: self.jump,
        }
    }
}

/// What one call of `advance` leaves behind: the cursor past the line and
/// its breaks, the line's fields, and whether the line counts as an emitted
/// instruction.
pub ghost struct ScanResult {
    pub end: nat,
    pub line: LineAcc,
    pub counted: bool,
}

/// The first position at or after `pos` that does not hold a line-break
/// character: consecutive breaks collapse into one line boundary.
pub open spec fn skip_breaks(input: Seq<char>, pos: nat) -> nat
    decreases input.len() - pos,
{
    if pos >= input.len() || !is_break(input[pos as int]) {
        pos
    } else {
        skip_breaks(input, pos + 1)
    }
}

/// Orders the states so that every transition that stays on the same
/// character strictly descends.
pub open spec fn state_rank(st: State) -> int {
    match st {
        State::InComment => 0,
        State::StartLine => 2,
        _ => 1,
    }
}

/// One logical line, scanned from `pos` with the accumulated fields `acc`
/// in state `st`: spaces and tabs are skipped, a line break or the end of
/// input ends the line, and any other character drives the state machine.
pub open spec fn scan(input: Seq<char>, pos: nat, acc: LineAcc, st: State) -> ScanResult
    decreases input.len() - pos, state_rank(st),
{
    if pos >= input.len() {
        ScanResult { end: pos, line: acc, counted: emits(acc.kind) }
    } else {
        let c = input[pos as int];
        if is_space(c) {
            scan(input, pos + 1, acc, st)
        } else if is_break(c) {
            ScanResult { end: skip_breaks(input, pos), line: acc, counted: emits(acc.kind) }
        } else {
            match st {
                State::StartLine => {
                    if c == '@' {
                        scan(input, pos + 1, acc.with_kind(CommandType::A), State::InACommand)
                    } else if c == '(' {
                        scan(input, pos + 1, acc.with_kind(CommandType::Label), State::InLabel)
                    } else if c == '/' || c == '*' {
                        scan(input, pos + 1, acc.with_kind(CommandType::Comment), State::InComment)
                    } else {
                        scan(input, pos, acc.with_kind(CommandType::C), State::InCCompare)
                    }
                },
                State::InACommand => {
                    if c == '/' {
                        scan(input, pos, acc, State::InComment)
                    } else {
                        scan(input, pos + 1, acc.push_addr(c), State::InACommand)
                    }
                },
                State::InCCompare => {
                    if c == '/' {
                        scan(input, pos + 1, acc, State::InComment)
                    } else if c == '=' {
                        scan(input, pos + 1, acc.shift_dest(), State::InCCompare)
                    } else if c == ';' {
                        scan(input, pos + 1, acc, State::InCJump)
                    } else {
                        scan(input, pos + 1, acc.push_comp(c), State::InCCompare)
                    }
                },
                State::InCJump => {
                    if c == '/' {
                        scan(input, pos, acc, State::InComment)
                    } else {
                        scan(input, pos + 1, acc.push_jump(c), State::InCJump)
                    }
                },
                State::InLabel => {
                    if c == '/' {
                        scan(input, pos, acc, State::InComment)
                    } else if c == ')' {
                        scan(input, pos + 1, acc, State::InLabel)
                    } else {
                        scan(input, pos + 1, acc.push_addr(c), State::InLabel)
                    }
                },
                State::InComment => scan(input, pos + 1, acc, State::InComment),
            }
        }
    }
}

/// The scanner never moves backwards, and a line scanned from within the
/// input consumes at least one character.
pub proof fn lemma_scan_advances(input: Seq<char>, pos: nat, acc: LineAcc, st: State)
    ensures
        scan(input, pos, acc, st).end >= pos,
        pos < input.len() ==> scan(input, pos, acc, st).end >= pos + 1,
        pos <= input.len() ==> scan(input, pos, acc, st).end <= input.len(),
    decreases input.len() - pos, state_rank(st),
{
    if pos < input.len() {
        let c = input[pos as int];
        if is_space(c) {
            lemma_scan_advances(input, pos + 1, acc, st);
        } else if is_break(c) {
            lemma_skip_breaks_bounds(input, pos);
        } else {
            match st {
                State::StartLine => {
                    if c == '@' {
                        lemma_scan_advances(input, pos + 1, acc.with_kind(CommandType::A), State::InACommand);
                    } else if c == '(' {
                        lemma_scan_advances(input, pos + 1, acc.with_kind(CommandType::Label), State::InLabel);
                    } else if c == '/' || c == '*' {
                        lemma_scan_advances(input, pos + 1, acc.with_kind(CommandType::Comment), State::InComment);
                    } else {
                        lemma_scan_advances(input, pos, acc.with_kind(CommandType::C), State::InCCompare);
                    }
                },
                State::InACommand => {
                    if c == '/' {
                        lemma_scan_advances(input, pos, acc, State::InComment);
                    } else {
                        lemma_scan_advances(input, pos + 1, acc.push_addr(c), State::InACommand);
                    }
                },
                State::InCCompare => {
                    if c == '/' {
                        lemma_scan_advances(input, pos + 1, acc, State::InComment);
                    } else if c == '=' {
                        lemma_scan_advances(input, pos + 1, acc.shift_dest(), State::InCCompare);
                    } else if c == ';' {
                        lemma_scan_advances(input, pos + 1, acc, State::InCJump);
                    } else {
                        lemma_scan_advances(input, pos + 1, acc.push_comp(c), State::InCCompare);
                    }
                },
                State::InCJump => {
                    if c == '/' {
                        lemma_scan_advances(input, pos, acc, State::InComment);
                    } else {
                        lemma_scan_advances(input, pos + 1, acc.push_jump(c), State::InCJump);
                    }
                },
                State::InLabel => {
                    if c == '/' {
                        lemma_scan_advances(input, pos, acc, State::InComment);
                    } else if c == ')' {
                        lemma_scan_advances(input, pos + 1, acc, State::InLabel);
                    } else {
                        lemma_scan_advances(input, pos + 1, acc.push_addr(c), State::InLabel);
                    }
                },
                State::InComment => {
                    lemma_scan_advances(input, pos + 1, acc, State::InComment);
                },
            }
        }
    }
}

/// A line counts as an emitted instruction exactly when it is classified as
/// an address or compute line.
pub proof fn lemma_scan_counted(input: Seq<char>, pos: nat, acc: LineAcc, st: State)
    ensures
        scan(input, pos, acc, st).counted == emits(scan(input, pos, acc, st).line.kind),
    decreases input.len() - pos, state_rank(st),
{
    if pos < input.len() {
        let c = input[pos as int];
        if is_space(c) {
            lemma_scan_counted(input, pos + 1, acc, st);
        } else if is_break(c) {
        } else {
            match st {
                State::StartLine => {
                    if c == '@' {
                        lemma_scan_counted(input, pos + 1, acc.with_kind(CommandType::A), State::InACommand);
                    } else if c == '(' {
                        lemma_scan_counted(input, pos + 1, acc.with_kind(CommandType::Label), State::InLabel);
                    } else if c == '/' || c == '*' {
                        lemma_scan_counted(input, pos + 1, acc.with_kind(CommandType::Comment), State::InComment);
                    } else {
                        lemma_scan_counted(input, pos, acc.with_kind(CommandType::C), State::InCCompare);
                    }
                },
                State::InACommand => {
                    if c == '/' {
                        lemma_scan_counted(input, pos, acc, State::InComment);
                    } else {
                        lemma_scan_counted(input, pos + 1, acc.push_addr(c), State::InACommand);
                    }
                },
                State::InCCompare => {
                    if c == '/' {
                        lemma_scan_counted(input, pos + 1, acc, State::InComment);
                    } else if c == '=' {
                        lemma_scan_counted(input, pos + 1, acc.shift_dest(), State::InCCompare);
                    } else if c == ';' {
                        lemma_scan_counted(input, pos + 1, acc, State::InCJump);
                    } else {
                        lemma_scan_counted(input, pos + 1, acc.push_comp(c), State::InCCompare);
                    }
                },
                State::InCJump => {
                    if c == '/' {
                        lemma_scan_counted(input, pos, acc, State::InComment);
                    } else {
                        lemma_scan_counted(input, pos + 1, acc.push_jump(c), State::InCJump);
                    }
                },
                State::InLabel => {
                    if c == '/' {
                        lemma_scan_counted(input, pos, acc, State::InComment);
                    } else if c == ')' {
                        lemma_scan_counted(input, pos + 1, acc, State::InLabel);
                    } else {
                        lemma_scan_counted(input, pos + 1, acc.push_addr(c), State::InLabel);
                    }
                },
                State::InComment => {
                    lemma_scan_counted(input, pos + 1, acc, State::InComment);
                },
            }
        }
    }
}

/// Skipping breaks stays within the input and moves past at least the break
/// it starts on.
pub proof fn lemma_skip_breaks_bounds(input: Seq<char>, pos: nat)
    ensures
        skip_breaks(input, pos) >= pos,
        pos < input.len() && is_break(input[pos as int]) ==> skip_breaks(input, pos) >= pos + 1,
        pos <= input.len() ==> skip_breaks(input, pos) <= input.len(),
    decreases input.len() - pos,
{
    if pos < input.len() && is_break(input[pos as int]) {
        lemma_skip_breaks_bounds(input, pos + 1);
    }
}

/// The line classifier.  The cursor `pos` walks the owned character buffer;
/// between calls the machine rests at the start of a line, and `count` holds
/// how many emitted instructions have gone by.
pub struct Parser {
    pub input: Vec<char>,
    pub pos: usize,
    pub state: State,
    pub count: usize,
    pub dest: Vec<char>,
    pub jump: Vec<char>,
    pub comp: Vec<char>,
    pub addr: Vec<char>,
    pub command_type: CommandType,
}

impl Parser {
    /// Between lines the cursor sits within the buffer, no more instructions
    /// have been counted than characters passed, and the machine rests at
    /// the start of a line.
    pub open spec fn wf(self) -> bool {
        &&& self.pos <= self.input@.len()
        &&& self.count <= self.pos
        &&& self.state == State::StartLine
    }

    /// The line fields as currently accumulated.
    pub open spec fn line_acc(self) -> LineAcc {
        LineAcc {
            kind: self.command_type,
            addr: self.addr@,
            comp: self.comp@,
            dest: self.dest@,
            jump: self.jump@,
        }
    }

    /// A parser at the start of the given source, nothing scanned yet.
    pub fn new(input: Vec<char>) -> (p: Parser)
        ensures
            p.wf(),
            p.input@ == input@,
            p.pos == 0,
            p.count == 0,
            p.line_acc() == LineAcc::init(),
    {
        Parser {
            input,
            pos: 0,
            state: State::StartLine,
            count: 0,
            dest: Vec::new(),
            jump: Vec::new(),
            comp: Vec::new(),
            addr: Vec::new(),
            command_type: CommandType::Invalid,
        }
    }

    /// Rewinds to the start of the source and clears every field and the
    /// instruction counter; the source itself is kept.
    pub fn reset(&mut self)
        ensures
            final(self).wf(),
            final(self).input@ == old(self).input@,
            final(self).pos == 0,
            final(self).count == 0,
            final(self).line_acc() == LineAcc::init(),
    {
        self.pos = 0;
        self.count = 0;
        self.state = State::StartLine;
        self.dest.clear();
        self.jump.clear();
        self.comp.clear();
        self.addr.clear();
        self.command_type = CommandType::Invalid;
    }

    /// Whether the cursor has reached the end of the source.
    pub fn eof(&self) -> (r: bool)
        ensures
            r == (self.pos >= self.input@.len()),
    {
        self.pos >= self.input.len()
    }

    /// Whether the cursor stands on a line-break character.
    pub fn newline(&self) -> (r: bool)
        requires
            self.pos < self.input@.len(),
        ensures
            r == is_break(self.input@[self.pos as int]),
    {
        let c = self.input[self.pos];
        c == '\n' || c == '\r'
    }

    /// Whether a character is skipped without affecting state or fields.
    pub fn should_ignore(c: &char) -> (r: bool)
        ensures
            r == is_space(*c),
    {
        match *c {
            ' ' | '\t' => true,
            _ => false,
        }
    }

    /// Moves the cursor one character forward, if any character is left.
    pub fn bump(&mut self)
        ensures
            final(self).pos == if old(self).pos < old(self).input@.len() {
                old(self).pos + 1
            } else {
                old(self).pos as int
            },
            final(self).input == old(self).input,
            final(self).state == old(self).state,
            final(self).count == old(self).count,
            final(self).line_acc() == old(self).line_acc(),
    {
        if self.pos < self.input.len() {
            self.pos = self.pos + 1;
        }
    }

    /// Scans the next logical line: decomposes and classifies it, leaves the
    /// cursor past its line breaks, and counts it if it emits an
    /// instruction — exactly as [`scan`] says.
    pub fn advance(&mut self)
        requires
            old(self).wf(),
        ensures
            final(self).wf(),
            final(self).input@ == old(self).input@,
            ({
                let r = scan(
                    old(self).input@,
                    old(self).pos as nat,
                    LineAcc::init(),
                    State::StartLine,
                );
                &&& final(self).pos == r.end
                &&& final(self).line_acc() == r.line
                &&& final(self).count == old(self).count + (if r.counted {
                    1int
                } else {
                    0int
                })
            }),
    {
        self.addr.clear();
        self.comp.clear();
        self.jump.clear();
        self.dest.clear();
        self.command_type = CommandType::Invalid;
        while self.pos < self.input.len() && self.input[self.pos] != '\n' && self.input[self.pos]
            != '\r'
            invariant
                self.input@ == old(self).input@,
                self.pos <= self.input@.len(),
                old(self).pos <= self.pos,
                old(self).count <= old(self).pos,
                self.count == old(self).count,
                scan(self.input@, old(self).pos as nat, LineAcc::init(), State::StartLine) == scan(
                    self.input@,
                    self.pos as nat,
                    self.line_acc(),
                    self.state,
                ),
                emits(self.command_type) ==> (self.pos > old(self).pos || (self.pos
                    < self.input@.len() && !is_space(self.input@[self.pos as int]) && !is_break(
                    self.input@[self.pos as int],
                ))),
            decreases self.input@.len() - self.pos, state_rank(self.state),
        {
            let c = self.input[self.pos];
            if c == ' ' || c == '\t' {
                self.pos = self.pos + 1;
            } else {
                match self.state {
                    State::StartLine => {
                        if c == '@' {
                            self.pos = self.pos + 1;
                            self.command_type = CommandType::A;
                            self.state = State::InACommand;
                        } else if c == '(' {
                            self.pos = self.pos + 1;
                            self.command_type = CommandType::Label;
                            self.state = State::InLabel;
                        } else if c == '/' || c == '*' {
                            self.pos = self.pos + 1;
                            self.command_type = CommandType::Comment;
                            self.state = State::InComment;
                        } else {
                            self.command_type = CommandType::C;
                            self.state = State::InCCompare;
                        }
                    },
                    State::InACommand => {
                        if c == '/' {
                            self.state = State::InComment;
                        } else {
                            self.pos = self.pos + 1;
                            self.addr.push(c);
                        }
                    },
                    State::InCCompare => {
                        self.pos = self.pos + 1;
                        if c == '/' {
                            self.state = State::InComment;
                        } else if c == '=' {
                            let d = crate::text::copy_text(&self.comp);
                            self.dest = d;
                            self.comp.clear();
                        } else if c == ';' {
                            self.state = State::InCJump;
                        } else {
                            self.comp.push(c);
                        }
                    },
                    State::InCJump => {
                        if c == '/' {
                            self.state = State::InComment;
                        } else {
                            self.pos = self.pos + 1;
                            self.jump.push(c);
                        }
                    },
                    State::InLabel => {
                        if c == '/' {
                            self.state = State::InComment;
                        } else if c == ')' {
                            self.pos = self.pos + 1;
                        } else {
                            self.pos = self.pos + 1;
                            self.addr.push(c);
                        }
                    },
                    State::InComment => {
                        self.pos = self.pos + 1;
                    },
                }
            }
        }
        let ghost boundary = self.pos as nat;
        let ghost acc_b = self.line_acc();
        let ghost st_b = self.state;
        proof {
            assert(scan(self.input@, old(self).pos as nat, LineAcc::init(), State::StartLine)
                == scan(self.input@, boundary, acc_b, st_b));
        }
        self.state = State::StartLine;
        while self.pos < self.input.len() && (self.input[self.pos] == '\n' || self.input[self.pos]
            == '\r')
            invariant
                self.input@ == old(self).input@,
                self.pos <= self.input@.len(),
                boundary <= self.pos,
                self.count == old(self).count,
                self.state == State::StartLine,
                self.line_acc() == acc_b,
                skip_breaks(self.input@, boundary) == skip_breaks(self.input@, self.pos as nat),
            decreases self.input@.len() - self.pos,
        {
            self.pos = self.pos + 1;
        }
        proof {
            assert(skip_breaks(self.input@, self.pos as nat) == self.pos);
        }
        if self.command_type == CommandType::A || self.command_type == CommandType::C {
            proof {
                assert(boundary > old(self).pos);
            }
            self.count = self.count + 1;
        }
    }
}

} // verus!

//! The three-pass translation pipeline.
//!
//! Three sequential scans over one source: the label pass binds each label
//! to the index of the next emitted instruction; the variable pass allocates
//! a fresh address (16, 17, ...) to every address operand that is neither a
//! numeric literal nor already bound; the assemble pass emits one 16-bit
//! binary line per address or compute instruction.  Each pass is proved
//! against a spec-level recursion over [`scan`], and the whole run against
//! [`assemble_spec`].

use vstd::prelude::*;
use crate::commands::{comp_code, dest_code, jump_code, CommandLookup};
use crate::numeral::{bin_of, dec_val, is_decimal, lemma_bin_of_chars};
use crate::parser::{scan, CommandType, LineAcc, Parser, State};
use crate::parser::lemma_scan_advances;
use crate::symbols::{predefined_symbols, SymbolTable};
use crate::text::copy_text;

verus! {

/// A fatal translation error; the whole run aborts and no output stands.
#[derive(Debug)]
pub enum AsmError {
    /// An address operand that is neither a literal nor bound to an address,
    /// with the instruction count at the offending line.
    UnknownSymbol { index: usize, text: Vec<char> },
    /// A compute mnemonic with no entry in the compute table.
    InvalidComp { text: Vec<char> },
    /// A destination mnemonic with no entry in the destination table.
    InvalidDest { text: Vec<char> },
    /// A jump mnemonic with no entry in the jump table.
    InvalidJump { text: Vec<char> },
    /// More distinct variables than free addresses.
    TooManyVariables,
}

/// The mathematical shape of a fatal translation error.
pub ghost enum EmitError {
    UnknownSymbol(nat, Seq<char>),
    InvalidComp(Seq<char>),
    InvalidDest(Seq<char>),
    InvalidJump(Seq<char>),
    TooManyVariables,
}

impl View for AsmError {
    type V = EmitError;

    open spec fn view(&self) -> EmitError {
        match self {
            AsmError::UnknownSymbol { index, text } => EmitError::UnknownSymbol(
                *index as nat,
                text@,
            ),
            AsmError::InvalidComp { text } => EmitError::InvalidComp(text@),
            AsmError::InvalidDest { text } => EmitError::InvalidDest(text@),
            AsmError::InvalidJump { text } => EmitError::InvalidJump(text@),
            AsmError::TooManyVariables => EmitError::TooManyVariables,
        }
    }
}

/// The bindings the label pass adds, scanning from `pos` with `count`
/// instructions already emitted: each label line binds its name to the
/// binary numeral of the instruction counter at that line, the index of the
/// next emitted instruction.  A name declared twice keeps the later binding.
pub open spec fn label_bindings(input: Seq<char>, pos: nat, count: nat) -> Map<Seq<char>, Seq<char>>
    decreases input.len() - pos,
    when pos <= input.len()
    via label_bindings_decreases
{
    if pos >= input.len() {
        Map::empty()
    } else {
        let r = scan(input, pos, LineAcc::init(), State::StartLine);
        let rest = label_bindings(
            input,
            r.end,
            count + if r.counted {
                1nat
            } else {
                0nat
            },
        );
        if r.line.kind == CommandType::Label {
            map![r.line.addr => bin_of(count % 0x10000, 16)].union_prefer_right(rest)
        } else {
            rest
        }
    }
}

#[via_fn]
proof fn label_bindings_decreases(input: Seq<char>, pos: nat, count: nat) {
    if pos < input.len() {
        lemma_scan_advances(input, pos, LineAcc::init(), State::StartLine);
    }
}

/// The label pass: scans every line and binds each label declaration to the
/// instruction counter's value at that line.  Bindings already in the table
/// are kept unless a label of the same name overrides them; the variable
/// allocation state is untouched.
pub fn label_pass(p: &mut Parser, s: &mut SymbolTable)
    requires
        old(p).wf(),
        old(s).wf(),
    ensures
        final(p).wf(),
        final(s).wf(),
        final(p).input@ == old(p).input@,
        final(p).pos == final(p).input@.len(),
        final(s)@ == old(s)@.union_prefer_right(
            label_bindings(old(p).input@, old(p).pos as nat, old(p).count as nat),
        ),
        final(s).variable_count == old(s).variable_count,
        final(s).variable_offset == old(s).variable_offset,
{
    let ghost target = old(s)@.union_prefer_right(
        label_bindings(old(p).input@, old(p).pos as nat, old(p).count as nat),
    );
    while !p.eof()
        invariant
            p.wf(),
            s.wf(),
            p.input@ == old(p).input@,
            s.variable_count == old(s).variable_count,
            s.variable_offset == old(s).variable_offset,
            s@.union_prefer_right(label_bindings(p.input@, p.pos as nat, p.count as nat))
                == target,
        decreases p.input@.len() - p.pos,
    {
        let ghost m0 = s@;
        let ghost pos0 = p.pos as nat;
        let ghost cnt0 = p.count as nat;
        let ghost r = scan(p.input@, pos0, LineAcc::init(), State::StartLine);
        proof {
            lemma_scan_advances(p.input@, pos0, LineAcc::init(), State::StartLine);
            crate::parser::lemma_scan_counted(p.input@, pos0, LineAcc::init(), State::StartLine);
        }
        let ghost rest = label_bindings(
            p.input@,
            r.end,
            cnt0 + if r.counted {
                1nat
            } else {
                0nat
            },
        );
        p.advance();
        if p.command_type == CommandType::Label {
            let v = SymbolTable::u16_to_bin((p.count % 0x10000) as u16);
            s.insert(&p.addr, &v);
            proof {
                assert(p.addr@ == r.line.addr);
                assert(cnt0 % 0x10000 == p.count as nat % 0x10000);
                assert(label_bindings(p.input@, pos0, cnt0) == map![r.line.addr => bin_of(
                    cnt0 % 0x10000,
                    16,
                )].union_prefer_right(rest));
                assert(s@.union_prefer_right(rest) =~= m0.union_prefer_right(
                    label_bindings(p.input@, pos0, cnt0),
                ));
            }
        } else {
            proof {
                assert(label_bindings(p.input@, pos0, cnt0) == rest);
            }
        }
    }
    proof {
        assert(label_bindings(p.input@, p.pos as nat, p.count as nat) =~= Map::<
            Seq<char>,
            Seq<char>,
        >::empty());
        assert(s@.union_prefer_right(Map::empty()) =~= s@);
    }
}

/// Binding the labels of one source is idempotent: a second label pass over
/// the same source, with the bindings kept, leaves every binding as the
/// first pass made it.
pub proof fn lemma_label_pass_idempotent(m: Map<Seq<char>, Seq<char>>, input: Seq<char>)
    ensures
        m.union_prefer_right(label_bindings(input, 0, 0)).union_prefer_right(
            label_bindings(input, 0, 0),
        ) == m.union_prefer_right(label_bindings(input, 0, 0)),
{
    let l = label_bindings(input, 0, 0);
    assert(m.union_prefer_right(l).union_prefer_right(l) =~= m.union_prefer_right(l));
}

/// A label declared where `count` instructions have been emitted resolves to
/// the binary numeral of `count` — the index of the next emitted
/// instruction, whatever number of comment, blank or label lines stand
/// before it — unless a later label of the same name overrides it.
pub proof fn lemma_label_resolution(input: Seq<char>, pos: nat, count: nat)
    requires
        pos <= input.len(),
        scan(input, pos, LineAcc::init(), State::StartLine).line.kind == CommandType::Label,
    ensures
        ({
            let r = scan(input, pos, LineAcc::init(), State::StartLine);
            let m = label_bindings(input, pos, count);
            &&& m.contains_key(r.line.addr)
            &&& (!label_bindings(input, r.end, count).contains_key(r.line.addr) ==> m[r.line.addr]
                == bin_of(count % 0x10000, 16))
        }),
{
    let r = scan(input, pos, LineAcc::init(), State::StartLine);
    lemma_scan_advances(input, pos, LineAcc::init(), State::StartLine);
    crate::parser::lemma_scan_counted(input, pos, LineAcc::init(), State::StartLine);
    assert(pos < input.len());
    assert(!r.counted);
}

/// The variable pass's outcome, scanning from `pos` with bindings `m` and
/// next free address `next`: every address operand that is neither a numeric
/// literal nor already bound is bound, in first-occurrence order, to the next
/// address — strictly increasing, with no reuse and no gaps.
pub open spec fn var_alloc(
    input: Seq<char>,
    pos: nat,
    m: Map<Seq<char>, Seq<char>>,
    next: nat,
) -> (Map<Seq<char>, Seq<char>>, nat)
    decreases input.len() - pos,
    when pos <= input.len()
    via var_alloc_decreases
{
    if pos >= input.len() {
        (m, next)
    } else {
        let r = scan(input, pos, LineAcc::init(), State::StartLine);
        if r.line.kind == CommandType::A && !is_decimal(r.line.addr) && !m.contains_key(
            r.line.addr,
        ) {
            var_alloc(input, r.end, m.insert(r.line.addr, bin_of(next % 0x10000, 16)), next + 1)
        } else {
            var_alloc(input, r.end, m, next)
        }
    }
}

#[via_fn]
proof fn var_alloc_decreases(input: Seq<char>, pos: nat, m: Map<Seq<char>, Seq<char>>, next: nat) {
    if pos < input.len() {
        lemma_scan_advances(input, pos, LineAcc::init(), State::StartLine);
    }
}

/// Allocation never rebinds: a name bound before the variable pass holds the
/// same value after it, so every re-occurrence of an allocated name resolves
/// to the address of its first occurrence.
pub proof fn lemma_var_alloc_preserves(
    input: Seq<char>,
    pos: nat,
    m: Map<Seq<char>, Seq<char>>,
    next: nat,
    k: Seq<char>,
)
    requires
        pos <= input.len(),
        m.contains_key(k),
    ensures
        var_alloc(input, pos, m, next).0.contains_key(k),
        var_alloc(input, pos, m, next).0[k] == m[k],
    decreases input.len() - pos,
{
    if pos < input.len() {
        lemma_scan_advances(input, pos, LineAcc::init(), State::StartLine);
        let r = scan(input, pos, LineAcc::init(), State::StartLine);
        if r.line.kind == CommandType::A && !is_decimal(r.line.addr) && !m.contains_key(
            r.line.addr,
        ) {
            lemma_var_alloc_preserves(
                input,
                r.end,
                m.insert(r.line.addr, bin_of(next % 0x10000, 16)),
                next + 1,
                k,
            );
        } else {
            lemma_var_alloc_preserves(input, r.end, m, next, k);
        }
    }
}

/// The next free address never goes down.
pub proof fn lemma_var_alloc_next_grows(
    input: Seq<char>,
    pos: nat,
    m: Map<Seq<char>, Seq<char>>,
    next: nat,
)
    requires
        pos <= input.len(),
    ensures
        var_alloc(input, pos, m, next).1 >= next,
    decreases input.len() - pos,
{
    if pos < input.len() {
        lemma_scan_advances(input, pos, LineAcc::init(), State::StartLine);
        let r = scan(input, pos, LineAcc::init(), State::StartLine);
        if r.line.kind == CommandType::A && !is_decimal(r.line.addr) && !m.contains_key(
            r.line.addr,
        ) {
            lemma_var_alloc_next_grows(
                input,
                r.end,
                m.insert(r.line.addr, bin_of(next % 0x10000, 16)),
                next + 1,
            );
        } else {
            lemma_var_alloc_next_grows(input, r.end, m, next);
        }
    }
}

/// The variable pass: allocates a fresh address to every address operand
/// that is neither a numeric literal nor already bound, 16 first and each
/// further distinct name one higher.  It fails, leaving no output valid,
/// only when the addresses run out.
pub fn variable_pass(p: &mut Parser, s: &mut SymbolTable) -> (r: Result<(), AsmError>)
    requires
        old(p).wf(),
        old(s).wf(),
        old(s).variable_offset == 16,
        old(s).variable_count <= 0xfff0,
    ensures
        final(p).wf(),
        final(s).wf(),
        final(p).input@ == old(p).input@,
        ({
            let va = var_alloc(
                old(p).input@,
                old(p).pos as nat,
                old(s)@,
                old(s).variable_offset as nat + old(s).variable_count as nat,
            );
            match r {
                Ok(u) => {
                    &&& va.1 <= 0x10000
                    &&& final(s)@ == va.0
                    &&& final(s).variable_offset == 16
                    &&& final(s).variable_offset as nat + final(s).variable_count as nat == va.1
                    &&& final(p).pos == final(p).input@.len()
                },
                Err(e) => va.1 > 0x10000 && e@ == EmitError::TooManyVariables,
            }
        }),
{
    let ghost va = var_alloc(
        p.input@,
        p.pos as nat,
        s@,
        s.variable_offset as nat + s.variable_count as nat,
    );
    while !p.eof()
        invariant
            p.wf(),
            s.wf(),
            p.input@ == old(p).input@,
            s.variable_offset == 16,
            s.variable_count <= 0xfff0,
            var_alloc(
                p.input@,
                p.pos as nat,
                s@,
                s.variable_offset as nat + s.variable_count as nat,
            ) == va,
            va == var_alloc(
                old(p).input@,
                old(p).pos as nat,
                old(s)@,
                old(s).variable_offset as nat + old(s).variable_count as nat,
            ),
        decreases p.input@.len() - p.pos,
    {
        let ghost pos0 = p.pos as nat;
        let ghost m0 = s@;
        let ghost next0 = s.variable_offset as nat + s.variable_count as nat;
        let ghost r = scan(p.input@, pos0, LineAcc::init(), State::StartLine);
        proof {
            lemma_scan_advances(p.input@, pos0, LineAcc::init(), State::StartLine);
        }
        p.advance();
        if p.command_type == CommandType::A && !SymbolTable::is_address(&p.addr) {
            if s.get(&p.addr).is_none() {
                if s.variable_count >= 0xfff0 {
                    proof {
                        lemma_var_alloc_next_grows(
                            p.input@,
                            r.end,
                            m0.insert(r.line.addr, bin_of(next0 % 0x10000, 16)),
                            next0 + 1,
                        );
                        assert(va.1 >= next0 + 1);
                    }
                    return Err(AsmError::TooManyVariables);
                }
                proof {
                    vstd::arithmetic::div_mod::lemma_small_mod(next0, 0x10000);
                }
                s.insert_variable(&p.addr);
            }
        }
    }
    Ok(())
}

/// The texts held by a sequence of character vectors.
pub open spec fn texts_of(rows: Seq<Vec<char>>) -> Seq<Seq<char>> {
    Seq::new(rows.len(), |i: int| rows[i]@)
}

/// What one classified line contributes to the output, with `count_after`
/// the instruction count just past it and `m` the finished symbol table:
/// an address line the binary numeral of its literal or resolved operand, a
/// compute line the `111` opcode followed by its three encoded fields, any
/// other line nothing.  A line that resolves or encodes no further is the
/// run's fatal error.
pub open spec fn emit_line(line: LineAcc, count_after: nat, m: Map<Seq<char>, Seq<char>>) -> Result<
    Option<Seq<char>>,
    EmitError,
> {
    if line.kind == CommandType::A {
        if is_decimal(line.addr) {
            Ok(Some(bin_of(dec_val(line.addr) % 0x10000, 16)))
        } else if m.contains_key(line.addr) {
            Ok(Some(m[line.addr]))
        } else {
            Err(EmitError::UnknownSymbol(count_after, line.addr))
        }
    } else if line.kind == CommandType::C {
        if comp_code(line.comp) is None {
            Err(EmitError::InvalidComp(line.comp))
        } else if dest_code(line.dest) is None {
            Err(EmitError::InvalidDest(line.dest))
        } else if jump_code(line.jump) is None {
            Err(EmitError::InvalidJump(line.jump))
        } else {
            Ok(
                Some(
                    "111"@ + comp_code(line.comp).unwrap() + dest_code(line.dest).unwrap()
                        + jump_code(line.jump).unwrap(),
                ),
            )
        }
    } else {
        Ok(None)
    }
}

/// Puts emitted lines in front of a later outcome; an error stands as it is.
pub open spec fn prepend_ok(
    front: Seq<Seq<char>>,
    r: Result<Seq<Seq<char>>, EmitError>,
) -> Result<Seq<Seq<char>>, EmitError> {
    match r {
        Ok(t) => Ok(front + t),
        Err(e) => Err(e),
    }
}

/// The assemble pass's outcome from `pos` on: every line's contribution in
/// source order, or the first line's error.
pub open spec fn emit_from(
    input: Seq<char>,
    pos: nat,
    count: nat,
    m: Map<Seq<char>, Seq<char>>,
) -> Result<Seq<Seq<char>>, EmitError>
    decreases input.len() - pos,
    when pos <= input.len()
    via emit_from_decreases
{
    if pos >= input.len() {
        Ok(Seq::empty())
    } else {
        let r = scan(input, pos, LineAcc::init(), State::StartLine);
        let c2 = count + if r.counted {
            1nat
        } else {
            0nat
        };
        match emit_line(r.line, c2, m) {
            Err(e) => Err(e),
            Ok(None) => emit_from(input, r.end, c2, m),
            Ok(Some(row)) => prepend_ok(seq![row], emit_from(input, r.end, c2, m)),
        }
    }
}

#[via_fn]
proof fn emit_from_decreases(input: Seq<char>, pos: nat, count: nat, m: Map<Seq<char>, Seq<char>>) {
    if pos < input.len() {
        lemma_scan_advances(input, pos, LineAcc::init(), State::StartLine);
    }
}

/// The assemble pass: emits, in source order, one 16-character binary line
/// per address or compute instruction, resolving operands through the
/// finished table and mnemonics through the encoding tables; the first line
/// that cannot be resolved or encoded aborts the pass with its error.
pub fn assemble_pass(p: &mut Parser, l: &CommandLookup, s: &SymbolTable) -> (r: Result<
    Vec<Vec<char>>,
    AsmError,
>)
    requires
        old(p).wf(),
        s.wf(),
    ensures
        final(p).wf(),
        final(p).input@ == old(p).input@,
        ({
            let e0 = emit_from(old(p).input@, old(p).pos as nat, old(p).count as nat, s@);
            match r {
                Ok(out) => e0 == Ok::<Seq<Seq<char>>, EmitError>(texts_of(out@)),
                Err(e) => e0 == Err::<Seq<Seq<char>>, EmitError>(e@),
            }
        }),
{
    let ghost e0 = emit_from(p.input@, p.pos as nat, p.count as nat, s@);
    let mut out: Vec<Vec<char>> = Vec::new();
    while !p.eof()
        invariant
            p.wf(),
            s.wf(),
            p.input@ == old(p).input@,
            e0 == emit_from(old(p).input@, old(p).pos as nat, old(p).count as nat, s@),
            prepend_ok(
                texts_of(out@),
                emit_from(p.input@, p.pos as nat, p.count as nat, s@),
            ) == e0,
        decreases p.input@.len() - p.pos,
    {
        let ghost pos0 = p.pos as nat;
        let ghost cnt0 = p.count as nat;
        let ghost out0 = out@;
        let ghost r = scan(p.input@, pos0, LineAcc::init(), State::StartLine);
        proof {
            lemma_scan_advances(p.input@, pos0, LineAcc::init(), State::StartLine);
        }
        let ghost c2 = cnt0 + if r.counted {
            1nat
        } else {
            0nat
        };
        let ghost rest = emit_from(p.input@, r.end, c2, s@);
        p.advance();
        if p.command_type == CommandType::A {
            if SymbolTable::is_address(&p.addr) {
                let addr = SymbolTable::u16_to_bin(SymbolTable::string_to_u16(&p.addr));
                out.push(addr);
                proof {
                    assert(emit_line(r.line, c2, s@) == Ok::<Option<Seq<char>>, EmitError>(
                        Some(bin_of(dec_val(r.line.addr) % 0x10000, 16)),
                    ));
                    assert(texts_of(out@) =~= texts_of(out0) + seq![
                        bin_of(dec_val(r.line.addr) % 0x10000, 16),
                    ]);
                    lemma_prepend_shift(
                        texts_of(out0),
                        bin_of(dec_val(r.line.addr) % 0x10000, 16),
                        rest,
                    );
                }
            } else {
                match s.get(&p.addr) {
                    Some(addr) => {
                        let row = copy_text(addr);
                        out.push(row);
                        proof {
                            assert(texts_of(out@) =~= texts_of(out0) + seq![s@[r.line.addr]]);
                            lemma_prepend_shift(texts_of(out0), s@[r.line.addr], rest);
                        }
                    },
                    None => {
                        return Err(
                            AsmError::UnknownSymbol { index: p.count, text: copy_text(&p.addr) },
                        );
                    },
                }
            }
        } else if p.command_type == CommandType::C {
            let cc = match l.comp(&p.comp) {
                Some(f) => f,
                None => {
                    return Err(AsmError::InvalidComp { text: copy_text(&p.comp) });
                },
            };
            let dc = match l.dest(&p.dest) {
                Some(f) => f,
                None => {
                    return Err(AsmError::InvalidDest { text: copy_text(&p.dest) });
                },
            };
            let jc = match l.jump(&p.jump) {
                Some(f) => f,
                None => {
                    return Err(AsmError::InvalidJump { text: copy_text(&p.jump) });
                },
            };
            let mut row = crate::text::text_of("111");
            let mut cc = cc;
            let mut dc = dc;
            let mut jc = jc;
            row.append(&mut cc);
            row.append(&mut dc);
            row.append(&mut jc);
            let ghost rv = row@;
            out.push(row);
            proof {
                assert(emit_line(r.line, c2, s@) == Ok::<Option<Seq<char>>, EmitError>(Some(rv)));
                assert(texts_of(out@) =~= texts_of(out0) + seq![rv]);
                lemma_prepend_shift(texts_of(out0), rv, rest);
            }
        }
    }
    proof {
        assert(emit_from(p.input@, p.pos as nat, p.count as nat, s@) == Ok::<
            Seq<Seq<char>>,
            EmitError,
        >(Seq::empty()));
        assert(texts_of(out@) + Seq::<Seq<char>>::empty() =~= texts_of(out@));
    }
    Ok(out)
}

/// Moving one emitted line from the tail's front to the front's back keeps
/// the outcome.
proof fn lemma_prepend_shift(front: Seq<Seq<char>>, row: Seq<char>, r: Result<
    Seq<Seq<char>>,
    EmitError,
>)
    ensures
        prepend_ok(front + seq![row], r) == prepend_ok(front, prepend_ok(seq![row], r)),
{
    match r {
        Ok(t) => {
            assert((front + seq![row]) + t =~= front + (seq![row] + t));
        },
        Err(e) => {
        },
    }
}

/// A table every value of which is a 16-character binary numeral.
pub open spec fn binary_table(m: Map<Seq<char>, Seq<char>>) -> bool {
    forall|k: Seq<char>|
        #[trigger] m.contains_key(k) ==> m[k].len() == 16 && crate::numeral::is_bits(m[k])
}

/// The predefined names are bound to 16-character binary numerals.
pub proof fn lemma_predefined_binary()
    ensures
        binary_table(predefined_symbols()),
{
    lemma_bin_of_chars(0, 16);
    lemma_bin_of_chars(1, 16);
    lemma_bin_of_chars(2, 16);
    lemma_bin_of_chars(3, 16);
    lemma_bin_of_chars(4, 16);
    lemma_bin_of_chars(5, 16);
    lemma_bin_of_chars(6, 16);
    lemma_bin_of_chars(7, 16);
    lemma_bin_of_chars(8, 16);
    lemma_bin_of_chars(9, 16);
    lemma_bin_of_chars(10, 16);
    lemma_bin_of_chars(11, 16);
    lemma_bin_of_chars(12, 16);
    lemma_bin_of_chars(13, 16);
    lemma_bin_of_chars(14, 16);
    lemma_bin_of_chars(15, 16);
    lemma_bin_of_chars(16384, 16);
    lemma_bin_of_chars(24576, 16);
}

/// The label pass binds only 16-character binary numerals.
pub proof fn lemma_label_bindings_binary(input: Seq<char>, pos: nat, count: nat)
    requires
        pos <= input.len(),
    ensures
        binary_table(label_bindings(input, pos, count)),
    decreases input.len() - pos,
{
    if pos < input.len() {
        lemma_scan_advances(input, pos, LineAcc::init(), State::StartLine);
        let r = scan(input, pos, LineAcc::init(), State::StartLine);
        lemma_label_bindings_binary(
            input,
            r.end,
            count + if r.counted {
                1nat
            } else {
                0nat
            },
        );
        lemma_bin_of_chars(count % 0x10000, 16);
    }
}

/// The variable pass binds only 16-character binary numerals.
pub proof fn lemma_var_alloc_binary(
    input: Seq<char>,
    pos: nat,
    m: Map<Seq<char>, Seq<char>>,
    next: nat,
)
    requires
        pos <= input.len(),
        binary_table(m),
    ensures
        binary_table(var_alloc(input, pos, m, next).0),
    decreases input.len() - pos,
{
    if pos < input.len() {
        lemma_scan_advances(input, pos, LineAcc::init(), State::StartLine);
        let r = scan(input, pos, LineAcc::init(), State::StartLine);
        if r.line.kind == CommandType::A && !is_decimal(r.line.addr) && !m.contains_key(
            r.line.addr,
        ) {
            lemma_bin_of_chars(next % 0x10000, 16);
            lemma_var_alloc_binary(
                input,
                r.end,
                m.insert(r.line.addr, bin_of(next % 0x10000, 16)),
                next + 1,
            );
        } else {
            lemma_var_alloc_binary(input, r.end, m, next);
        }
    }
}

/// Over a table of binary numerals, every emitted line is exactly 16
/// characters, each `'0'` or `'1'`.
pub proof fn lemma_emit_from_binary(
    input: Seq<char>,
    pos: nat,
    count: nat,
    m: Map<Seq<char>, Seq<char>>,
)
    requires
        pos <= input.len(),
        binary_table(m),
    ensures
        emit_from(input, pos, count, m) matches Ok(t) ==> forall|i: int|
            0 <= i < t.len() ==> (#[trigger] t[i]).len() == 16 && crate::numeral::is_bits(t[i]),
    decreases input.len() - pos,
{
    if pos < input.len() {
        lemma_scan_advances(input, pos, LineAcc::init(), State::StartLine);
        let r = scan(input, pos, LineAcc::init(), State::StartLine);
        let c2 = count + if r.counted {
            1nat
        } else {
            0nat
        };
        lemma_emit_from_binary(input, r.end, c2, m);
        match emit_line(r.line, c2, m) {
            Err(e) => {
            },
            Ok(None) => {
            },
            Ok(Some(row)) => {
                assert(row.len() == 16 && crate::numeral::is_bits(row)) by {
                    if r.line.kind == CommandType::A {
                        if is_decimal(r.line.addr) {
                            lemma_bin_of_chars(dec_val(r.line.addr) % 0x10000, 16);
                        }
                    } else {
                        reveal_strlit("111");
                        crate::commands::lemma_comp_code_bits(r.line.comp);
                        crate::commands::lemma_dest_code_bits(r.line.dest);
                        crate::commands::lemma_jump_code_bits(r.line.jump);
                    }
                }
            },
        }
    }
}

/// Every line of a successful translation is exactly 16 characters, each
/// `'0'` or `'1'`.
pub proof fn lemma_output_format(source: Seq<char>)
    ensures
        assemble_spec(source) matches Ok(t) ==> forall|i: int|
            0 <= i < t.len() ==> (#[trigger] t[i]).len() == 16 && crate::numeral::is_bits(t[i]),
{
    let lm = predefined_symbols().union_prefer_right(label_bindings(source, 0, 0));
    lemma_predefined_binary();
    lemma_label_bindings_binary(source, 0, 0);
    assert(binary_table(lm));
    lemma_var_alloc_binary(source, 0, lm, 16);
    lemma_emit_from_binary(source, 0, 0, var_alloc(source, 0, lm, 16).0);
}

/// The whole translation of one source text: the label pass's bindings over
/// the predefined names, then the variable pass's allocations, then every
/// line's emitted instruction — or the first fatal error.
pub open spec fn assemble_spec(input: Seq<char>) -> Result<Seq<Seq<char>>, EmitError> {
    let lm = predefined_symbols().union_prefer_right(label_bindings(input, 0, 0));
    let va = var_alloc(input, 0, lm, 16);
    if va.1 > 0x10000 {
        Err(EmitError::TooManyVariables)
    } else {
        emit_from(input, 0, 0, va.0)
    }
}

/// Translates one complete source: three passes over the same text, sharing
/// one parser and one symbol table, and either every instruction's binary
/// line in source order or the run's first fatal error — never partial
/// output.
pub fn assemble(source: Vec<char>) -> (r: Result<Vec<Vec<char>>, AsmError>)
    ensures
        match r {
            Ok(out) => assemble_spec(source@) == Ok::<Seq<Seq<char>>, EmitError>(texts_of(out@)),
            Err(e) => assemble_spec(source@) == Err::<Seq<Seq<char>>, EmitError>(e@),
        },
{
    let mut p = Parser::new(source);
    let l = CommandLookup::new();
    let mut s = SymbolTable::new();
    label_pass(&mut p, &mut s);
    p.reset();
    let vr = variable_pass(&mut p, &mut s);
    match vr {
        Err(e) => {
            return Err(e);
        },
        Ok(u) => {},
    }
    p.reset();
    assemble_pass(&mut p, &l, &s)
}

} // verus!

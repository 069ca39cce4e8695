//! The two-pass resolver: pass 1 walks the source lines, collecting labels
//! and building the ordered intermediate representation; pass 2 walks the
//! IR, resolving symbols (allocating fresh variable slots in first-use
//! order) and encoding each entry into one binary word.
//!
//! The resolver is an explicit value owning the symbol table, the variable
//! cursor and a traversal position, exposing a single-step operation and a
//! run-to-completion operation. Every error of this path is fatal: the run
//! stops and commits no further output.

use vstd::prelude::*;
use crate::encoder::EncodeOutcome;
use crate::encoder::encode_instruction;
use crate::encoder::encode_one;
use crate::words::is_digits;
use crate::words::word_bits;
use crate::errors::ErrorView;
use crate::errors::RhasmError;
use crate::instruction::Instruction;
use crate::instruction::InstructionView;
use crate::instruction::ir_view;
use crate::parser::LineView;
use crate::parser::ParsedLine;
use crate::parser::classify;
use crate::parser::parse_line;
use crate::symbols::SymbolTable;
use crate::symbols::predefined_symbols;
use crate::text::normalize_line;
use crate::text::normalize_spec;

verus! {

/// What the first pass yields: the IR and the label-extended table, or the
/// first grammar error.
#[verifier::ext_equal]
pub enum PassOutcome {
    /// The ordered IR and the symbol table after label collection.
    Parsed { ir: Seq<InstructionView>, table: Map<Seq<char>, u16> },
    /// The first normalized, non-empty line matching no instruction form.
    Rejected { line: int, text: Seq<char> },
}

/// The first pass from line `i` on, given the IR and table built so far:
/// a blank line is skipped, an address or compute line appends one IR
/// entry, a label binds the name to the IR length at that point (a later
/// declaration of the same name wins), and an invalid line rejects the
/// source.
pub open spec fn pass1_from(
    lines: Seq<Seq<char>>,
    i: int,
    ir: Seq<InstructionView>,
    table: Map<Seq<char>, u16>,
) -> PassOutcome
    decreases lines.len() - i,
    when 0 <= i <= lines.len()
{
    if i >= lines.len() {
        PassOutcome::Parsed { ir, table }
    } else {
        match classify(normalize_spec(lines[i])) {
            LineView::Blank => pass1_from(lines, i + 1, ir, table),
            LineView::Address(s) => pass1_from(
                lines,
                i + 1,
                ir.push(InstructionView::Address(s)),
                table,
            ),
            LineView::Compute(d, c, j) => pass1_from(
                lines,
                i + 1,
                ir.push(InstructionView::Compute(d, c, j)),
                table,
            ),
            LineView::Label(name) => pass1_from(
                lines,
                i + 1,
                ir,
                table.insert(name, ir.len() as u16),
            ),
            LineView::Invalid => PassOutcome::Rejected { line: i, text: normalize_spec(lines[i]) },
        }
    }
}

/// The whole first pass: all lines, from the predefined table.
pub open spec fn pass1(lines: Seq<Seq<char>>) -> PassOutcome {
    pass1_from(lines, 0, Seq::empty(), predefined_symbols())
}

/// What the resolve-and-encode walk yields: the emitted words in IR order
/// and the final table state, or the words emitted before the first fatal
/// error together with its position.
#[verifier::ext_equal]
pub enum RunOutcome {
    /// One word per IR entry, in IR order, and the final table state.
    Finished { words: Seq<Seq<char>>, table: Map<Seq<char>, u16>, cursor: u16 },
    /// The walk failed at entry `at`; `words` are the words of the entries
    /// before it, which the run-to-completion operation discards.
    Failed {
        words: Seq<Seq<char>>,
        at: int,
        err: ErrorView,
        table: Map<Seq<char>, u16>,
        cursor: u16,
    },
}

/// Prepends already-emitted words to the outcome of the rest of a walk.
pub open spec fn prepend_words(ws: Seq<Seq<char>>, o: RunOutcome) -> RunOutcome {
    match o {
        RunOutcome::Finished { words, table, cursor } => RunOutcome::Finished {
            words: ws + words,
            table,
            cursor,
        },
        RunOutcome::Failed { words, at, err, table, cursor } => RunOutcome::Failed {
            words: ws + words,
            at,
            err,
            table,
            cursor,
        },
    }
}

/// The resolve-and-encode walk over `ir` from entry `i` on, given the table
/// state.
pub open spec fn run_from(
    ir: Seq<InstructionView>,
    i: int,
    table: Map<Seq<char>, u16>,
    cursor: u16,
) -> RunOutcome
    decreases ir.len() - i,
    when 0 <= i <= ir.len()
{
    if i >= ir.len() {
        RunOutcome::Finished { words: Seq::empty(), table, cursor }
    } else {
        match encode_one(ir[i], table, cursor) {
            EncodeOutcome::Failed { err } => RunOutcome::Failed {
                words: Seq::empty(),
                at: i,
                err,
                table,
                cursor,
            },
            EncodeOutcome::Emitted { word, table: t2, cursor: c2 } => prepend_words(
                seq![word],
                run_from(ir, i + 1, t2, c2),
            ),
        }
    }
}

/// Prepending distributes over itself: already-emitted words, then one more
/// word, then the rest.
proof fn lemma_prepend_assoc(ws: Seq<Seq<char>>, w: Seq<char>, o: RunOutcome)
    ensures
        prepend_words(ws, prepend_words(seq![w], o)) == prepend_words(ws.push(w), o),
{
    match o {
        RunOutcome::Finished { words, table, cursor } => {
            assert(ws + (seq![w] + words) =~= ws.push(w) + words);
        },
        RunOutcome::Failed { words, at, err, table, cursor } => {
            assert(ws + (seq![w] + words) =~= ws.push(w) + words);
        },
    }
}

/// The words joined by single line breaks, with no trailing break.
pub open spec fn join_lines(ws: Seq<Seq<char>>) -> Seq<char>
    decreases ws.len(),
{
    if ws.len() == 0 {
        Seq::empty()
    } else if ws.len() == 1 {
        ws[0]
    } else {
        join_lines(ws.drop_last()) + seq!['\n'] + ws.last()
    }
}

/// The two-pass resolver. It owns the source lines, the IR, the symbol
/// table, the variable cursor, a traversal position and the output sink.
#[derive(Debug)]
pub struct Assembler {
    /// The source lines handed to [`Assembler::build`].
    pub lines: Vec<String>,
    /// How many source lines the first pass has consumed.
    pub cur_line: usize,
    /// The variable allocation cursor: initialized to 16, advanced by one
    /// per newly seen symbol, never reset.
    pub cur_ram: u16,
    /// The traversal position of the encode walk.
    pub cur_instruction: usize,
    /// The symbol table, populated with the predefined symbols and the
    /// labels during [`Assembler::build`], and extended with variables
    /// during the encode walk.
    pub symbol_table: SymbolTable,
    /// The ordered IR built during [`Assembler::build`]; read-only (besides
    /// the traversal position) during the encode walk.
    pub instructions: Vec<Instruction>,
    /// The output sink: each chunk is to be terminated by one line break.
    pub out: Vec<String>,
}

impl Assembler {
    /// Well-formedness: the table holds 15-bit addresses, the position is
    /// within the IR, and the cursor can still serve one fresh variable per
    /// remaining entry without leaving the 15-bit address space.
    pub open spec fn wf(&self) -> bool {
        &&& self.symbol_table.wf()
        &&& 0 <= self.cur_instruction <= self.instructions@.len()
        &&& self.cur_ram as int + (self.instructions@.len() - self.cur_instruction) <= 0x8000
    }

    /// Runs the first pass over the given source lines: collects labels,
    /// builds the IR, and rejects the source at the first invalid line,
    /// exactly as [`pass1`] describes. The line bound keeps every label
    /// index and variable address inside the 15-bit address space.
    pub fn build(lines: Vec<String>) -> (r: Result<Assembler, RhasmError>)
        requires
            lines@.len() <= 32752,
        ensures
            match pass1(lines.deep_view()) {
                PassOutcome::Parsed { ir, table } => r matches Ok(a) && {
                    &&& ir_view(a.instructions@) == ir
                    &&& a.symbol_table@ == table
                    &&& a.wf()
                    &&& a.cur_ram == 16
                    &&& a.cur_instruction == 0
                    &&& a.out@.len() == 0
                    &&& a.lines.deep_view() == lines.deep_view()
                    &&& a.cur_line == lines@.len()
                },
                PassOutcome::Rejected { line, text } => r matches Err(e) && e@ == (
                ErrorView::Grammar { line, text }),
            },
    {
        let mut symbol_table = SymbolTable::with_defaults();
        let mut instructions: Vec<Instruction> = Vec::new();
        proof {
            assert(ir_view(instructions@) =~= Seq::<InstructionView>::empty());
        }
        let n = lines.len();
        let mut i: usize = 0;
        while i < n
            invariant
                0 <= i <= n,
                n == lines@.len(),
                n <= 32752,
                instructions@.len() <= i,
                symbol_table.wf(),
                pass1(lines.deep_view()) == pass1_from(
                    lines.deep_view(),
                    i as int,
                    ir_view(instructions@),
                    symbol_table@,
                ),
            decreases n - i,
        {
            proof {
                assert(lines.deep_view()[i as int] == lines@[i as int]@);
            }
            let norm = normalize_line(lines[i].as_str());
            let parsed = parse_line(norm);
            let ghost pre_ir = ir_view(instructions@);
            match parsed {
                ParsedLine::Blank => {},
                ParsedLine::Address(s) => {
                    instructions.push(Instruction::AInstruction(s));
                    proof {
                        assert(ir_view(instructions@) =~= pre_ir.push(
                            InstructionView::Address(classify(normalize_spec(
                                lines.deep_view()[i as int],
                            ))->Address_0),
                        ));
                    }
                },
                ParsedLine::Compute(d, c, j) => {
                    instructions.push(Instruction::CInstruction(d, c, j));
                    proof {
                        assert(ir_view(instructions@) =~= pre_ir.push(
                            ir_view(instructions@).last(),
                        ));
                    }
                },
                ParsedLine::Label(name) => {
                    let v = instructions.len() as u16;
                    symbol_table.insert(name, v);
                },
                ParsedLine::Invalid => {
                    return Err(
                        RhasmError::GrammarError { line: i, text: norm.to_owned() },
                    );
                },
            }
            i = i + 1;
        }
        Ok(
            Assembler {
                lines,
                cur_line: n,
                cur_ram: 16,
                cur_instruction: 0,
                symbol_table,
                instructions,
                out: Vec::new(),
            },
        )
    }

    /// Whether the first pass has more source lines to read. After
    /// [`Assembler::build`] every line has been consumed.
    pub fn can_read_more_instructions(&self) -> (b: bool)
        ensures
            b == (self.cur_line < self.lines@.len()),
    {
        self.cur_line < self.lines.len()
    }

    /// The chunks written to the output sink so far.
    pub fn output_lines(&self) -> (r: &Vec<String>)
        ensures
            r == &self.out,
    {
        &self.out
    }

    /// Encodes the next IR entry and advances the traversal position,
    /// exactly as one step of [`run_from`] describes. `Ok(None)` is the
    /// normal termination signal at the end of the IR; a fatal error leaves
    /// the whole state unchanged.
    pub fn get_next_encoded_instruction(&mut self) -> (r: Result<Option<String>, RhasmError>)
        requires
            old(self).wf(),
        ensures
            final(self).wf(),
            final(self).lines == old(self).lines,
            final(self).cur_line == old(self).cur_line,
            final(self).instructions == old(self).instructions,
            final(self).out == old(self).out,
            ({
                let ir = ir_view(old(self).instructions@);
                if old(self).cur_instruction >= ir.len() {
                    &&& r matches Ok(o) && o is None
                    &&& final(self).symbol_table@ == old(self).symbol_table@
                    &&& final(self).cur_ram == old(self).cur_ram
                    &&& final(self).cur_instruction == old(self).cur_instruction
                } else {
                    match encode_one(
                        ir[old(self).cur_instruction as int],
                        old(self).symbol_table@,
                        old(self).cur_ram,
                    ) {
                        EncodeOutcome::Emitted { word, table, cursor } => {
                            &&& r matches Ok(o) && o matches Some(s) && s@ == word
                            &&& final(self).symbol_table@ == table
                            &&& final(self).cur_ram == cursor
                            &&& final(self).cur_instruction == old(self).cur_instruction + 1
                        },
                        EncodeOutcome::Failed { err } => {
                            &&& r matches Err(e) && e@ == err
                            &&& final(self).symbol_table@ == old(self).symbol_table@
                            &&& final(self).cur_ram == old(self).cur_ram
                            &&& final(self).cur_instruction == old(self).cur_instruction
                        },
                    }
                }
            }),
    {
        if self.cur_instruction >= self.instructions.len() {
            return Ok(None);
        }
        let inst = &self.instructions[self.cur_instruction];
        proof {
            assert(ir_view(self.instructions@)[self.cur_instruction as int] == inst@);
        }
        match encode_instruction(inst, &mut self.symbol_table, &mut self.cur_ram) {
            Ok(word) => {
                self.cur_instruction = self.cur_instruction + 1;
                Ok(Some(word))
            },
            Err(e) => Err(e),
        }
    }

    /// Encodes the next IR entry and writes it to the output sink as one
    /// chunk; at the end of the IR nothing is written.
    pub fn advance_once(&mut self) -> (r: Result<(), RhasmError>)
        requires
            old(self).wf(),
        ensures
            final(self).wf(),
            final(self).lines == old(self).lines,
            final(self).cur_line == old(self).cur_line,
            final(self).instructions == old(self).instructions,
            ({
                let ir = ir_view(old(self).instructions@);
                if old(self).cur_instruction >= ir.len() {
                    &&& r is Ok
                    &&& final(self).out == old(self).out
                    &&& final(self).symbol_table@ == old(self).symbol_table@
                    &&& final(self).cur_ram == old(self).cur_ram
                    &&& final(self).cur_instruction == old(self).cur_instruction
                } else {
                    match encode_one(
                        ir[old(self).cur_instruction as int],
                        old(self).symbol_table@,
                        old(self).cur_ram,
                    ) {
                        EncodeOutcome::Emitted { word, table, cursor } => {
                            &&& r is Ok
                            &&& final(self).out.deep_view() == old(self).out.deep_view().push(word)
                            &&& final(self).symbol_table@ == table
                            &&& final(self).cur_ram == cursor
                            &&& final(self).cur_instruction == old(self).cur_instruction + 1
                        },
                        EncodeOutcome::Failed { err } => {
                            &&& r matches Err(e) && e@ == err
                            &&& final(self).out == old(self).out
                            &&& final(self).symbol_table@ == old(self).symbol_table@
                            &&& final(self).cur_ram == old(self).cur_ram
                            &&& final(self).cur_instruction == old(self).cur_instruction
                        },
                    }
                }
            }),
    {
        match self.get_next_encoded_instruction() {
            Ok(Some(word)) => {
                let ghost pre = self.out.deep_view();
                self.out.push(word);
                proof {
                    assert(self.out.deep_view() =~= pre.push(self.out@.last()@));
                }
                Ok(())
            },
            Ok(None) => Ok(()),
            Err(e) => Err(e),
        }
    }

    /// Runs the encode walk to the end of the IR and writes all words at
    /// once to the output sink: one chunk holding the words joined by
    /// single line breaks. A fatal error commits no output at all.
    pub fn advance_to_end(&mut self) -> (r: Result<(), RhasmError>)
        requires
            old(self).wf(),
        ensures
            final(self).wf(),
            final(self).lines == old(self).lines,
            final(self).cur_line == old(self).cur_line,
            final(self).instructions == old(self).instructions,
            ({
                let ir = ir_view(old(self).instructions@);
                match run_from(
                    ir,
                    old(self).cur_instruction as int,
                    old(self).symbol_table@,
                    old(self).cur_ram,
                ) {
                    RunOutcome::Finished { words, table, cursor } => {
                        &&& r is Ok
                        &&& final(self).out.deep_view() == old(self).out.deep_view().push(
                            join_lines(words),
                        )
                        &&& final(self).symbol_table@ == table
                        &&& final(self).cur_ram == cursor
                        &&& final(self).cur_instruction == ir.len()
                    },
                    RunOutcome::Failed { words, at, err, table, cursor } => {
                        &&& r matches Err(e) && e@ == err
                        &&& final(self).out == old(self).out
                        &&& final(self).symbol_table@ == table
                        &&& final(self).cur_ram == cursor
                        &&& final(self).cur_instruction == at
                    },
                }
            }),
    {
        let ghost ir = ir_view(self.instructions@);
        let ghost ws: Seq<Seq<char>> = Seq::empty();
        let mut buffer = String::new();
        let mut first = true;
        loop
            invariant_except_break
                self.wf(),
                self.lines == old(self).lines,
                self.cur_line == old(self).cur_line,
                self.instructions == old(self).instructions,
                self.out == old(self).out,
                ir == ir_view(self.instructions@),
                first <==> ws.len() == 0,
                buffer@ == join_lines(ws),
                run_from(
                    ir,
                    old(self).cur_instruction as int,
                    old(self).symbol_table@,
                    old(self).cur_ram,
                ) == prepend_words(
                    ws,
                    run_from(ir, self.cur_instruction as int, self.symbol_table@, self.cur_ram),
                ),
            ensures
                self.wf(),
                self.lines == old(self).lines,
                self.cur_line == old(self).cur_line,
                self.instructions == old(self).instructions,
                self.out == old(self).out,
                match run_from(
                    ir,
                    old(self).cur_instruction as int,
                    old(self).symbol_table@,
                    old(self).cur_ram,
                ) {
                    RunOutcome::Finished { words, table, cursor } => {
                        &&& buffer@ == join_lines(words)
                        &&& self.symbol_table@ == table
                        &&& self.cur_ram == cursor
                        &&& self.cur_instruction == ir.len()
                    },
                    RunOutcome::Failed { .. } => false,
                },
            decreases ir.len() - self.cur_instruction,
        {
            let ghost pos = self.cur_instruction as int;
            let ghost t_prev = self.symbol_table@;
            let ghost c_prev = self.cur_ram;
            match self.get_next_encoded_instruction() {
                Ok(Some(word)) => {
                    if !first {
                        buffer.append("\n");
                        proof {
                            reveal_strlit("\n");
                        }
                    }
                    first = false;
                    buffer.append(word.as_str());
                    proof {
                        let rest = run_from(
                            ir,
                            self.cur_instruction as int,
                            self.symbol_table@,
                            self.cur_ram,
                        );
                        assert(run_from(ir, pos, t_prev, c_prev) == prepend_words(
                            seq![word@],
                            rest,
                        ));
                        lemma_prepend_assoc(ws, word@, rest);
                        if ws.len() == 0 {
                            assert(ws.push(word@)[0] == word@);
                            assert(join_lines(ws.push(word@)) == word@);
                            assert(buffer@ =~= word@);
                        } else {
                            assert(ws.push(word@).drop_last() =~= ws);
                            assert(join_lines(ws.push(word@)) == join_lines(ws) + seq!['\n']
                                + word@);
                            assert(buffer@ =~= join_lines(ws) + seq!['\n'] + word@);
                        }
                        ws = ws.push(word@);
                    }
                },
                Ok(None) => {
                    proof {
                        let o = run_from(
                            ir,
                            self.cur_instruction as int,
                            self.symbol_table@,
                            self.cur_ram,
                        );
                        assert(o == (RunOutcome::Finished {
                            words: Seq::<Seq<char>>::empty(),
                            table: self.symbol_table@,
                            cursor: self.cur_ram,
                        }));
                        assert(ws + Seq::<Seq<char>>::empty() =~= ws);
                    }
                    break;
                },
                Err(e) => {
                    proof {
                        let o = run_from(
                            ir,
                            self.cur_instruction as int,
                            self.symbol_table@,
                            self.cur_ram,
                        );
                        assert(o == (RunOutcome::Failed {
                            words: Seq::<Seq<char>>::empty(),
                            at: pos,
                            err: e@,
                            table: self.symbol_table@,
                            cursor: self.cur_ram,
                        }));
                        assert(ws + Seq::<Seq<char>>::empty() =~= ws);
                    }
                    return Err(e);
                },
            }
        }
        let ghost pre = self.out.deep_view();
        self.out.push(buffer);
        proof {
            assert(self.out.deep_view() =~= pre.push(self.out@.last()@));
        }
        Ok(())
    }
}

/// Law: assembly is deterministic. The first pass is a function of the
/// source lines alone, and the encode walk is a function of the IR and the
/// initial table state alone, so two runs over the same source give
/// identical output words and identical final symbol table contents.
pub proof fn lemma_assembly_deterministic(
    lines: Seq<Seq<char>>,
    ir1: Seq<InstructionView>,
    t1: Map<Seq<char>, u16>,
    ir2: Seq<InstructionView>,
    t2: Map<Seq<char>, u16>,
)
    requires
        pass1(lines) == (PassOutcome::Parsed { ir: ir1, table: t1 }),
        pass1(lines) == (PassOutcome::Parsed { ir: ir2, table: t2 }),
    ensures
        ir1 == ir2,
        t1 == t2,
        run_from(ir1, 0, t1, 16) == run_from(ir2, 0, t2, 16),
{
}

/// Law: a label declaration binds the name to the IR length at the point of
/// its declaration — the index of the next instruction — and occupies no IR
/// slot itself. A later declaration of the same name wins.
pub proof fn lemma_label_binding(
    lines: Seq<Seq<char>>,
    i: int,
    ir: Seq<InstructionView>,
    table: Map<Seq<char>, u16>,
    name: Seq<char>,
)
    requires
        0 <= i < lines.len(),
        classify(normalize_spec(lines[i])) == LineView::Label(name),
    ensures
        pass1_from(lines, i, ir, table) == pass1_from(
            lines,
            i + 1,
            ir,
            table.insert(name, ir.len() as u16),
        ),
{
}

/// Law: resolving a previously-unseen symbol allocates the current cursor
/// value, binds the symbol to it, and advances the cursor by one — so
/// variable addresses are assigned in strict first-use order during the
/// encode walk.
pub proof fn lemma_variable_allocation(s: Seq<char>, table: Map<Seq<char>, u16>, cursor: u16)
    requires
        !is_digits(s),
        !table.dom().contains(s),
        cursor < 0x8000,
    ensures
        encode_one(InstructionView::Address(s), table, cursor) == (EncodeOutcome::Emitted {
            word: word_bits(cursor),
            table: table.insert(s, cursor),
            cursor: (cursor + 1) as u16,
        }),
{
}

/// Law: in a walk whose cursor starts at 16, the first previously-unseen
/// symbol receives address 16 and the second previously-unseen symbol
/// receives address 17, regardless of how many predefined symbols or labels
/// the table holds.
pub proof fn lemma_first_two_variables(s1: Seq<char>, s2: Seq<char>, table: Map<Seq<char>, u16>)
    requires
        !is_digits(s1),
        !is_digits(s2),
        s1 != s2,
        !table.dom().contains(s1),
        !table.dom().contains(s2),
    ensures
        run_from(
            seq![InstructionView::Address(s1), InstructionView::Address(s2)],
            0,
            table,
            16,
        ) == (RunOutcome::Finished {
            words: seq![word_bits(16), word_bits(17)],
            table: table.insert(s1, 16).insert(s2, 17),
            cursor: 18,
        }),
{
    let ir = seq![InstructionView::Address(s1), InstructionView::Address(s2)];
    let t1 = table.insert(s1, 16);
    assert(encode_one(ir[0], table, 16) == (EncodeOutcome::Emitted {
        word: word_bits(16),
        table: t1,
        cursor: 17u16,
    }));
    assert(encode_one(ir[1], t1, 17) == (EncodeOutcome::Emitted {
        word: word_bits(17),
        table: t1.insert(s2, 17),
        cursor: 18u16,
    }));
    assert(run_from(ir, 2, t1.insert(s2, 17), 18) == (RunOutcome::Finished {
        words: Seq::<Seq<char>>::empty(),
        table: t1.insert(s2, 17),
        cursor: 18u16,
    }));
    assert(run_from(ir, 1, t1, 17) =~= (RunOutcome::Finished {
        words: seq![word_bits(17)],
        table: t1.insert(s2, 17),
        cursor: 18u16,
    }));
    assert(seq![word_bits(16)] + seq![word_bits(17)] =~= seq![word_bits(16), word_bits(17)]);
    assert(run_from(ir, 0, table, 16) =~= (RunOutcome::Finished {
        words: seq![word_bits(16), word_bits(17)],
        table: table.insert(s1, 16).insert(s2, 17),
        cursor: 18u16,
    }));
}

/// Law: a symbol already bound in the table — predefined, label, or earlier
/// variable — resolves to its bound value and leaves the table and cursor
/// unchanged.
pub proof fn lemma_bound_symbol_resolution(s: Seq<char>, table: Map<Seq<char>, u16>, cursor: u16)
    requires
        !is_digits(s),
        table.dom().contains(s),
    ensures
        encode_one(InstructionView::Address(s), table, cursor) == (EncodeOutcome::Emitted {
            word: word_bits(table[s]),
            table,
            cursor,
        }),
{
}

/// Law: two address instructions naming the same non-numeric symbol resolve
/// to the same address — whatever the first occurrence resolved to (a prior
/// binding or a fresh allocation), a second occurrence finds that binding
/// and emits the identical word, changing nothing.
pub proof fn lemma_symbol_reuse(s: Seq<char>, table: Map<Seq<char>, u16>, cursor: u16)
    requires
        !is_digits(s),
    ensures
        match encode_one(InstructionView::Address(s), table, cursor) {
            EncodeOutcome::Emitted { word, table: t2, cursor: c2 } => encode_one(
                InstructionView::Address(s),
                t2,
                c2,
            ) == (EncodeOutcome::Emitted { word, table: t2, cursor: c2 }),
            EncodeOutcome::Failed { .. } => false,
        },
{
}

/// A finished walk emits exactly one word per remaining IR entry; a failed
/// one emits one word per entry before the failure.
pub proof fn lemma_run_words_len(
    ir: Seq<InstructionView>,
    i: int,
    table: Map<Seq<char>, u16>,
    cursor: u16,
)
    requires
        0 <= i <= ir.len(),
    ensures
        match run_from(ir, i, table, cursor) {
            RunOutcome::Finished { words, .. } => words.len() == ir.len() - i,
            RunOutcome::Failed { words, at, .. } => i <= at < ir.len() && words.len() == at - i,
        },
    decreases ir.len() - i,
{
    if i < ir.len() {
        match encode_one(ir[i], table, cursor) {
            EncodeOutcome::Emitted { word, table: t2, cursor: c2 } => {
                lemma_run_words_len(ir, i + 1, t2, c2);
            },
            EncodeOutcome::Failed { .. } => {},
        }
    }
}

/// Entries already in the table keep their values through the whole encode
/// walk: the walk only ever adds bindings for previously-unseen symbols.
pub proof fn lemma_run_table_monotonic(
    ir: Seq<InstructionView>,
    i: int,
    table: Map<Seq<char>, u16>,
    cursor: u16,
    s: Seq<char>,
)
    requires
        0 <= i <= ir.len(),
        table.dom().contains(s),
    ensures
        match run_from(ir, i, table, cursor) {
            RunOutcome::Finished { table: t2, .. } => t2.dom().contains(s) && t2[s] == table[s],
            RunOutcome::Failed { table: t2, .. } => t2.dom().contains(s) && t2[s] == table[s],
        },
    decreases ir.len() - i,
{
    if i < ir.len() {
        match encode_one(ir[i], table, cursor) {
            EncodeOutcome::Emitted { word, table: t2, cursor: c2 } => {
                lemma_run_table_monotonic(ir, i + 1, t2, c2, s);
            },
            EncodeOutcome::Failed { .. } => {},
        }
    }
}

/// Law: a symbol bound before the walk — a predefined symbol such as `SP`,
/// or a label — resolves to its fixed value regardless of where it appears:
/// every address entry naming it yields the word of that same value.
pub proof fn lemma_predefined_resolution(
    ir: Seq<InstructionView>,
    i: int,
    k: int,
    table: Map<Seq<char>, u16>,
    cursor: u16,
    s: Seq<char>,
)
    requires
        0 <= i <= k < ir.len(),
        table.dom().contains(s),
        !is_digits(s),
        ir[k] == InstructionView::Address(s),
        run_from(ir, i, table, cursor) is Finished,
    ensures
        match run_from(ir, i, table, cursor) {
            RunOutcome::Finished { words, .. } => words[k - i] == word_bits(table[s]),
            RunOutcome::Failed { .. } => false,
        },
    decreases k - i,
{
    match encode_one(ir[i], table, cursor) {
        EncodeOutcome::Emitted { word, table: t2, cursor: c2 } => {
            if i == k {
                lemma_run_words_len(ir, i + 1, t2, c2);
            } else {
                lemma_run_table_monotonic(ir, i, table, cursor, s);
                lemma_predefined_resolution(ir, i + 1, k, t2, c2, s);
                lemma_run_words_len(ir, i + 1, t2, c2);
            }
        },
        EncodeOutcome::Failed { .. } => {},
    }
}

} // verus!

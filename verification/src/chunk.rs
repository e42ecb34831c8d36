use vstd::prelude::*;

use crate::error::CompileError;
use crate::opcode::{OpCode, decode_byte};
use crate::text::dec_str;
use crate::value::Value;
use vstd::string::StringExecFns;

verus! {

/// One run of the line table: `count` consecutive bytes of code that all
/// come from source line `number`.
#[derive(Debug, Clone, Copy, PartialEq, Eq, Structural)]
pub struct LineInfo {
    pub count: usize,
    pub number: usize,
}

/// An append-only compilation unit: the bytecode, the constant pool, and a
/// run-length-encoded line table.
#[derive(Debug)]
pub struct Chunk {
    pub lines: Vec<LineInfo>,
    pub code: Vec<u8>,
    pub constants: Vec<Value>,
}

/// The mathematical content of a chunk: its three parallel sequences.
pub struct ChunkModel {
    pub code: Seq<u8>,
    pub constants: Seq<Value>,
    pub lines: Seq<LineInfo>,
}

impl View for Chunk {
    type V = ChunkModel;

    open spec fn view(&self) -> ChunkModel {
        ChunkModel { code: self.code@, constants: self.constants@, lines: self.lines@ }
    }
}

/// The per-byte line numbers that a line table stands for, in code order.
pub open spec fn expand_lines(lines: Seq<LineInfo>) -> Seq<usize>
    decreases lines.len(),
{
    if lines.len() == 0 {
        Seq::empty()
    } else {
        expand_lines(lines.drop_last()) + Seq::new(
            lines.last().count as nat,
            |i: int| lines.last().number,
        )
    }
}

/// A well-formed line table: no empty run, and no two consecutive runs with
/// the same line number.
pub open spec fn line_runs_wf(lines: Seq<LineInfo>) -> bool {
    &&& forall|i: int| 0 <= i < lines.len() ==> (#[trigger] lines[i]).count > 0
    &&& forall|i: int|
        0 <= i < lines.len() - 1 ==> (#[trigger] lines[i]).number != lines[i + 1].number
}

/// A well-formed chunk: the line table is well formed and covers exactly the
/// code, byte for byte.
pub open spec fn chunk_wf(m: ChunkModel) -> bool {
    &&& line_runs_wf(m.lines)
    &&& expand_lines(m.lines).len() == m.code.len()
}

/// What appending one byte on `line` does to the line table: the last run
/// grows by one when it carries the same line, else a fresh run of one
/// starts.
pub open spec fn write_lines_model(lines: Seq<LineInfo>, line: usize) -> Seq<LineInfo> {
    if lines.len() > 0 && lines.last().number == line {
        lines.update(
            lines.len() - 1,
            LineInfo { count: (lines.last().count + 1) as usize, number: line },
        )
    } else {
        lines.push(LineInfo { count: 1, number: line })
    }
}

/// What appending one byte of code does to the whole chunk.
pub open spec fn write_model(m: ChunkModel, byte: u8, line: usize) -> ChunkModel {
    ChunkModel {
        code: m.code.push(byte),
        constants: m.constants,
        lines: write_lines_model(m.lines, line),
    }
}

/// The line of the byte at `offset`, by scanning cumulative run lengths;
/// 0 when the offset lies past the table.
pub open spec fn line_at_spec(lines: Seq<LineInfo>, offset: int) -> usize
    decreases lines.len(),
{
    if lines.len() == 0 {
        0
    } else if offset < lines[0].count {
        lines[0].number
    } else {
        line_at_spec(lines.drop_first(), offset - lines[0].count)
    }
}

/// The last run never exceeds the expansion in length.
proof fn lemma_last_count_le_expand(lines: Seq<LineInfo>)
    requires
        lines.len() > 0,
    ensures
        lines.last().count <= expand_lines(lines).len(),
{
}

/// Appending a byte on `line` extends the per-byte line sequence by exactly
/// that line.
pub proof fn lemma_expand_write(lines: Seq<LineInfo>, line: usize)
    requires
        line_runs_wf(lines),
        expand_lines(lines).len() < usize::MAX,
    ensures
        line_runs_wf(write_lines_model(lines, line)),
        expand_lines(write_lines_model(lines, line)) == expand_lines(lines).push(line),
{
    let new = write_lines_model(lines, line);
    if lines.len() > 0 && lines.last().number == line {
        lemma_last_count_le_expand(lines);
        assert(new.drop_last() =~= lines.drop_last());
        assert(new.last() == LineInfo {
            count: (lines.last().count + 1) as usize,
            number: line,
        });
        assert(expand_lines(new) =~= expand_lines(lines).push(line));
        assert forall|i: int| 0 <= i < new.len() implies (#[trigger] new[i]).count > 0 by {
            assert(lines[i].count > 0);
        }
        assert forall|i: int| 0 <= i < new.len() - 1 implies (#[trigger] new[i]).number != new[
            i + 1
        ].number by {
            assert(lines[i].number != lines[i + 1].number);
            assert(new[i].number == lines[i].number);
            assert(new[i + 1].number == lines[i + 1].number);
        }
    } else {
        assert(new.drop_last() =~= lines);
        assert(new.last() == LineInfo { count: 1, number: line });
        assert(expand_lines(new) =~= expand_lines(lines).push(line));
        assert forall|i: int| 0 <= i < new.len() implies (#[trigger] new[i]).count > 0 by {
            if i < lines.len() {
                assert(lines[i].count > 0);
            }
        }
    }
}

/// Consecutive bytes sharing a source line always land in one run: a table
/// whose whole expansion carries a single line has exactly one run.
pub proof fn lemma_single_line_single_run(lines: Seq<LineInfo>)
    requires
        line_runs_wf(lines),
        expand_lines(lines).len() > 0,
        forall|i: int|
            0 <= i < expand_lines(lines).len() ==> #[trigger] expand_lines(lines)[i]
                == expand_lines(lines)[0],
    ensures
        lines.len() == 1,
{
    if lines.len() == 0 {
        assert(expand_lines(lines).len() == 0);
    } else if lines.len() > 1 {
        let prev = lines.drop_last();
        let prev2 = prev.drop_last();
        assert(expand_lines(lines) == expand_lines(prev) + Seq::new(
            lines.last().count as nat,
            |i: int| lines.last().number,
        ));
        assert(expand_lines(prev) == expand_lines(prev2) + Seq::new(
            prev.last().count as nat,
            |i: int| prev.last().number,
        ));
        assert(prev.last().count > 0);
        assert(lines.last().count > 0);
        let a = expand_lines(prev).len() - 1;
        let b = expand_lines(lines).len() - 1;
        assert(expand_lines(lines)[a] == prev.last().number);
        assert(expand_lines(lines)[b] == lines.last().number);
        assert(prev.last() == lines[lines.len() - 2]);
        assert(prev.last().number != lines.last().number);
    }
}

/// A new run starts exactly when the line changes: appending a byte keeps
/// the run count when the last run carries the same line, and grows it by
/// one otherwise.
pub proof fn lemma_write_run_count(lines: Seq<LineInfo>, line: usize)
    ensures
        write_lines_model(lines, line).len() == if lines.len() > 0 && lines.last().number
            == line {
            lines.len() as int
        } else {
            lines.len() + 1 as int
        },
{
}

impl Default for Chunk {
    fn default() -> (r: Self)
        ensures
            r@.code == Seq::<u8>::empty(),
            r@.constants == Seq::<Value>::empty(),
            r@.lines == Seq::<LineInfo>::empty(),
            chunk_wf(r@),
    {
        let r = Chunk { lines: Vec::new(), code: Vec::new(), constants: Vec::new() };
        proof {
            assert(expand_lines(r@.lines).len() == 0);
        }
        r
    }
}

impl Chunk {
    /// Appends one byte of code, tagging it with its source line; the line
    /// table extends the last run or starts a new one.
    pub fn write(&mut self, byte: u8, line_number: usize)
        requires
            chunk_wf(old(self)@),
        ensures
            chunk_wf(final(self)@),
            final(self)@ == write_model(old(self)@, byte, line_number),
            expand_lines(final(self)@.lines) == expand_lines(old(self)@.lines).push(line_number),
    {
        self.code.push(byte);
        let code_len = self.code.len();
        proof {
            lemma_expand_write(self.lines@, line_number);
        }
        let n = self.lines.len();
        if n > 0 {
            let last = self.lines[n - 1];
            if last.number == line_number {
                proof {
                    lemma_last_count_le_expand(self.lines@);
                }
                self.lines.set(n - 1, LineInfo { count: last.count + 1, number: line_number });
                return ;
            }
        }
        self.lines.push(LineInfo { count: 1, number: line_number });
    }

    /// Appends a value to the constant pool and returns its index; fails
    /// with ConstantPoolOverflow when the pool already holds the greatest
    /// index the long load form can address.
    pub fn add_constant(&mut self, value: Value) -> (r: Result<usize, CompileError>)
        ensures
            old(self)@.constants.len() < 0x1000000 ==> r == Ok::<usize, CompileError>(
                old(self).constants.len(),
            ) && final(self)@.constants == old(self)@.constants.push(value),
            old(self)@.constants.len() >= 0x1000000 ==> r == Err::<usize, CompileError>(
                CompileError::ConstantPoolOverflow,
            ) && final(self)@.constants == old(self)@.constants,
            final(self)@.code == old(self)@.code,
            final(self)@.lines == old(self)@.lines,
    {
        if self.constants.len() >= 0x1000000 {
            return Err(CompileError::ConstantPoolOverflow);
        }
        let idx = self.constants.len();
        self.constants.push(value);
        Ok(idx)
    }

    /// Appends a constant load for `value`: the short one-byte-index form
    /// while the pool holds at most 255 entries, else the long form with a
    /// three-byte big-endian index; fails only when the pool is full.
    pub fn write_constant(&mut self, value: Value, line_number: usize) -> (r: Result<
        (),
        CompileError,
    >)
        requires
            chunk_wf(old(self)@),
        ensures
            chunk_wf(final(self)@),
            match write_constant_model(old(self)@, value, line_number) {
                Ok(m) => r == Ok::<(), CompileError>(()) && final(self)@ == m,
                Err(e) => r == Err::<(), CompileError>(e) && final(self)@ == old(self)@,
            },
    {
        if self.constants.len() < 256 {
            self.write(OP_CONSTANT, line_number);
            let idx = match self.add_constant(value) {
                Ok(idx) => idx,
                Err(_) => {
                    proof {
                        assert(false);
                    }
                    0
                },
            };
            self.write(idx as u8, line_number);
            Ok(())
        } else if self.constants.len() < 0x1000000 {
            let idx = match self.add_constant(value) {
                Ok(idx) => idx,
                Err(_) => {
                    proof {
                        assert(false);
                    }
                    0
                },
            };
            self.write(OP_CONSTANT_LONG, line_number);
            self.write((idx / 0x10000) as u8, line_number);
            self.write(((idx / 0x100) % 0x100) as u8, line_number);
            self.write((idx % 0x100) as u8, line_number);
            Ok(())
        } else {
            Err(CompileError::ConstantPoolOverflow)
        }
    }

    /// Resolves a code offset to its source line by scanning cumulative run
    /// lengths; 0 past the end of the table.
    pub fn get_line(&self, offset: usize) -> (r: usize)
        requires
            chunk_wf(self@),
        ensures
            r == line_at_spec(self@.lines, offset as int),
    {
        let ghost all = self.lines@;
        proof {
            assert(all.skip(0) =~= all);
        }
        let mut cumulative: usize = 0;
        let mut i: usize = 0;
        while i < self.lines.len()
            invariant
                0 <= i <= all.len(),
                all == self.lines@,
                offset >= cumulative,
                line_at_spec(all, offset as int) == line_at_spec(
                    all.skip(i as int),
                    offset - cumulative,
                ),
            decreases all.len() - i,
        {
            let run = self.lines[i];
            proof {
                assert(all.skip(i as int)[0] == all[i as int]);
                assert(all.skip(i as int).drop_first() =~= all.skip(i + 1));
            }
            if offset - cumulative < run.count {
                return run.number;
            }
            cumulative = cumulative + run.count;
            i = i + 1;
        }
        proof {
            assert(all.skip(all.len() as int) =~= Seq::<LineInfo>::empty());
        }
        0
    }
}

/// Where the instruction standing at `offset` ends: one byte past its
/// opcode and its fixed operand bytes, clipped to the end of a truncated
/// buffer. A byte outside the opcode range occupies one position.
pub open spec fn next_offset_spec(m: ChunkModel, offset: int) -> int {
    let width = match decode_byte(m.code[offset]) {
        Some(OpCode::Constant) => 2int,
        Some(OpCode::ConstantLong) => 4int,
        _ => 1int,
    };
    if offset + width <= m.code.len() {
        offset + width
    } else {
        m.code.len() as int
    }
}

impl Chunk {
    /// Renders the one instruction standing at `offset` into the sink as a
    /// fixed-format line: the offset, the source line or a continuation
    /// marker when it repeats the previous instruction's, the mnemonic, and
    /// for constant loads the decoded index with the constant's debug text.
    /// Returns the offset of the next instruction, or None past the end of
    /// the code.
    pub fn disassemble_instruction(&self, offset: usize, out: &mut String) -> (r: Option<usize>)
        requires
            chunk_wf(self@),
        ensures
            final(out)@.len() >= old(out)@.len(),
            (match r {
                Some(next) => offset < self@.code.len() && next == next_offset_spec(
                    self@,
                    offset as int,
                ) && offset < next <= self@.code.len(),
                None => offset >= self@.code.len(),
            }),
    {
        if offset >= self.code.len() {
            return None;
        }
        if offset < 10 {
            out.append("000");
        } else if offset < 100 {
            out.append("00");
        } else if offset < 1000 {
            out.append("0");
        }
        let offset_text = dec_str(offset);
        out.append(offset_text.as_str());
        out.append(" ");
        let line = self.get_line(offset);
        if offset > 0 && line == self.get_line(offset - 1) {
            out.append("   | ");
        } else {
            if line < 10 {
                out.append("   ");
            } else if line < 100 {
                out.append("  ");
            } else if line < 1000 {
                out.append(" ");
            }
            let line_text = dec_str(line);
            out.append(line_text.as_str());
            out.append(" ");
        }
        let byte = self.code[offset];
        match OpCode::decode(byte) {
            None => {
                out.append("UNKNOWN ");
                let byte_text = dec_str(byte as usize);
                out.append(byte_text.as_str());
                Some(offset + 1)
            },
            Some(op) => {
                let mnemonic = op.mnemonic();
                out.append(mnemonic);
                let mut pad: usize = mnemonic.unicode_len();
                while pad < 16
                    invariant
                        out@.len() >= old(out)@.len(),
                    decreases 16 - pad,
                {
                    out.append(" ");
                    pad = pad + 1;
                }
                match op {
                    OpCode::Constant => {
                        if offset + 1 < self.code.len() {
                            let idx = self.code[offset + 1] as usize;
                            out.append(" ");
                            let idx_text = dec_str(idx);
                            out.append(idx_text.as_str());
                            if idx < self.constants.len() {
                                out.append(" ");
                                let value_text = self.constants[idx].debug_text();
                                out.append(value_text.as_str());
                            }
                            Some(offset + 2)
                        } else {
                            Some(self.code.len())
                        }
                    },
                    OpCode::ConstantLong => {
                        if self.code.len() - offset > 3 {
                            let h = self.code[offset + 1] as usize;
                            let mid = self.code[offset + 2] as usize;
                            let low = self.code[offset + 3] as usize;
                            let idx = h * 0x10000 + mid * 0x100 + low;
                            out.append(" ");
                            let idx_text = dec_str(idx);
                            out.append(idx_text.as_str());
                            if idx < self.constants.len() {
                                out.append(" ");
                                let value_text = self.constants[idx].debug_text();
                                out.append(value_text.as_str());
                            }
                            Some(offset + 4)
                        } else {
                            Some(self.code.len())
                        }
                    },
                    _ => Some(offset + 1),
                }
            },
        }
    }

    /// Renders the whole chunk, one fixed-format line per instruction,
    /// under a header naming it; a read-only debugging view.
    pub fn disassemble(&self, name: &str) -> (r: String)
        requires
            chunk_wf(self@),
        ensures
            r@.len() >= name@.len() + 7,
    {
        let mut out = String::new();
        out.append("== ");
        out.append(name);
        out.append(" ==\n");
        proof {
            reveal_strlit("== ");
            reveal_strlit(" ==\n");
        }
        let mut offset: usize = 0;
        while offset < self.code.len()
            invariant
                chunk_wf(self@),
                offset <= self@.code.len(),
                out@.len() >= name@.len() + 7,
            decreases self@.code.len() - offset,
        {
            match self.disassemble_instruction(offset, &mut out) {
                Some(next) => {
                    out.append("\n");
                    offset = next;
                },
                None => {
                    proof {
                        assert(false);
                    }
                },
            }
        }
        out
    }
}

// The opcode bytes the chunk emits for constant loads.
pub const OP_CONSTANT: u8 = 1;
pub const OP_CONSTANT_LONG: u8 = 2;

/// What `write_constant` does to the chunk: which load form it picks, which
/// bytes it appends, and when it fails instead.
pub open spec fn write_constant_model(m: ChunkModel, value: Value, line: usize) -> Result<
    ChunkModel,
    CompileError,
> {
    let idx = m.constants.len();
    if idx < 256 {
        let m1 = write_model(m, OP_CONSTANT, line);
        let m2 = ChunkModel { code: m1.code, constants: m1.constants.push(value), lines: m1.lines };
        Ok(write_model(m2, idx as u8, line))
    } else if idx < 0x1000000 {
        let m1 = ChunkModel { code: m.code, constants: m.constants.push(value), lines: m.lines };
        let m2 = write_model(m1, OP_CONSTANT_LONG, line);
        let m3 = write_model(m2, (idx / 0x10000) as u8, line);
        let m4 = write_model(m3, ((idx / 0x100) % 0x100) as u8, line);
        Ok(write_model(m4, (idx % 0x100) as u8, line))
    } else {
        Err(CompileError::ConstantPoolOverflow)
    }
}

} // verus!

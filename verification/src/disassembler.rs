//! The disassembly driver: a stateful wrapper that filters blank input
//! lines, applies the decoder to each remaining line, and optionally
//! forwards the decoded text to an output sink.
//!
//! Unlike the assembler, this driver does not stop on a decode failure: the
//! offending line is recorded on a diagnostic list and skipped, and the run
//! continues.

use vstd::prelude::*;
use vstd::string::StrSliceExecFns;
use vstd::string::StringExecFns;
use crate::assembler::join_lines;
use crate::decoder::decode_instruction;
use crate::decoder::decode_spec;
use crate::errors::DisasmError;
use crate::text::trim_spec;

verus! {

/// The input lines that survive the blank filter.
pub open spec fn non_blank(lines: Seq<Seq<char>>) -> Seq<Seq<char>>
    decreases lines.len(),
{
    if lines.len() == 0 {
        Seq::empty()
    } else if lines.last().len() > 0 {
        non_blank(lines.drop_last()).push(lines.last())
    } else {
        non_blank(lines.drop_last())
    }
}

/// The decoded texts of the lines from `i` on, in order, skipping lines
/// whose decode fails.
pub open spec fn decoded_from(lines: Seq<Seq<char>>, i: int) -> Seq<Seq<char>>
    decreases lines.len() - i,
    when 0 <= i <= lines.len()
{
    if i >= lines.len() {
        Seq::empty()
    } else {
        match decode_spec(trim_spec(lines[i])) {
            Ok(t) => seq![t] + decoded_from(lines, i + 1),
            Err(_) => decoded_from(lines, i + 1),
        }
    }
}

/// The lines from `i` on whose decode fails, in order.
pub open spec fn skipped_from(lines: Seq<Seq<char>>, i: int) -> Seq<Seq<char>>
    decreases lines.len() - i,
    when 0 <= i <= lines.len()
{
    if i >= lines.len() {
        Seq::empty()
    } else {
        match decode_spec(trim_spec(lines[i])) {
            Ok(_) => skipped_from(lines, i + 1),
            Err(_) => seq![lines[i]] + skipped_from(lines, i + 1),
        }
    }
}

/// Configuration of a [`Disassembler`]: the input lines and an optional
/// output sink. Without a sink, the operations that write return
/// [`DisasmError::NoWriter`].
pub struct DisassemblerConfig {
    /// The raw input lines.
    pub reader: Vec<String>,
    /// The initial output sink, or `None` for a driver that only returns
    /// decoded text.
    pub writer: Option<Vec<String>>,
}

/// The streaming disassembler. Labels and variables are never recoverable:
/// decoded address instructions always use the numeral.
pub struct Disassembler {
    /// The non-blank input lines.
    pub lines: Vec<String>,
    /// How many of those lines have been consumed.
    pub pos: usize,
    /// The output sink: each chunk is to be terminated by one line break.
    pub writer: Option<Vec<String>>,
    /// The diagnostic list: input lines whose decode failed and was
    /// skipped.
    pub diagnostics: Vec<String>,
}

impl Disassembler {
    /// Well-formedness: the position is within the input lines.
    pub open spec fn wf(&self) -> bool {
        self.pos <= self.lines@.len()
    }

    /// Builds a driver over the given input, dropping blank lines.
    pub fn new(args: DisassemblerConfig) -> (d: Disassembler)
        ensures
            d.wf(),
            d.lines.deep_view() == non_blank(args.reader.deep_view()),
            d.pos == 0,
            d.writer == args.writer,
            d.diagnostics@.len() == 0,
    {
        let DisassemblerConfig { reader, writer } = args;
        let mut lines: Vec<String> = Vec::new();
        let n = reader.len();
        let mut i: usize = 0;
        proof {
            assert(reader.deep_view().take(0) =~= Seq::<Seq<char>>::empty());
            assert(lines.deep_view() =~= non_blank(reader.deep_view().take(0)));
        }
        while i < n
            invariant
                0 <= i <= n,
                n == reader@.len(),
                lines.deep_view() == non_blank(reader.deep_view().take(i as int)),
            decreases n - i,
        {
            let ghost pre = lines.deep_view();
            let line = &reader[i];
            proof {
                assert(reader.deep_view()[i as int] == reader@[i as int]@);
                assert(reader.deep_view().take(i + 1 as int).drop_last() =~= reader.deep_view()
                    .take(i as int));
                assert(reader.deep_view().take(i + 1 as int).last() == reader.deep_view()[i as int]);
            }
            if !line.as_str().is_empty() {
                lines.push(line.clone());
                proof {
                    assert(lines.deep_view() =~= pre.push(reader.deep_view()[i as int]));
                }
            }
            i = i + 1;
        }
        proof {
            assert(reader.deep_view().take(n as int) =~= reader.deep_view());
        }
        Disassembler { lines, pos: 0, writer, diagnostics: Vec::new() }
    }

    /// Whether another line waits to be disassembled.
    pub fn has_next(&self) -> (b: bool)
        ensures
            b == (self.pos < self.lines@.len()),
    {
        self.pos < self.lines.len()
    }

    /// Disassembles and returns the next instruction, advancing the driver.
    /// Returns `None` at the end of the input, and also for a line whose
    /// decode fails — that line is recorded on the diagnostic list and the
    /// following calls go on with the rest.
    pub fn get_next(&mut self) -> (r: Option<String>)
        requires
            old(self).wf(),
        ensures
            final(self).wf(),
            final(self).lines == old(self).lines,
            final(self).writer == old(self).writer,
            if old(self).pos >= old(self).lines@.len() {
                &&& r is None
                &&& final(self).pos == old(self).pos
                &&& final(self).diagnostics == old(self).diagnostics
            } else {
                &&& final(self).pos == old(self).pos + 1
                &&& match decode_spec(trim_spec(old(self).lines.deep_view()[old(self).pos as int])) {
                    Ok(t) => r matches Some(s) && s@ == t && final(self).diagnostics == old(self).diagnostics,
                    Err(_) => r is None && final(self).diagnostics.deep_view() == old(self).diagnostics.deep_view().push(
                        old(self).lines.deep_view()[old(self).pos as int],
                    ),
                }
            },
    {
        if self.pos >= self.lines.len() {
            return None;
        }
        let line = &self.lines[self.pos];
        let trimmed = trim_str(line.as_str());
        self.pos = self.pos + 1;
        match decode_instruction(trimmed) {
            Ok(decoded) => Some(decoded),
            Err(_) => {
                let ghost pre = self.diagnostics.deep_view();
                let offending = self.lines[self.pos - 1].clone();
                self.diagnostics.push(offending);
                proof {
                    assert(self.diagnostics.deep_view() =~= pre.push(
                        self.lines.deep_view()[self.pos - 1],
                    ));
                }
                None
            },
        }
    }

    /// Disassembles and returns all remaining instructions, joined by
    /// single line breaks, advancing the driver to the end. Lines whose
    /// decode fails are recorded and skipped. Returns `None` when nothing
    /// decodes.
    pub fn get_to_end(&mut self) -> (r: Option<String>)
        requires
            old(self).wf(),
        ensures
            final(self).wf(),
            final(self).lines == old(self).lines,
            final(self).writer == old(self).writer,
            final(self).pos == old(self).lines@.len(),
            final(self).diagnostics.deep_view() == old(self).diagnostics.deep_view()
                + skipped_from(old(self).lines.deep_view(), old(self).pos as int),
            ({
                let ds = decoded_from(old(self).lines.deep_view(), old(self).pos as int);
                if ds.len() == 0 {
                    r is None
                } else {
                    r matches Some(s) && s@ == join_lines(ds)
                }
            }),
    {
        let ghost l = self.lines.deep_view();
        let ghost start = self.pos as int;
        let ghost ws: Seq<Seq<char>> = Seq::empty();
        let mut buffer = String::new();
        let mut first = true;
        while self.pos < self.lines.len()
            invariant
                self.lines == old(self).lines,
                self.writer == old(self).writer,
                l == self.lines.deep_view(),
                start == old(self).pos as int,
                0 <= start <= self.pos <= l.len(),
                first <==> ws.len() == 0,
                buffer@ == join_lines(ws),
                decoded_from(l, start) == ws + decoded_from(l, self.pos as int),
                self.diagnostics.deep_view() == old(self).diagnostics.deep_view() + (skipped_from(
                    l,
                    start,
                ).take(skipped_from(l, start).len() - skipped_from(l, self.pos as int).len())),
                skipped_from(l, start).len() >= skipped_from(l, self.pos as int).len(),
                skipped_from(l, start).skip(
                    skipped_from(l, start).len() - skipped_from(l, self.pos as int).len(),
                ) == skipped_from(l, self.pos as int),
            decreases l.len() - self.pos,
        {
            let ghost pos = self.pos as int;
            let ghost pre_diag = self.diagnostics.deep_view();
            let r = self.get_next();
            proof {
                assert(l[pos] == old(self).lines.deep_view()[pos]);
            }
            match r {
                Some(decoded) => {
                    if !first {
                        buffer.append("\n");
                        proof {
                            reveal_strlit("\n");
                        }
                    }
                    first = false;
                    buffer.append(decoded.as_str());
                    proof {
                        let t = decode_spec(trim_spec(l[pos]))->Ok_0;
                        assert(ws + (seq![t] + decoded_from(l, pos + 1)) =~= ws.push(t)
                            + decoded_from(l, pos + 1));
                        if ws.len() == 0 {
                            assert(ws.push(t)[0] == t);
                            assert(join_lines(ws.push(t)) == t);
                            assert(buffer@ =~= t);
                        } else {
                            assert(ws.push(t).drop_last() =~= ws);
                            assert(join_lines(ws.push(t)) == join_lines(ws) + seq!['\n'] + t);
                            assert(buffer@ =~= join_lines(ws) + seq!['\n'] + t);
                        }
                        ws = ws.push(t);
                    }
                },
                None => {
                    proof {
                        let sk0 = skipped_from(l, start);
                        let done = sk0.len() - skipped_from(l, pos).len();
                        assert(skipped_from(l, pos) == seq![l[pos]] + skipped_from(l, pos + 1));
                        assert(sk0.skip(done)[0] == l[pos]);
                        assert(sk0.take(done + 1) =~= sk0.take(done).push(l[pos]));
                        assert(self.diagnostics.deep_view() =~= pre_diag.push(l[pos]));
                        assert(self.diagnostics.deep_view() =~= old(self).diagnostics.deep_view()
                            + sk0.take(done + 1));
                        assert(sk0.skip(done + 1) =~= skipped_from(l, pos + 1)) by {
                            assert(forall|j: int|
                                0 <= j < skipped_from(l, pos + 1).len() ==> sk0.skip(done + 1)[j]
                                    == skipped_from(l, pos).skip(1)[j]);
                            assert(forall|j: int|
                                0 <= j < skipped_from(l, pos + 1).len() ==> skipped_from(
                                    l,
                                    pos,
                                ).skip(1)[j] == #[trigger] skipped_from(l, pos + 1)[j]);
                        }
                    }
                },
            }
        }
        proof {
            assert(decoded_from(l, self.pos as int) =~= Seq::<Seq<char>>::empty());
            assert(ws + Seq::<Seq<char>>::empty() =~= ws);
            assert(skipped_from(l, self.pos as int) =~= Seq::<Seq<char>>::empty());
            let sk0 = skipped_from(l, start);
            assert(sk0.take(sk0.len() as int) =~= sk0);
        }
        if first {
            None
        } else {
            Some(buffer)
        }
    }

    /// Appends one chunk to the output sink.
    fn write_to_output(&mut self, contents: String) -> (r: Result<(), DisasmError>)
        ensures
            final(self).lines == old(self).lines,
            final(self).pos == old(self).pos,
            final(self).diagnostics == old(self).diagnostics,
            match old(self).writer {
                Some(w) => {
                    &&& r is Ok
                    &&& final(self).writer matches Some(w2) && w2.deep_view()
                        == w.deep_view().push(contents@)
                },
                None => r == Err::<(), DisasmError>(DisasmError::NoWriter) && final(self).writer
                    is None,
            },
    {
        match self.writer.take() {
            Some(mut w) => {
                let ghost pre = w.deep_view();
                w.push(contents);
                proof {
                    assert(w.deep_view() =~= pre.push(w@.last()@));
                }
                self.writer = Some(w);
                Ok(())
            },
            None => Err(DisasmError::NoWriter),
        }
    }

    /// Disassembles the next instruction and writes it to the sink,
    /// advancing the driver. An exhausted input, a line whose decode fails,
    /// and a missing sink are all errors here.
    pub fn write_next(&mut self) -> (r: Result<(), DisasmError>)
        requires
            old(self).wf(),
        ensures
            final(self).wf(),
            final(self).lines == old(self).lines,
            if old(self).pos >= old(self).lines@.len() {
                &&& r == Err::<(), DisasmError>(DisasmError::NoMoreLines)
                &&& final(self).pos == old(self).pos
                &&& final(self).diagnostics == old(self).diagnostics
                &&& final(self).writer == old(self).writer
            } else {
                &&& final(self).pos == old(self).pos + 1
                &&& match decode_spec(trim_spec(old(self).lines.deep_view()[old(self).pos as int])) {
                    Ok(t) => {
                        &&& final(self).diagnostics == old(self).diagnostics
                        &&& match old(self).writer {
                            Some(w) => {
                                &&& r is Ok
                                &&& final(self).writer matches Some(w2) && w2.deep_view()
                                    == w.deep_view().push(t)
                            },
                            None => r == Err::<(), DisasmError>(DisasmError::NoWriter) && final(self).writer is None,
                        }
                    },
                    Err(_) => {
                        &&& r == Err::<(), DisasmError>(DisasmError::NoMoreLines)
                        &&& final(self).writer == old(self).writer
                        &&& final(self).diagnostics.deep_view() == old(self).diagnostics.deep_view().push(
                            old(self).lines.deep_view()[old(self).pos as int],
                        )
                    },
                }
            },
    {
        match self.get_next() {
            Some(decoded) => self.write_to_output(decoded),
            None => Err(DisasmError::NoMoreLines),
        }
    }

    /// Disassembles all remaining instructions and writes them to the sink
    /// as one chunk, advancing the driver to the end. An input with nothing
    /// left to decode and a missing sink are errors here.
    pub fn write_to_end(&mut self) -> (r: Result<(), DisasmError>)
        requires
            old(self).wf(),
        ensures
            final(self).wf(),
            final(self).lines == old(self).lines,
            final(self).pos == old(self).lines@.len(),
            final(self).diagnostics.deep_view() == old(self).diagnostics.deep_view()
                + skipped_from(old(self).lines.deep_view(), old(self).pos as int),
            ({
                let ds = decoded_from(old(self).lines.deep_view(), old(self).pos as int);
                if ds.len() == 0 {
                    r == Err::<(), DisasmError>(DisasmError::NoMoreLines) && final(self).writer
                        == old(self).writer
                } else {
                    match old(self).writer {
                        Some(w) => {
                            &&& r is Ok
                            &&& final(self).writer matches Some(w2) && w2.deep_view()
                                == w.deep_view().push(join_lines(ds))
                        },
                        None => r == Err::<(), DisasmError>(DisasmError::NoWriter) && final(self).writer is None,
                    }
                }
            }),
    {
        match self.get_to_end() {
            Some(decoded) => self.write_to_output(decoded),
            None => Err(DisasmError::NoMoreLines),
        }
    }

    /// Disassembles the next instruction, writes it to the sink, and
    /// returns it. The end of the input and a failed decode give
    /// `Ok(None)`; only a missing sink is an error.
    pub fn get_and_write_next(&mut self) -> (r: Result<Option<String>, DisasmError>)
        requires
            old(self).wf(),
        ensures
            final(self).wf(),
            final(self).lines == old(self).lines,
            if old(self).pos >= old(self).lines@.len() {
                &&& r == Ok::<Option<String>, DisasmError>(None)
                &&& final(self).pos == old(self).pos
                &&& final(self).diagnostics == old(self).diagnostics
                &&& final(self).writer == old(self).writer
            } else {
                &&& final(self).pos == old(self).pos + 1
                &&& match decode_spec(trim_spec(old(self).lines.deep_view()[old(self).pos as int])) {
                    Ok(t) => {
                        &&& final(self).diagnostics == old(self).diagnostics
                        &&& match old(self).writer {
                            Some(w) => {
                                &&& r matches Ok(o) && o matches Some(s) && s@ == t
                                &&& final(self).writer matches Some(w2) && w2.deep_view()
                                    == w.deep_view().push(t)
                            },
                            None => r == Err::<Option<String>, DisasmError>(DisasmError::NoWriter)
                                && final(self).writer is None,
                        }
                    },
                    Err(_) => {
                        &&& r == Ok::<Option<String>, DisasmError>(None)
                        &&& final(self).writer == old(self).writer
                        &&& final(self).diagnostics.deep_view() == old(self).diagnostics.deep_view().push(
                            old(self).lines.deep_view()[old(self).pos as int],
                        )
                    },
                }
            },
    {
        match self.get_next() {
            Some(decoded) => {
                let copy = decoded.clone();
                match self.write_to_output(copy) {
                    Ok(()) => Ok(Some(decoded)),
                    Err(e) => Err(e),
                }
            },
            None => Ok(None),
        }
    }

    /// Disassembles all remaining instructions, writes them to the sink as
    /// one chunk, and returns them. An input with nothing left to decode
    /// gives `Ok(None)`; only a missing sink is an error.
    pub fn get_and_write_to_end(&mut self) -> (r: Result<Option<String>, DisasmError>)
        requires
            old(self).wf(),
        ensures
            final(self).wf(),
            final(self).lines == old(self).lines,
            final(self).pos == old(self).lines@.len(),
            final(self).diagnostics.deep_view() == old(self).diagnostics.deep_view()
                + skipped_from(old(self).lines.deep_view(), old(self).pos as int),
            ({
                let ds = decoded_from(old(self).lines.deep_view(), old(self).pos as int);
                if ds.len() == 0 {
                    r == Ok::<Option<String>, DisasmError>(None) && final(self).writer == old(self).writer
                } else {
                    match old(self).writer {
                        Some(w) => {
                            &&& r matches Ok(o) && o matches Some(s) && s@ == join_lines(ds)
                            &&& final(self).writer matches Some(w2) && w2.deep_view()
                                == w.deep_view().push(join_lines(ds))
                        },
                        None => r == Err::<Option<String>, DisasmError>(DisasmError::NoWriter)
                            && final(self).writer is None,
                    }
                }
            }),
    {
        match self.get_to_end() {
            Some(decoded) => {
                let copy = decoded.clone();
                match self.write_to_output(copy) {
                    Ok(()) => Ok(Some(decoded)),
                    Err(e) => Err(e),
                }
            },
            None => Ok(None),
        }
    }
}

/// Trims surrounding whitespace off a line, reusing the normalizer's
/// whitespace set.
fn trim_str(s: &str) -> (r: &str)
    ensures
        r@ == trim_spec(s@),
{
    let len = s.unicode_len();
    let mut lo: usize = 0;
    while lo < len && crate::text::space_char(s.get_char(lo))
        invariant
            len == s@.len(),
            0 <= lo <= len,
            crate::text::skip_spaces_from(s@, 0) == crate::text::skip_spaces_from(s@, lo as int),
        decreases len - lo,
    {
        lo = lo + 1;
    }
    let mut hi: usize = len;
    while hi > 0 && crate::text::space_char(s.get_char(hi - 1))
        invariant
            len == s@.len(),
            0 <= hi <= len,
            crate::text::rtrim_to(s@, len as int) == crate::text::rtrim_to(s@, hi as int),
        decreases hi,
    {
        hi = hi - 1;
    }
    if lo <= hi {
        let r = s.substring_char(lo, hi);
        assert(r@ =~= trim_spec(s@));
        r
    } else {
        let r = "";
        proof {
            reveal_strlit("");
            assert(r@ =~= trim_spec(s@));
        }
        r
    }
}

} // verus!

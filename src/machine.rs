use vstd::prelude::*;
use crate::lexer::{
    bf_result, lemma_round_trip, lex_brainfuck, lex_words, to_words, tokens_result, words_result,
};
use crate::opcode::{Error, Opcode};
use crate::tokens::TokenStream;
use crate::tape::{
    InputStream, State, grows_left, grows_right, tape_shift_left, tape_shift_right, wrap_dec,
    wrap_inc,
};

verus! {

/// A loop being run: its body is `start..end` of the program, and `resume`
/// is where the enclosing code goes on once the loop is done.
#[derive(Debug, Clone, Copy, PartialEq, Eq, Structural)]
pub struct Frame {
    pub start: usize,
    pub end: usize,
    pub resume: usize,
}

/// What a step asks of the one who drives the machine.
#[derive(Debug, Clone, Copy, PartialEq, Eq, Structural)]
pub enum Action {
    /// Nothing; step again.
    Continue,
    /// Write this byte out, then step again.
    Output(u8),
    /// Pull one byte from the input, hand it to `input`, then step again.
    Input,
    /// The program has ended.
    Halt,
}

/// The state of a run, as mathematical values.
pub struct Machine {
    pub program: Seq<Opcode>,
    pub pc: int,
    pub frames: Seq<Frame>,
    pub tape: Seq<u8>,
    pub cursor: int,
}

/// Where the code being run ends: the end of the innermost loop body, or of
/// the program.
pub open spec fn limit(m: Machine) -> int {
    if m.frames.len() == 0 {
        m.program.len() as int
    } else {
        m.frames.last().end as int
    }
}

/// Frame `i` lies within the code it runs in, and starts no earlier than the
/// frame around it.
spec fn frame_ok(len: int, fs: Seq<Frame>, i: int) -> bool {
    let lim = if i == 0 {
        len
    } else {
        fs[i - 1].end as int
    };
    &&& fs[i].start <= fs[i].end <= fs[i].resume <= lim
    &&& fs[i].end <= len
    &&& i > 0 ==> fs[i - 1].start <= fs[i].start
}

spec fn frames_ok(len: int, fs: Seq<Frame>) -> bool {
    forall|i: int| 0 <= i < fs.len() ==> #[trigger] frame_ok(len, fs, i)
}

proof fn lemma_frames_pop(len: int, fs: Seq<Frame>)
    requires
        frames_ok(len, fs),
        fs.len() > 0,
    ensures
        frames_ok(len, fs.drop_last()),
{
    let gs = fs.drop_last();
    assert forall|i: int| 0 <= i < gs.len() implies #[trigger] frame_ok(len, gs, i) by {
        assert(frame_ok(len, fs, i));
        if i > 0 {
            assert(gs[i - 1] == fs[i - 1]);
        }
    }
}

proof fn lemma_frames_push(len: int, fs: Seq<Frame>, f: Frame)
    requires
        frames_ok(len, fs),
        f.start <= f.end <= f.resume <= (if fs.len() == 0 {
            len
        } else {
            fs.last().end as int
        }),
        f.end <= len,
        fs.len() > 0 ==> fs.last().start <= f.start,
    ensures
        frames_ok(len, fs.push(f)),
{
    let gs = fs.push(f);
    assert forall|i: int| 0 <= i < gs.len() implies #[trigger] frame_ok(len, gs, i) by {
        if i < fs.len() {
            assert(frame_ok(len, fs, i));
            if i > 0 {
                assert(gs[i - 1] == fs[i - 1]);
            }
        } else if i > 0 {
            assert(gs[i - 1] == fs.last());
        }
    }
}

spec fn machine_wf(m: Machine) -> bool {
    &&& 0 <= m.cursor < m.tape.len() <= usize::MAX
    &&& m.program.len() <= usize::MAX
    &&& frames_ok(m.program.len() as int, m.frames)
    &&& m.frames.len() == 0 ==> 0 <= m.pc <= m.program.len()
    &&& m.frames.len() > 0 ==> m.frames.last().start <= m.pc <= m.frames.last().end
}

proof fn lemma_limit(m: Machine)
    requires
        machine_wf(m),
    ensures
        limit(m) <= m.program.len(),
        m.pc <= limit(m),
{
    if m.frames.len() > 0 {
        assert(frame_ok(m.program.len() as int, m.frames, m.frames.len() - 1));
    }
}

/// Scanning `p` from `i` up to `lim` with `depth` loops open: the index of
/// the loop end that closes the last of them, or `lim` if none does.
pub open spec fn loop_end(p: Seq<Opcode>, i: int, depth: int, lim: int) -> int
    decreases lim - i,
{
    if i >= lim {
        lim
    } else if p[i] == Opcode::LoopStart {
        loop_end(p, i + 1, depth + 1, lim)
    } else if p[i] == Opcode::LoopEnd {
        if depth <= 1 {
            i
        } else {
            loop_end(p, i + 1, depth - 1, lim)
        }
    } else {
        loop_end(p, i + 1, depth, lim)
    }
}

proof fn lemma_loop_end_bounds(p: Seq<Opcode>, i: int, depth: int, lim: int)
    requires
        i <= lim,
    ensures
        i <= loop_end(p, i, depth, lim) <= lim,
    decreases lim - i,
{
    if i < lim {
        if p[i] == Opcode::LoopStart {
            lemma_loop_end_bounds(p, i + 1, depth + 1, lim);
        } else if p[i] == Opcode::LoopEnd {
            if depth > 1 {
                lemma_loop_end_bounds(p, i + 1, depth - 1, lim);
            }
        } else {
            lemma_loop_end_bounds(p, i + 1, depth, lim);
        }
    }
}

/// One step of the machine: the next state and what is asked of the driver.
/// A loop body runs once, and again as long as the cell under the cursor is
/// non-zero at its end.
pub open spec fn step_spec(m: Machine) -> (Machine, Result<Action, Error>) {
    let lim = limit(m);
    if m.pc >= lim {
        if m.frames.len() == 0 {
            (m, Ok(Action::Halt))
        } else {
            let f = m.frames.last();
            if m.tape[m.cursor] != 0 {
                (Machine { pc: f.start as int, ..m }, Ok(Action::Continue))
            } else {
                (
                    Machine { pc: f.resume as int, frames: m.frames.drop_last(), ..m },
                    Ok(Action::Continue),
                )
            }
        }
    } else {
        let n = Machine { pc: m.pc + 1, ..m };
        match m.program[m.pc] {
            Opcode::ShiftLeft => {
                if grows_left(m.tape, m.cursor) && m.tape.len() >= usize::MAX {
                    (m, Err(Error::TapeFull))
                } else {
                    let (t, c) = tape_shift_left(m.tape, m.cursor);
                    (Machine { tape: t, cursor: c, ..n }, Ok(Action::Continue))
                }
            },
            Opcode::ShiftRight => {
                if grows_right(m.tape, m.cursor) && m.tape.len() >= usize::MAX {
                    (m, Err(Error::TapeFull))
                } else {
                    let (t, c) = tape_shift_right(m.tape, m.cursor);
                    (Machine { tape: t, cursor: c, ..n }, Ok(Action::Continue))
                }
            },
            Opcode::Increment => (
                Machine { tape: m.tape.update(m.cursor, wrap_inc(m.tape[m.cursor])), ..n },
                Ok(Action::Continue),
            ),
            Opcode::Decrement => (
                Machine { tape: m.tape.update(m.cursor, wrap_dec(m.tape[m.cursor])), ..n },
                Ok(Action::Continue),
            ),
            Opcode::Output => (n, Ok(Action::Output(m.tape[m.cursor]))),
            Opcode::Input => (n, Ok(Action::Input)),
            Opcode::LoopStart => {
                let e = loop_end(m.program, m.pc + 1, 1, lim);
                let f = Frame {
                    start: (m.pc + 1) as usize,
                    end: e as usize,
                    resume: (if e < lim {
                        e + 1
                    } else {
                        lim
                    }) as usize,
                };
                (Machine { frames: m.frames.push(f), ..n }, Ok(Action::Continue))
            },
            Opcode::LoopEnd => (m, Err(Error::InvalidToken)),
        }
    }
}

/// The machine after a pulled byte is stored; an exhausted input changes
/// nothing.
pub open spec fn input_spec(m: Machine, byte: Option<u8>) -> Machine {
    match byte {
        Some(b) => Machine { tape: m.tape.update(m.cursor, b), ..m },
        None => m,
    }
}

/// Up to `fuel` steps from `m`, with `inp` the bytes that the input still
/// holds: the final machine, the input left, the bytes written, and whether
/// the program ended (`Ok(true)`), the steps ran out (`Ok(false)`), or the
/// run failed.
pub open spec fn run_spec(m: Machine, inp: Seq<u8>, fuel: nat) -> (
    Machine,
    Seq<u8>,
    Seq<u8>,
    Result<bool, Error>,
)
    decreases fuel,
{
    if fuel == 0 {
        (m, inp, Seq::empty(), Ok(false))
    } else {
        let (m2, a) = step_spec(m);
        match a {
            Err(e) => (m2, inp, Seq::empty(), Err(e)),
            Ok(Action::Halt) => (m2, inp, Seq::empty(), Ok(true)),
            Ok(Action::Continue) => run_spec(m2, inp, (fuel - 1) as nat),
            Ok(Action::Output(b)) => {
                let (m3, i3, o3, r3) = run_spec(m2, inp, (fuel - 1) as nat);
                (m3, i3, seq![b] + o3, r3)
            },
            Ok(Action::Input) => {
                if inp.len() > 0 {
                    run_spec(input_spec(m2, Some(inp[0])), inp.drop_first(), (fuel - 1) as nat)
                } else {
                    run_spec(input_spec(m2, None), inp, (fuel - 1) as nat)
                }
            },
        }
    }
}

/// A step that fails ends the run at once, with nothing more written.
pub proof fn lemma_error_ends_run(m: Machine, inp: Seq<u8>, fuel: nat)
    requires
        fuel > 0,
        step_spec(m).1 is Err,
    ensures
        run_spec(m, inp, fuel).2 == Seq::<u8>::empty(),
        run_spec(m, inp, fuel).3 == Err::<bool, Error>(step_spec(m).1->Err_0),
{
}

/// A loop end with no loop open is an error.
pub proof fn lemma_stray_loop_end(m: Machine)
    requires
        m.frames.len() == 0,
        0 <= m.pc < m.program.len(),
        m.program[m.pc] == Opcode::LoopEnd,
    ensures
        step_spec(m).1 == Err::<Action, Error>(Error::InvalidToken),
{
}

/// `m` is at the start of `program`, on a fresh tape.
pub open spec fn is_fresh(m: Machine, program: Seq<Opcode>) -> bool {
    &&& m.program == program
    &&& m.pc == 0
    &&& m.frames == Seq::<Frame>::empty()
    &&& m.tape == seq![0u8]
    &&& m.cursor == 0
}

/// What building a machine from a lexing outcome gives.
pub open spec fn built_from(r: Result<HnyFuck, Error>, lexed: Result<Seq<Opcode>, Error>) -> bool {
    match r {
        Ok(h) => h.wf() && lexed is Ok && is_fresh(h@, lexed->Ok_0),
        Err(e) => lexed == Err::<Seq<Opcode>, Error>(e),
    }
}

/// A machine for Brainfuck text, which is first written out as word pairs.
pub fn from_brainfuck(code: &str) -> (r: Result<HnyFuck, Error>)
    ensures
        built_from(r, bf_result(code@)),
{
    match lex_brainfuck(code) {
        Ok(p) => {
            let text = to_words(&p);
            proof {
                lemma_round_trip(code@);
            }
            HnyFuck::from_str(text.as_str())
        },
        Err(e) => Err(e),
    }
}

/// An interpreter: a program, where it stands in it, and the tape.
#[derive(Debug)]
pub struct HnyFuck {
    program: Vec<Opcode>,
    pc: usize,
    frames: Vec<Frame>,
    pub state: State,
}

impl View for HnyFuck {
    type V = Machine;

    closed spec fn view(&self) -> Machine {
        Machine {
            program: self.program@,
            pc: self.pc as int,
            frames: self.frames@,
            tape: self.state.state@,
            cursor: self.state.index as int,
        }
    }
}

fn find_loop_end(p: &Vec<Opcode>, from: usize, lim: usize) -> (r: usize)
    requires
        0 < from <= lim <= p@.len(),
    ensures
        r == loop_end(p@, from as int, 1, lim as int),
{
    let mut i = from;
    let mut depth: usize = 1;
    while i < lim
        invariant
            0 < from <= i <= lim <= p@.len(),
            1 <= depth <= (i as int) - (from as int) + 1,
            loop_end(p@, from as int, 1, lim as int) == loop_end(
                p@,
                i as int,
                depth as int,
                lim as int,
            ),
        decreases lim - i,
    {
        match p[i] {
            Opcode::LoopStart => {
                depth = depth + 1;
            },
            Opcode::LoopEnd => {
                if depth == 1 {
                    return i;
                }
                depth = depth - 1;
            },
            _ => {},
        }
        i = i + 1;
    }
    lim
}

impl HnyFuck {
    pub closed spec fn wf(&self) -> bool {
        machine_wf(self@)
    }

    /// A machine at the start of `program`, on a fresh tape.
    pub fn with_program(program: Vec<Opcode>) -> (r: HnyFuck)
        ensures
            r.wf(),
            is_fresh(r@, program@),
    {
        let n = program.len();
        assert(program@.len() == n);
        HnyFuck { program, pc: 0, frames: Vec::new(), state: State::new() }
    }

    /// A machine for the word pairs of `stream`.
    pub fn new(stream: TokenStream) -> (r: Result<HnyFuck, Error>)
        ensures
            built_from(r, tokens_result(stream@)),
    {
        match lex_words(stream) {
            Ok(p) => Ok(HnyFuck::with_program(p)),
            Err(e) => Err(e),
        }
    }

    /// A machine for word-pair text.
    pub fn from_str(input: &str) -> (r: Result<HnyFuck, Error>)
        ensures
            built_from(r, words_result(input@)),
    {
        HnyFuck::new(TokenStream::from_str(input))
    }

    /// Stores a byte pulled from the input under the cursor; `None`, for an
    /// exhausted input, leaves the cell as it was.
    pub fn input(&mut self, byte: Option<u8>)
        requires
            old(self).wf(),
        ensures
            final(self).wf(),
            final(self)@ == input_spec(old(self)@, byte),
    {
        self.state.input(byte);
        assert(final(self)@ == input_spec(old(self)@, byte)) by {
            match byte {
                Some(b) => {},
                None => {
                    assert(final(self).state.state@ =~= old(self).state.state@);
                },
            }
        }
    }

    fn limit(&self) -> (r: usize)
        requires
            self.wf(),
        ensures
            r == limit(self@),
    {
        if self.frames.len() == 0 {
            self.program.len()
        } else {
            self.frames[self.frames.len() - 1].end
        }
    }

    /// The check at the end of a loop body: go back to its start if the cell
    /// under the cursor is non-zero, else leave the loop.
    fn end_of_body(&mut self)
        requires
            old(self).wf(),
            old(self)@.pc >= limit(old(self)@),
            old(self)@.frames.len() > 0,
        ensures
            final(self).wf(),
            (final(self)@, Ok::<Action, Error>(Action::Continue)) == step_spec(old(self)@),
    {
        let f = self.frames[self.frames.len() - 1];
        if self.state.cond() {
            self.pc = f.start;
            proof {
                assert(frame_ok(self.program@.len() as int, self.frames@, self.frames@.len() - 1));
            }
        } else {
            self.frames.pop();
            self.pc = f.resume;
            proof {
                let m = old(self)@;
                let k = m.frames.len() - 1;
                lemma_frames_pop(m.program.len() as int, m.frames);
                assert(frame_ok(m.program.len() as int, m.frames, k));
                if k > 0 {
                    assert(final(self).frames@.last() == m.frames[k - 1]);
                }
            }
        }
    }

    /// Opens the loop that starts at the current instruction.
    fn enter_loop(&mut self, lim: usize)
        requires
            old(self).wf(),
            lim == limit(old(self)@),
            old(self)@.pc < lim,
            old(self)@.program[old(self)@.pc] == Opcode::LoopStart,
        ensures
            final(self).wf(),
            (final(self)@, Ok::<Action, Error>(Action::Continue)) == step_spec(old(self)@),
    {
        let ghost m = old(self)@;
        proof {
            lemma_limit(m);
        }
        let start = self.pc + 1;
        let e = find_loop_end(&self.program, start, lim);
        proof {
            lemma_loop_end_bounds(m.program, start as int, 1, lim as int);
        }
        let resume = if e < lim {
            e + 1
        } else {
            lim
        };
        proof {
            lemma_frames_push(m.program.len() as int, m.frames, Frame { start, end: e, resume });
        }
        self.frames.push(Frame { start, end: e, resume });
        self.pc = start;
    }

    /// Runs one instruction, or the check at the end of a loop body.
    pub fn step(&mut self) -> (r: Result<Action, Error>)
        requires
            old(self).wf(),
        ensures
            final(self).wf(),
            (final(self)@, r) == step_spec(old(self)@),
    {
        let lim = self.limit();
        proof {
            lemma_limit(self@);
        }
        if self.pc >= lim {
            if self.frames.len() == 0 {
                return Ok(Action::Halt);
            }
            self.end_of_body();
            return Ok(Action::Continue);
        }
        match self.program[self.pc] {
            Opcode::ShiftLeft => {
                if self.state.index == 0 && self.state.state.len() == usize::MAX {
                    return Err(Error::TapeFull);
                }
                self.state.shift_left();
                self.pc = self.pc + 1;
                Ok(Action::Continue)
            },
            Opcode::ShiftRight => {
                if self.state.index == self.state.state.len() - 1 && self.state.state.len()
                    == usize::MAX {
                    return Err(Error::TapeFull);
                }
                self.state.shiht_right();
                self.pc = self.pc + 1;
                Ok(Action::Continue)
            },
            Opcode::Increment => {
                self.state.increment();
                self.pc = self.pc + 1;
                Ok(Action::Continue)
            },
            Opcode::Decrement => {
                self.state.decrement();
                self.pc = self.pc + 1;
                Ok(Action::Continue)
            },
            Opcode::Output => {
                let b = self.state.output();
                self.pc = self.pc + 1;
                Ok(Action::Output(b))
            },
            Opcode::Input => {
                self.pc = self.pc + 1;
                Ok(Action::Input)
            },
            Opcode::LoopStart => {
                self.enter_loop(lim);
                Ok(Action::Continue)
            },
            Opcode::LoopEnd => Err(Error::InvalidToken),
        }
    }

    /// Runs at most `fuel` steps, taking input from `input` and appending
    /// output to `output`. Gives `Ok(true)` when the program has ended,
    /// `Ok(false)` when the steps ran out first, and the error of a step that
    /// failed.
    pub fn run(&mut self, input: &mut InputStream, output: &mut Vec<u8>, fuel: usize) -> (r:
        Result<bool, Error>)
        requires
            old(self).wf(),
            old(input).wf(),
        ensures
            final(self).wf(),
            final(input).wf(),
            ({
                let (m, i, o, res) = run_spec(old(self)@, old(input).rest(), fuel as nat);
                &&& final(self)@ == m
                &&& final(input).rest() == i
                &&& final(output)@ == old(output)@ + o
                &&& r == res
            }),
    {
        let ghost total = run_spec(old(self)@, old(input).rest(), fuel as nat);
        let mut left = fuel;
        assert(old(output)@ + total.2 =~= output@ + total.2);
        loop
            invariant
                self.wf(),
                input.wf(),
                left <= fuel,
                total == run_spec(old(self)@, old(input).rest(), fuel as nat),
                ({
                    let (m, i, o, res) = run_spec(self@, input.rest(), left as nat);
                    &&& total.0 == m
                    &&& total.1 == i
                    &&& old(output)@ + total.2 == output@ + o
                    &&& total.3 == res
                }),
            decreases left,
        {
            if left == 0 {
                assert(output@ + Seq::<u8>::empty() =~= output@);
                return Ok(false);
            }
            let ghost before = self@;
            let ghost inp = input.rest();
            let ghost out = output@;
            let a = self.step();
            left = left - 1;
            match a {
                Err(e) => {
                    assert(out + Seq::<u8>::empty() =~= out);
                    return Err(e);
                },
                Ok(Action::Halt) => {
                    assert(out + Seq::<u8>::empty() =~= out);
                    return Ok(true);
                },
                Ok(Action::Continue) => {},
                Ok(Action::Output(b)) => {
                    output.push(b);
                    proof {
                        let o3 = run_spec(self@, inp, left as nat).2;
                        assert(out + (seq![b] + o3) =~= output@ + o3);
                    }
                },
                Ok(Action::Input) => {
                    let byte = input.next();
                    self.input(byte);
                },
            }
        }
    }
}

} // verus!

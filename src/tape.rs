use vstd::prelude::*;

verus! {

/// The cell value after adding one, modulo 256.
pub open spec fn wrap_inc(v: u8) -> u8 {
    if v == 255 { 0 } else { (v + 1) as u8 }
}

/// The cell value after subtracting one, modulo 256.
pub open spec fn wrap_dec(v: u8) -> u8 {
    if v == 0 { 255 } else { (v - 1) as u8 }
}

/// Cells and cursor after a move to the left: at index 0 a zero cell is put
/// in front and the cursor stays at 0.
pub open spec fn tape_shift_left(t: Seq<u8>, c: int) -> (Seq<u8>, int) {
    if c == 0 {
        (seq![0u8] + t, 0)
    } else {
        (t, c - 1)
    }
}

/// Cells and cursor after a move to the right: at the last cell a zero cell
/// is appended first.
pub open spec fn tape_shift_right(t: Seq<u8>, c: int) -> (Seq<u8>, int) {
    if c + 1 == t.len() {
        (t.push(0), c + 1)
    } else {
        (t, c + 1)
    }
}

/// Whether a move to the left needs a new cell.
pub open spec fn grows_left(t: Seq<u8>, c: int) -> bool {
    c == 0
}

/// Whether a move to the right needs a new cell.
pub open spec fn grows_right(t: Seq<u8>, c: int) -> bool {
    c + 1 == t.len()
}

/// The tape: a row of byte cells that grows at either end, and a cursor.
#[derive(Debug, Clone)]
pub struct State {
    /// The cells, lowest logical address first.
    pub state: Vec<u8>,
    /// The cursor, an index into `state`.
    pub index: usize,
}

impl State {
    /// The cursor is always on an existing cell.
    pub open spec fn wf(&self) -> bool {
        self.index < self.state@.len()
    }

    /// The value under the cursor.
    pub open spec fn current(&self) -> u8 {
        self.state@[self.index as int]
    }

    /// A tape of one zero cell, with the cursor on it.
    pub fn new() -> (r: State)
        ensures
            r.wf(),
            r.state@ == seq![0u8],
            r.index == 0,
    {
        let mut state: Vec<u8> = Vec::new();
        state.push(0);
        State { state, index: 0 }
    }

    /// Moves the cursor one cell to the left; at the lowest cell a new zero
    /// cell is put in front, and the cursor stays at index 0.
    pub fn shift_left(&mut self)
        requires
            old(self).wf(),
            grows_left(old(self).state@, old(self).index as int) ==> old(self).state@.len()
                < usize::MAX,
        ensures
            final(self).wf(),
            (final(self).state@, final(self).index as int) == tape_shift_left(
                old(self).state@,
                old(self).index as int,
            ),
    {
        if self.index == 0 {
            self.state.insert(0, 0);
            assert(self.state@ =~= seq![0u8] + old(self).state@);
        } else {
            self.index = self.index - 1;
        }
    }

    /// Moves the cursor one cell to the right; at the highest cell a new zero
    /// cell is appended first.
    pub fn shiht_right(&mut self)
        requires
            old(self).wf(),
            grows_right(old(self).state@, old(self).index as int) ==> old(self).state@.len()
                < usize::MAX,
        ensures
            final(self).wf(),
            (final(self).state@, final(self).index as int) == tape_shift_right(
                old(self).state@,
                old(self).index as int,
            ),
    {
        if self.index == self.state.len() - 1 {
            self.state.push(0);
        }
        self.index = self.index + 1;
    }

    /// Adds one to the cell under the cursor, wrapping from 255 to 0.
    pub fn increment(&mut self)
        requires
            old(self).wf(),
        ensures
            final(self).wf(),
            final(self).index == old(self).index,
            final(self).state@ == old(self).state@.update(
                old(self).index as int,
                wrap_inc(old(self).current()),
            ),
    {
        let v = self.state[self.index];
        let n: u8 = if v == 255 { 0 } else { v + 1 };
        self.state.set(self.index, n);
    }

    /// Subtracts one from the cell under the cursor, wrapping from 0 to 255.
    pub fn decrement(&mut self)
        requires
            old(self).wf(),
        ensures
            final(self).wf(),
            final(self).index == old(self).index,
            final(self).state@ == old(self).state@.update(
                old(self).index as int,
                wrap_dec(old(self).current()),
            ),
    {
        let v = self.state[self.index];
        let n: u8 = if v == 0 { 255 } else { v - 1 };
        self.state.set(self.index, n);
    }

    /// The byte under the cursor, to be written out.
    pub fn output(&self) -> (r: u8)
        requires
            self.wf(),
        ensures
            r == self.current(),
    {
        self.state[self.index]
    }

    /// Stores a byte pulled from the input under the cursor; an exhausted
    /// input (`None`) leaves the cell as it was.
    pub fn input(&mut self, byte: Option<u8>)
        requires
            old(self).wf(),
        ensures
            final(self).wf(),
            final(self).index == old(self).index,
            match byte {
                Some(b) => final(self).state@ == old(self).state@.update(old(self).index as int, b),
                None => final(self).state@ == old(self).state@,
            },
    {
        if let Some(b) = byte {
            self.state.set(self.index, b);
        }
    }

    /// Whether the cell under the cursor is non-zero.
    pub fn cond(&self) -> (r: bool)
        requires
            self.wf(),
        ensures
            r == (self.current() != 0),
    {
        self.state[self.index] != 0
    }
}

/// `v` after `n` increments.
pub open spec fn inc_n(v: u8, n: nat) -> u8
    decreases n,
{
    if n == 0 {
        v
    } else {
        wrap_inc(inc_n(v, (n - 1) as nat))
    }
}

proof fn lemma_inc_n(v: u8, n: nat)
    ensures
        inc_n(v, n) as int == (v + n) % 256,
    decreases n,
{
    if n > 0 {
        lemma_inc_n(v, (n - 1) as nat);
    }
}

/// Cell arithmetic is modulo 256: 256 increments give back the value, and a
/// decrement undoes an increment.
pub proof fn lemma_increment_cycle(v: u8)
    ensures
        inc_n(v, 256) == v,
        wrap_dec(wrap_inc(v)) == v,
        wrap_inc(wrap_dec(v)) == v,
{
    lemma_inc_n(v, 256);
}

/// From the single initial cell, a move left and then a move right ends on
/// the same cell with its value kept, on a tape of two cells.
pub proof fn lemma_shift_left_right(v: u8)
    ensures
        ({
            let (t1, c1) = tape_shift_left(seq![v], 0);
            let (t2, c2) = tape_shift_right(t1, c1);
            t2 == seq![0u8, v] && c2 == 1 && t2[c2] == v
        }),
{
    assert(seq![0u8] + seq![v] =~= seq![0u8, v]);
}

/// A source of input bytes, read in order; once empty it stays empty.
#[derive(Debug, Clone)]
pub struct InputStream {
    bytes: Vec<u8>,
    pos: usize,
}

impl InputStream {
    /// The bytes that are still to come.
    pub closed spec fn rest(&self) -> Seq<u8> {
        self.bytes@.subrange(self.pos as int, self.bytes@.len() as int)
    }

    pub closed spec fn wf(&self) -> bool {
        self.pos <= self.bytes@.len()
    }

    /// A source that yields `bytes` and then is exhausted.
    pub fn new(bytes: Vec<u8>) -> (r: InputStream)
        ensures
            r.wf(),
            r.rest() == bytes@,
    {
        let r = InputStream { bytes, pos: 0 };
        assert(r.rest() =~= r.bytes@);
        r
    }

    /// The next byte, or `None` when the source is exhausted.
    pub fn next(&mut self) -> (r: Option<u8>)
        requires
            old(self).wf(),
        ensures
            final(self).wf(),
            old(self).rest().len() == 0 ==> r == None::<u8> && final(self).rest() == old(
                self,
            ).rest(),
            old(self).rest().len() > 0 ==> r == Some(old(self).rest()[0]) && final(self).rest()
                == old(self).rest().drop_first(),
    {
        if self.pos < self.bytes.len() {
            let b = self.bytes[self.pos];
            self.pos = self.pos + 1;
            assert(self.rest() =~= old(self).rest().drop_first());
            Some(b)
        } else {
            None
        }
    }
}

} // verus!

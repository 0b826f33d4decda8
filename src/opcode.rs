use vstd::prelude::*;

verus! {

/// One of the eight instructions of the machine.
#[derive(Debug, Clone, Copy, PartialEq, Eq, Structural)]
pub enum Opcode {
    ShiftLeft,
    ShiftRight,
    Increment,
    Decrement,
    Output,
    Input,
    LoopStart,
    LoopEnd,
}

/// Why a program was rejected or stopped.
#[derive(Debug, Clone, Copy, PartialEq, Eq, Structural)]
pub enum Error {
    /// A character outside the eight of the Brainfuck table.
    InvalidCharacter,
    /// A word pair outside the table, a word left without a partner, or a
    /// loop end with no loop to close.
    InvalidToken,
    /// The tape has as many cells as an index can address.
    TapeFull,
}

/// The instruction of a Brainfuck character, if it has one.
pub open spec fn opcode_of_char(c: char) -> Option<Opcode> {
    if c == '<' {
        Some(Opcode::ShiftLeft)
    } else if c == '>' {
        Some(Opcode::ShiftRight)
    } else if c == '+' {
        Some(Opcode::Increment)
    } else if c == '-' {
        Some(Opcode::Decrement)
    } else if c == '.' {
        Some(Opcode::Output)
    } else if c == ',' {
        Some(Opcode::Input)
    } else if c == '[' {
        Some(Opcode::LoopStart)
    } else if c == ']' {
        Some(Opcode::LoopEnd)
    } else {
        None
    }
}

/// The word `Happy`.
pub open spec fn happy() -> Seq<char> {
    seq!['H', 'a', 'p', 'p', 'y']
}

/// The word `New`.
pub open spec fn new_word() -> Seq<char> {
    seq!['N', 'e', 'w']
}

/// The word `Year`.
pub open spec fn year() -> Seq<char> {
    seq!['Y', 'e', 'a', 'r']
}

/// The two words that spell an instruction.
pub open spec fn words_of(op: Opcode) -> (Seq<char>, Seq<char>) {
    match op {
        Opcode::ShiftLeft => (happy(), new_word()),
        Opcode::ShiftRight => (new_word(), year()),
        Opcode::Increment => (year(), happy()),
        Opcode::Decrement => (happy(), year()),
        Opcode::Output => (year(), new_word()),
        Opcode::Input => (new_word(), happy()),
        Opcode::LoopStart => (happy(), happy()),
        Opcode::LoopEnd => (new_word(), new_word()),
    }
}

/// The instruction that a pair of words spells, if any.
pub open spec fn opcode_of_words(a: Seq<char>, b: Seq<char>) -> Option<Opcode> {
    if exists|op: Opcode| words_of(op) == (a, b) {
        Some(choose|op: Opcode| words_of(op) == (a, b))
    } else {
        None
    }
}

/// Each instruction is spelt by exactly one pair of words.
pub proof fn lemma_words_unique(op: Opcode)
    ensures
        opcode_of_words(words_of(op).0, words_of(op).1) == Some(op),
{
    lemma_words_distinct();
    let (a, b) = words_of(op);
    assert(words_of(op) == (a, b));
    let o = choose|o: Opcode| words_of(o) == (a, b);
    assert(o == op);
}

proof fn lemma_words_distinct()
    ensures
        happy() != new_word(),
        happy() != year(),
        new_word() != year(),
{
    assert(happy()[0] != new_word()[0]);
    assert(happy()[0] != year()[0]);
    assert(new_word()[0] != year()[0]);
}

} // verus!

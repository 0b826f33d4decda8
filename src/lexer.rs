use vstd::prelude::*;
use vstd::string::StringExecFns;
use crate::opcode::{Error, Opcode, opcode_of_char, opcode_of_words, words_of, happy, new_word, year};
use crate::tokens::{TokenStream, is_space, split_state, split_words};

verus! {

/// Every character of `s` is one of the eight Brainfuck characters.
pub open spec fn bf_valid(s: Seq<char>) -> bool {
    forall|i: int| 0 <= i < s.len() ==> (#[trigger] opcode_of_char(s[i])) is Some
}

/// The instructions of a valid Brainfuck text, one per character.
pub open spec fn bf_program(s: Seq<char>) -> Seq<Opcode> {
    s.map_values(|c: char| opcode_of_char(c)->0)
}

/// The words come in pairs, and each pair spells an instruction.
pub open spec fn pairs_valid(t: Seq<Seq<char>>) -> bool {
    &&& t.len() % 2 == 0
    &&& forall|i: int|
        0 <= i < t.len() / 2 ==> (#[trigger] opcode_of_words(t[2 * i], t[2 * i + 1])) is Some
}

/// The instructions spelt by a valid sequence of word pairs.
pub open spec fn pairs_program(t: Seq<Seq<char>>) -> Seq<Opcode> {
    Seq::new((t.len() / 2) as nat, |i: int| opcode_of_words(t[2 * i], t[2 * i + 1])->0)
}

/// The outcome of reading a sequence of words as pairs.
pub open spec fn tokens_result(t: Seq<Seq<char>>) -> Result<Seq<Opcode>, Error> {
    if pairs_valid(t) {
        Ok(pairs_program(t))
    } else {
        Err(Error::InvalidToken)
    }
}

/// The outcome of reading word-pair text.
pub open spec fn words_result(s: Seq<char>) -> Result<Seq<Opcode>, Error> {
    tokens_result(split_words(s))
}

/// The outcome of reading Brainfuck text.
pub open spec fn bf_result(s: Seq<char>) -> Result<Seq<Opcode>, Error> {
    if bf_valid(s) {
        Ok(bf_program(s))
    } else {
        Err(Error::InvalidCharacter)
    }
}

/// The view of a lexing result.
pub open spec fn result_view(r: Result<Vec<Opcode>, Error>) -> Result<Seq<Opcode>, Error> {
    match r {
        Ok(p) => Ok(p@),
        Err(e) => Err(e),
    }
}

fn opcode_from_char(c: char) -> (r: Option<Opcode>)
    ensures
        r == opcode_of_char(c),
{
    match c {
        '<' => Some(Opcode::ShiftLeft),
        '>' => Some(Opcode::ShiftRight),
        '+' => Some(Opcode::Increment),
        '-' => Some(Opcode::Decrement),
        '.' => Some(Opcode::Output),
        ',' => Some(Opcode::Input),
        '[' => Some(Opcode::LoopStart),
        ']' => Some(Opcode::LoopEnd),
        _ => None,
    }
}

/// Reads Brainfuck text: each of the eight characters is one instruction,
/// and any other character is an error.
pub fn lex_brainfuck(code: &str) -> (r: Result<Vec<Opcode>, Error>)
    ensures
        result_view(r) == bf_result(code@),
{
    broadcast use vstd::string::axiom_spec_iter;

    let mut program: Vec<Opcode> = Vec::new();
    for c in it: code.chars()
        invariant
            it.seq() == code@,
            bf_valid(code@.take(it.index() as int)),
            program@ == bf_program(code@.take(it.index() as int)),
    {
        let ghost k = it.index();
        match opcode_from_char(c) {
            Some(op) => {
                program.push(op);
                proof {
                    let t = code@.take(k + 1);
                    assert(t =~= code@.take(k as int).push(c));
                    assert(program@ =~= bf_program(t));
                }
            },
            None => {
                assert(!bf_valid(code@)) by {
                    assert(opcode_of_char(code@[k as int]) is None);
                }
                return Err(Error::InvalidCharacter);
            },
        }
    }
    assert(code@.take(code@.len() as int) =~= code@);
    Ok(program)
}

/// Relies on `==` of str: true exactly when the two hold the same characters.
#[verifier::external_body]
fn str_eq(a: &str, b: &str) -> (r: bool)
    ensures
        r == (a@ == b@),
{
    a == b
}

/// Which of the three words `w` is: 0 for `Happy`, 1 for `New`, 2 for `Year`,
/// 3 for any other.
fn word_index(w: &str) -> (r: u8)
    ensures
        r == 0 <==> w@ == happy(),
        r == 1 <==> w@ == new_word(),
        r == 2 <==> w@ == year(),
        r <= 3,
{
    proof {
        reveal_strlit("Happy");
        reveal_strlit("New");
        reveal_strlit("Year");
        assert(happy()[0] != new_word()[0]);
        assert(happy()[0] != year()[0]);
        assert(new_word()[0] != year()[0]);
    }
    if str_eq(w, "Happy") {
        assert("Happy"@ =~= happy());
        0
    } else if str_eq(w, "New") {
        assert("New"@ =~= new_word());
        assert(w@ != happy());
        1
    } else if str_eq(w, "Year") {
        assert("Year"@ =~= year());
        2
    } else {
        assert("Happy"@ =~= happy());
        assert("New"@ =~= new_word());
        assert("Year"@ =~= year());
        3
    }
}

/// The instruction that two words spell, if any.
pub fn opcode_from_words(a: &str, b: &str) -> (r: Option<Opcode>)
    ensures
        r == opcode_of_words(a@, b@),
{
    let i = word_index(a);
    let j = word_index(b);
    let r = if i == 0 && j == 1 {
        Some(Opcode::ShiftLeft)
    } else if i == 1 && j == 2 {
        Some(Opcode::ShiftRight)
    } else if i == 2 && j == 0 {
        Some(Opcode::Increment)
    } else if i == 0 && j == 2 {
        Some(Opcode::Decrement)
    } else if i == 2 && j == 1 {
        Some(Opcode::Output)
    } else if i == 1 && j == 0 {
        Some(Opcode::Input)
    } else if i == 0 && j == 0 {
        Some(Opcode::LoopStart)
    } else if i == 1 && j == 1 {
        Some(Opcode::LoopEnd)
    } else {
        None
    };
    proof {
        match r {
            Some(op) => crate::opcode::lemma_words_unique(op),
            None => {
                assert forall|op: Opcode| words_of(op) != (a@, b@) by {
                    match op {
                        _ => {},
                    }
                }
            },
        }
    }
    r
}

/// Reads the words of `stream` two at a time; a pair outside the table, or
/// a last word without a partner, is an error.
pub fn lex_words(tokens: TokenStream) -> (r: Result<Vec<Opcode>, Error>)
    ensures
        result_view(r) == tokens_result(tokens@),
{
    let ghost t = tokens@;
    let mut stream = tokens;
    let mut program: Vec<Opcode> = Vec::new();
    loop
        invariant
            t == tokens@,
            2 * program@.len() + stream@.len() == t.len(),
            stream@ == t.skip(2 * program@.len() as int),
            forall|i: int|
                0 <= i < program@.len() ==> (#[trigger] opcode_of_words(t[2 * i], t[2 * i + 1]))
                    == Some(program@[i]),
        decreases stream@.len(),
    {
        let ghost k = program@.len() as int;
        if stream.peek().is_none() {
            assert(pairs_valid(t)) by {
                assert forall|i: int| 0 <= i < t.len() / 2 implies (#[trigger] opcode_of_words(
                    t[2 * i],
                    t[2 * i + 1],
                )) is Some by {
                    assert(opcode_of_words(t[2 * i], t[2 * i + 1]) == Some(program@[i]));
                }
            }
            assert(program@ =~= pairs_program(t));
            return Ok(program);
        }
        match stream.next2() {
            None => {
                assert(t.len() % 2 == 1);
                return Err(Error::InvalidToken);
            },
            Some((a, b)) => {
                assert(a@ == t[2 * k] && b@ == t[2 * k + 1]);
                match opcode_from_words(a.as_str(), b.as_str()) {
                    Some(op) => {
                        program.push(op);
                        assert(stream@ =~= t.skip(2 * program@.len() as int));
                        assert forall|i: int| 0 <= i < program@.len() implies (
                        #[trigger] opcode_of_words(t[2 * i], t[2 * i + 1])) == Some(program@[i]) by {
                            if i == k {
                            } else {
                                assert(opcode_of_words(t[2 * i], t[2 * i + 1]) == Some(
                                    program@[i],
                                ));
                            }
                        }
                    },
                    None => {
                        assert(opcode_of_words(t[2 * k], t[2 * k + 1]) is None);
                        return Err(Error::InvalidToken);
                    },
                }
            },
        }
    }
}

/// The words that spell a program, two for each instruction.
pub open spec fn program_words(p: Seq<Opcode>) -> Seq<Seq<char>> {
    Seq::new(
        2 * p.len(),
        |i: int|
            if i % 2 == 0 {
                words_of(p[i / 2]).0
            } else {
                words_of(p[i / 2]).1
            },
    )
}

/// Words joined by single spaces.
pub open spec fn join_words(ws: Seq<Seq<char>>) -> Seq<char>
    decreases ws.len(),
{
    if ws.len() == 0 {
        Seq::empty()
    } else if ws.len() == 1 {
        ws[0]
    } else {
        join_words(ws.drop_last()) + seq![' '] + ws.last()
    }
}

/// A program written out as word-pair text.
pub open spec fn render_words(p: Seq<Opcode>) -> Seq<char> {
    join_words(program_words(p))
}

/// A word that splitting keeps whole.
pub open spec fn plain_word(w: Seq<char>) -> bool {
    w.len() > 0 && forall|j: int| 0 <= j < w.len() ==> !is_space(#[trigger] w[j])
}

proof fn lemma_split_append(x: Seq<char>, w: Seq<char>)
    requires
        forall|j: int| 0 <= j < w.len() ==> !is_space(#[trigger] w[j]),
    ensures
        split_state(x + w) == (split_state(x).0, split_state(x).1 + w),
    decreases w.len(),
{
    if w.len() == 0 {
        assert(x + w =~= x);
        assert(split_state(x).1 + w =~= split_state(x).1);
    } else {
        let v = w.drop_last();
        lemma_split_append(x, v);
        assert((x + w).drop_last() =~= x + v);
        assert((split_state(x).1 + v).push(w.last()) =~= split_state(x).1 + w);
    }
}

proof fn lemma_split_join(ws: Seq<Seq<char>>)
    requires
        ws.len() > 0,
        forall|i: int| 0 <= i < ws.len() ==> plain_word(#[trigger] ws[i]),
    ensures
        split_state(join_words(ws)) == (ws.drop_last(), ws.last()),
    decreases ws.len(),
{
    if ws.len() == 1 {
        assert(plain_word(ws[0]));
        lemma_split_append(Seq::empty(), ws[0]);
        assert(Seq::<char>::empty() + ws[0] =~= ws[0]);
        assert(ws.drop_last() =~= Seq::<Seq<char>>::empty());
    } else {
        let vs = ws.drop_last();
        assert forall|i: int| 0 <= i < vs.len() implies plain_word(#[trigger] vs[i]) by {
            assert(plain_word(ws[i]));
        }
        lemma_split_join(vs);
        let x = join_words(vs) + seq![' '];
        assert(x.drop_last() =~= join_words(vs));
        assert(is_space(x.last()));
        assert(plain_word(vs.last()));
        assert(vs.drop_last().push(vs.last()) =~= vs);
        assert(split_state(x) == (vs, Seq::<char>::empty()));
        assert(plain_word(ws.last()));
        lemma_split_append(x, ws.last());
        assert(Seq::<char>::empty() + ws.last() =~= ws.last());
    }
}

proof fn lemma_split_words_join(ws: Seq<Seq<char>>)
    requires
        forall|i: int| 0 <= i < ws.len() ==> plain_word(#[trigger] ws[i]),
    ensures
        split_words(join_words(ws)) == ws,
{
    if ws.len() > 0 {
        lemma_split_join(ws);
        assert(plain_word(ws.last()));
        assert(ws.drop_last().push(ws.last()) =~= ws);
    }
}

proof fn lemma_words_plain(op: Opcode)
    ensures
        plain_word(words_of(op).0),
        plain_word(words_of(op).1),
{
}

/// Lexing Brainfuck text gives the same program as lexing its word-pair
/// rendering: the two syntaxes spell the same instructions.
pub proof fn lemma_round_trip(s: Seq<char>)
    requires
        bf_valid(s),
    ensures
        words_result(render_words(bf_program(s))) == bf_result(s),
{
    let p = bf_program(s);
    let ws = program_words(p);
    assert forall|i: int| 0 <= i < ws.len() implies plain_word(#[trigger] ws[i]) by {
        lemma_words_plain(p[i / 2]);
    }
    lemma_split_words_join(ws);
    assert forall|i: int| 0 <= i < ws.len() / 2 implies (#[trigger] opcode_of_words(
        ws[2 * i],
        ws[2 * i + 1],
    )) is Some && opcode_of_words(ws[2 * i], ws[2 * i + 1])->0 == p[i] by {
        assert((2 * i) / 2 == i && (2 * i) % 2 == 0);
        assert((2 * i + 1) / 2 == i && (2 * i + 1) % 2 == 1);
        crate::opcode::lemma_words_unique(p[i]);
    }
    assert(pairs_program(ws) =~= p);
}

/// A character outside the table, wherever it stands, rejects the whole text.
pub proof fn lemma_bad_char(s: Seq<char>, i: int)
    requires
        0 <= i < s.len(),
        opcode_of_char(s[i]) is None,
    ensures
        bf_result(s) == Err::<Seq<Opcode>, Error>(Error::InvalidCharacter),
{
}

/// A pair of words outside the table, wherever it stands, rejects the whole
/// text.
pub proof fn lemma_bad_pair(t: Seq<Seq<char>>, i: int)
    requires
        0 <= i < t.len() / 2,
        opcode_of_words(t[2 * i], t[2 * i + 1]) is None,
    ensures
        tokens_result(t) == Err::<Seq<Opcode>, Error>(Error::InvalidToken),
{
}

proof fn lemma_render_push(p: Seq<Opcode>, op: Opcode)
    ensures
        render_words(p.push(op)) == if p.len() == 0 {
            words_of(op).0 + seq![' '] + words_of(op).1
        } else {
            render_words(p) + seq![' '] + words_of(op).0 + seq![' '] + words_of(op).1
        },
{
    let ws = program_words(p);
    let vs = program_words(p.push(op));
    assert(vs.drop_last().drop_last() =~= ws);
    assert(vs.last() == words_of(op).1);
    assert(vs.drop_last().last() == words_of(op).0);
    assert(join_words(vs) == join_words(vs.drop_last()) + seq![' '] + words_of(op).1);
    if p.len() == 0 {
        assert(vs.drop_last().len() == 1);
        assert(join_words(vs.drop_last()) == words_of(op).0);
    } else {
        assert(join_words(vs.drop_last()) == join_words(ws) + seq![' '] + words_of(op).0);
    }
}

/// The text of one of the three words.
fn word_text(w: u8) -> (r: &'static str)
    requires
        w < 3,
    ensures
        w == 0 ==> r@ == happy(),
        w == 1 ==> r@ == new_word(),
        w == 2 ==> r@ == year(),
{
    proof {
        reveal_strlit("Happy");
        reveal_strlit("New");
        reveal_strlit("Year");
    }
    if w == 0 {
        assert("Happy"@ =~= happy());
        "Happy"
    } else if w == 1 {
        assert("New"@ =~= new_word());
        "New"
    } else {
        assert("Year"@ =~= year());
        "Year"
    }
}

/// The two words of an instruction, as indices for `word_text`.
fn word_pair(op: Opcode) -> (r: (u8, u8))
    ensures
        r.0 < 3 && r.1 < 3,
        r.0 == 0 ==> words_of(op).0 == happy(),
        r.0 == 1 ==> words_of(op).0 == new_word(),
        r.0 == 2 ==> words_of(op).0 == year(),
        r.1 == 0 ==> words_of(op).1 == happy(),
        r.1 == 1 ==> words_of(op).1 == new_word(),
        r.1 == 2 ==> words_of(op).1 == year(),
{
    match op {
        Opcode::ShiftLeft => (0, 1),
        Opcode::ShiftRight => (1, 2),
        Opcode::Increment => (2, 0),
        Opcode::Decrement => (0, 2),
        Opcode::Output => (2, 1),
        Opcode::Input => (1, 0),
        Opcode::LoopStart => (0, 0),
        Opcode::LoopEnd => (1, 1),
    }
}

/// Writes a program out as word-pair text, each word followed by a single
/// space except the last.
pub fn to_words(program: &Vec<Opcode>) -> (r: String)
    ensures
        r@ == render_words(program@),
{
    let mut text = String::new();
    let mut i: usize = 0;
    assert(program@.take(0) =~= Seq::<Opcode>::empty());
    assert(program_words(Seq::<Opcode>::empty()) =~= Seq::<Seq<char>>::empty());
    while i < program.len()
        invariant
            i <= program@.len(),
            text@ == render_words(program@.take(i as int)),
        decreases program@.len() - i,
    {
        let op = program[i];
        let (a, b) = word_pair(op);
        if i > 0 {
            text.append(" ");
        }
        text.append(word_text(a));
        text.append(" ");
        text.append(word_text(b));
        proof {
            reveal_strlit(" ");
            assert(" "@ =~= seq![' ']);
            assert(program@.take(i + 1) =~= program@.take(i as int).push(op));
            lemma_render_push(program@.take(i as int), op);
            if i == 0 {
                assert(render_words(program@.take(0)) =~= Seq::<char>::empty());
            }
            assert(text@ =~= render_words(program@.take(i + 1)));
        }
        i = i + 1;
    }
    assert(program@.take(program@.len() as int) =~= program@);
    text
}

} // verus!

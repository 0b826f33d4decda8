use hnyfuck::{
    from_brainfuck, lex_brainfuck, lex_words, opcode_from_words, to_words, Action, Error, HnyFuck,
    InputStream, Opcode, State, TokenStream,
};

const FUEL: usize = 10_000_000;

fn run_quiet(hny: &mut HnyFuck) -> Vec<u8> {
    let mut input = InputStream::new(Vec::new());
    let mut output = Vec::new();
    assert_eq!(hny.run(&mut input, &mut output, FUEL), Ok(true));
    output
}

#[test]
fn test_increment() {
    let mut hny = from_brainfuck("+++++").unwrap();
    run_quiet(&mut hny);
    assert_eq!(hny.state.state[0], 5);
}

#[test]
fn test_decrement() {
    let mut hny = from_brainfuck("+++++-----").unwrap();
    run_quiet(&mut hny);
    assert_eq!(hny.state.state[0], 0);
}

#[test]
fn test_shift_left_right() {
    let mut hny = from_brainfuck("+++++>+++++<").unwrap();
    run_quiet(&mut hny);
    assert_eq!(hny.state.state[0], 5);
    assert_eq!(hny.state.state[1], 5);
}

#[test]
fn test_loop() {
    let mut hny = from_brainfuck("+++++[>+++++<-]").unwrap();
    run_quiet(&mut hny);
    assert_eq!(hny.state.state[0], 0);
    assert_eq!(hny.state.state[1], 25);
}

#[test]
fn test_state_increment() {
    let mut state = State::new();
    state.increment();
    assert_eq!(state.state[0], 1);
}

#[test]
fn test_state_decrement() {
    let mut state = State::new();
    state.increment();
    state.decrement();
    assert_eq!(state.state[0], 0);
}

#[test]
fn test_state_shift_left() {
    let mut state = State::new();
    state.increment();
    state.shift_left();
    assert_eq!(state.state[0], 0);
    assert_eq!(state.state[1], 1);
}

#[test]
fn test_state_shift_right() {
    let mut state = State::new();
    state.increment();
    state.shiht_right();
    state.increment();
    assert_eq!(state.state[0], 1);
    assert_eq!(state.state[1], 1);
}

#[test]
fn test_state_cond() {
    let mut state = State::new();
    assert!(!state.cond());
    state.increment();
    assert!(state.cond());
}

#[test]
fn happy_new_year() {
    let code =
        "Year Happy Year Happy Year Happy Year Happy Year Happy Year Happy Year Happy Year Happy Year Happy Year Happy Happy Happy New Year Year Happy New Year Year Happy Year Happy Year Happy New Year Year Happy Year Happy Year Happy Year Happy Year Happy Year Happy Year Happy New Year Year Happy Year Happy Year Happy Year Happy Year Happy Year Happy Year Happy Year Happy Year Happy Year Happy Happy New Happy New Happy New Happy New Happy Year New New New Year New Year New Year Year Happy Year Happy Year New New Year Happy Year Happy Year Happy Year Year New Year Happy Year Happy Year Happy Year Happy Year Happy Year Happy Year Happy Year Happy Year Happy Year Happy Year Happy Year Happy Year Happy Year Happy Year Happy Year Happy Year New Year New Year Happy Year Happy Year Happy Year Happy Year Happy Year Happy Year Happy Year Happy Year Happy Year New Happy New Happy New Year Happy Year Happy Year New New Year Year Happy Year Happy Year Happy Year Happy Year Happy Year Happy Year New New Year Happy Year Happy Year Happy Year Happy Year Happy Year Happy Year Happy Year Happy Year Happy Year Happy Year Happy Year Happy Year Happy Year Happy Year Happy Year Happy Year Happy Year Happy Year Happy Year Happy Year Happy Year Happy Year Year New Year Happy Year Happy Year Happy Year Happy Year Happy Year Happy Year Happy Year Happy Year Happy Year Happy Year Happy Year Happy Year Happy Year Happy Year Happy Year Happy Year Happy Year Happy Year Happy Year New Happy New Happy New Year New New Year Year Happy Year Happy Year Happy Year Happy Year Happy Year Happy Year Happy Year Happy Year Happy Year Happy Year Happy Year New Year Happy Year Happy Year Happy Year Happy Year Happy Year Happy Year Happy Year Happy Year Happy Year Happy Year Happy Year Happy Year New Happy Year Happy Year Happy Year Happy Year Year New New Year Happy Year Happy Year Happy Year Happy Year Happy Year Year New Happy New Happy New Year Happy Year New";

    let mut hny = HnyFuck::new(TokenStream::from_str(code)).unwrap();
    let output = run_quiet(&mut hny);
    assert!(!output.is_empty());
}

#[test]
fn increment_wraps_after_256() {
    let mut state = State::new();
    for _ in 0..256 {
        state.increment();
    }
    assert_eq!(state.state[0], 0);
    state.decrement();
    assert_eq!(state.state[0], 255);
    state.increment();
    assert_eq!(state.state[0], 0);
}

#[test]
fn program_of_256_increments_is_no_op() {
    let code = "+".repeat(256);
    let mut hny = from_brainfuck(&code).unwrap();
    run_quiet(&mut hny);
    assert_eq!(hny.state.state, vec![0]);
}

#[test]
fn brainfuck_and_word_pairs_agree() {
    let bf = "+-<>[],.";
    let words = "Year Happy Happy Year Happy New New Year Happy Happy New New New Happy Year New";
    let direct = lex_brainfuck(bf).unwrap();
    let via_words = lex_words(TokenStream::from_str(words)).unwrap();
    assert_eq!(direct, via_words);
    assert_eq!(
        direct,
        vec![
            Opcode::Increment,
            Opcode::Decrement,
            Opcode::ShiftLeft,
            Opcode::ShiftRight,
            Opcode::LoopStart,
            Opcode::LoopEnd,
            Opcode::Input,
            Opcode::Output,
        ]
    );
}

#[test]
fn shift_left_then_right_keeps_cell() {
    let mut state = State::new();
    state.increment();
    state.increment();
    state.shift_left();
    assert_eq!(state.index, 0);
    state.shiht_right();
    assert_eq!(state.index, 1);
    assert_eq!(state.state, vec![0, 2]);
}

#[test]
fn shift_right_at_end_grows_tape() {
    let mut state = State::new();
    state.shiht_right();
    assert_eq!(state.state, vec![0, 0]);
    assert_eq!(state.index, 1);
    state.shift_left();
    state.shiht_right();
    assert_eq!(state.state.len(), 2);
}

#[test]
fn input_on_exhausted_source_keeps_cell() {
    let mut hny = from_brainfuck("+++,,").unwrap();
    let mut input = InputStream::new(vec![7]);
    let mut output = Vec::new();
    assert_eq!(hny.run(&mut input, &mut output, FUEL), Ok(true));
    assert_eq!(hny.state.state[0], 7);
    assert_eq!(input.next(), None);

    let mut hny = from_brainfuck("+++,").unwrap();
    let mut empty = InputStream::new(Vec::new());
    assert_eq!(hny.run(&mut empty, &mut output, FUEL), Ok(true));
    assert_eq!(hny.state.state[0], 3);
}

#[test]
fn state_input_none_keeps_cell() {
    let mut state = State::new();
    state.increment();
    state.input(None);
    assert_eq!(state.state[0], 1);
    state.input(Some(42));
    assert_eq!(state.state[0], 42);
}

#[test]
fn output_writes_cells() {
    let mut hny = from_brainfuck("++++++++[>++++++++<-]>+.+.").unwrap();
    let out = run_quiet(&mut hny);
    assert_eq!(out, vec![65, 66]);
    assert_eq!(hny.state.output(), 66);
}

#[test]
fn invalid_character_is_rejected() {
    assert_eq!(lex_brainfuck("++a+").unwrap_err(), Error::InvalidCharacter);
    assert_eq!(from_brainfuck("[[+ ]]").unwrap_err(), Error::InvalidCharacter);
    assert_eq!(lex_brainfuck("").unwrap(), Vec::<Opcode>::new());
}

#[test]
fn invalid_pair_is_rejected() {
    assert_eq!(
        HnyFuck::from_str("Happy Happy Year Happy Happy Merry New New").unwrap_err(),
        Error::InvalidToken
    );
    assert_eq!(HnyFuck::from_str("Year Happy Year").unwrap_err(), Error::InvalidToken);
    assert!(HnyFuck::from_str("  \n\t ").is_ok());
}

#[test]
fn stray_loop_end_stops_without_output() {
    let mut hny = from_brainfuck("+.]+.").unwrap();
    let mut input = InputStream::new(Vec::new());
    let mut output = Vec::new();
    assert_eq!(hny.run(&mut input, &mut output, FUEL), Err(Error::InvalidToken));
    assert_eq!(output, vec![1]);
}

#[test]
fn loop_body_runs_once_on_zero_cell() {
    let mut hny = from_brainfuck("[>+<]").unwrap();
    run_quiet(&mut hny);
    assert_eq!(hny.state.state, vec![0, 1]);
}

#[test]
fn unterminated_loop_runs_to_end() {
    let mut hny = from_brainfuck("+++[>++<-").unwrap();
    run_quiet(&mut hny);
    assert_eq!(hny.state.state, vec![0, 6]);
}

#[test]
fn nested_loops() {
    let mut hny = from_brainfuck("++[>++[>+++<-]<-]").unwrap();
    run_quiet(&mut hny);
    assert_eq!(hny.state.state, vec![0, 0, 12]);
}

#[test]
fn fuel_runs_out() {
    let mut hny = from_brainfuck("+[]").unwrap();
    let mut input = InputStream::new(Vec::new());
    let mut output = Vec::new();
    assert_eq!(hny.run(&mut input, &mut output, 1000), Ok(false));
}

#[test]
fn step_reports_actions() {
    let mut hny = from_brainfuck(",.").unwrap();
    assert_eq!(hny.step(), Ok(Action::Input));
    hny.input(Some(9));
    assert_eq!(hny.step(), Ok(Action::Output(9)));
    assert_eq!(hny.step(), Ok(Action::Halt));
}

#[test]
fn words_split_on_any_white_space() {
    let mut stream = TokenStream::from_str("  Happy\tNew\n\u{3000}Year\u{a0}x ");
    assert_eq!(stream.len(), 4);
    assert_eq!(stream.peek().map(|s| s.as_str()), Some("Happy"));
    assert_eq!(stream.peekn(3).map(|s| s.as_str()), Some("x"));
    assert_eq!(stream.peekn(4), None);
    assert_eq!(stream.next2(), Some(("Happy".to_string(), "New".to_string())));
    assert_eq!(stream.next().as_deref(), Some("Year"));
    assert_eq!(stream.next2(), None);
    assert_eq!(stream.len(), 0);
    assert_eq!(stream.next(), None);
}

#[test]
fn token_stream_push() {
    let mut stream = TokenStream::new();
    stream.push("New".to_string());
    stream.push("Year".to_string());
    let program = lex_words(stream).unwrap();
    assert_eq!(program, vec![Opcode::ShiftRight]);
}

#[test]
fn word_table() {
    assert_eq!(opcode_from_words("Happy", "New"), Some(Opcode::ShiftLeft));
    assert_eq!(opcode_from_words("New", "Year"), Some(Opcode::ShiftRight));
    assert_eq!(opcode_from_words("Year", "Happy"), Some(Opcode::Increment));
    assert_eq!(opcode_from_words("Happy", "Year"), Some(Opcode::Decrement));
    assert_eq!(opcode_from_words("Year", "New"), Some(Opcode::Output));
    assert_eq!(opcode_from_words("New", "Happy"), Some(Opcode::Input));
    assert_eq!(opcode_from_words("Happy", "Happy"), Some(Opcode::LoopStart));
    assert_eq!(opcode_from_words("New", "New"), Some(Opcode::LoopEnd));
    assert_eq!(opcode_from_words("Year", "Year"), None);
    assert_eq!(opcode_from_words("happy", "New"), None);
}

#[test]
fn input_stream_yields_in_order() {
    let mut input = InputStream::new(vec![1, 2]);
    assert_eq!(input.next(), Some(1));
    assert_eq!(input.next(), Some(2));
    assert_eq!(input.next(), None);
    assert_eq!(input.next(), None);
}

#[test]
fn brainfuck_written_as_words() {
    let program = lex_brainfuck("+>").unwrap();
    assert_eq!(to_words(&program), "Year Happy New Year");
    assert_eq!(to_words(&Vec::new()), "");
    let all = lex_brainfuck("<>+-.,[]").unwrap();
    let text = to_words(&all);
    assert_eq!(lex_words(TokenStream::from_str(&text)).unwrap(), all);
}

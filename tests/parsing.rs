use tmsim_converter::config::{convert, ConvertError, TMachineConfiguration};
use tmsim_converter::line::{classify_line, parse_alphabet_or_tape, LineKind};
use tmsim_converter::rule::{parse_command, Command, Move, ParseError};

fn lines(text: &[&str]) -> Vec<String> {
    text.iter().map(|l| l.to_string()).collect()
}

#[test]
fn transition_with_each_move() {
    let cases = [('R', Move::Right), ('L', Move::Left), ('S', Move::Stop)];
    for (letter, mv) in cases {
        let line = format!("q12(a) -> q3(b){}", letter);
        let c = parse_command(&line).unwrap();
        assert_eq!(
            c,
            Command { state: 12, next_state: 3, reading_char: 'a', place_char: 'b', next_move: mv }
        );
    }
}

#[test]
fn unknown_move_letter_falls_back_to_stop() {
    let c = parse_command("q3(x) -> q4(y)Z").unwrap();
    assert_eq!(c.next_move, Move::Stop);
    assert_eq!((c.state, c.next_state, c.reading_char, c.place_char), (3, 4, 'x', 'y'));
    assert_eq!(classify_line("q3(x) -> q4(y)Z"), LineKind::Ignored);
}

#[test]
fn transition_symbols_may_be_punctuation() {
    let c = parse_command("q0(() -> q1())L").unwrap();
    assert_eq!((c.reading_char, c.place_char, c.next_move), ('(', ')', Move::Left));
    let c = parse_command("q0( ) -> q1(-)R").unwrap();
    assert_eq!((c.reading_char, c.place_char), (' ', '-'));
}

#[test]
fn whitespace_around_arrow_is_free() {
    let canonical = parse_command("q0(a) -> q1(b)R").unwrap();
    for line in ["q0(a)->q1(b)R", "q0(a)  ->q1(b)R", "q0(a)\t->   q1(b)R", "q0(a)\u{3000}->\u{a0}q1(b)R"] {
        assert_eq!(parse_command(line), Ok(canonical), "{:?}", line);
        assert_eq!(classify_line(line), LineKind::Transition, "{:?}", line);
    }
}

#[test]
fn transition_leading_zeros() {
    let c = parse_command("q007(a) -> q010(b)L").unwrap();
    assert_eq!((c.state, c.next_state), (7, 10));
}

#[test]
fn transition_largest_state() {
    let max = usize::MAX.to_string();
    let line = format!("q{}(a) -> q0(b)R", max);
    assert_eq!(parse_command(&line).unwrap().state, usize::MAX);
    let over = format!("q{}0(a) -> q0(b)R", max);
    assert_eq!(parse_command(&over), Err(ParseError::StateOutOfRange));
    let over = format!("q0(a) -> q{}9(b)R", max);
    assert_eq!(parse_command(&over), Err(ParseError::StateOutOfRange));
}

#[test]
fn malformed_transitions() {
    for line in [
        "",
        "q(a) -> q1(b)R",
        "q0(a) -> q(b)R",
        "q0(a) - > q1(b)R",
        "q0(a) -> q 1(b)R",
        "q 0(a) -> q1(b)R",
        "q0(ab) -> q1(b)R",
        "q0(a) -> q1(b)",
        "q0(a) -> q1(b)RR",
        "p0(a) -> q1(b)R",
        "q0(a) -> q1(b)\n",
    ] {
        assert_eq!(parse_command(line), Err(ParseError::Malformed), "{:?}", line);
    }
}

#[test]
fn classify_each_shape() {
    assert_eq!(classify_line("q0(a) -> q1(b)R"), LineKind::Transition);
    assert_eq!(classify_line("alphabet: (ab)"), LineKind::Alphabet);
    assert_eq!(classify_line("alphabet:(ab)"), LineKind::Alphabet);
    assert_eq!(classify_line("alphabet:    ()"), LineKind::Alphabet);
    assert_eq!(classify_line("tape: (*ab)"), LineKind::Tape);
    assert_eq!(classify_line("tape:(*)"), LineKind::Tape);
    assert_eq!(classify_line("tape: (ab)"), LineKind::Ignored);
    assert_eq!(classify_line("tape: ()"), LineKind::Ignored);
    assert_eq!(classify_line("alphabet: (ab"), LineKind::Ignored);
    assert_eq!(classify_line("alphabet :(ab)"), LineKind::Ignored);
    assert_eq!(classify_line("# a comment"), LineKind::Ignored);
    assert_eq!(classify_line(""), LineKind::Ignored);
}

#[test]
fn alphabet_sorted_and_deduplicated() {
    let a = parse_alphabet_or_tape("alphabet: (badcab)", false);
    let b = parse_alphabet_or_tape("alphabet: (abcd)", false);
    assert_eq!(a, "abcd");
    assert_eq!(a, b);
    let again = parse_alphabet_or_tape(&format!("alphabet: ({})", a), false);
    assert_eq!(again, a);
}

#[test]
fn alphabet_edge_cases() {
    assert_eq!(parse_alphabet_or_tape("alphabet: ()", false), "");
    assert_eq!(parse_alphabet_or_tape("alphabet:(zz10)", false), "01z");
    assert_eq!(parse_alphabet_or_tape("alphabet: (a(b))", false), "()ab");
}

#[test]
fn tape_keeps_order_duplicates_and_marker() {
    assert_eq!(parse_alphabet_or_tape("tape: (*aab)", true), "*aab");
    assert_eq!(parse_alphabet_or_tape("tape:(*)", true), "*");
    assert_eq!(parse_alphabet_or_tape("tape:  (*ba*ab)", true), "*ba*ab");
}

#[test]
fn later_declarations_win() {
    let conf = convert(&lines(&[
        "alphabet: (xy)",
        "tape: (*x)",
        "alphabet: (cba)",
        "tape: (*yy)",
    ]))
    .unwrap();
    assert_eq!(conf.alphabet.as_deref(), Some("abc"));
    assert_eq!(conf.tape.as_deref(), Some("*yy"));
    assert!(conf.commands.is_empty());
}

#[test]
fn identical_rules_are_both_kept() {
    let conf = convert(&lines(&[
        "q0(a) -> q1(b)R",
        "q0(a) -> q1(b)R",
        "alphabet: (ab)",
        "tape: (*a)",
    ]))
    .unwrap();
    assert_eq!(conf.commands.len(), 2);
    assert_eq!(conf.commands[0], conf.commands[1]);
}

#[test]
fn rules_keep_input_order() {
    let conf = convert(&lines(&[
        "q2(a) -> q0(b)L",
        "junk",
        "q0(a) -> q1(b)R",
        "alphabet: (ab)",
        "q1(b) -> q2(a)S",
        "tape: (*a)",
    ]))
    .unwrap();
    let states: Vec<usize> = conf.commands.iter().map(|c| c.state).collect();
    assert_eq!(states, vec![2, 0, 1]);
}

#[test]
fn missing_alphabet_is_refused() {
    let r = convert(&lines(&["q0(a) -> q1(b)R", "tape: (*a)"]));
    assert_eq!(r.unwrap_err(), ConvertError::MissingAlphabet);
    let r = convert(&lines(&[]));
    assert_eq!(r.unwrap_err(), ConvertError::MissingAlphabet);
}

#[test]
fn missing_tape_is_refused() {
    let r = convert(&lines(&["q0(a) -> q1(b)R", "alphabet: (ab)"]));
    assert_eq!(r.unwrap_err(), ConvertError::MissingTape);
}

#[test]
fn oversized_state_is_refused() {
    let big = format!("q{}0(a) -> q1(b)R", usize::MAX);
    let r = convert(&vec![big, "alphabet: (a)".to_string(), "tape: (*a)".to_string()]);
    assert_eq!(r.unwrap_err(), ConvertError::StateOutOfRange);
}

#[test]
fn end_to_end_example() {
    let conf = convert(&lines(&["q0(a) -> q1(b)R", "alphabet: (ba)", "tape: (*aab)"])).unwrap();
    assert_eq!(
        conf.commands,
        vec![Command {
            state: 0,
            next_state: 1,
            reading_char: 'a',
            place_char: 'b',
            next_move: Move::Right
        }]
    );
    assert_eq!(conf.alphabet.as_deref(), Some("ab"));
    assert_eq!(conf.tape.as_deref(), Some("*aab"));
}

#[test]
fn builder_steps() {
    let mut conf = TMachineConfiguration::new();
    assert_eq!(conf.add_line("q0(a) -> q1(b)R"), Ok(()));
    assert_eq!(conf.add_line("ignored line"), Ok(()));
    let big = format!("q{}0(a) -> q1(b)R", usize::MAX);
    assert_eq!(conf.add_line(&big), Err(ParseError::StateOutOfRange));
    assert_eq!(conf.commands.len(), 1);
    conf.set_alphabet("ab".to_string());
    assert_eq!(conf.alphabet.as_deref(), Some("ab"));
    let conf = conf.finish();
    assert_eq!(conf.unwrap_err(), ConvertError::MissingTape);
}

use regex::Regex;
use tmsim_converter::line::{classify_line, LineKind};

fn by_patterns(line: &str) -> LineKind {
    let transition = Regex::new(r"^q\d+[(].[)]\s*->\s*q\d+[(].[)](R|L|S)$").unwrap();
    let alphabet = Regex::new(r"^alphabet: *[(].*[)]$").unwrap();
    let tape = Regex::new(r"^tape: *[(][*].*[)]$").unwrap();
    if transition.is_match(line) {
        LineKind::Transition
    } else if alphabet.is_match(line) {
        LineKind::Alphabet
    } else if tape.is_match(line) {
        LineKind::Tape
    } else {
        LineKind::Ignored
    }
}

#[test]
fn classifier_agrees_with_regular_expressions() {
    let samples = [
        "q0(a) -> q1(b)R",
        "q10(() -> q2())S",
        "q0(a) -> q1(b)X",
        "q0(a) -> q1(bc)R",
        "q0(a)->q1(b)R",
        "q0(a)  ->\tq1(b)L",
        "q0(a) - > q1(b)L",
        "qq0(a) -> q1(b)R",
        "alphabet: (ab)",
        "alphabet:(ab)",
        "alphabet:   (a b)",
        "alphabet: ()",
        "alphabet: (a)b",
        "alphabet: ab)",
        "alphabet: (a\nb)",
        "tape: (*)",
        "tape: (*ab)",
        "tape:(*ab)",
        "tape: (ab)",
        "tape: *ab)",
        "tape (*ab)",
        "",
        "hello",
    ];
    for s in samples {
        assert_eq!(classify_line(s), by_patterns(s), "{:?}", s);
    }
}

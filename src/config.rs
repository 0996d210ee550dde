use vstd::prelude::*;
use crate::line::{alphabet_of, classify_line, kind_of, parse_alphabet_or_tape, tape_of, LineKind};
use crate::rule::{parse_command, rule_of, states_fit, Command, ParseError};

verus! {

/// A machine's configuration: its rules in input order, its alphabet and
/// its initial tape.
#[derive(Debug)]
pub struct TMachineConfiguration {
    pub commands: Vec<Command>,
    pub alphabet: Option<String>,
    pub tape: Option<String>,
}

/// What a configuration holds, as mathematical values.
pub struct ConfigView {
    pub commands: Seq<Command>,
    pub alphabet: Option<Seq<char>>,
    pub tape: Option<Seq<char>>,
}

/// The characters of an optional string.
pub open spec fn opt_chars(o: Option<String>) -> Option<Seq<char>> {
    match o {
        Some(s) => Some(s@),
        None => None,
    }
}

impl View for TMachineConfiguration {
    type V = ConfigView;

    open spec fn view(&self) -> ConfigView {
        ConfigView {
            commands: self.commands@,
            alphabet: opt_chars(self.alphabet),
            tape: opt_chars(self.tape),
        }
    }
}

/// Why no configuration could be produced from a text.
#[derive(Clone, Copy, Debug, PartialEq, Eq, Structural)]
pub enum ConvertError {
    /// A transition line names a state too large for a `usize`.
    StateOutOfRange,
    /// No alphabet line was seen.
    MissingAlphabet,
    /// No tape line was seen.
    MissingTape,
}

/// The configuration before any line is read.
pub open spec fn empty_view() -> ConfigView {
    ConfigView { commands: Seq::empty(), alphabet: None, tape: None }
}

/// The configuration after reading `line` into `v`: a transition is
/// appended, an alphabet or a tape replaces the one before, any other
/// line leaves `v` as it is.
pub open spec fn step(v: ConfigView, line: Seq<char>) -> ConfigView {
    match kind_of(line) {
        LineKind::Transition => ConfigView { commands: v.commands.push(rule_of(line)), ..v },
        LineKind::Alphabet => ConfigView { alphabet: Some(alphabet_of(line)), ..v },
        LineKind::Tape => ConfigView { tape: Some(tape_of(line)), ..v },
        LineKind::Ignored => v,
    }
}

/// The configuration read from `lines`, in order.
pub open spec fn assemble(lines: Seq<Seq<char>>) -> ConfigView
    decreases lines.len(),
{
    if lines.len() == 0 {
        empty_view()
    } else {
        step(assemble(lines.drop_last()), lines.last())
    }
}

/// `line` is no transition whose state numbers overflow a `usize`.
pub open spec fn line_fits(line: Seq<char>) -> bool {
    kind_of(line) == LineKind::Transition ==> states_fit(line)
}

/// Every line of `lines` fits.
pub open spec fn all_lines_fit(lines: Seq<Seq<char>>) -> bool {
    forall|i: int| 0 <= i < lines.len() ==> line_fits(#[trigger] lines[i])
}

/// The outcome of finishing a configuration `v`: it is complete only once
/// both an alphabet and a tape are set, and the alphabet is checked first.
pub open spec fn completed(v: ConfigView) -> Result<ConfigView, ConvertError> {
    if v.alphabet is None {
        Err(ConvertError::MissingAlphabet)
    } else if v.tape is None {
        Err(ConvertError::MissingTape)
    } else {
        Ok(v)
    }
}

/// The outcome of converting `lines`.
pub open spec fn conversion(lines: Seq<Seq<char>>) -> Result<ConfigView, ConvertError> {
    if !all_lines_fit(lines) {
        Err(ConvertError::StateOutOfRange)
    } else {
        completed(assemble(lines))
    }
}

/// The characters of each line.
pub open spec fn lines_view(lines: Seq<String>) -> Seq<Seq<char>> {
    lines.map_values(|l: String| l@)
}

impl TMachineConfiguration {
    /// A configuration with no rules, no alphabet and no tape.
    pub fn new() -> (r: TMachineConfiguration)
        ensures
            r@ == empty_view(),
    {
        TMachineConfiguration { commands: Vec::new(), alphabet: None, tape: None }
    }

    /// Appends a rule; rules are never merged or deduplicated.
    pub fn add_rule(&mut self, c: Command)
        ensures
            final(self)@ == (ConfigView { commands: old(self)@.commands.push(c), ..old(self)@ }),
    {
        self.commands.push(c);
    }

    /// Sets the alphabet, replacing any earlier one.
    pub fn set_alphabet(&mut self, a: String)
        ensures
            final(self)@ == (ConfigView { alphabet: Some(a@), ..old(self)@ }),
    {
        self.alphabet = Some(a);
    }

    /// Sets the tape, replacing any earlier one.
    pub fn set_tape(&mut self, t: String)
        ensures
            final(self)@ == (ConfigView { tape: Some(t@), ..old(self)@ }),
    {
        self.tape = Some(t);
    }

    /// Reads one trimmed line into the configuration. An unrecognised line
    /// changes nothing; a transition whose state numbers overflow a `usize`
    /// is refused and changes nothing.
    pub fn add_line(&mut self, line: &str) -> (r: Result<(), ParseError>)
        ensures
            r is Ok <==> line_fits(line@),
            r is Ok ==> final(self)@ == step(old(self)@, line@),
            r matches Err(e) ==> e == ParseError::StateOutOfRange && final(self)@ == old(self)@,
    {
        match classify_line(line) {
            LineKind::Transition => match parse_command(line) {
                Ok(c) => {
                    self.add_rule(c);
                    Ok(())
                },
                Err(e) => Err(e),
            },
            LineKind::Alphabet => {
                self.set_alphabet(parse_alphabet_or_tape(line, false));
                Ok(())
            },
            LineKind::Tape => {
                self.set_tape(parse_alphabet_or_tape(line, true));
                Ok(())
            },
            LineKind::Ignored => Ok(()),
        }
    }

    /// Hands the configuration back once it has both an alphabet and a
    /// tape; otherwise says which is missing, the alphabet first.
    pub fn finish(self) -> (r: Result<TMachineConfiguration, ConvertError>)
        ensures
            match r {
                Ok(c) => completed(self@) == Ok::<ConfigView, ConvertError>(c@),
                Err(e) => completed(self@) == Err::<ConfigView, ConvertError>(e),
            },
    {
        if self.alphabet.is_none() {
            Err(ConvertError::MissingAlphabet)
        } else if self.tape.is_none() {
            Err(ConvertError::MissingTape)
        } else {
            Ok(self)
        }
    }
}

/// Reads the trimmed lines of a machine description, in order, into a
/// configuration. Stops at the first transition whose state numbers
/// overflow a `usize`; fails when the alphabet or the tape is missing.
pub fn convert(lines: &Vec<String>) -> (r: Result<TMachineConfiguration, ConvertError>)
    ensures
        match r {
            Ok(c) => conversion(lines_view(lines@)) == Ok::<ConfigView, ConvertError>(c@),
            Err(e) => conversion(lines_view(lines@)) == Err::<ConfigView, ConvertError>(e),
        },
{
    let ghost ls = lines_view(lines@);
    let mut conf = TMachineConfiguration::new();
    let mut i: usize = 0;
    assert(ls.subrange(0, 0) =~= Seq::<Seq<char>>::empty());
    while i < lines.len()
        invariant
            i <= lines@.len(),
            ls == lines_view(lines@),
            conf@ == assemble(ls.subrange(0, i as int)),
            all_lines_fit(ls.subrange(0, i as int)),
        decreases lines@.len() - i,
    {
        let ghost before = ls.subrange(0, i as int);
        let ghost after = ls.subrange(0, i + 1);
        assert(after.drop_last() =~= before);
        assert(after.last() == lines@[i as int]@);
        match conf.add_line(lines[i].as_str()) {
            Ok(()) => {},
            Err(_) => {
                assert(!line_fits(ls[i as int]));
                return Err(ConvertError::StateOutOfRange);
            },
        }
        assert forall|k: int| 0 <= k < after.len() implies line_fits(#[trigger] after[k]) by {
            if k < i {
                assert(after[k] == before[k]);
            }
        };
        i = i + 1;
    }
    assert(ls.subrange(0, i as int) =~= ls);
    conf.finish()
}

} // verus!

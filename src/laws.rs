use vstd::prelude::*;
use crate::config::{all_lines_fit, assemble, conversion, ConfigView, ConvertError};
use crate::line::{
    alphabet_keyword, alphabet_of, decl_content, decl_open, is_alphabet_line, is_decl, is_tape_line,
    kind_of, tape_keyword, tape_of, LineKind,
};
use crate::rule::{is_rule_layout, move_of, rule_of, states_fit, Command};
use crate::symbols::{
    lemma_sorted_unique_holds, lemma_sorted_unique_is, lemma_strictly_sorted_unique, same_chars,
    sorted_unique, strictly_sorted,
};
use crate::text::{digit_of, digit_run, digits_value, is_digit, is_white, space_run, white_run};

verus! {

/// The digit that stands for `d < 10`.
pub open spec fn digit_char(d: nat) -> char {
    (d + '0' as nat) as char
}

/// `n` written in decimal with no leading zero.
pub open spec fn decimal(n: nat) -> Seq<char>
    decreases n,
{
    if n < 10 {
        seq![digit_char(n)]
    } else {
        decimal(n / 10).push(digit_char(n % 10))
    }
}

/// The line `q<state>(<r>)<ws1>-><ws2>q<next>(<w>)<m>`.
pub open spec fn render_rule(
    state: nat,
    r: char,
    next: nat,
    w: char,
    m: char,
    ws1: Seq<char>,
    ws2: Seq<char>,
) -> Seq<char> {
    seq!['q'] + decimal(state) + seq!['(', r, ')'] + ws1 + seq!['-', '>'] + ws2 + seq!['q']
        + decimal(next) + seq!['(', w, ')', m]
}

/// Every character of `ws` is whitespace.
pub open spec fn all_white(ws: Seq<char>) -> bool {
    forall|i: int| 0 <= i < ws.len() ==> is_white(#[trigger] ws[i])
}

proof fn lemma_decimal(n: nat)
    ensures
        decimal(n).len() >= 1,
        forall|i: int| 0 <= i < decimal(n).len() ==> is_digit(#[trigger] decimal(n)[i]),
        digits_value(decimal(n)) == n,
    decreases n,
{
    lemma_digit_char(n % 10);
    if n < 10 {
        assert(decimal(n).drop_last() =~= Seq::<char>::empty());
        assert(digits_value(Seq::<char>::empty()) == 0);
        assert(n % 10 == n);
    } else {
        lemma_decimal(n / 10);
        assert(decimal(n).drop_last() =~= decimal(n / 10));
        assert(decimal(n).last() == digit_char(n % 10));
        assert(n == (n / 10) * 10 + n % 10);
    }
}

proof fn lemma_digit_char(d: nat)
    requires
        d < 10,
    ensures
        is_digit(digit_char(d)),
        digit_of(digit_char(d)) == d,
{
    let c = digit_char(d);
    assert((c as int) == d + 48);
}

/// `digit_run` counts a run of digits that ends at a non-digit or at the end.
proof fn lemma_digit_run_exact(s: Seq<char>, i: int, k: int)
    requires
        0 <= i,
        0 <= k,
        i + k <= s.len(),
        forall|j: int| i <= j < i + k ==> is_digit(#[trigger] s[j]),
        i + k < s.len() ==> !is_digit(s[i + k]),
    ensures
        digit_run(s, i) == k,
    decreases k,
{
    if k > 0 {
        assert(is_digit(s[i]));
        lemma_digit_run_exact(s, i + 1, k - 1);
    }
}

/// `white_run` counts a run of whitespace that ends at another character
/// or at the end.
proof fn lemma_white_run_exact(s: Seq<char>, i: int, k: int)
    requires
        0 <= i,
        0 <= k,
        i + k <= s.len(),
        forall|j: int| i <= j < i + k ==> is_white(#[trigger] s[j]),
        i + k < s.len() ==> !is_white(s[i + k]),
    ensures
        white_run(s, i) == k,
    decreases k,
{
    if k > 0 {
        assert(is_white(s[i]));
        lemma_white_run_exact(s, i + 1, k - 1);
    }
}

/// A rule written out reads back as that rule, whatever whitespace stands
/// around the arrow: the state numbers, the symbols read and written, and
/// the trailing letter through `move_of` (`R`, `L`, `S` to `Right`,
/// `Left`, `Stop`, anything else to `Stop`). With `R`, `L` or `S` the line
/// is recognised as a transition.
#[verifier::rlimit(60)]
pub proof fn lemma_rule_round_trip(
    state: usize,
    r: char,
    next: usize,
    w: char,
    m: char,
    ws1: Seq<char>,
    ws2: Seq<char>,
)
    requires
        r != '\n',
        w != '\n',
        m != '\n',
        all_white(ws1),
        all_white(ws2),
    ensures
        is_rule_layout(render_rule(state as nat, r, next as nat, w, m, ws1, ws2)),
        states_fit(render_rule(state as nat, r, next as nat, w, m, ws1, ws2)),
        rule_of(render_rule(state as nat, r, next as nat, w, m, ws1, ws2)) == (Command {
            state,
            next_state: next,
            reading_char: r,
            place_char: w,
            next_move: move_of(m),
        }),
        m == 'R' || m == 'L' || m == 'S' ==> kind_of(
            render_rule(state as nat, r, next as nat, w, m, ws1, ws2),
        ) == LineKind::Transition,
{
    let da = decimal(state as nat);
    let db = decimal(next as nat);
    lemma_decimal(state as nat);
    lemma_decimal(next as nat);
    let t = render_rule(state as nat, r, next as nat, w, m, ws1, ws2);
    let la = da.len() as int;
    let lb = db.len() as int;
    let l1 = ws1.len() as int;
    let l2 = ws2.len() as int;
    let p = 1 + la;
    let a = p + 3 + l1;
    let tq = a + 2 + l2;
    let q = tq + 1 + lb;
    let s1 = seq!['q'] + da;
    let s2 = s1 + seq!['(', r, ')'];
    let s3 = s2 + ws1;
    let s4 = s3 + seq!['-', '>'];
    let s5 = s4 + ws2;
    let s6 = s5 + seq!['q'];
    let s7 = s6 + db;
    assert(t == s7 + seq!['(', w, ')', m]);
    assert(t.len() == q + 4);
    assert forall|j: int| 1 <= j < p implies t[j] == da[j - 1] && is_digit(#[trigger] t[j]) by {
        assert(t[j] == s7[j] && s7[j] == s6[j] && s6[j] == s5[j] && s5[j] == s4[j]);
        assert(s4[j] == s3[j] && s3[j] == s2[j] && s2[j] == s1[j]);
    };
    assert(t[0] == 'q' && t[p] == '(' && t[p + 1] == r && t[p + 2] == ')') by {
        assert(t[0] == s2[0] && t[p] == s2[p] && t[p + 1] == s2[p + 1] && t[p + 2] == s2[p + 2]);
    };
    assert forall|j: int| p + 3 <= j < a implies t[j] == ws1[j - p - 3] && is_white(
        #[trigger] t[j],
    ) by {
        assert(t[j] == s7[j] && s7[j] == s6[j] && s6[j] == s5[j] && s5[j] == s4[j]);
        assert(s4[j] == s3[j]);
    };
    assert(t[a] == '-' && t[a + 1] == '>') by {
        assert(t[a] == s4[a] && t[a + 1] == s4[a + 1]);
    };
    assert forall|j: int| a + 2 <= j < tq implies t[j] == ws2[j - a - 2] && is_white(
        #[trigger] t[j],
    ) by {
        assert(t[j] == s7[j] && s7[j] == s6[j] && s6[j] == s5[j]);
    };
    assert(t[tq] == 'q') by {
        assert(t[tq] == s6[tq]);
    };
    assert forall|j: int| tq + 1 <= j < q implies t[j] == db[j - tq - 1] && is_digit(
        #[trigger] t[j],
    ) by {
        assert(t[j] == s7[j]);
    };
    assert(t[q] == '(' && t[q + 1] == w && t[q + 2] == ')' && t[q + 3] == m);
    lemma_digit_run_exact(t, 1, la);
    lemma_white_run_exact(t, p + 3, l1);
    lemma_white_run_exact(t, a + 2, l2);
    lemma_digit_run_exact(t, tq + 1, lb);
    assert(t.subrange(1, p) =~= da);
    assert(t.subrange(tq + 1, q) =~= db);
    assert(t.last() == m);
}

/// An alphabet is fixed by its characters alone: the alphabet an alphabet
/// line declares is strictly sorted and holds exactly the characters
/// between its parentheses; two alphabet lines with the same characters,
/// in whatever order and with whatever repeats, declare the same alphabet;
/// and normalizing a declared alphabet once more leaves it unchanged.
pub proof fn lemma_alphabet_normal_form(a: Seq<char>, b: Seq<char>)
    requires
        is_alphabet_line(a),
        is_alphabet_line(b),
        same_chars(decl_content(a, alphabet_keyword()), decl_content(b, alphabet_keyword())),
    ensures
        strictly_sorted(alphabet_of(a)),
        same_chars(alphabet_of(a), decl_content(a, alphabet_keyword())),
        alphabet_of(a) == alphabet_of(b),
        sorted_unique(alphabet_of(a)) == alphabet_of(a),
{
    let ca = decl_content(a, alphabet_keyword());
    let cb = decl_content(b, alphabet_keyword());
    lemma_sorted_unique_holds(ca);
    lemma_sorted_unique_holds(cb);
    lemma_strictly_sorted_unique(alphabet_of(a), alphabet_of(b));
    lemma_sorted_unique_is(alphabet_of(a), alphabet_of(a));
}

/// The declaration `<kw><k spaces>(<c>)`.
pub open spec fn render_decl(kw: Seq<char>, k: nat, c: Seq<char>) -> Seq<char> {
    kw + Seq::new(k, |i: int| ' ') + seq!['('] + c + seq![')']
}

/// `space_run` counts a run of spaces that ends at another character.
proof fn lemma_space_run_exact(s: Seq<char>, i: int, k: int)
    requires
        0 <= i,
        0 <= k,
        i + k < s.len(),
        forall|j: int| i <= j < i + k ==> #[trigger] s[j] == ' ',
        s[i + k] != ' ',
    ensures
        space_run(s, i) == k,
    decreases k,
{
    if k > 0 {
        lemma_space_run_exact(s, i + 1, k - 1);
    }
}

/// A declaration written out with text `c` free of line breaks has the
/// declaration shape and reads back `c`.
proof fn lemma_decl_round_trip(kw: Seq<char>, k: nat, c: Seq<char>)
    requires
        !c.contains('\n'),
        kw.len() > 0,
        kw.last() != ' ',
    ensures
        is_decl(render_decl(kw, k, c), kw),
        decl_content(render_decl(kw, k, c), kw) == c,
{
    let sp = Seq::new(k, |i: int| ' ');
    let s = render_decl(kw, k, c);
    let s3 = kw + sp + seq!['('];
    let s4 = s3 + c;
    assert(s == s4 + seq![')']);
    let n = kw.len() as int;
    let o = n + k;
    assert forall|j: int| n <= j < o implies #[trigger] s[j] == ' ' by {
        assert(s[j] == s4[j] && s4[j] == s3[j] && s3[j] == (kw + sp)[j]);
    };
    assert(s[o] == '(') by {
        assert(s[o] == s4[o] && s4[o] == s3[o]);
    };
    lemma_space_run_exact(s, n, k as int);
    assert(decl_open(s, n) == o);
    assert(s.subrange(0, n) =~= kw) by {
        assert forall|j: int| 0 <= j < n implies s[j] == kw[j] by {
            assert(s[j] == s4[j] && s4[j] == s3[j] && s3[j] == (kw + sp)[j]);
        };
    };
    assert forall|i: int| o < i < s.len() - 1 implies s[i] != '\n' by {
        assert(s[i] == s4[i] && s4[i] == c[i - o - 1]);
    };
    assert(s.subrange(o + 1, s.len() - 1) =~= c) by {
        assert forall|i: int| 0 <= i < c.len() implies s[o + 1 + i] == c[i] by {
            assert(s[o + 1 + i] == s4[o + 1 + i]);
        };
    };
}

/// An alphabet written out as `alphabet:<k spaces>(<c>)` is the sorted set
/// of the characters of `c`; two such lines whose texts hold the same
/// characters, in whatever order and with whatever repeats, declare the
/// same alphabet; and writing the declared alphabet out once more and
/// reading it back gives it unchanged.
pub proof fn lemma_alphabet_line_normal_form(k1: nat, c1: Seq<char>, k2: nat, c2: Seq<char>)
    requires
        !c1.contains('\n'),
        !c2.contains('\n'),
        same_chars(c1, c2),
    ensures
        is_alphabet_line(render_decl(alphabet_keyword(), k1, c1)),
        strictly_sorted(alphabet_of(render_decl(alphabet_keyword(), k1, c1))),
        same_chars(alphabet_of(render_decl(alphabet_keyword(), k1, c1)), c1),
        alphabet_of(render_decl(alphabet_keyword(), k1, c1)) == alphabet_of(
            render_decl(alphabet_keyword(), k2, c2),
        ),
        alphabet_of(
            render_decl(alphabet_keyword(), k1, alphabet_of(render_decl(alphabet_keyword(), k1, c1))),
        ) == alphabet_of(render_decl(alphabet_keyword(), k1, c1)),
{
    let kw = alphabet_keyword();
    let l1 = render_decl(kw, k1, c1);
    let l2 = render_decl(kw, k2, c2);
    lemma_decl_round_trip(kw, k1, c1);
    lemma_decl_round_trip(kw, k2, c2);
    lemma_alphabet_normal_form(l1, l2);
    let a = alphabet_of(l1);
    lemma_decl_round_trip(kw, k1, a);
    let l3 = render_decl(kw, k1, a);
    assert(same_chars(decl_content(l3, kw), decl_content(l1, kw)));
    lemma_alphabet_normal_form(l3, l1);
}

/// A tape written out as `tape:<k spaces>(*<c>)` reads back as `*`
/// followed by `c`, every character in its place, repeats kept.
pub proof fn lemma_tape_line_verbatim(k: nat, c: Seq<char>)
    requires
        !c.contains('\n'),
    ensures
        is_tape_line(render_decl(tape_keyword(), k, seq!['*'] + c)),
        tape_of(render_decl(tape_keyword(), k, seq!['*'] + c)) == seq!['*'] + c,
{
    let t = seq!['*'] + c;
    assert(!t.contains('\n')) by {
        if t.contains('\n') {
            let i = choose|i: int| 0 <= i < t.len() && t[i] == '\n';
            assert(c[i - 1] == '\n');
        }
    };
    lemma_decl_round_trip(tape_keyword(), k, t);
}

/// The last alphabet line decides the alphabet, whatever alphabet lines
/// came before it.
pub proof fn lemma_last_alphabet_wins(lines: Seq<Seq<char>>, j: int)
    requires
        0 <= j < lines.len(),
        kind_of(lines[j]) == LineKind::Alphabet,
        forall|k: int| j < k < lines.len() ==> kind_of(#[trigger] lines[k]) != LineKind::Alphabet,
    ensures
        assemble(lines).alphabet == Some(alphabet_of(lines[j])),
    decreases lines.len(),
{
    if j < lines.len() - 1 {
        let rest = lines.drop_last();
        assert forall|k: int| j < k < rest.len() implies kind_of(#[trigger] rest[k]) != LineKind::Alphabet by {
            assert(rest[k] == lines[k]);
        };
        lemma_last_alphabet_wins(rest, j);
        assert(kind_of(lines[lines.len() - 1]) != LineKind::Alphabet);
    }
}

/// The last tape line decides the tape, whatever tape lines came before it.
pub proof fn lemma_last_tape_wins(lines: Seq<Seq<char>>, j: int)
    requires
        0 <= j < lines.len(),
        kind_of(lines[j]) == LineKind::Tape,
        forall|k: int| j < k < lines.len() ==> kind_of(#[trigger] lines[k]) != LineKind::Tape,
    ensures
        assemble(lines).tape == Some(tape_of(lines[j])),
    decreases lines.len(),
{
    if j < lines.len() - 1 {
        let rest = lines.drop_last();
        assert forall|k: int| j < k < rest.len() implies kind_of(#[trigger] rest[k]) != LineKind::Tape by {
            assert(rest[k] == lines[k]);
        };
        lemma_last_tape_wins(rest, j);
        assert(kind_of(lines[lines.len() - 1]) != LineKind::Tape);
    }
}

/// The transition lines of `lines`, in order.
pub open spec fn transition_lines(lines: Seq<Seq<char>>) -> Seq<Seq<char>> {
    lines.filter(|l: Seq<char>| kind_of(l) == LineKind::Transition)
}

/// The rules are the transition lines read one by one, in input order:
/// every transition line gives its own rule, so equal lines give equal,
/// separate rules and nothing is merged.
pub proof fn lemma_rules_follow_lines(lines: Seq<Seq<char>>)
    ensures
        assemble(lines).commands == transition_lines(lines).map_values(|l: Seq<char>| rule_of(l)),
    decreases lines.len(),
{
    reveal(Seq::filter);
    if lines.len() > 0 {
        let rest = lines.drop_last();
        lemma_rules_follow_lines(rest);
        let f = |l: Seq<char>| rule_of(l);
        let tr = transition_lines(rest);
        if kind_of(lines.last()) == LineKind::Transition {
            assert(tr.push(lines.last()).map_values(f) =~= tr.map_values(f).push(rule_of(lines.last())));
        }
    } else {
        assert(transition_lines(lines).map_values(|l: Seq<char>| rule_of(l)) =~= Seq::<Command>::empty());
    }
}

/// Without any alphabet line no alphabet is set.
proof fn lemma_no_alphabet_line(lines: Seq<Seq<char>>)
    requires
        forall|k: int| 0 <= k < lines.len() ==> kind_of(#[trigger] lines[k]) != LineKind::Alphabet,
    ensures
        assemble(lines).alphabet is None,
    decreases lines.len(),
{
    if lines.len() > 0 {
        let rest = lines.drop_last();
        assert forall|k: int| 0 <= k < rest.len() implies kind_of(#[trigger] rest[k]) != LineKind::Alphabet by {
            assert(rest[k] == lines[k]);
        };
        lemma_no_alphabet_line(rest);
        assert(kind_of(lines[lines.len() - 1]) != LineKind::Alphabet);
    }
}

/// Without any tape line no tape is set.
proof fn lemma_no_tape_line(lines: Seq<Seq<char>>)
    requires
        forall|k: int| 0 <= k < lines.len() ==> kind_of(#[trigger] lines[k]) != LineKind::Tape,
    ensures
        assemble(lines).tape is None,
    decreases lines.len(),
{
    if lines.len() > 0 {
        let rest = lines.drop_last();
        assert forall|k: int| 0 <= k < rest.len() implies kind_of(#[trigger] rest[k]) != LineKind::Tape by {
            assert(rest[k] == lines[k]);
        };
        lemma_no_tape_line(rest);
        assert(kind_of(lines[lines.len() - 1]) != LineKind::Tape);
    }
}

/// An alphabet line anywhere sets the alphabet.
proof fn lemma_alphabet_line_sets(lines: Seq<Seq<char>>, j: int)
    requires
        0 <= j < lines.len(),
        kind_of(lines[j]) == LineKind::Alphabet,
    ensures
        assemble(lines).alphabet is Some,
    decreases lines.len(),
{
    if j < lines.len() - 1 {
        let rest = lines.drop_last();
        assert(rest[j] == lines[j]);
        lemma_alphabet_line_sets(rest, j);
    }
}

/// A text without an alphabet line, or without a tape line, yields no
/// configuration: each of the two is missed on its own, the alphabet
/// checked first, so a text with an alphabet but no tape misses the tape.
pub proof fn lemma_missing_declaration_fails(lines: Seq<Seq<char>>)
    ensures
        (forall|k: int| 0 <= k < lines.len() ==> kind_of(#[trigger] lines[k]) != LineKind::Alphabet)
            ==> conversion(lines) is Err,
        (forall|k: int| 0 <= k < lines.len() ==> kind_of(#[trigger] lines[k]) != LineKind::Tape)
            ==> conversion(lines) is Err,
        all_lines_fit(lines) && (forall|k: int| 0 <= k < lines.len() ==> kind_of(#[trigger] lines[k])
            != LineKind::Alphabet) ==> conversion(lines) == Err::<ConfigView, ConvertError>(
            ConvertError::MissingAlphabet,
        ),
        all_lines_fit(lines) && (exists|k: int| 0 <= k < lines.len() && kind_of(#[trigger] lines[k])
            == LineKind::Alphabet) && (forall|k: int| 0 <= k < lines.len() ==> kind_of(
            #[trigger] lines[k],
        ) != LineKind::Tape) ==> conversion(lines) == Err::<ConfigView, ConvertError>(
            ConvertError::MissingTape,
        ),
{
    if exists|k: int| 0 <= k < lines.len() && kind_of(#[trigger] lines[k]) == LineKind::Alphabet {
        let k = choose|k: int| 0 <= k < lines.len() && kind_of(#[trigger] lines[k]) == LineKind::Alphabet;
        lemma_alphabet_line_sets(lines, k);
    }
    if forall|k: int| 0 <= k < lines.len() ==> kind_of(#[trigger] lines[k]) != LineKind::Alphabet {
        lemma_no_alphabet_line(lines);
    }
    if forall|k: int| 0 <= k < lines.len() ==> kind_of(#[trigger] lines[k]) != LineKind::Tape {
        lemma_no_tape_line(lines);
    }
}

} // verus!

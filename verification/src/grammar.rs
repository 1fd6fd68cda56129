//! The grammar of the text of a machine, as functions on sequences of
//! characters.
//!
//! ```text
//! program       := ws? empty_decl ws? initial_decl (ws? rule)* ws?
//! empty_decl    := "EMPTY:" ws? symbol
//! initial_decl  := "INITIAL_STATE:" ws? identifier
//! rule          := configuration ":" ws? transition
//! configuration := "(" ws? identifier ws? "," ws? symbol ws? ")"
//! transition    := "(" ws? identifier ws? "," ws? symbol ws? "," ws? direction ws? ")"
//! direction     := "R" | "L"
//! identifier    := (letter | "_") (letter | digit | "_")*
//! symbol        := quoted | plain*
//! quoted        := '"' (plain character | '\"' | '\\')* '"'
//! ```
//!
//! Each function reads one part of the grammar at a place in the text and
//! gives the place after it and what it stands for, or the failure.

use crate::automata::Move;
use crate::error::{failure, ParseError, ParseErrorKind};
use vstd::prelude::*;

verus! {

/// What reading a part of the text gives: the place after the part and its
/// value, or the failure.
pub type Parsed<T> = Result<(int, T), ParseError>;

/// A configuration as the text gives it: the state's name and the symbol.
pub type ConfigurationText = (Seq<char>, Seq<char>);

/// A transition as the text gives it: the state's name, the symbol and the
/// direction.
pub type TransitionText = (Seq<char>, Seq<char>, Move);

/// A rule as the text gives it.
pub type RuleText = (ConfigurationText, TransitionText);

/// Space, tab, line feed and carriage return.
pub open spec fn is_space(c: char) -> bool {
    c == ' ' || c == '\t' || c == '\n' || c == '\r'
}

/// The letters `a` to `z` and `A` to `Z`.
pub open spec fn is_letter(c: char) -> bool {
    ('a' <= c && c <= 'z') || ('A' <= c && c <= 'Z')
}

/// The digits `0` to `9`.
pub open spec fn is_digit(c: char) -> bool {
    '0' <= c && c <= '9'
}

/// The kinds of characters that the grammar reads in runs.
#[derive(Debug, Clone, Copy, PartialEq, Eq, Structural)]
pub enum CharClass {
    /// White space.
    Space,
    /// What a name holds after its first character: letters, digits, `_`.
    Word,
    /// What a symbol without quotes holds: anything but white space, `(`,
    /// `)`, `,` and `"`.
    Plain,
}

impl CharClass {
    /// Whether `c` is of this kind.
    pub open spec fn admits(self, c: char) -> bool {
        match self {
            CharClass::Space => is_space(c),
            CharClass::Word => is_letter(c) || is_digit(c) || c == '_',
            CharClass::Plain => !is_space(c) && c != '(' && c != ')' && c != ',' && c != '"',
        }
    }
}

/// The end of the longest run of characters of the kind `class` that starts
/// at `pos`: the first place from `pos` on that holds another character, or
/// the end of the text.
pub open spec fn run_end(s: Seq<char>, pos: int, class: CharClass) -> int
    decreases s.len() - pos,
{
    if 0 <= pos < s.len() && class.admits(s[pos]) {
        run_end(s, pos + 1, class)
    } else {
        pos
    }
}

/// The place after the white space at `pos`.
pub open spec fn skip_space(s: Seq<char>, pos: int) -> int {
    run_end(s, pos, CharClass::Space)
}

/// Whether the text holds the character `c` at `pos`.
pub open spec fn has_char(s: Seq<char>, pos: int, c: char) -> bool {
    0 <= pos < s.len() && s[pos] == c
}

/// Whether the text holds `word` from `pos` on.
pub open spec fn has_word(s: Seq<char>, pos: int, word: Seq<char>) -> bool {
    0 <= pos && pos + word.len() <= s.len() && s.subrange(pos, pos + word.len()) == word
}

/// A name at `pos`: a letter or `_`, then the longest run of letters,
/// digits and `_`.
pub open spec fn identifier_at(s: Seq<char>, pos: int) -> Parsed<Seq<char>> {
    if 0 <= pos < s.len() && (is_letter(s[pos]) || s[pos] == '_') {
        let end = run_end(s, pos + 1, CharClass::Word);
        Ok((end, s.subrange(pos, end)))
    } else {
        Err(failure(ParseErrorKind::ExpectedIdentifier, pos))
    }
}

/// `parsed` with `c` put before its value.
pub open spec fn with_first(c: char, parsed: Parsed<Seq<char>>) -> Parsed<Seq<char>> {
    match parsed {
        Ok((end, value)) => Ok((end, seq![c] + value)),
        Err(e) => Err(e),
    }
}

/// The rest of a quoted symbol, whose opening quote stands at `quote`, from
/// `pos` on: the characters up to the closing quote, where `\"` stands for a
/// quote and `\\` for a backslash. A text that ends before the closing quote
/// fails at `quote`, and a backslash before any other character fails where
/// it stands.
pub open spec fn quoted_at(s: Seq<char>, pos: int, quote: int) -> Parsed<Seq<char>>
    decreases s.len() - pos,
{
    if !(0 <= pos < s.len()) {
        Err(failure(ParseErrorKind::UnterminatedString, quote))
    } else if s[pos] == '"' {
        Ok((pos + 1, Seq::empty()))
    } else if s[pos] == '\\' {
        if pos + 1 >= s.len() {
            Err(failure(ParseErrorKind::UnterminatedString, quote))
        } else if s[pos + 1] == '"' || s[pos + 1] == '\\' {
            with_first(s[pos + 1], quoted_at(s, pos + 2, quote))
        } else {
            Err(failure(ParseErrorKind::InvalidEscape, pos))
        }
    } else {
        with_first(s[pos], quoted_at(s, pos + 1, quote))
    }
}

/// A symbol at `pos`: a quoted one where a quote stands there, else the
/// longest run of plain characters, which may be empty.
pub open spec fn symbol_at(s: Seq<char>, pos: int) -> Parsed<Seq<char>> {
    if has_char(s, pos, '"') {
        quoted_at(s, pos + 1, pos)
    } else {
        let end = run_end(s, pos, CharClass::Plain);
        Ok((end, s.subrange(pos, end)))
    }
}

/// A direction at `pos`: `R` or `L`.
pub open spec fn direction_at(s: Seq<char>, pos: int) -> Parsed<Move> {
    if has_char(s, pos, 'R') {
        Ok((pos + 1, Move::Right))
    } else if has_char(s, pos, 'L') {
        Ok((pos + 1, Move::Left))
    } else {
        Err(failure(ParseErrorKind::UnknownDirection, pos))
    }
}

/// What a configuration and a transition begin with, at `pos`: `(`, a name,
/// `,` and a symbol, with white space at will between them and after the
/// symbol.
pub open spec fn pair_at(s: Seq<char>, pos: int) -> Parsed<ConfigurationText> {
    if !has_char(s, pos, '(') {
        Err(failure(ParseErrorKind::ExpectedOpen, pos))
    } else {
        match identifier_at(s, skip_space(s, pos + 1)) {
            Err(e) => Err(e),
            Ok((after_name, name)) => {
                let comma = skip_space(s, after_name);
                if !has_char(s, comma, ',') {
                    Err(failure(ParseErrorKind::ExpectedComma, comma))
                } else {
                    match symbol_at(s, skip_space(s, comma + 1)) {
                        Err(e) => Err(e),
                        Ok((after_symbol, symbol)) => Ok(
                            (skip_space(s, after_symbol), (name, symbol)),
                        ),
                    }
                }
            },
        }
    }
}

/// A configuration at `pos`: `(` name `,` symbol `)`.
pub open spec fn configuration_at(s: Seq<char>, pos: int) -> Parsed<ConfigurationText> {
    match pair_at(s, pos) {
        Err(e) => Err(e),
        Ok((close, pair)) => if has_char(s, close, ')') {
            Ok((close + 1, pair))
        } else {
            Err(failure(ParseErrorKind::ExpectedClose, close))
        },
    }
}

/// A transition at `pos`: `(` name `,` symbol `,` direction `)`.
pub open spec fn transition_at(s: Seq<char>, pos: int) -> Parsed<TransitionText> {
    match pair_at(s, pos) {
        Err(e) => Err(e),
        Ok((comma, pair)) => if !has_char(s, comma, ',') {
            Err(failure(ParseErrorKind::ExpectedComma, comma))
        } else {
            match direction_at(s, skip_space(s, comma + 1)) {
                Err(e) => Err(e),
                Ok((after_direction, direction)) => {
                    let close = skip_space(s, after_direction);
                    if has_char(s, close, ')') {
                        Ok((close + 1, (pair.0, pair.1, direction)))
                    } else {
                        Err(failure(ParseErrorKind::ExpectedClose, close))
                    }
                },
            }
        },
    }
}

/// A rule at `pos`: a configuration, `:` right after it, and a transition.
/// The white space after the transition is read too.
pub open spec fn rule_at(s: Seq<char>, pos: int) -> Parsed<RuleText> {
    match configuration_at(s, pos) {
        Err(e) => Err(e),
        Ok((colon, configuration)) => if !has_char(s, colon, ':') {
            Err(failure(ParseErrorKind::ExpectedColon, colon))
        } else {
            match transition_at(s, skip_space(s, colon + 1)) {
                Err(e) => Err(e),
                Ok((after, transition)) => Ok(
                    (skip_space(s, after), (configuration, transition)),
                ),
            }
        },
    }
}

/// The word that the blank symbol is given after.
pub open spec fn empty_word() -> Seq<char> {
    seq!['E', 'M', 'P', 'T', 'Y', ':']
}

/// The word that the first state is given after.
pub open spec fn initial_word() -> Seq<char> {
    seq!['I', 'N', 'I', 'T', 'I', 'A', 'L', '_', 'S', 'T', 'A', 'T', 'E', ':']
}

/// The blank symbol at `pos`: `EMPTY:` and a symbol.
pub open spec fn empty_at(s: Seq<char>, pos: int) -> Parsed<Seq<char>> {
    if has_word(s, pos, empty_word()) {
        symbol_at(s, skip_space(s, pos + empty_word().len()))
    } else {
        Err(failure(ParseErrorKind::ExpectedEmpty, pos))
    }
}

/// The first state at `pos`: `INITIAL_STATE:` and a name.
pub open spec fn initial_at(s: Seq<char>, pos: int) -> Parsed<Seq<char>> {
    if has_word(s, pos, initial_word()) {
        identifier_at(s, skip_space(s, pos + initial_word().len()))
    } else {
        Err(failure(ParseErrorKind::ExpectedInitialState, pos))
    }
}

/// The head of a program at `pos`: the blank symbol and the first state,
/// with white space at will before, between and after them.
pub open spec fn header_at(s: Seq<char>, pos: int) -> Parsed<(Seq<char>, Seq<char>)> {
    match empty_at(s, skip_space(s, pos)) {
        Err(e) => Err(e),
        Ok((after_empty, blank)) => match initial_at(s, skip_space(s, skip_space(s, after_empty))) {
            Err(e) => Err(e),
            Ok((after_initial, state)) => Ok((skip_space(s, after_initial), (blank, state))),
        },
    }
}

/// The rules from `pos` on, each after white space at will, up to the first
/// place where no rule stands: that place, and the rules in their order.
pub open spec fn rules_at(s: Seq<char>, pos: int) -> (int, Seq<RuleText>)
    decreases s.len() - pos,
    via rules_at_decreases
{
    if !(0 <= pos <= s.len()) {
        (pos, Seq::empty())
    } else {
        match rule_at(s, skip_space(s, pos)) {
            Err(_) => (pos, Seq::empty()),
            Ok((after, rule)) => {
                let rest = rules_at(s, skip_space(s, after));
                (rest.0, seq![rule] + rest.1)
            },
        }
    }
}

#[via_fn]
proof fn rules_at_decreases(s: Seq<char>, pos: int) {
    if 0 <= pos <= s.len() {
        lemma_run_end_bounds(s, pos, CharClass::Space);
        lemma_rule_at_bounds(s, skip_space(s, pos));
        match rule_at(s, skip_space(s, pos)) {
            Err(_) => {},
            Ok((after, rule)) => {
                lemma_run_end_bounds(s, after, CharClass::Space);
            },
        }
    }
}

/// A machine as its text defines it: the blank symbol and the first state,
/// then the rules, and the place where the rules end.
pub open spec fn definition_at(s: Seq<char>) -> Parsed<((Seq<char>, Seq<char>), Seq<RuleText>)> {
    match header_at(s, 0) {
        Err(e) => Err(e),
        Ok((after_header, header)) => {
            let rules = rules_at(s, after_header);
            Ok((rules.0, (header, rules.1)))
        },
    }
}

/// The failure of a text whose rules end at `pos` before the end of the
/// text: what is wrong with the rule that begins there, or, where none
/// begins there, that the text goes on.
pub open spec fn leftover(s: Seq<char>, pos: int) -> ParseError {
    let at = skip_space(s, pos);
    if has_char(s, at, '(') {
        match rule_at(s, at) {
            Err(e) => e,
            Ok(_) => failure(ParseErrorKind::TrailingInput, at),
        }
    } else {
        failure(ParseErrorKind::TrailingInput, at)
    }
}

/// A whole text as a machine: its definition, which must reach the end of
/// the text.
pub open spec fn program_of(s: Seq<char>) -> Result<
    ((Seq<char>, Seq<char>), Seq<RuleText>),
    ParseError,
> {
    match definition_at(s) {
        Err(e) => Err(e),
        Ok((end, machine)) => if end == s.len() {
            Ok(machine)
        } else {
            Err(leftover(s, end))
        },
    }
}

/// A text is a machine only if its definition reaches the end of the text:
/// nothing is left over after the last rule.
pub proof fn lemma_program_reads_whole_text(s: Seq<char>)
    ensures
        program_of(s) matches Ok(machine) ==> definition_at(s) == Ok::<
            (int, ((Seq<char>, Seq<char>), Seq<RuleText>)),
            ParseError,
        >((s.len() as int, machine)),
        definition_at(s) matches Ok((end, machine)) ==> (end != s.len() ==> program_of(s) is Err),
        definition_at(s) matches Err(e) ==> program_of(s) == Err::<
            ((Seq<char>, Seq<char>), Seq<RuleText>),
            ParseError,
        >(e),
{
}

/// A run ends at or after the place where it starts, within the text; all
/// that it holds is of its kind, and what follows it is not.
pub proof fn lemma_run_end_bounds(s: Seq<char>, pos: int, class: CharClass)
    requires
        0 <= pos <= s.len(),
    ensures
        pos <= run_end(s, pos, class) <= s.len(),
        forall|i: int| pos <= i < run_end(s, pos, class) ==> class.admits(#[trigger] s[i]),
        run_end(s, pos, class) < s.len() ==> !class.admits(s[run_end(s, pos, class)]),
    decreases s.len() - pos,
{
    if pos < s.len() && class.admits(s[pos]) {
        lemma_run_end_bounds(s, pos + 1, class);
    }
}

/// A name is not empty and ends within the text.
pub proof fn lemma_identifier_at_bounds(s: Seq<char>, pos: int)
    requires
        0 <= pos <= s.len(),
    ensures
        identifier_at(s, pos) matches Ok((end, name)) ==> pos < end <= s.len(),
{
    if pos < s.len() {
        lemma_run_end_bounds(s, pos + 1, CharClass::Word);
    }
}

/// A quoted symbol ends after its closing quote, within the text.
pub proof fn lemma_quoted_at_bounds(s: Seq<char>, pos: int, quote: int)
    requires
        0 <= pos <= s.len(),
    ensures
        quoted_at(s, pos, quote) matches Ok((end, value)) ==> pos < end <= s.len(),
    decreases s.len() - pos,
{
    if pos < s.len() && s[pos] != '"' {
        if s[pos] == '\\' {
            if pos + 1 < s.len() && (s[pos + 1] == '"' || s[pos + 1] == '\\') {
                lemma_quoted_at_bounds(s, pos + 2, quote);
            }
        } else {
            lemma_quoted_at_bounds(s, pos + 1, quote);
        }
    }
}

/// A symbol ends within the text.
pub proof fn lemma_symbol_at_bounds(s: Seq<char>, pos: int)
    requires
        0 <= pos <= s.len(),
    ensures
        symbol_at(s, pos) matches Ok((end, value)) ==> pos <= end <= s.len(),
{
    if has_char(s, pos, '"') {
        lemma_quoted_at_bounds(s, pos + 1, pos);
    } else {
        lemma_run_end_bounds(s, pos, CharClass::Plain);
    }
}

/// What a configuration begins with is not empty and ends within the text.
pub proof fn lemma_pair_at_bounds(s: Seq<char>, pos: int)
    requires
        0 <= pos <= s.len(),
    ensures
        pair_at(s, pos) matches Ok((end, pair)) ==> pos < end <= s.len(),
{
    if has_char(s, pos, '(') {
        lemma_run_end_bounds(s, pos + 1, CharClass::Space);
        lemma_identifier_at_bounds(s, skip_space(s, pos + 1));
        match identifier_at(s, skip_space(s, pos + 1)) {
            Err(e) => {},
            Ok((after_name, name)) => {
                lemma_run_end_bounds(s, after_name, CharClass::Space);
                let comma = skip_space(s, after_name);
                if has_char(s, comma, ',') {
                    lemma_run_end_bounds(s, comma + 1, CharClass::Space);
                    lemma_symbol_at_bounds(s, skip_space(s, comma + 1));
                    match symbol_at(s, skip_space(s, comma + 1)) {
                        Err(e) => {},
                        Ok((after_symbol, symbol)) => {
                            lemma_run_end_bounds(s, after_symbol, CharClass::Space);
                        },
                    }
                }
            },
        }
    }
}

/// A transition is not empty and ends within the text.
pub proof fn lemma_transition_at_bounds(s: Seq<char>, pos: int)
    requires
        0 <= pos <= s.len(),
    ensures
        transition_at(s, pos) matches Ok((end, transition)) ==> pos < end <= s.len(),
{
    lemma_pair_at_bounds(s, pos);
    match pair_at(s, pos) {
        Err(e) => {},
        Ok((comma, pair)) => {
            if has_char(s, comma, ',') {
                lemma_run_end_bounds(s, comma + 1, CharClass::Space);
                match direction_at(s, skip_space(s, comma + 1)) {
                    Err(e) => {},
                    Ok((after_direction, direction)) => {
                        lemma_run_end_bounds(s, after_direction, CharClass::Space);
                    },
                }
            }
        },
    }
}

/// A rule is not empty and ends within the text.
pub proof fn lemma_rule_at_bounds(s: Seq<char>, pos: int)
    requires
        0 <= pos <= s.len(),
    ensures
        rule_at(s, pos) matches Ok((end, rule)) ==> pos < end <= s.len(),
{
    lemma_pair_at_bounds(s, pos);
    match configuration_at(s, pos) {
        Err(e) => {},
        Ok((colon, configuration)) => {
            if has_char(s, colon, ':') {
                lemma_run_end_bounds(s, colon + 1, CharClass::Space);
                lemma_transition_at_bounds(s, skip_space(s, colon + 1));
                match transition_at(s, skip_space(s, colon + 1)) {
                    Err(e) => {},
                    Ok((after, transition)) => {
                        lemma_run_end_bounds(s, after, CharClass::Space);
                    },
                }
            }
        },
    }
}

} // verus!

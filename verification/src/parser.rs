//! Reading the text of a machine: the blank symbol, the first state and the
//! transition table.
//!
//! Each function reads one part of the grammar from the start of its input
//! and hands back the rest of the input with what it read.

use crate::atom::Atom;
use crate::automata::{CurrState, Move, Movements, NextState};
use crate::error::{ParseError, ParseErrorKind};
use crate::grammar::{
    configuration_at, definition_at, direction_at, empty_at, empty_word, has_char, has_word,
    header_at, identifier_at, initial_at, initial_word, is_letter, pair_at, program_of, quoted_at,
    rule_at, rules_at, run_end, symbol_at, transition_at, with_first, CharClass,
    ConfigurationText, Parsed, RuleText, TransitionText,
};
use vstd::prelude::*;
use vstd::string::*;

verus! {

/// A rule as it is read: the configuration and the transition, the states
/// by their names in the input.
pub type StateChange<'a> = (CurrState<&'a str, String>, NextState<&'a str, String>);

/// What a function of this file hands back, in terms of the grammar: the
/// characters of the rest of the input and the value that was read, or the
/// failure.
pub open spec fn outcome<T: DeepView>(r: Result<(&str, T), ParseError>) -> Result<
    (Seq<char>, T::V),
    ParseError,
> {
    match r {
        Ok((rest, value)) => Ok((rest@, value.deep_view())),
        Err(e) => Err(e),
    }
}

/// What the grammar gives for a text, with the rest of the text in place of
/// the place where the part ends.
pub open spec fn rest_of<V>(s: Seq<char>, parsed: Parsed<V>) -> Result<(Seq<char>, V), ParseError> {
    match parsed {
        Ok((end, value)) => Ok((s.skip(end), value)),
        Err(e) => Err(e),
    }
}

/// The table that the rules of a text stand for, where a later rule
/// replaces an earlier one of the same configuration.
pub open spec fn table_text(rules: Seq<RuleText>) -> Map<ConfigurationText, TransitionText>
    decreases rules.len(),
{
    if rules.len() == 0 {
        Map::empty()
    } else {
        table_text(rules.drop_last()).insert(rules.last().0, rules.last().1)
    }
}

/// A table as text: each transition with its state and its symbol as
/// characters.
pub open spec fn shadow(table: Map<ConfigurationText, NextState<String, String>>) -> Map<
    ConfigurationText,
    TransitionText,
> {
    Map::new(
        |k: ConfigurationText| table.contains_key(k),
        |k: ConfigurationText| (table[k].0@, table[k].1@, table[k].2),
    )
}

/// Of the rules of a text that share a configuration the last one counts:
/// where no later rule has the configuration of rule `i`, the table maps it
/// to the transition of rule `i`.
pub proof fn lemma_later_rule_replaces(rules: Seq<RuleText>, i: int)
    requires
        0 <= i < rules.len(),
        forall|j: int| i < j < rules.len() ==> (#[trigger] rules[j]).0 != rules[i].0,
    ensures
        table_text(rules).contains_key(rules[i].0),
        table_text(rules)[rules[i].0] == rules[i].1,
    decreases rules.len(),
{
    if i < rules.len() - 1 {
        let init = rules.drop_last();
        assert(rules[rules.len() - 1].0 != rules[i].0);
        assert forall|j: int| i < j < init.len() implies (#[trigger] init[j]).0 != init[i].0 by {
            assert(init[j] == rules[j]);
        }
        lemma_later_rule_replaces(init, i);
    }
}

/// A text with its characters laid out, to be read by place.
struct Source<'a> {
    text: &'a str,
    chars: Vec<char>,
}

impl<'a> View for Source<'a> {
    type V = Seq<char>;

    closed spec fn view(&self) -> Seq<char> {
        self.text@
    }
}

impl<'a> Source<'a> {
    /// The characters laid out are those of the text.
    #[verifier::type_invariant]
    spec fn chars_are_text(self) -> bool {
        self.chars@ == self.text@
    }

    /// Lays out the characters of `text`.
    fn new(text: &'a str) -> (r: Self)
        ensures
            r@ == text@,
    {
        let mut chars: Vec<char> = Vec::new();
        for c in it: text.chars()
            invariant
                chars@ == it.seq().take(it.index()),
        {
            chars.push(c);
        }
        assert(chars@ == text@);
        Source { text, chars }
    }

    /// The number of characters.
    fn len(&self) -> (n: usize)
        ensures
            n == self@.len(),
    {
        proof {
            use_type_invariant(self);
        }
        self.chars.len()
    }

    /// The character at `pos`.
    fn get(&self, pos: usize) -> (c: char)
        requires
            pos < self@.len(),
        ensures
            c == self@[pos as int],
    {
        proof {
            use_type_invariant(self);
        }
        self.chars[pos]
    }

    /// Whether the character `c` stands at `pos`.
    fn has(&self, pos: usize, c: char) -> (r: bool)
        ensures
            r == has_char(self@, pos as int, c),
            self@.len() <= usize::MAX,
    {
        proof {
            use_type_invariant(self);
        }
        pos < self.chars.len() && self.chars[pos] == c
    }

    /// The text from `from` up to `to`.
    fn slice(&self, from: usize, to: usize) -> (r: &'a str)
        requires
            from <= to <= self@.len(),
        ensures
            r@ == self@.subrange(from as int, to as int),
    {
        self.text.substring_char(from, to)
    }

    /// The text from `from` on.
    fn rest(&self, from: usize) -> (r: &'a str)
        requires
            from <= self@.len(),
        ensures
            r@ == self@.skip(from as int),
    {
        let n = self.len();
        self.text.substring_char(from, n)
    }
}

/// What a reading function hands back, in terms of the grammar: the place
/// after the part and the value that was read, or the failure.
spec fn reading<T: DeepView>(r: Result<(usize, T), ParseError>) -> Parsed<T::V> {
    match r {
        Ok((end, value)) => Ok((end as int, value.deep_view())),
        Err(e) => Err(e),
    }
}

/// Whether `c` is of the kind `class`.
fn holds(class: CharClass, c: char) -> (r: bool)
    ensures
        r == class.admits(c),
{
    let space = c == ' ' || c == '\t' || c == '\n' || c == '\r';
    match class {
        CharClass::Space => space,
        CharClass::Word => ('a' <= c && c <= 'z') || ('A' <= c && c <= 'Z') || ('0' <= c && c
            <= '9') || c == '_',
        CharClass::Plain => !space && c != '(' && c != ')' && c != ',' && c != '"',
    }
}

/// The end of the run of characters of the kind `class` at `pos`.
fn scan_run(src: &Source, pos: usize, class: CharClass) -> (end: usize)
    requires
        pos <= src@.len(),
    ensures
        end == run_end(src@, pos as int, class),
        pos <= end <= src@.len(),
{
    let n = src.len();
    let mut i: usize = pos;
    while i < n && holds(class, src.get(i))
        invariant
            pos <= i <= n,
            n == src@.len(),
            run_end(src@, i as int, class) == run_end(src@, pos as int, class),
        decreases n - i,
    {
        i += 1;
    }
    i
}

/// Whether the text holds `word` from `pos` on.
fn starts_with(src: &Source, pos: usize, word: &str) -> (r: bool)
    requires
        pos <= src@.len(),
    ensures
        r == has_word(src@, pos as int, word@),
        src@.len() <= usize::MAX,
{
    let n = word.unicode_len();
    let len = src.len();
    if n > len - pos {
        return false;
    }
    let ghost part = src@.subrange(pos as int, pos + n);
    let mut j: usize = 0;
    while j < n
        invariant
            j <= n,
            n == word@.len(),
            len == src@.len(),
            pos + n <= len,
            part == src@.subrange(pos as int, pos + n),
            forall|k: int| 0 <= k < j ==> part[k] == word@[k],
        decreases n - j,
    {
        if src.get(pos + j) != word.get_char(j) {
            assert(part[j as int] != word@[j as int]);
            return false;
        }
        j += 1;
    }
    assert(part =~= word@);
    true
}

/// Whether a name can begin with `c`.
fn starts_name(c: char) -> (r: bool)
    ensures
        r == (is_letter(c) || c == '_'),
{
    ('a' <= c && c <= 'z') || ('A' <= c && c <= 'Z') || c == '_'
}

/// Reads a name at `pos`.
fn scan_identifier<'a>(src: &Source<'a>, pos: usize) -> (r: Result<(usize, &'a str), ParseError>)
    requires
        pos <= src@.len(),
    ensures
        reading(r) == identifier_at(src@, pos as int),
        r matches Ok((end, _)) ==> pos < end <= src@.len(),
{
    if pos < src.len() && starts_name(src.get(pos)) {
        let end = scan_run(src, pos + 1, CharClass::Word);
        Ok((end, src.slice(pos, end)))
    } else {
        Err(ParseError { kind: ParseErrorKind::ExpectedIdentifier, position: pos })
    }
}

/// `parsed` with `prefix` put before its value.
spec fn with_prefix(prefix: Seq<char>, parsed: Parsed<Seq<char>>) -> Parsed<Seq<char>> {
    match parsed {
        Ok((end, value)) => Ok((end, prefix + value)),
        Err(e) => Err(e),
    }
}

/// A character put before a value is the last of what stands before it.
proof fn lemma_prefix_grows(prefix: Seq<char>, c: char, parsed: Parsed<Seq<char>>)
    ensures
        with_prefix(prefix, with_first(c, parsed)) == with_prefix(prefix.push(c), parsed),
{
    match parsed {
        Ok((end, value)) => {
            assert(prefix + (seq![c] + value) =~= prefix.push(c) + value);
        },
        Err(e) => {},
    }
}

/// Reads the rest of a quoted symbol at `pos`; its opening quote stands at
/// `quote`. The characters between two escapes are taken over in one piece.
fn scan_quoted(src: &Source, pos: usize, quote: usize) -> (r: Result<(usize, String), ParseError>)
    requires
        pos <= src@.len(),
    ensures
        reading(r) == quoted_at(src@, pos as int, quote as int),
        r matches Ok((end, _)) ==> pos < end <= src@.len(),
{
    let n = src.len();
    let mut out = String::new();
    let mut from: usize = pos;
    let mut i: usize = pos;
    assert(out@ + src@.subrange(from as int, i as int) =~= Seq::<char>::empty());
    assert(with_prefix(Seq::<char>::empty(), quoted_at(src@, pos as int, quote as int))
        == quoted_at(src@, pos as int, quote as int)) by {
        match quoted_at(src@, pos as int, quote as int) {
            Ok((end, value)) => {
                assert(Seq::<char>::empty() + value =~= value);
            },
            Err(e) => {},
        }
    }
    loop
        invariant
            n == src@.len(),
            pos <= from <= i <= n,
            quoted_at(src@, pos as int, quote as int) == with_prefix(
                out@ + src@.subrange(from as int, i as int),
                quoted_at(src@, i as int, quote as int),
            ),
        decreases n - i,
    {
        let ghost read = out@ + src@.subrange(from as int, i as int);
        if i >= n {
            return Err(ParseError { kind: ParseErrorKind::UnterminatedString, position: quote });
        }
        let c = src.get(i);
        if c == '"' {
            out.append(src.slice(from, i));
            assert(read + Seq::<char>::empty() =~= read);
            return Ok((i + 1, out));
        }
        if c == '\\' {
            if i + 1 >= n {
                return Err(
                    ParseError { kind: ParseErrorKind::UnterminatedString, position: quote },
                );
            }
            let d = src.get(i + 1);
            if d == '"' || d == '\\' {
                out.append(src.slice(from, i));
                proof {
                    lemma_prefix_grows(read, d, quoted_at(src@, i + 2, quote as int));
                    assert(out@ + src@.subrange(i + 1, i + 2) =~= read.push(d));
                }
                from = i + 1;
                i = i + 2;
            } else {
                return Err(ParseError { kind: ParseErrorKind::InvalidEscape, position: i });
            }
        } else {
            proof {
                lemma_prefix_grows(read, c, quoted_at(src@, i + 1, quote as int));
                assert(out@ + src@.subrange(from as int, i + 1) =~= read.push(c));
            }
            i += 1;
        }
    }
}

/// Reads a symbol at `pos`.
fn scan_symbol(src: &Source, pos: usize) -> (r: Result<(usize, String), ParseError>)
    requires
        pos <= src@.len(),
    ensures
        reading(r) == symbol_at(src@, pos as int),
        r matches Ok((end, _)) ==> pos <= end <= src@.len(),
{
    if src.has(pos, '"') {
        scan_quoted(src, pos + 1, pos)
    } else {
        let end = scan_run(src, pos, CharClass::Plain);
        Ok((end, String::from_str(src.slice(pos, end))))
    }
}

/// Reads a direction at `pos`.
fn scan_direction(src: &Source, pos: usize) -> (r: Result<(usize, Move), ParseError>)
    requires
        pos <= src@.len(),
    ensures
        reading(r) == direction_at(src@, pos as int),
        r matches Ok((end, _)) ==> pos < end <= src@.len(),
{
    if src.has(pos, 'R') {
        Ok((pos + 1, Move::Right))
    } else if src.has(pos, 'L') {
        Ok((pos + 1, Move::Left))
    } else {
        Err(ParseError { kind: ParseErrorKind::UnknownDirection, position: pos })
    }
}

/// Reads what a configuration and a transition begin with, at `pos`.
fn scan_pair<'a>(src: &Source<'a>, pos: usize) -> (r: Result<
    (usize, CurrState<&'a str, String>),
    ParseError,
>)
    requires
        pos <= src@.len(),
    ensures
        reading(r) == pair_at(src@, pos as int),
        r matches Ok((end, _)) ==> pos < end <= src@.len(),
{
    if !src.has(pos, '(') {
        return Err(ParseError { kind: ParseErrorKind::ExpectedOpen, position: pos });
    }
    let start = scan_run(src, pos + 1, CharClass::Space);
    let (after_name, name) = match scan_identifier(src, start) {
        Ok(read) => read,
        Err(e) => { return Err(e); },
    };
    let comma = scan_run(src, after_name, CharClass::Space);
    if !src.has(comma, ',') {
        return Err(ParseError { kind: ParseErrorKind::ExpectedComma, position: comma });
    }
    let start = scan_run(src, comma + 1, CharClass::Space);
    let (after_symbol, symbol) = match scan_symbol(src, start) {
        Ok(read) => read,
        Err(e) => { return Err(e); },
    };
    let end = scan_run(src, after_symbol, CharClass::Space);
    Ok((end, (name, symbol)))
}

/// Reads a configuration at `pos`.
fn scan_configuration<'a>(src: &Source<'a>, pos: usize) -> (r: Result<
    (usize, CurrState<&'a str, String>),
    ParseError,
>)
    requires
        pos <= src@.len(),
    ensures
        reading(r) == configuration_at(src@, pos as int),
        r matches Ok((end, _)) ==> pos < end <= src@.len(),
{
    let (close, pair) = match scan_pair(src, pos) {
        Ok(read) => read,
        Err(e) => { return Err(e); },
    };
    if src.has(close, ')') {
        Ok((close + 1, pair))
    } else {
        Err(ParseError { kind: ParseErrorKind::ExpectedClose, position: close })
    }
}

/// Reads a transition at `pos`.
fn scan_transition<'a>(src: &Source<'a>, pos: usize) -> (r: Result<
    (usize, NextState<&'a str, String>),
    ParseError,
>)
    requires
        pos <= src@.len(),
    ensures
        reading(r) == transition_at(src@, pos as int),
        r matches Ok((end, _)) ==> pos < end <= src@.len(),
{
    let (comma, pair) = match scan_pair(src, pos) {
        Ok(read) => read,
        Err(e) => { return Err(e); },
    };
    if !src.has(comma, ',') {
        return Err(ParseError { kind: ParseErrorKind::ExpectedComma, position: comma });
    }
    let start = scan_run(src, comma + 1, CharClass::Space);
    let (after_direction, direction) = match scan_direction(src, start) {
        Ok(read) => read,
        Err(e) => { return Err(e); },
    };
    let close = scan_run(src, after_direction, CharClass::Space);
    if src.has(close, ')') {
        Ok((close + 1, (pair.0, pair.1, direction)))
    } else {
        Err(ParseError { kind: ParseErrorKind::ExpectedClose, position: close })
    }
}

/// Reads a rule at `pos`, and the white space after it.
fn scan_rule<'a>(src: &Source<'a>, pos: usize) -> (r: Result<(usize, StateChange<'a>), ParseError>)
    requires
        pos <= src@.len(),
    ensures
        reading(r) == rule_at(src@, pos as int),
        r matches Ok((end, _)) ==> pos < end <= src@.len(),
{
    let (colon, configuration) = match scan_configuration(src, pos) {
        Ok(read) => read,
        Err(e) => { return Err(e); },
    };
    if !src.has(colon, ':') {
        return Err(ParseError { kind: ParseErrorKind::ExpectedColon, position: colon });
    }
    let start = scan_run(src, colon + 1, CharClass::Space);
    let (after, transition) = match scan_transition(src, start) {
        Ok(read) => read,
        Err(e) => { return Err(e); },
    };
    let end = scan_run(src, after, CharClass::Space);
    Ok((end, (configuration, transition)))
}

/// Reads the blank symbol at `pos`.
fn scan_empty(src: &Source, pos: usize) -> (r: Result<(usize, String), ParseError>)
    requires
        pos <= src@.len(),
    ensures
        reading(r) == empty_at(src@, pos as int),
        r matches Ok((end, _)) ==> pos < end <= src@.len(),
{
    proof {
        reveal_strlit("EMPTY:");
        assert("EMPTY:"@ =~= empty_word());
    }
    if starts_with(src, pos, "EMPTY:") {
        let start = scan_run(src, pos + 6, CharClass::Space);
        scan_symbol(src, start)
    } else {
        Err(ParseError { kind: ParseErrorKind::ExpectedEmpty, position: pos })
    }
}

/// Reads the first state at `pos`.
fn scan_initial<'a>(src: &Source<'a>, pos: usize) -> (r: Result<(usize, &'a str), ParseError>)
    requires
        pos <= src@.len(),
    ensures
        reading(r) == initial_at(src@, pos as int),
        r matches Ok((end, _)) ==> pos < end <= src@.len(),
{
    proof {
        reveal_strlit("INITIAL_STATE:");
        assert("INITIAL_STATE:"@ =~= initial_word());
    }
    if starts_with(src, pos, "INITIAL_STATE:") {
        let start = scan_run(src, pos + 14, CharClass::Space);
        scan_identifier(src, start)
    } else {
        Err(ParseError { kind: ParseErrorKind::ExpectedInitialState, position: pos })
    }
}

/// Reads the head of a program at `pos`.
fn scan_header<'a>(src: &Source<'a>, pos: usize) -> (r: Result<
    (usize, (String, &'a str)),
    ParseError,
>)
    requires
        pos <= src@.len(),
    ensures
        reading(r) == header_at(src@, pos as int),
        r matches Ok((end, _)) ==> pos < end <= src@.len(),
{
    let start = scan_run(src, pos, CharClass::Space);
    let (after_empty, blank) = match scan_empty(src, start) {
        Ok(read) => read,
        Err(e) => { return Err(e); },
    };
    let between = scan_run(src, after_empty, CharClass::Space);
    let start = scan_run(src, between, CharClass::Space);
    let (after_initial, state) = match scan_initial(src, start) {
        Ok(read) => read,
        Err(e) => { return Err(e); },
    };
    let end = scan_run(src, after_initial, CharClass::Space);
    Ok((end, (blank, state)))
}

/// Reads rules from `pos` on, up to the first place where none stands.
fn scan_rules<'a>(src: &Source<'a>, pos: usize) -> (r: (usize, Vec<StateChange<'a>>))
    requires
        pos <= src@.len(),
    ensures
        (r.0 as int, r.1.deep_view()) == rules_at(src@, pos as int),
        pos <= r.0 <= src@.len(),
{
    let n = src.len();
    let mut rules: Vec<StateChange<'a>> = Vec::new();
    let mut at: usize = pos;
    assert(rules.deep_view() + rules_at(src@, at as int).1 =~= rules_at(src@, at as int).1);
    loop
        invariant
            n == src@.len(),
            pos <= at <= n,
            rules_at(src@, pos as int) == (
                rules_at(src@, at as int).0,
                rules.deep_view() + rules_at(src@, at as int).1,
            ),
        decreases n - at,
    {
        let ghost read = rules.deep_view();
        let start = scan_run(src, at, CharClass::Space);
        match scan_rule(src, start) {
            Err(_) => {
                assert(read + Seq::<RuleText>::empty() =~= read);
                return (at, rules);
            },
            Ok((after, rule)) => {
                let next = scan_run(src, after, CharClass::Space);
                rules.push(rule);
                proof {
                    let rest = rules_at(src@, next as int);
                    assert(rules.deep_view() =~= read.push(rule.deep_view()));
                    assert(read + (seq![rule.deep_view()] + rest.1) =~= read.push(
                        rule.deep_view(),
                    ) + rest.1);
                }
                at = next;
            },
        }
    }
}

/// Reads a state's name from the start of `input`: a letter or `_`, then
/// letters, digits and `_` as far as they go.
pub fn identifier<'a>(input: &'a str) -> (r: Result<(&'a str, &'a str), ParseError>)
    ensures
        outcome(r) == rest_of(input@, identifier_at(input@, 0)),
{
    let src = Source::new(input);
    match scan_identifier(&src, 0) {
        Ok((end, name)) => Ok((src.rest(end), name)),
        Err(e) => Err(e),
    }
}

/// Reads a symbol from the start of `input`: a quoted one, in which `\"`
/// stands for a quote and `\\` for a backslash, or else the characters up to
/// the first white space, bracket, comma or quote, which may be none.
pub fn data<'a>(input: &'a str) -> (r: Result<(&'a str, String), ParseError>)
    ensures
        outcome(r) == rest_of(input@, symbol_at(input@, 0)),
{
    let src = Source::new(input);
    match scan_symbol(&src, 0) {
        Ok((end, symbol)) => Ok((src.rest(end), symbol)),
        Err(e) => Err(e),
    }
}

/// Reads the blank symbol from the start of `input`: `EMPTY:` and a symbol.
pub fn empty_identifier<'a>(input: &'a str) -> (r: Result<(&'a str, String), ParseError>)
    ensures
        outcome(r) == rest_of(input@, empty_at(input@, 0)),
{
    let src = Source::new(input);
    match scan_empty(&src, 0) {
        Ok((end, symbol)) => Ok((src.rest(end), symbol)),
        Err(e) => Err(e),
    }
}

/// Reads the first state from the start of `input`: `INITIAL_STATE:` and a
/// name.
pub fn initial_state<'a>(input: &'a str) -> (r: Result<(&'a str, &'a str), ParseError>)
    ensures
        outcome(r) == rest_of(input@, initial_at(input@, 0)),
{
    let src = Source::new(input);
    match scan_initial(&src, 0) {
        Ok((end, name)) => Ok((src.rest(end), name)),
        Err(e) => Err(e),
    }
}

/// Reads a configuration from the start of `input`: `(` name `,` symbol `)`.
pub fn curr_state<'a>(input: &'a str) -> (r: Result<
    (&'a str, CurrState<&'a str, String>),
    ParseError,
>)
    ensures
        outcome(r) == rest_of(input@, configuration_at(input@, 0)),
{
    let src = Source::new(input);
    match scan_configuration(&src, 0) {
        Ok((end, configuration)) => Ok((src.rest(end), configuration)),
        Err(e) => Err(e),
    }
}

/// Reads a direction from the start of `input`: `R` or `L`.
pub fn movement<'a>(input: &'a str) -> (r: Result<(&'a str, Move), ParseError>)
    ensures
        outcome(r) == rest_of(input@, direction_at(input@, 0)),
{
    let src = Source::new(input);
    match scan_direction(&src, 0) {
        Ok((end, direction)) => Ok((src.rest(end), direction)),
        Err(e) => Err(e),
    }
}

/// Reads a transition from the start of `input`: `(` name `,` symbol `,`
/// direction `)`.
pub fn next_state<'a>(input: &'a str) -> (r: Result<
    (&'a str, NextState<&'a str, String>),
    ParseError,
>)
    ensures
        outcome(r) == rest_of(input@, transition_at(input@, 0)),
{
    let src = Source::new(input);
    match scan_transition(&src, 0) {
        Ok((end, transition)) => Ok((src.rest(end), transition)),
        Err(e) => Err(e),
    }
}

/// Reads a rule from the start of `input`: a configuration, `:` and a
/// transition, and the white space after it.
pub fn state_change<'a>(input: &'a str) -> (r: Result<(&'a str, StateChange<'a>), ParseError>)
    ensures
        outcome(r) == rest_of(input@, rule_at(input@, 0)),
{
    let src = Source::new(input);
    match scan_rule(&src, 0) {
        Ok((end, rule)) => Ok((src.rest(end), rule)),
        Err(e) => Err(e),
    }
}

/// Reads the definition of a machine from the start of `input`: the blank
/// symbol, the first state, and rules as far as they go. What follows the
/// last rule is handed back unread.
pub fn turing_machine_def<'a>(input: &'a str) -> (r: Result<
    (&'a str, ((String, &'a str), Vec<StateChange<'a>>)),
    ParseError,
>)
    ensures
        outcome(r) == rest_of(input@, definition_at(input@)),
{
    let src = Source::new(input);
    match scan_header(&src, 0) {
        Ok((after_header, header)) => {
            let (end, rules) = scan_rules(&src, after_header);
            Ok((src.rest(end), (header, rules)))
        },
        Err(e) => Err(e),
    }
}

/// The table of `rules`, where a later rule replaces an earlier one of the
/// same configuration.
fn collect(rules: &Vec<StateChange>) -> (table: Movements<String, String>)
    ensures
        table.wf(),
        shadow(table@) == table_text(rules.deep_view()),
{
    let mut table: Movements<String, String> = Movements::new();
    let mut i: usize = 0;
    assert(shadow(table@) =~= table_text(rules.deep_view().take(0)));
    while i < rules.len()
        invariant
            i <= rules.len(),
            table.wf(),
            shadow(table@) == table_text(rules.deep_view().take(i as int)),
        decreases rules.len() - i,
    {
        let rule = &rules[i];
        let key = (String::from_str(rule.0.0), rule.0.1.duplicate());
        let value = (String::from_str(rule.1.0), rule.1.1.duplicate(), rule.1.2);
        let ghost before = table@;
        table.insert(key, value);
        proof {
            let texts = rules.deep_view();
            assert(texts.take(i + 1).drop_last() =~= texts.take(i as int));
            assert(texts.take(i + 1).last() == rule.deep_view());
            assert(shadow(table@) =~= shadow(before).insert(
                rule.deep_view().0,
                rule.deep_view().1,
            ));
        }
        i += 1;
    }
    assert(rules.deep_view().take(rules.len() as int) =~= rules.deep_view());
    table
}

/// Reads a whole text as a machine: the blank symbol, the first state and
/// the transition table. A later rule replaces an earlier one of the same
/// configuration.
///
/// The text must be read to its end. Where it is not, the failure is that of
/// the rule that begins at the first place that was not read, or, where no
/// `(` stands there, that the text goes on.
pub fn turing_machine_movements(input: &str) -> (r: Result<
    ((String, String), Movements<String, String>),
    ParseError,
>)
    ensures
        match program_of(input@) {
            Ok((header, rules)) => {
                &&& r matches Ok((read, table))
                &&& read.0@ == header.0
                &&& read.1@ == header.1
                &&& table.wf()
                &&& shadow(table@) == table_text(rules)
            },
            Err(e) => r == Err::<((String, String), Movements<String, String>), ParseError>(e),
        },
{
    let src = Source::new(input);
    let (after_header, header) = match scan_header(&src, 0) {
        Ok(read) => read,
        Err(e) => { return Err(e); },
    };
    let (end, rules) = scan_rules(&src, after_header);
    if end == src.len() {
        Ok(((header.0, String::from_str(header.1)), collect(&rules)))
    } else {
        let at = scan_run(&src, end, CharClass::Space);
        if src.has(at, '(') {
            match scan_rule(&src, at) {
                Err(e) => Err(e),
                Ok(_) => Err(ParseError { kind: ParseErrorKind::TrailingInput, position: at }),
            }
        } else {
            Err(ParseError { kind: ParseErrorKind::TrailingInput, position: at })
        }
    }
}

} // verus!

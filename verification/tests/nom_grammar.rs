//! The grammar written with nom's combinators, held against the library's
//! functions on the same inputs. Quoted symbols are left out: nom has no
//! parser for them.

use nom::branch::alt;
use nom::bytes::complete::tag;
use nom::character::complete::{alpha1, alphanumeric1, multispace0, none_of};
use nom::combinator::recognize;
use nom::multi::{many0, many0_count};
use nom::sequence::{delimited, pair, preceded, separated_pair};
use nom::IResult;
use std::fmt::Debug;
use turingmachine::automata::Move;
use turingmachine::error::ParseError;
use turingmachine::parser;

type Rule<'a> = ((&'a str, String), (&'a str, String, Move));

fn ws<'a, F, O>(inner: F) -> impl FnMut(&'a str) -> IResult<&'a str, O>
where
    F: Fn(&'a str) -> IResult<&'a str, O> + 'a,
{
    delimited(multispace0, inner, multispace0)
}

fn identifier(input: &str) -> IResult<&str, &str> {
    recognize(pair(
        alt((alpha1, tag("_"))),
        many0_count(alt((alphanumeric1, tag("_")))),
    ))(input)
}

fn data(input: &str) -> IResult<&str, String> {
    nom::combinator::map(
        recognize(many0_count(none_of(" \t\n\r(),\""))),
        String::from,
    )(input)
}

fn empty_identifier(input: &str) -> IResult<&str, String> {
    preceded(pair(tag("EMPTY:"), multispace0), data)(input)
}

fn initial_state(input: &str) -> IResult<&str, &str> {
    preceded(pair(tag("INITIAL_STATE:"), multispace0), identifier)(input)
}

fn curr_state(input: &str) -> IResult<&str, (&str, String)> {
    delimited(
        tag("("),
        separated_pair(ws(identifier), tag(","), ws(data)),
        tag(")"),
    )(input)
}

fn movement(input: &str) -> IResult<&str, Move> {
    alt((
        nom::combinator::map(tag("R"), |_| Move::Right),
        nom::combinator::map(tag("L"), |_| Move::Left),
    ))(input)
}

fn next_state(input: &str) -> IResult<&str, (&str, String, Move)> {
    nom::combinator::map(
        delimited(
            tag("("),
            separated_pair(
                ws(identifier),
                tag(","),
                separated_pair(ws(data), tag(","), ws(movement)),
            ),
            tag(")"),
        ),
        |(a, (b, c))| (a, b, c),
    )(input)
}

fn state_change(input: &str) -> IResult<&str, Rule> {
    separated_pair(curr_state, tag(":"), ws(next_state))(input)
}

fn turing_machine_def(input: &str) -> IResult<&str, ((String, &str), Vec<Rule>)> {
    pair(
        pair(ws(empty_identifier), ws(initial_state)),
        many0(ws(state_change)),
    )(input)
}

/// Both read the same value and leave the same rest, or both fail at the
/// same place.
fn agree<'a, T: PartialEq + Debug>(
    input: &'a str,
    ours: Result<(&'a str, T), ParseError>,
    theirs: IResult<&'a str, T>,
) {
    match (ours, theirs) {
        (Ok(a), Ok(b)) => assert_eq!(a, b, "{input:?}"),
        (Err(e), Err(nom::Err::Error(n))) => {
            let at = input.chars().count() - n.input.chars().count();
            assert_eq!(e.position, at, "{input:?}: {e:?}");
        }
        (a, b) => panic!("{input:?}: {a:?} against {b:?}"),
    }
}

const NAMES: [&str; 14] = [
    "q0", "q0 rest", "_", "_a1_", "A", "Zz9", "abc(", "a,b", "0a", "", " a", "-", "q\u{e9}",
    "\u{e9}q",
];

const SYMBOLS: [&str; 12] = [
    "#", "+ rest", "a-b", "1", "", " x", ",x", "(x", ")x", "x\ty", "\u{3b1}\u{3b2}\n", "a:b=c",
];

const PAIRS: [&str; 16] = [
    "(q0, +)", "(q0,+)", "( q0 , + )", "(\nq0\t,\r\n+\n)rest", "(q0,)", "(q0, )", "(q0",
    "(q0,", "(q0 +)", "(q0, + x)", "q0, +)", "(, +)", "(0, +)", "(q0, +, R)", "", "(q0;+)",
];

const TRIPLES: [&str; 16] = [
    "(q0, +, R)", "(q1,-,L)", "( q1 , - , L )", "(q1,,R)", "(q1, , L) rest", "(q0, +)",
    "(q0, +, X)", "(q0, +, )", "(q0, +, R", "(q0, +, RL)", "(q0, +, r)", "(0, +, R)",
    "[q0, +, R)", "(q0 + R)", "(q0, +, L)(", "",
];

const RULES: [&str; 12] = [
    "(q0, +): (q0, +, R)",
    "(q0, +): (q1, -, R)",
    "(q0,+):(q1,-,L)  \n rest",
    "(q0, +) : (q1, -, R)",
    "(q0, +)",
    "(q0, +):",
    "(q0, +): q1",
    "(q0, +): (q1, -, R",
    "(q0, +): (q1, -)",
    "(q0 +): (q1, -, R)",
    " (q0, +): (q1, -, R)",
    "(q0, +):\n\t(q1, -, R)\n\n(q1, -)",
];

const TEXTS: [&str; 14] = [
    "EMPTY: # INITIAL_STATE: q0",
    "EMPTY: # INITIAL_STATE: q0 (q0,#):(q0,#,R)",
    "  EMPTY: #\nINITIAL_STATE: q0\n(q0,1):(q0,1,R)\n(q0,#):(q1,1,L)\n",
    "EMPTY: # INITIAL_STATE: q0 (q0,#):(q0,#,R) garbage",
    "EMPTY: # INITIAL_STATE: q0 (q0,#):(q0,#,X)",
    "EMPTY: # INITIAL_STATE: q0 (q0,1):(q0,1,R) (q0,1):(q1,0,L)",
    "EMPTY:# INITIAL_STATE:q0(q0,#):(q0,#,R)(q1,#):(q0,#,L)",
    "EMPTY: INITIAL_STATE: q0",
    "EMPTY:INITIAL_STATE: q0",
    "EMPTY # INITIAL_STATE: q0",
    "EMPTY: # INITIAL: q0",
    "EMPTY: # INITIAL_STATE: 0",
    "INITIAL_STATE: q0 EMPTY: #",
    "",
];

#[test]
fn names_are_read_as_nom_reads_them() {
    for input in NAMES {
        agree(input, parser::identifier(input), identifier(input));
    }
}

#[test]
fn plain_symbols_are_read_as_nom_reads_them() {
    for input in SYMBOLS {
        agree(input, parser::data(input), data(input));
    }
}

#[test]
fn headers_are_read_as_nom_reads_them() {
    for symbol in SYMBOLS {
        for head in ["EMPTY:", "EMPTY: ", "EMPTY:\n\t", "EMPTY", "empty:", " EMPTY:", "EMPT"] {
            let input = format!("{head}{symbol}");
            agree(&input, parser::empty_identifier(&input), empty_identifier(&input));
        }
    }
    for name in NAMES {
        for head in ["INITIAL_STATE:", "INITIAL_STATE: \n", "INITIAL_STATE", "INITIAL:", ""] {
            let input = format!("{head}{name}");
            agree(&input, parser::initial_state(&input), initial_state(&input));
        }
    }
}

#[test]
fn directions_are_read_as_nom_reads_them() {
    for input in ["R", "L", "RL", "LR", "r", "l", "X", "", " R", "R "] {
        agree(input, parser::movement(input), movement(input));
    }
}

#[test]
fn configurations_are_read_as_nom_reads_them() {
    for input in PAIRS.iter().chain(TRIPLES.iter()) {
        agree(input, parser::curr_state(input), curr_state(input));
    }
}

#[test]
fn transitions_are_read_as_nom_reads_them() {
    for input in TRIPLES.iter().chain(PAIRS.iter()) {
        agree(input, parser::next_state(input), next_state(input));
    }
}

#[test]
fn rules_are_read_as_nom_reads_them() {
    for input in RULES {
        agree(input, parser::state_change(input), state_change(input));
    }
    for left in PAIRS {
        for right in TRIPLES {
            for between in [":", ": ", " :", ""] {
                let input = format!("{left}{between}{right}");
                agree(&input, parser::state_change(&input), state_change(&input));
            }
        }
    }
}

#[test]
fn definitions_are_read_as_nom_reads_them() {
    for input in TEXTS {
        agree(input, parser::turing_machine_def(input), turing_machine_def(input));
    }
    for rule in RULES {
        let input = format!("EMPTY: _\nINITIAL_STATE: start\n(a,1):(b,2,L)\n{rule}");
        agree(&input, parser::turing_machine_def(&input), turing_machine_def(&input));
    }
}

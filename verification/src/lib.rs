//! A verified command-line interpreter core: tokenizing one line of input,
//! parsing shell-like redirection syntax, and planning the launch of a child
//! process. The surrounding read loop and the actual file and process
//! operations live outside this crate; everything here is pure computation.

pub mod executor;
pub mod parser;
pub mod tokenizer;

use vstd::prelude::*;

use crate::parser::{
    parse_command, spec_parse, scan_from, initial_scan_state, CommandView, ParseError,
    ParsedCommand, ScanState,
};
use crate::tokenizer::{is_space, spec_tokenize, split_words, tokenize};

verus! {

/// What one line of input means: its words and background flag per
/// `spec_tokenize`, then the command per `spec_parse`.
pub open spec fn spec_process(line: Seq<char>) -> Result<CommandView, ParseError> {
    spec_parse(spec_tokenize(line).0, spec_tokenize(line).1)
}

/// Interprets one raw input line: splits it into words, strips a trailing
/// `&` into the background flag, and parses the words into a command,
/// exactly as `spec_process` says. A successful parse always carries at
/// least one argument, the program name.
pub fn process_input(line: &str) -> (r: Result<ParsedCommand, ParseError>)
    ensures
        (match r {
            Ok(pc) => spec_process(line@) == Ok::<CommandView, ParseError>(pc@),
            Err(e) => spec_process(line@) == Err::<CommandView, ParseError>(e),
        }),
        r matches Ok(pc) ==> pc@.arguments.len() > 0 && pc.arguments.len() > 0,
{
    let ts = tokenize(line);
    parse_command(&ts)
}

/// Law: a line holding only whitespace splits into no words at all, leaves
/// the background flag clear, and parsing then fails with `EmptyCommand`.
pub proof fn lemma_blank_line_rejected(line: Seq<char>)
    requires
        forall|i: int| 0 <= i < line.len() ==> is_space(line[i]),
    ensures
        split_words(line) == Seq::<Seq<char>>::empty(),
        spec_tokenize(line).0 == Seq::<Seq<char>>::empty(),
        spec_tokenize(line).1 == false,
        spec_process(line) == Err::<CommandView, ParseError>(ParseError::EmptyCommand),
    decreases line.len(),
{
    if line.len() == 0 {
        assert(split_words(line) =~= Seq::<Seq<char>>::empty());
    } else {
        assert forall|i: int| 0 <= i < line.drop_last().len() implies is_space(
            line.drop_last()[i],
        ) by {
            assert(line.drop_last()[i] == line[i]);
        }
        lemma_blank_line_rejected(line.drop_last());
        assert(is_space(line.last()));
    }
    assert(scan_from(Seq::<Seq<char>>::empty(), 0, initial_scan_state()) == Ok::<
        ScanState,
        ParseError,
    >(initial_scan_state()));
}

} // verus!

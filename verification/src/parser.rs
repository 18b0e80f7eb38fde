//! Parsing a token sequence into a command: the words that form the argument
//! list, at most one input-redirection target, at most one output-redirection
//! target with its append/truncate mode, and the background flag.

use vstd::prelude::*;
use crate::tokenizer::TokenSequence;

verus! {

/// The redirection operators of the grammar.
#[derive(Clone, Copy, Debug, PartialEq, Eq, Structural)]
pub enum RedirectOp {
    /// `<`: redirect standard input.
    Input,
    /// `>`: redirect standard output, truncating.
    Output,
    /// `>>`: redirect standard output, appending.
    OutputAppend,
}

/// Why a token sequence is not a valid command.
#[derive(Clone, Copy, Debug, PartialEq, Eq, Structural)]
pub enum ParseError {
    /// A redirection operator stood last, with no file name after it.
    MissingRedirectTarget(RedirectOp),
    /// More than one output-redirect operator (`>`/`>>`, any mix) appeared.
    MultipleOutputRedirects,
    /// No command word was left after operators and their targets.
    EmptyCommand,
}

impl ParseError {
    /// The message reported to the user, one fixed line per error kind.
    pub fn message(&self) -> (r: String)
        ensures
            (match self {
                ParseError::MissingRedirectTarget(RedirectOp::Input) => r@
                    == "< must have a file afterwards!"@,
                ParseError::MissingRedirectTarget(RedirectOp::Output) => r@
                    == "> must have a file afterwards!"@,
                ParseError::MissingRedirectTarget(RedirectOp::OutputAppend) => r@
                    == ">> must have a file afterwards!"@,
                ParseError::MultipleOutputRedirects => r@
                    == "Can't have multiple output redirects"@,
                ParseError::EmptyCommand => r@ == "Command not specified"@,
            }),
    {
        match self {
            ParseError::MissingRedirectTarget(RedirectOp::Input) => String::from_str(
                "< must have a file afterwards!",
            ),
            ParseError::MissingRedirectTarget(RedirectOp::Output) => String::from_str(
                "> must have a file afterwards!",
            ),
            ParseError::MissingRedirectTarget(RedirectOp::OutputAppend) => String::from_str(
                ">> must have a file afterwards!",
            ),
            ParseError::MultipleOutputRedirects => String::from_str(
                "Can't have multiple output redirects",
            ),
            ParseError::EmptyCommand => String::from_str("Command not specified"),
        }
    }
}

/// The input-redirection operator as a character sequence.
pub open spec fn input_op() -> Seq<char> {
    seq!['<']
}

/// The truncating output-redirection operator as a character sequence.
pub open spec fn output_op() -> Seq<char> {
    seq!['>']
}

/// The appending output-redirection operator as a character sequence.
pub open spec fn append_op() -> Seq<char> {
    seq!['>', '>']
}

/// A successfully parsed command line, ready to be turned into a process
/// launch. `arguments[0]` is the program name; the invariant that
/// `arguments` is non-empty is part of `parse_command`'s contract.
#[derive(Clone, Debug, PartialEq, Eq)]
pub struct ParsedCommand {
    pub arguments: Vec<String>,
    pub input_target: Option<String>,
    pub output_target: Option<String>,
    pub append_mode: bool,
    pub background: bool,
}

/// The mathematical content of a `ParsedCommand`.
#[verifier::ext_equal]
pub ghost struct CommandView {
    pub arguments: Seq<Seq<char>>,
    pub input_target: Option<Seq<char>>,
    pub output_target: Option<Seq<char>>,
    pub append_mode: bool,
    pub background: bool,
}

impl View for ParsedCommand {
    type V = CommandView;

    open spec fn view(&self) -> CommandView {
        CommandView {
            arguments: self.arguments.deep_view(),
            input_target: self.input_target.deep_view(),
            output_target: self.output_target.deep_view(),
            append_mode: self.append_mode,
            background: self.background,
        }
    }
}

/// The state of the left-to-right scan over the tokens.
#[verifier::ext_equal]
pub ghost struct ScanState {
    pub arguments: Seq<Seq<char>>,
    pub input_target: Option<Seq<char>>,
    pub output_target: Option<Seq<char>>,
    pub append_mode: bool,
    pub output_redirects: nat,
}

/// The scan state before any token has been read.
pub open spec fn initial_scan_state() -> ScanState {
    ScanState {
        arguments: Seq::empty(),
        input_target: None,
        output_target: None,
        append_mode: false,
        output_redirects: 0,
    }
}

/// One left-to-right scan of the tokens from position `i` onward, starting
/// in state `st`. A redirection operator consumes the following token as its
/// target — a later `<` overrides an earlier one, while every `>`/`>>` is
/// counted — and any other token is appended to the argument list.
pub open spec fn scan_from(tokens: Seq<Seq<char>>, i: int, st: ScanState) -> Result<
    ScanState,
    ParseError,
>
    decreases tokens.len() - i,
{
    if i >= tokens.len() {
        Ok(st)
    } else if tokens[i] == input_op() {
        if i + 1 < tokens.len() {
            scan_from(tokens, i + 2, ScanState { input_target: Some(tokens[i + 1]), ..st })
        } else {
            Err(ParseError::MissingRedirectTarget(RedirectOp::Input))
        }
    } else if tokens[i] == output_op() {
        if i + 1 < tokens.len() {
            scan_from(
                tokens,
                i + 2,
                ScanState {
                    output_target: Some(tokens[i + 1]),
                    append_mode: false,
                    output_redirects: st.output_redirects + 1,
                    ..st
                },
            )
        } else {
            Err(ParseError::MissingRedirectTarget(RedirectOp::Output))
        }
    } else if tokens[i] == append_op() {
        if i + 1 < tokens.len() {
            scan_from(
                tokens,
                i + 2,
                ScanState {
                    output_target: Some(tokens[i + 1]),
                    append_mode: true,
                    output_redirects: st.output_redirects + 1,
                    ..st
                },
            )
        } else {
            Err(ParseError::MissingRedirectTarget(RedirectOp::OutputAppend))
        }
    } else {
        scan_from(tokens, i + 1, ScanState { arguments: st.arguments.push(tokens[i]), ..st })
    }
}

/// What parsing a token sequence yields: the scan above, followed by the two
/// whole-line checks — at most one output redirect, at least one argument.
pub open spec fn spec_parse(tokens: Seq<Seq<char>>, background: bool) -> Result<
    CommandView,
    ParseError,
> {
    match scan_from(tokens, 0, initial_scan_state()) {
        Err(e) => Err(e),
        Ok(st) => if st.output_redirects > 1 {
            Err(ParseError::MultipleOutputRedirects)
        } else if st.arguments.len() == 0 {
            Err(ParseError::EmptyCommand)
        } else {
            Ok(
                CommandView {
                    arguments: st.arguments,
                    input_target: st.input_target,
                    output_target: st.output_target,
                    append_mode: st.append_mode,
                    background,
                },
            )
        },
    }
}

/// How many output-redirect operators (`>` or `>>`) the scan from position
/// `i` onward meets at operator positions. A token standing where a
/// redirection target is expected is a target, not an operator.
pub open spec fn output_ops_from(tokens: Seq<Seq<char>>, i: int) -> nat
    decreases tokens.len() - i,
{
    if i >= tokens.len() {
        0
    } else if tokens[i] == input_op() {
        if i + 1 < tokens.len() {
            output_ops_from(tokens, i + 2)
        } else {
            0
        }
    } else if tokens[i] == output_op() {
        if i + 1 < tokens.len() {
            1 + output_ops_from(tokens, i + 2)
        } else {
            1
        }
    } else if tokens[i] == append_op() {
        if i + 1 < tokens.len() {
            1 + output_ops_from(tokens, i + 2)
        } else {
            1
        }
    } else {
        output_ops_from(tokens, i + 1)
    }
}

/// How many input-redirect operators (`<`) the scan from position `i`
/// onward meets at operator positions.
pub open spec fn input_ops_from(tokens: Seq<Seq<char>>, i: int) -> nat
    decreases tokens.len() - i,
{
    if i >= tokens.len() {
        0
    } else if tokens[i] == input_op() {
        if i + 1 < tokens.len() {
            1 + input_ops_from(tokens, i + 2)
        } else {
            1
        }
    } else if tokens[i] == output_op() {
        if i + 1 < tokens.len() {
            input_ops_from(tokens, i + 2)
        } else {
            0
        }
    } else if tokens[i] == append_op() {
        if i + 1 < tokens.len() {
            input_ops_from(tokens, i + 2)
        } else {
            0
        }
    } else {
        input_ops_from(tokens, i + 1)
    }
}

/// The target following the last `<` operator that the scan from position
/// `i` onward meets, if any.
pub open spec fn last_input_from(tokens: Seq<Seq<char>>, i: int) -> Option<Seq<char>>
    decreases tokens.len() - i,
{
    if i >= tokens.len() {
        None
    } else if tokens[i] == input_op() {
        if i + 1 < tokens.len() {
            match last_input_from(tokens, i + 2) {
                Some(t) => Some(t),
                None => Some(tokens[i + 1]),
            }
        } else {
            None
        }
    } else if tokens[i] == output_op() {
        if i + 1 < tokens.len() {
            last_input_from(tokens, i + 2)
        } else {
            None
        }
    } else if tokens[i] == append_op() {
        if i + 1 < tokens.len() {
            last_input_from(tokens, i + 2)
        } else {
            None
        }
    } else {
        last_input_from(tokens, i + 1)
    }
}

/// The tokens from position `i` onward that stand at no operator and no
/// target position: the words that become arguments, in order.
pub open spec fn words_from(tokens: Seq<Seq<char>>, i: int) -> Seq<Seq<char>>
    decreases tokens.len() - i,
{
    if i >= tokens.len() {
        Seq::empty()
    } else if tokens[i] == input_op() {
        if i + 1 < tokens.len() {
            words_from(tokens, i + 2)
        } else {
            Seq::empty()
        }
    } else if tokens[i] == output_op() {
        if i + 1 < tokens.len() {
            words_from(tokens, i + 2)
        } else {
            Seq::empty()
        }
    } else if tokens[i] == append_op() {
        if i + 1 < tokens.len() {
            words_from(tokens, i + 2)
        } else {
            Seq::empty()
        }
    } else {
        seq![tokens[i]] + words_from(tokens, i + 1)
    }
}

/// A clean scan appends to the argument list exactly the words that stand
/// at no operator and no target position.
proof fn lemma_scan_arguments(tokens: Seq<Seq<char>>, i: int, st: ScanState)
    requires
        scan_from(tokens, i, st) is Ok,
    ensures
        scan_from(tokens, i, st)->Ok_0.arguments == st.arguments + words_from(tokens, i),
    decreases tokens.len() - i,
{
    if i >= tokens.len() {
        assert(st.arguments + words_from(tokens, i) =~= st.arguments);
    } else if tokens[i] == input_op() {
        lemma_scan_arguments(
            tokens,
            i + 2,
            ScanState { input_target: Some(tokens[i + 1]), ..st },
        );
    } else if tokens[i] == output_op() {
        lemma_scan_arguments(
            tokens,
            i + 2,
            ScanState {
                output_target: Some(tokens[i + 1]),
                append_mode: false,
                output_redirects: st.output_redirects + 1,
                ..st
            },
        );
    } else if tokens[i] == append_op() {
        lemma_scan_arguments(
            tokens,
            i + 2,
            ScanState {
                output_target: Some(tokens[i + 1]),
                append_mode: true,
                output_redirects: st.output_redirects + 1,
                ..st
            },
        );
    } else {
        lemma_scan_arguments(
            tokens,
            i + 1,
            ScanState { arguments: st.arguments.push(tokens[i]), ..st },
        );
        assert(st.arguments.push(tokens[i]) + words_from(tokens, i + 1) =~= st.arguments + (
        seq![tokens[i]] + words_from(tokens, i + 1)));
    }
}

/// Law: when parsing succeeds, the arguments are exactly the tokens that
/// stand at no operator and no target position, in their original order. In
/// particular a token the tokenizer stripped — the trailing `&` — can never
/// surface among the arguments.
pub proof fn lemma_arguments_are_plain_words(tokens: Seq<Seq<char>>, background: bool)
    requires
        spec_parse(tokens, background) is Ok,
    ensures
        spec_parse(tokens, background)->Ok_0.arguments == words_from(tokens, 0),
{
    lemma_scan_arguments(tokens, 0, initial_scan_state());
    assert(initial_scan_state().arguments + words_from(tokens, 0) =~= words_from(tokens, 0));
}

/// A clean scan counts exactly the output-redirect operators it meets.
proof fn lemma_scan_output_count(tokens: Seq<Seq<char>>, i: int, st: ScanState)
    requires
        scan_from(tokens, i, st) is Ok,
    ensures
        scan_from(tokens, i, st)->Ok_0.output_redirects == st.output_redirects + output_ops_from(
            tokens,
            i,
        ),
    decreases tokens.len() - i,
{
    if i >= tokens.len() {
    } else if tokens[i] == input_op() {
        lemma_scan_output_count(
            tokens,
            i + 2,
            ScanState { input_target: Some(tokens[i + 1]), ..st },
        );
    } else if tokens[i] == output_op() {
        lemma_scan_output_count(
            tokens,
            i + 2,
            ScanState {
                output_target: Some(tokens[i + 1]),
                append_mode: false,
                output_redirects: st.output_redirects + 1,
                ..st
            },
        );
    } else if tokens[i] == append_op() {
        lemma_scan_output_count(
            tokens,
            i + 2,
            ScanState {
                output_target: Some(tokens[i + 1]),
                append_mode: true,
                output_redirects: st.output_redirects + 1,
                ..st
            },
        );
    } else {
        lemma_scan_output_count(
            tokens,
            i + 1,
            ScanState { arguments: st.arguments.push(tokens[i]), ..st },
        );
    }
}

/// A clean scan leaves as input target the word after the last `<` it meets,
/// or the target it started with when it meets none.
proof fn lemma_scan_input_target(tokens: Seq<Seq<char>>, i: int, st: ScanState)
    requires
        scan_from(tokens, i, st) is Ok,
    ensures
        scan_from(tokens, i, st)->Ok_0.input_target == (match last_input_from(tokens, i) {
            Some(t) => Some(t),
            None => st.input_target,
        }),
    decreases tokens.len() - i,
{
    if i >= tokens.len() {
    } else if tokens[i] == input_op() {
        lemma_scan_input_target(
            tokens,
            i + 2,
            ScanState { input_target: Some(tokens[i + 1]), ..st },
        );
    } else if tokens[i] == output_op() {
        lemma_scan_input_target(
            tokens,
            i + 2,
            ScanState {
                output_target: Some(tokens[i + 1]),
                append_mode: false,
                output_redirects: st.output_redirects + 1,
                ..st
            },
        );
    } else if tokens[i] == append_op() {
        lemma_scan_input_target(
            tokens,
            i + 2,
            ScanState {
                output_target: Some(tokens[i + 1]),
                append_mode: true,
                output_redirects: st.output_redirects + 1,
                ..st
            },
        );
    } else {
        lemma_scan_input_target(
            tokens,
            i + 1,
            ScanState { arguments: st.arguments.push(tokens[i]), ..st },
        );
    }
}

/// When a clean scan meets at least one `<` operator, there is a last one,
/// and it has a target.
proof fn lemma_input_present(tokens: Seq<Seq<char>>, i: int, st: ScanState)
    requires
        scan_from(tokens, i, st) is Ok,
        input_ops_from(tokens, i) >= 1,
    ensures
        last_input_from(tokens, i) is Some,
    decreases tokens.len() - i,
{
    if i >= tokens.len() {
    } else if tokens[i] == input_op() {
    } else if tokens[i] == output_op() {
        lemma_input_present(
            tokens,
            i + 2,
            ScanState {
                output_target: Some(tokens[i + 1]),
                append_mode: false,
                output_redirects: st.output_redirects + 1,
                ..st
            },
        );
    } else if tokens[i] == append_op() {
        lemma_input_present(
            tokens,
            i + 2,
            ScanState {
                output_target: Some(tokens[i + 1]),
                append_mode: true,
                output_redirects: st.output_redirects + 1,
                ..st
            },
        );
    } else {
        lemma_input_present(
            tokens,
            i + 1,
            ScanState { arguments: st.arguments.push(tokens[i]), ..st },
        );
    }
}

/// Law: a token sequence that scans cleanly (no operator stands last without
/// a target) and holds two or more output-redirect operators — `>` and `>>`
/// in any combination, in any order — parses to `MultipleOutputRedirects`.
pub proof fn lemma_multiple_output_redirects(tokens: Seq<Seq<char>>, background: bool)
    requires
        scan_from(tokens, 0, initial_scan_state()) is Ok,
        output_ops_from(tokens, 0) >= 2,
    ensures
        spec_parse(tokens, background) == Err::<CommandView, ParseError>(
            ParseError::MultipleOutputRedirects,
        ),
{
    lemma_scan_output_count(tokens, 0, initial_scan_state());
}

/// Law: a token sequence with several `<` operators still parses
/// successfully — provided it scans cleanly, holds at most one output
/// redirect and at least one command word — and the input target is the word
/// following the LAST `<`.
pub proof fn lemma_last_input_redirect_wins(tokens: Seq<Seq<char>>, background: bool)
    requires
        scan_from(tokens, 0, initial_scan_state()) is Ok,
        input_ops_from(tokens, 0) >= 2,
        output_ops_from(tokens, 0) <= 1,
        scan_from(tokens, 0, initial_scan_state())->Ok_0.arguments.len() > 0,
    ensures
        spec_parse(tokens, background) is Ok,
        last_input_from(tokens, 0) is Some,
        spec_parse(tokens, background)->Ok_0.input_target == last_input_from(tokens, 0),
{
    lemma_scan_output_count(tokens, 0, initial_scan_state());
    lemma_scan_input_target(tokens, 0, initial_scan_state());
    lemma_input_present(tokens, 0, initial_scan_state());
}

/// Whether a word is exactly the single character `c`.
fn is_single_char_token(t: &String, c: char) -> (r: bool)
    ensures
        r == (t@ == seq![c]),
{
    let s: &str = t.as_str();
    if s.unicode_len() == 1 {
        let r = s.get_char(0) == c;
        proof {
            if r {
                assert(t@ =~= seq![c]);
            }
        }
        r
    } else {
        proof {
            assert(seq![c].len() == 1);
        }
        false
    }
}

/// Whether a word is exactly the appending operator `>>`.
fn is_append_token(t: &String) -> (r: bool)
    ensures
        r == (t@ == append_op()),
{
    let s: &str = t.as_str();
    if s.unicode_len() == 2 {
        let r = s.get_char(0) == '>' && s.get_char(1) == '>';
        proof {
            if r {
                assert(t@ =~= append_op());
            }
        }
        r
    } else {
        proof {
            assert(append_op().len() == 2);
        }
        false
    }
}

/// Parses a token sequence into a command, exactly as `spec_parse` says:
/// every redirection operator consumes the following token as its target, a
/// later `<` silently overrides an earlier one, a second `>`/`>>` is the
/// error `MultipleOutputRedirects`, and a line with no command word left is
/// the error `EmptyCommand`.
pub fn parse_command(ts: &TokenSequence) -> (r: Result<ParsedCommand, ParseError>)
    ensures
        (match r {
            Ok(pc) => spec_parse(ts.words(), ts.background) == Ok::<CommandView, ParseError>(pc@),
            Err(e) => spec_parse(ts.words(), ts.background) == Err::<CommandView, ParseError>(e),
        }),
        r matches Ok(pc) ==> pc@.arguments.len() > 0 && pc.arguments.len() > 0
            && pc.background == ts.background,
{
    let ghost w: Seq<Seq<char>> = ts.words();
    let toks: &Vec<String> = &ts.tokens;
    let mut arguments: Vec<String> = Vec::new();
    let mut input_target: Option<String> = None;
    let mut output_target: Option<String> = None;
    let mut append_mode: bool = false;
    let mut output_redirects: usize = 0;
    let mut i: usize = 0;
    proof {
        assert(arguments.deep_view() =~= Seq::<Seq<char>>::empty());
    }
    while i < toks.len()
        invariant
            0 <= i <= toks.len(),
            w == ts.words(),
            toks == ts.tokens,
            output_redirects <= i,
            scan_from(w, 0, initial_scan_state()) == scan_from(
                w,
                i as int,
                (ScanState {
                    arguments: arguments.deep_view(),
                    input_target: input_target.deep_view(),
                    output_target: output_target.deep_view(),
                    append_mode: append_mode,
                    output_redirects: output_redirects as nat,
                }),
            ),
        decreases toks.len() - i,
    {
        proof {
            assert(w[i as int] == toks@[i as int]@);
        }
        let t = &toks[i];
        if is_single_char_token(t, '<') {
            if i + 1 < toks.len() {
                proof {
                    assert(w[i as int + 1] == toks@[i as int + 1]@);
                }
                input_target = Some(toks[i + 1].clone());
                i = i + 2;
            } else {
                return Err(ParseError::MissingRedirectTarget(RedirectOp::Input));
            }
        } else if is_single_char_token(t, '>') {
            if i + 1 < toks.len() {
                proof {
                    assert(w[i as int + 1] == toks@[i as int + 1]@);
                }
                output_target = Some(toks[i + 1].clone());
                append_mode = false;
                output_redirects = output_redirects + 1;
                i = i + 2;
            } else {
                return Err(ParseError::MissingRedirectTarget(RedirectOp::Output));
            }
        } else if is_append_token(t) {
            if i + 1 < toks.len() {
                proof {
                    assert(w[i as int + 1] == toks@[i as int + 1]@);
                }
                output_target = Some(toks[i + 1].clone());
                append_mode = true;
                output_redirects = output_redirects + 1;
                i = i + 2;
            } else {
                return Err(ParseError::MissingRedirectTarget(RedirectOp::OutputAppend));
            }
        } else {
            let ghost old_args = arguments.deep_view();
            arguments.push(toks[i].clone());
            proof {
                assert(arguments.deep_view() =~= old_args.push(w[i as int]));
            }
            i = i + 1;
        }
    }
    if output_redirects > 1 {
        Err(ParseError::MultipleOutputRedirects)
    } else if arguments.len() == 0 {
        proof {
            assert(arguments.deep_view().len() == 0);
        }
        Err(ParseError::EmptyCommand)
    } else {
        proof {
            assert(arguments.deep_view().len() == arguments@.len());
        }
        Ok(
            ParsedCommand {
                arguments,
                input_target,
                output_target,
                append_mode,
                background: ts.background,
            },
        )
    }
}

} // verus!

use rush::executor::{execution_plan, ExecError};
use rush::parser::{parse_command, ParseError, ParsedCommand, RedirectOp};
use rush::process_input;
use rush::tokenizer::tokenize;

fn words(ts: &rush::tokenizer::TokenSequence) -> Vec<String> {
    ts.tokens.clone()
}

#[test]
fn blank_line_tokenizes_to_nothing() {
    let ts = tokenize("");
    assert!(words(&ts).is_empty());
    assert!(!ts.background);
    let ts = tokenize("   \t  \n ");
    assert!(words(&ts).is_empty());
    assert!(!ts.background);
}

#[test]
fn blank_line_is_empty_command() {
    assert_eq!(process_input(""), Err(ParseError::EmptyCommand));
    assert_eq!(process_input("   \t  "), Err(ParseError::EmptyCommand));
}

#[test]
fn tokenize_splits_on_whitespace_runs() {
    let ts = tokenize("  a\tb\nc   d ");
    assert_eq!(words(&ts), vec!["a", "b", "c", "d"]);
    assert!(!ts.background);
}

#[test]
fn trailing_ampersand_word_sets_background() {
    let ts = tokenize("sleep 10 &");
    assert_eq!(words(&ts), vec!["sleep", "10"]);
    assert!(ts.background);
}

#[test]
fn glued_ampersand_is_a_plain_word() {
    let ts = tokenize("ls&");
    assert_eq!(words(&ts), vec!["ls&"]);
    assert!(!ts.background);
    let pc = process_input("ls&").unwrap();
    assert_eq!(pc.arguments, vec!["ls&"]);
    assert!(!pc.background);
}

#[test]
fn lone_ampersand_is_empty_command() {
    let ts = tokenize("&");
    assert!(words(&ts).is_empty());
    assert!(ts.background);
    assert_eq!(process_input("&"), Err(ParseError::EmptyCommand));
}

#[test]
fn background_command_drops_marker_from_arguments() {
    let pc = process_input("cat f &").unwrap();
    assert_eq!(pc.arguments, vec!["cat", "f"]);
    assert!(pc.background);
}

#[test]
fn simple_command_parses_to_arguments_in_order() {
    let pc = process_input("echo one two three").unwrap();
    assert_eq!(pc.arguments, vec!["echo", "one", "two", "three"]);
    assert_eq!(pc.input_target, None);
    assert_eq!(pc.output_target, None);
    assert!(!pc.append_mode);
    assert!(!pc.background);
}

#[test]
fn output_redirect_truncates() {
    let pc = process_input("echo hello > out.txt").unwrap();
    assert_eq!(pc.arguments, vec!["echo", "hello"]);
    assert_eq!(pc.output_target, Some("out.txt".to_string()));
    assert!(!pc.append_mode);
    let plan = execution_plan(&pc);
    let out = plan.output_open.unwrap();
    assert_eq!(out.path, "out.txt");
    assert!(out.write && out.create && out.truncate);
    assert!(!out.append && !out.read);
    assert!(plan.wait);
}

#[test]
fn append_redirect_preserves_content() {
    let pc = process_input("echo world >> out.txt").unwrap();
    assert_eq!(pc.arguments, vec!["echo", "world"]);
    assert_eq!(pc.output_target, Some("out.txt".to_string()));
    assert!(pc.append_mode);
    let plan = execution_plan(&pc);
    let out = plan.output_open.unwrap();
    assert!(out.write && out.create && out.append);
    assert!(!out.truncate && !out.read);
}

#[test]
fn both_redirects_and_background() {
    let pc = process_input("cat < in.txt > out.txt &").unwrap();
    assert_eq!(pc.arguments, vec!["cat"]);
    assert_eq!(pc.input_target, Some("in.txt".to_string()));
    assert_eq!(pc.output_target, Some("out.txt".to_string()));
    assert!(!pc.append_mode);
    assert!(pc.background);
    let plan = execution_plan(&pc);
    assert!(!plan.wait);
    let input = plan.input_open.unwrap();
    assert_eq!(input.path, "in.txt");
    assert!(input.read);
    assert!(!input.write && !input.create && !input.append && !input.truncate);
    assert!(plan.output_open.is_some());
}

#[test]
fn redirect_without_command_is_empty_command() {
    assert_eq!(process_input("> out.txt"), Err(ParseError::EmptyCommand));
    assert_eq!(process_input("< in.txt >> out.txt"), Err(ParseError::EmptyCommand));
}

#[test]
fn input_redirect_is_planned_before_any_spawn() {
    let pc = process_input("grep foo < missing.txt").unwrap();
    assert_eq!(pc.arguments, vec!["grep", "foo"]);
    assert_eq!(pc.input_target, Some("missing.txt".to_string()));
    let plan = execution_plan(&pc);
    let input = plan.input_open.unwrap();
    assert_eq!(input.path, "missing.txt");
    assert!(input.read && !input.write && !input.create);
}

#[test]
fn two_truncating_redirects_fail() {
    assert_eq!(
        process_input("a > x > y"),
        Err(ParseError::MultipleOutputRedirects)
    );
}

#[test]
fn mixed_output_redirects_fail_in_any_order() {
    assert_eq!(
        process_input("a > x >> y"),
        Err(ParseError::MultipleOutputRedirects)
    );
    assert_eq!(
        process_input("a >> x > y"),
        Err(ParseError::MultipleOutputRedirects)
    );
    assert_eq!(
        process_input(">> x > y a"),
        Err(ParseError::MultipleOutputRedirects)
    );
    assert_eq!(
        process_input("a >> x >> y"),
        Err(ParseError::MultipleOutputRedirects)
    );
}

#[test]
fn last_input_redirect_wins() {
    let pc = process_input("cat < a.txt < b.txt").unwrap();
    assert_eq!(pc.arguments, vec!["cat"]);
    assert_eq!(pc.input_target, Some("b.txt".to_string()));
    let pc = process_input("cat < a.txt x < b.txt < c.txt").unwrap();
    assert_eq!(pc.arguments, vec!["cat", "x"]);
    assert_eq!(pc.input_target, Some("c.txt".to_string()));
}

#[test]
fn missing_redirect_targets() {
    assert_eq!(
        process_input("ls >"),
        Err(ParseError::MissingRedirectTarget(RedirectOp::Output))
    );
    assert_eq!(
        process_input("ls <"),
        Err(ParseError::MissingRedirectTarget(RedirectOp::Input))
    );
    assert_eq!(
        process_input("ls >>"),
        Err(ParseError::MissingRedirectTarget(RedirectOp::OutputAppend))
    );
}

#[test]
fn operator_token_consumes_following_word() {
    // the word after an operator is its target, never an argument
    let pc = process_input("wc -l < data").unwrap();
    assert_eq!(pc.arguments, vec!["wc", "-l"]);
    assert_eq!(pc.input_target, Some("data".to_string()));
}

#[test]
fn parse_command_sees_stripped_tokens() {
    let ts = tokenize("echo hi &");
    let pc = parse_command(&ts).unwrap();
    assert_eq!(pc.arguments, vec!["echo", "hi"]);
    assert!(pc.background);
}

#[test]
fn plan_splits_program_from_arguments() {
    let pc = ParsedCommand {
        arguments: vec!["prog".to_string(), "x".to_string(), "y".to_string()],
        input_target: None,
        output_target: None,
        append_mode: false,
        background: false,
    };
    let plan = execution_plan(&pc);
    assert_eq!(plan.program, "prog");
    assert_eq!(plan.args, vec!["x", "y"]);
    assert!(plan.input_open.is_none());
    assert!(plan.output_open.is_none());
    assert!(plan.wait);
}

#[test]
fn ampersand_in_the_middle_is_an_argument() {
    // only an exact final `&` word marks background execution
    let pc = process_input("echo & foo").unwrap();
    assert_eq!(pc.arguments, vec!["echo", "&", "foo"]);
    assert!(!pc.background);
}

#[test]
fn unicode_whitespace_separates_words() {
    let ts = tokenize("a\u{3000}b\u{a0}c");
    assert_eq!(ts.tokens, vec!["a", "b", "c"]);
    let ts = tokenize("ls &\u{2003}");
    assert_eq!(ts.tokens, vec!["ls"]);
    assert!(ts.background);
}

#[test]
fn parse_error_messages() {
    assert_eq!(
        ParseError::EmptyCommand.message(),
        "Command not specified"
    );
    assert_eq!(
        ParseError::MultipleOutputRedirects.message(),
        "Can't have multiple output redirects"
    );
    assert_eq!(
        ParseError::MissingRedirectTarget(RedirectOp::Input).message(),
        "< must have a file afterwards!"
    );
    assert_eq!(
        ParseError::MissingRedirectTarget(RedirectOp::Output).message(),
        "> must have a file afterwards!"
    );
    assert_eq!(
        ParseError::MissingRedirectTarget(RedirectOp::OutputAppend).message(),
        ">> must have a file afterwards!"
    );
}

#[test]
fn exec_error_messages() {
    let e = ExecError::RedirectOpenFailed {
        path: "missing.txt".to_string(),
        cause: "no such file".to_string(),
    };
    assert_eq!(e.message(), "missing.txt: no such file");
    let e = ExecError::SpawnFailed {
        cause: "not found".to_string(),
    };
    assert_eq!(e.message(), "not found");
}

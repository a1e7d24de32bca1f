use cxsh::builtin::{cd_outcome, cd_target};
use cxsh::execute::ExecutionResult;
use cxsh::prompt::prompt_text;

fn words(ws: &[&str]) -> Vec<String> {
    ws.iter().map(|w| w.to_string()).collect()
}

#[test]
fn cd_without_argument_goes_home() {
    assert_eq!(cd_target(&words(&["cd"]), Some("/home/me")), Ok("/home/me".to_string()));
    assert_eq!(
        cd_target(&words(&["cd"]), None),
        Err("Environment variable HOME does not set".to_string())
    );
}

#[test]
fn cd_with_one_argument_goes_there() {
    assert_eq!(cd_target(&words(&["cd", "/tmp"]), Some("/home/me")), Ok("/tmp".to_string()));
}

#[test]
fn cd_with_more_arguments_is_a_usage_error() {
    assert_eq!(cd_target(&words(&["cd", "a", "b"]), None), Err("cd: cd [DIRECTORY]".to_string()));
}

#[test]
fn cd_outcomes() {
    assert_eq!(cd_outcome("/tmp", true), Ok(ExecutionResult::Normal(None)));
    assert_eq!(
        cd_outcome("/nope", false),
        Err("cd: The directory /nope does not exist".to_string())
    );
}

#[test]
fn prompt_shows_the_directory() {
    assert_eq!(prompt_text("/home/me"), "/home/me $ ");
}

#[test]
fn help_answers_normal_without_status() {
    assert_eq!(cxsh::builtin::help_outcome(), Ok(ExecutionResult::Normal(None)));
}

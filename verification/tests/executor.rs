use cxsh::execute::{
    fd_op_error, not_found_message, process_result, Action, Builtin, Dispatch, Event, ExecutionResult, Executor,
    FdOp, ProcessOutcome,
};
use cxsh::parser::command;

fn words(ws: &[&str]) -> Vec<String> {
    ws.iter().map(|w| w.to_string()).collect()
}

#[test]
fn builtins_are_cd_help_and_exit() {
    let e = Executor::new();
    assert_eq!(e.builtin(&"cd".to_string()), Some(Builtin::Cd));
    assert_eq!(e.builtin(&"help".to_string()), Some(Builtin::Help));
    assert_eq!(e.builtin(&"exit".to_string()), Some(Builtin::Exit));
    assert_eq!(e.builtin(&"ls".to_string()), None);
    assert_eq!(e.builtin(&"CD".to_string()), None);
}

#[test]
fn dispatch_of_stages() {
    let e = Executor::new();
    assert_eq!(e.execute_command(&[]), Dispatch::Finished(Ok(ExecutionResult::Normal(None))));
    assert_eq!(e.execute_command(&words(&["exit"])), Dispatch::Finished(Ok(ExecutionResult::Exit)));
    assert_eq!(e.execute_command(&words(&["exit", "3"])), Dispatch::Finished(Ok(ExecutionResult::Exit)));
    assert_eq!(e.execute_command(&words(&["cd", "/tmp"])), Dispatch::Cd);
    assert_eq!(e.execute_command(&words(&["help"])), Dispatch::Help);
    assert_eq!(e.execute_command(&words(&["ls", "-l"])), Dispatch::Process);
}

#[test]
fn single_command_runs_as_pipe_end() {
    let mut e = Executor::new();
    let (_, c) = command("ls -l").unwrap();
    assert!(e.is_idle());
    let a = e.execute(&c);
    assert_eq!(a, Action::Run(words(&["ls", "-l"]), true));
    assert!(!e.is_idle());
    let a = e.resume(Event::Ran(Ok(ExecutionResult::Normal(Some(0)))));
    assert_eq!(a, Action::Done(Ok(ExecutionResult::Normal(Some(0)))));
    assert!(e.is_idle());
}

#[test]
fn pipeline_opens_a_pipe_per_piped_stage_and_restores_the_stack() {
    let mut e = Executor::new();
    let (_, c) = command("a | b | c").unwrap();
    assert_eq!(e.execute(&c), Action::OpenPipe);
    assert!(e.accepts(&Event::PipeFailed));
    assert!(!e.accepts(&Event::Ran(Ok(ExecutionResult::Normal(None)))));
    assert_eq!(e.resume(Event::PipeOpened(3, 4)), Action::Run(words(&["a"]), false));
    // a stage that is not the last writes into the newest pipe
    assert_eq!(e.child_fd_plan(false), vec![FdOp::Close(3), FdOp::Dup2(4, 1), FdOp::Close(4)]);
    assert_eq!(e.parent_fd_plan(false), vec![]);
    assert_eq!(e.resume(Event::Ran(Ok(ExecutionResult::Normal(Some(0))))), Action::OpenPipe);
    assert_eq!(e.resume(Event::PipeOpened(5, 6)), Action::Run(words(&["b"]), false));
    // a middle stage writes into the newest pipe and reads from the previous one
    assert_eq!(
        e.child_fd_plan(false),
        vec![FdOp::Close(5), FdOp::Dup2(6, 1), FdOp::Close(6), FdOp::Close(4), FdOp::Dup2(3, 0), FdOp::Close(3)]
    );
    assert_eq!(e.parent_fd_plan(false), vec![FdOp::Close(3), FdOp::Close(4)]);
    assert_eq!(e.resume(Event::Ran(Err("ignored".to_string()))), Action::Run(words(&["c"]), true));
    // the last stage reads from the newest pipe
    assert_eq!(e.child_fd_plan(true), vec![FdOp::Close(6), FdOp::Dup2(5, 0), FdOp::Close(5)]);
    assert_eq!(e.parent_fd_plan(true), vec![FdOp::Close(5), FdOp::Close(6)]);
    assert_eq!(
        e.resume(Event::Ran(Ok(ExecutionResult::Normal(Some(2))))),
        Action::Done(Ok(ExecutionResult::Normal(Some(2))))
    );
    assert!(e.is_idle());
    // balanced: no pipe is left on the stack
    assert_eq!(e.child_fd_plan(true), vec![]);
    assert_eq!(e.parent_fd_plan(false), vec![]);
}

#[test]
fn failed_pipe_ends_the_line() {
    let mut e = Executor::new();
    let (_, c) = command("a | b | c").unwrap();
    assert_eq!(e.execute(&c), Action::OpenPipe);
    assert_eq!(e.resume(Event::PipeOpened(3, 4)), Action::Run(words(&["a"]), false));
    assert_eq!(e.resume(Event::Ran(Ok(ExecutionResult::Normal(None)))), Action::OpenPipe);
    assert_eq!(e.resume(Event::PipeFailed), Action::Done(Err("pipe failed".to_string())));
    assert!(e.is_idle());
    assert_eq!(e.child_fd_plan(true), vec![]);
}

#[test]
fn redirect_is_not_implemented() {
    let mut e = Executor::new();
    let (_, c) = command("ls > out").unwrap();
    assert_eq!(e.execute(&c), Action::Done(Err("Not implemented".to_string())));
    assert!(e.is_idle());
    let (_, c) = command("ls | wc > out").unwrap();
    assert_eq!(e.execute(&c), Action::OpenPipe);
    assert_eq!(e.resume(Event::PipeOpened(7, 8)), Action::Run(words(&["ls"]), false));
    assert_eq!(
        e.resume(Event::Ran(Ok(ExecutionResult::Normal(Some(0))))),
        Action::Done(Err("Not implemented".to_string()))
    );
    assert!(e.is_idle());
    assert_eq!(e.parent_fd_plan(true), vec![]);
}

#[test]
fn process_results() {
    assert_eq!(process_result(ProcessOutcome::Exited(3)), Ok(ExecutionResult::Normal(Some(3))));
    assert_eq!(process_result(ProcessOutcome::Stopped), Ok(ExecutionResult::Normal(None)));
    assert_eq!(process_result(ProcessOutcome::Signaled), Ok(ExecutionResult::Normal(None)));
    assert_eq!(process_result(ProcessOutcome::Other), Ok(ExecutionResult::Normal(None)));
    assert_eq!(process_result(ProcessOutcome::ForkFailed), Err("fork failed".to_string()));
    assert_eq!(process_result(ProcessOutcome::WaitFailed), Err("Process wait error".to_string()));
}

#[test]
fn messages() {
    assert_eq!(fd_op_error(&FdOp::Close(3)), "pipe close failed");
    assert_eq!(fd_op_error(&FdOp::Dup2(3, 1)), "dup2 failed");
    assert_eq!(not_found_message("frob"), "cxsh: command not found: frob");
}

#[test]
fn pipe_stack_comes_back_on_every_ending() {
    // a later pipe fails: the line ends with `pipe failed`, no pipe is left open
    let mut e = Executor::new();
    let (_, c) = command("a | b | c").unwrap();
    assert_eq!(e.execute(&c), Action::OpenPipe);
    assert_eq!(e.resume(Event::PipeOpened(3, 4)), Action::Run(words(&["a"]), false));
    assert_eq!(e.resume(Event::Ran(Err("x".to_string()))), Action::OpenPipe);
    assert_eq!(e.resume(Event::PipeFailed), Action::Done(Err("pipe failed".to_string())));
    assert!(e.is_idle());
    assert_eq!(e.parent_fd_plan(true), vec![]);
    assert_eq!(e.child_fd_plan(false), vec![]);
    // the first pipe fails: nothing runs
    let (_, c) = command("a | b").unwrap();
    assert_eq!(e.execute(&c), Action::OpenPipe);
    assert_eq!(e.resume(Event::PipeFailed), Action::Done(Err("pipe failed".to_string())));
    assert!(e.is_idle());
    // a redirection after a piped stage
    let (_, c) = command("a | b > f").unwrap();
    assert_eq!(e.execute(&c), Action::OpenPipe);
    assert_eq!(e.resume(Event::PipeOpened(7, 8)), Action::Run(words(&["a"]), false));
    assert_eq!(
        e.resume(Event::Ran(Ok(ExecutionResult::Normal(Some(0))))),
        Action::Done(Err("Not implemented".to_string()))
    );
    assert!(e.is_idle());
    assert_eq!(e.parent_fd_plan(true), vec![]);
}

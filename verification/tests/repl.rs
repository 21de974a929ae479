use std::sync::Arc;

use litki::repl_server::{
    accept_step, AcceptAction, AcceptEvent, classify_line, goodbye, greeting, help_lines, plan_dispatch, reply_line, settle_repl_command, shutdown_step,
    trim, LineAction, ReplPlan, ReplReply, ShutdownStep,
};
use litki::script::{closure_factory, CommandRegistry, CommandResult};
use litki::{PtrValue, Value};

#[test]
fn trim_removes_unicode_white_space() {
    assert_eq!(trim("  (+ 1 2)\t\r\n"), "(+ 1 2)");
    assert_eq!(trim("\u{3000}x\u{a0}"), "x");
    assert_eq!(trim("   "), "");
    assert_eq!(trim(""), "");
    assert_eq!(trim("a b"), "a b");
}

#[test]
fn lines_are_classified() {
    assert!(matches!(classify_line("   "), LineAction::Skip));
    assert!(matches!(classify_line("; a comment"), LineAction::Skip));
    assert!(matches!(classify_line(" (exit) "), LineAction::Exit));
    assert!(matches!(classify_line("(quit)"), LineAction::Exit));
    assert!(matches!(classify_line("(help)"), LineAction::Help));
    match classify_line("  (+ 1 2) ") {
        LineAction::Evaluate(e) => assert_eq!(e, "(+ 1 2)"),
        _ => panic!("expected an evaluation"),
    }
}

#[test]
fn server_texts() {
    assert_eq!(greeting(), vec!["Welcome to the Bevy CLJX REPL server!", "Type (help) for available commands.", ""]);
    assert_eq!(help_lines().len(), 4);
    assert_eq!(help_lines()[0], "Available commands:");
    assert_eq!(goodbye(), "Goodbye!");
    assert_eq!(reply_line(Ok("3".to_string())), "=> 3");
    assert_eq!(reply_line(Err("boom".to_string())), "Error: boom");
}

#[test]
fn command_calls_are_recognised() {
    let mut registry = CommandRegistry::new();
    registry.register("echo", closure_factory(|_a: Vec<PtrValue>| Err("unused".to_string())));
    let call = Value::List(vec![Value::Symbol(None, "echo".to_string()), Value::Integer(1)]);
    match plan_dispatch(&call, &registry) {
        ReplPlan::RunCommand(name, args) => {
            assert_eq!(name, "echo");
            assert_eq!(args.len(), 1);
        }
        ReplPlan::Evaluate => panic!("expected a command"),
    }
    let other = Value::List(vec![Value::Symbol(None, "+".to_string()), Value::Integer(1)]);
    assert!(matches!(plan_dispatch(&other, &registry), ReplPlan::Evaluate));
    assert!(matches!(plan_dispatch(&Value::Integer(3), &registry), ReplPlan::Evaluate));
    assert!(matches!(plan_dispatch(&Value::List(vec![]), &registry), ReplPlan::Evaluate));
}

#[test]
fn command_replies() {
    assert!(matches!(settle_repl_command(Ok(Some(CommandResult::Success(Arc::new(Value::Nil(None)))))), ReplReply::Value(_)));
    assert!(matches!(settle_repl_command(Ok(Some(CommandResult::Error(Arc::new(Value::Nil(None)))))), ReplReply::ErrorValue(_)));
    match settle_repl_command(Ok(None)) {
        ReplReply::ErrorText(m) => assert_eq!(m, "Command execution timed out"),
        _ => panic!("expected a message"),
    }
    match settle_repl_command(Ok(Some(CommandResult::Pending))) {
        ReplReply::ErrorText(m) => assert_eq!(m, "Command still pending after timeout"),
        _ => panic!("expected a message"),
    }
    match settle_repl_command(Err("Unknown command: 'x'".to_string())) {
        ReplReply::ErrorText(m) => assert_eq!(m, "Unknown command: 'x'"),
        _ => panic!("expected a message"),
    }
}

#[test]
fn shutdown_steps() {
    assert!(matches!(shutdown_step(10_000, 10_000, true), ShutdownStep::GiveUp));
    assert!(matches!(shutdown_step(100, 10_000, true), ShutdownStep::Join));
    assert!(matches!(shutdown_step(100, 10_000, false), ShutdownStep::Sleep));
}

#[test]
fn accept_steps() {
    assert!(matches!(accept_step(true, AcceptEvent::Connection), AcceptAction::Stop));
    assert!(matches!(accept_step(false, AcceptEvent::Connection), AcceptAction::Serve));
    assert!(matches!(accept_step(false, AcceptEvent::NoClient), AcceptAction::Wait(100)));
    assert!(matches!(accept_step(false, AcceptEvent::Failed), AcceptAction::Wait(100)));
}

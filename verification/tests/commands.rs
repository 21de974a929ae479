use std::sync::Arc;

use bevy::ecs::world::World;
use litki::clojure::{call_value, deref_result, deref_timeout_ms, deref_with_timeout, parse_command_call};
use litki::script::{
    boxed, closure_factory, command_fn, creation_failed, enqueue_created, process_commands, settle_execution, settle_validation,
    unknown_command, BoxedCommand, Command, CommandBuffer, CommandFunctionTimeout, CommandRegistry,
    CommandResult, Dispatch, ReplTimeout,
};
use litki::{PtrValue, Value};

struct Echo(PtrValue);

impl Command for Echo {
    fn validate(&self, _world: &World) -> Result<(), String> {
        Ok(())
    }

    fn execute(&self, _world: &mut World) -> CommandResult {
        CommandResult::Success(self.0.clone())
    }
}

struct Refuse;

impl Command for Refuse {
    fn validate(&self, _world: &World) -> Result<(), String> {
        Err("not today".to_string())
    }

    fn execute(&self, _world: &mut World) -> CommandResult {
        panic!("a refused command must not run")
    }
}

struct Later;

impl Command for Later {
    fn validate(&self, _world: &World) -> Result<(), String> {
        Ok(())
    }

    fn execute(&self, _world: &mut World) -> CommandResult {
        CommandResult::Pending
    }
}

fn text(v: &Value) -> String {
    match v {
        Value::String(s) => s.clone(),
        _ => panic!("expected a string, got {:?}", v),
    }
}

#[test]
fn buffer_drains_in_order_and_empties() {
    let mut buffer: CommandBuffer<u32> = CommandBuffer::new();
    buffer.enqueue_with_resolver(boxed(Echo(Arc::new(Value::Integer(1)))), 10);
    buffer.enqueue_with_resolver(boxed(Echo(Arc::new(Value::Integer(2)))), 20);
    buffer.enqueue(boxed(Later));
    assert_eq!(buffer.len(), 3);
    let drained = buffer.drain();
    let resolvers: Vec<u32> = drained.iter().map(|(_, r)| *r).collect();
    assert_eq!(resolvers, vec![10, 20, 0]);
    assert_eq!(buffer.len(), 0);
    assert!(buffer.drain().is_empty());
}

#[test]
fn process_commands_resolves_or_requeues() {
    let mut world = World::new();
    let queued: Vec<(BoxedCommand, u32)> = vec![
        (boxed(Echo(Arc::new(Value::Integer(5)))), 1),
        (boxed(Refuse), 2),
        (boxed(Later), 3),
    ];
    let out = process_commands(queued, &mut world);
    assert_eq!(out.len(), 3);
    match &out[0] {
        Dispatch::Resolve(1, CommandResult::Success(v)) => assert!(matches!(v.as_ref(), Value::Integer(5))),
        _ => panic!("expected a success for the first command"),
    }
    match &out[1] {
        Dispatch::Resolve(2, CommandResult::Error(v)) => assert_eq!(text(v), "not today"),
        _ => panic!("expected the refusal for the second command"),
    }
    match &out[2] {
        Dispatch::Requeue(command, 3) => assert!(matches!(command.execute(&mut world), CommandResult::Pending)),
        _ => panic!("expected the pending command back with its resolver"),
    }
}

#[test]
fn settling_validation_and_execution() {
    assert!(settle_validation(Ok(())).is_none());
    match settle_validation(Err("why".to_string())) {
        Some(CommandResult::Error(v)) => assert_eq!(text(&v), "why"),
        _ => panic!("expected an error"),
    }
    assert!(settle_execution(CommandResult::Pending).is_none());
    assert!(matches!(settle_execution(CommandResult::Success(Arc::new(Value::Nil(None)))), Some(CommandResult::Success(_))));
}

#[test]
fn command_fn_runs_its_closures() {
    let mut world = World::new();
    let c = command_fn(|_w: &World| Err("no".to_string()), |_w: &mut World| CommandResult::Pending);
    assert_eq!(c.validate(&world), Err("no".to_string()));
    assert!(matches!(c.execute(&mut world), CommandResult::Pending));
}

#[test]
fn registry_queues_created_commands() {
    let mut registry = CommandRegistry::new();
    registry.register(
        "echo",
        closure_factory(|args: Vec<PtrValue>| Ok(boxed(Echo(args[0].clone())))),
    );
    registry.register("broken", closure_factory(|_args: Vec<PtrValue>| Err("bad args".to_string())));
    assert!(registry.contains("echo"));
    assert!(!registry.contains("spawn"));
    let mut names = registry.list_commands();
    names.sort();
    assert_eq!(names, vec!["broken".to_string(), "echo".to_string()]);

    let mut buffer: CommandBuffer<u32> = CommandBuffer::new();
    assert_eq!(
        registry.execute_with_resolver("echo", vec![Arc::new(Value::Integer(1))], &mut buffer, 7),
        Ok(())
    );
    assert_eq!(buffer.len(), 1);
    assert_eq!(
        registry.execute_with_resolver("spawn", vec![], &mut buffer, 8),
        Err("Unknown command: 'spawn'".to_string())
    );
    assert_eq!(
        registry.execute_with_resolver("broken", vec![], &mut buffer, 9),
        Err("Failed to create command 'broken': bad args".to_string())
    );
    assert_eq!(buffer.len(), 1);
    registry.execute("echo", vec![Arc::new(Value::Nil(None))], &mut buffer);
    registry.execute("spawn", vec![], &mut buffer);
    assert_eq!(buffer.len(), 2);
    let drained = buffer.drain();
    assert_eq!(drained[0].1, 7);
}

#[test]
fn created_commands_are_queued_and_refusals_reported() {
    let mut buffer: CommandBuffer<u32> = CommandBuffer::new();
    assert_eq!(enqueue_created("echo", Ok(boxed(Later)), &mut buffer, 4), Ok(()));
    assert_eq!(
        enqueue_created("echo", Err("bad args".to_string()), &mut buffer, 5),
        Err("Failed to create command 'echo': bad args".to_string())
    );
    let drained = buffer.drain();
    assert_eq!(drained.len(), 1);
    assert_eq!(drained[0].1, 4);
    let mut world = World::new();
    assert!(matches!(drained[0].0.execute(&mut world), CommandResult::Pending));
}

#[test]
fn messages() {
    assert_eq!(unknown_command("x"), "Unknown command: 'x'");
    assert_eq!(creation_failed("x", "y"), "Failed to create command 'x': y");
}

#[test]
fn timeouts_default_to_five_seconds() {
    assert_eq!(ReplTimeout::default().0, 5000);
    assert_eq!(CommandFunctionTimeout::default().0, 5000);
}

fn kw(name: &str) -> PtrValue {
    Arc::new(Value::Keyword(None, name.to_string()))
}

#[test]
fn bang_parses_name_options_and_arguments() {
    let args = vec![
        kw("spawn"),
        Arc::new(Value::String("deer".to_string())),
        kw("timeout"),
        Arc::new(Value::Integer(250)),
        kw("default"),
        Arc::new(Value::Integer(0)),
        Arc::new(Value::Integer(3)),
    ];
    let call = match parse_command_call(&args) {
        Ok(call) => call,
        Err(_) => panic!("expected a call"),
    };
    assert_eq!(call.name, "spawn");
    assert_eq!(call.timeout_ms, Some(250));
    assert!(matches!(call.default.as_deref(), Some(Value::Integer(0))));
    assert_eq!(call.args.len(), 2);
    assert!(matches!(call.args[1].as_ref(), Value::Integer(3)));

    let trailing = vec![Arc::new(Value::Symbol(None, "echo".to_string())), kw("timeout")];
    let call = match parse_command_call(&trailing) {
        Ok(call) => call,
        Err(_) => panic!("expected a call"),
    };
    assert_eq!(call.name, "echo");
    assert_eq!(call.timeout_ms, None);
    assert_eq!(call.args.len(), 1);

    match parse_command_call(&vec![Arc::new(Value::Integer(1))]) {
        Err(v) => assert_eq!(text(&v), "Command name must be a keyword or symbol"),
        Ok(_) => panic!("expected an error"),
    }
    match parse_command_call(&vec![]) {
        Err(v) => assert_eq!(text(&v), "! requires at least a command name"),
        Ok(_) => panic!("expected an error"),
    }
}

#[test]
fn bang_answers_with_result_default_or_message() {
    let call = |default: Option<PtrValue>| litki::clojure::CommandCall {
        name: "spawn".to_string(),
        args: vec![],
        timeout_ms: Some(10),
        default,
    };
    let ok = call_value(call(None), Ok(Some(CommandResult::Success(Arc::new(Value::Integer(4))))));
    assert!(matches!(ok.as_ref(), Value::Integer(4)));
    let timed_out = call_value(call(None), Ok(None));
    assert_eq!(text(&timed_out), "Command 'spawn' timed out");
    let defaulted = call_value(call(Some(Arc::new(Value::Integer(9)))), Ok(Some(CommandResult::Pending)));
    assert!(matches!(defaulted.as_ref(), Value::Integer(9)));
    let failed = call_value(call(None), Err("Unknown command: 'spawn'".to_string()));
    assert_eq!(text(&failed), "Failed to execute command 'spawn': Unknown command: 'spawn'");

    let unbounded = litki::clojure::CommandCall { name: "spawn".to_string(), args: vec![], timeout_ms: None, default: None };
    let pending = call_value(unbounded, Ok(Some(CommandResult::Pending)));
    assert_eq!(text(&pending), "Command still pending");
    let unbounded = litki::clojure::CommandCall { name: "spawn".to_string(), args: vec![], timeout_ms: None, default: None };
    let ok = call_value(unbounded, Ok(Some(CommandResult::Success(Arc::new(Value::Integer(7))))));
    assert!(matches!(ok.as_ref(), Value::Integer(7)));
}

#[test]
fn deref_of_promises() {
    assert_eq!(text(&deref_result(CommandResult::Pending)), "Command still pending");
    let v = deref_result(CommandResult::Error(Arc::new(Value::Integer(1))));
    assert!(matches!(v.as_ref(), Value::Integer(1)));
    assert_eq!(deref_timeout_ms(&Value::Integer(100)), 100);
    assert_eq!(deref_timeout_ms(&Value::Nil(None)), 5000);
    let fallback = deref_with_timeout(None, Arc::new(Value::Integer(2)));
    assert!(matches!(fallback.as_ref(), Value::Integer(2)));
    let pending = deref_with_timeout(Some(CommandResult::Pending), Arc::new(Value::Integer(3)));
    assert!(matches!(pending.as_ref(), Value::Integer(3)));
}

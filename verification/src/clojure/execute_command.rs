//! The `!` function (also bound as `execute-command`) of `clojure.core`:
//! `(! :name arg ... :timeout ms :default value)` runs a registered command
//! and waits for its result; and the promise side of `deref`.
use crate::clojure::arg_data;
use crate::script::{CommandResult, Outcome};
use crate::value::{Datum, PtrValue, Value};
use std::sync::Arc;
use vstd::prelude::*;

verus! {

/// A parsed call of `!`.
pub struct CommandCall {
    /// The command's name.
    pub name: String,
    /// The arguments handed to the command.
    pub args: Vec<PtrValue>,
    /// How long to wait for the result, in milliseconds; `None` waits until
    /// the result arrives.
    pub timeout_ms: Option<u64>,
    /// What to give when the wait ends without a result.
    pub default: Option<PtrValue>,
}

/// The name of a keyword or symbol datum.
pub open spec fn name_of(d: Datum) -> Option<Seq<char>> {
    match d {
        Datum::Keyword(_, n) => Some(n),
        Datum::Symbol(_, n) => Some(n),
        _ => None,
    }
}

/// A keyword whose name is `n`, in any namespace.
pub open spec fn is_keyword_named(d: Datum, n: Seq<char>) -> bool {
    d matches Datum::Keyword(_, k) && k == n
}

/// The options and arguments of `!` from position `i` on, given the timeout,
/// default and arguments gathered before it: `:timeout n` with an integer `n`
/// sets the timeout (to `n` taken as unsigned), `:timeout` followed by
/// anything else is skipped with it, `:default v` sets the default, and
/// everything else is an argument; an option keyword in last position is an
/// argument.
pub open spec fn call_options(a: Seq<Datum>, i: int, timeout: Option<u64>, default: Option<Datum>, acc: Seq<Datum>) -> (
    Option<u64>,
    Option<Datum>,
    Seq<Datum>,
)
    decreases a.len() - i,
{
    if i < 0 || i >= a.len() {
        (timeout, default, acc)
    } else if is_keyword_named(a[i], "timeout"@) && i + 1 < a.len() {
        let t = match a[i + 1] {
            Datum::Integer(ms) => Some(ms as u64),
            _ => timeout,
        };
        call_options(a, i + 2, t, default, acc)
    } else if is_keyword_named(a[i], "default"@) && i + 1 < a.len() {
        call_options(a, i + 2, timeout, Some(a[i + 1]), acc)
    } else {
        call_options(a, i + 1, timeout, default, acc.push(a[i]))
    }
}

/// Arguments that are not option keywords all go to the command, in order,
/// and leave the timeout and the default as they were.
pub proof fn lemma_plain_arguments_pass_through(
    a: Seq<Datum>,
    i: int,
    timeout: Option<u64>,
    default: Option<Datum>,
    acc: Seq<Datum>,
)
    requires
        0 <= i <= a.len(),
        forall|j: int| i <= j < a.len() ==> !is_keyword_named(#[trigger] a[j], "timeout"@) && !is_keyword_named(
            a[j],
            "default"@,
        ),
    ensures
        call_options(a, i, timeout, default, acc) == (timeout, default, acc + a.subrange(i, a.len() as int)),
    decreases a.len() - i,
{
    if i < a.len() {
        lemma_plain_arguments_pass_through(a, i + 1, timeout, default, acc.push(a[i]));
        assert(acc.push(a[i]) + a.subrange(i + 1, a.len() as int) =~= acc + a.subrange(i, a.len() as int));
    } else {
        assert(acc + a.subrange(i, a.len() as int) =~= acc);
    }
}

/// The shape of an optional value.
pub open spec fn opt_data(o: Option<PtrValue>) -> Option<Datum> {
    match o {
        Some(v) => Some(v@),
        None => None,
    }
}

/// The message for a call of `!` without arguments.
pub open spec fn missing_name_message() -> Seq<char> {
    "! requires at least a command name"@
}

/// The message for a call of `!` whose first argument names nothing.
pub open spec fn bad_name_message() -> Seq<char> {
    "Command name must be a keyword or symbol"@
}

fn is_keyword(v: &Value, name: &str) -> (r: bool)
    ensures
        r == is_keyword_named(v@, name@),
{
    match v {
        Value::Keyword(_, k) => {
            let n = String::from_str(name);
            *k == n
        },
        _ => false,
    }
}

/// Parses the arguments of `!`; a call without a usable command name gives
/// the string value that `!` returns for it. A call without `:timeout`
/// waits until the result arrives.
pub fn parse_command_call(args: &Vec<PtrValue>) -> (r: Result<CommandCall, PtrValue>)
    ensures
        args.len() == 0 ==> (r matches Err(e) && e@ == Datum::Str(missing_name_message())),
        args.len() > 0 && name_of(args@[0]@) is None ==> (r matches Err(e) && e@ == Datum::Str(
            bad_name_message(),
        )),
        args.len() > 0 && name_of(args@[0]@) is Some ==> (r matches Ok(call) && {
            let (t, d, rest) = call_options(arg_data(args@), 1, None, None, Seq::empty());
            &&& call.name@ == name_of(args@[0]@)->0
            &&& call.timeout_ms == t
            &&& opt_data(call.default) == d
            &&& arg_data(call.args@) == rest
        }),
{
    if args.len() == 0 {
        return Err(Arc::new(Value::String(String::from_str("! requires at least a command name"))));
    }
    let name = match &*args[0] {
        Value::Keyword(_, n) => n.clone(),
        Value::Symbol(_, n) => n.clone(),
        _ => {
            return Err(
                Arc::new(Value::String(String::from_str("Command name must be a keyword or symbol"))),
            );
        },
    };
    let ghost a = arg_data(args@);
    let mut timeout_ms: Option<u64> = None;
    let mut default: Option<PtrValue> = None;
    let mut cmd_args: Vec<PtrValue> = Vec::new();
    let mut i: usize = 1;
    assert(arg_data(cmd_args@) =~= Seq::<Datum>::empty());
    while i < args.len()
        invariant
            1 <= i <= args.len() + 1,
            a == arg_data(args@),
            a.len() == args.len(),
            call_options(a, 1, None, None, Seq::empty()) == call_options(
                a,
                i as int,
                timeout_ms,
                opt_data(default),
                arg_data(cmd_args@),
            ),
        decreases args.len() + 1 - i,
    {
        assert(a[i as int] == args@[i as int]@);
        if i + 1 < args.len() {
            assert(a[i + 1] == args@[i + 1]@);
        }
        if is_keyword(&args[i], "timeout") && i + 1 < args.len() {
            match &*args[i + 1] {
                Value::Integer(ms) => {
                    timeout_ms = Some(#[verifier::truncate] (*ms as u64));
                },
                _ => {},
            }
            i += 2;
        } else if is_keyword(&args[i], "default") && i + 1 < args.len() {
            default = Some(args[i + 1].clone());
            i += 2;
        } else {
            let ghost before = cmd_args@;
            cmd_args.push(args[i].clone());
            assert(arg_data(cmd_args@) =~= arg_data(before).push(a[i as int]));
            i += 1;
        }
    }
    Ok(CommandCall { name, args: cmd_args, timeout_ms, default })
}

/// `Command '<name>' timed out`.
pub open spec fn timed_out_message(name: Seq<char>) -> Seq<char> {
    "Command '"@ + name + "' timed out"@
}

/// `Failed to execute command '<name>': <reason>`.
pub open spec fn execute_failed_message(name: Seq<char>, reason: Seq<char>) -> Seq<char> {
    "Failed to execute command '"@ + name + "': "@ + reason
}

/// What `!` returns once the call has been made: `Err` with the reason when
/// the command could not be queued, else the result of the wait (`None` when
/// it ran out of time). A success or an error gives its value; a wait
/// without a result gives the default, or else, when the wait had a time
/// limit, a message that the command timed out, and when it had none, the
/// message for a pending result.
pub open spec fn call_value_spec(
    name: Seq<char>,
    queued: Result<Option<Outcome>, Seq<char>>,
    default: Option<Datum>,
    bounded: bool,
) -> Datum {
    match queued {
        Err(reason) => Datum::Str(execute_failed_message(name, reason)),
        Ok(Some(Outcome::Success(v))) => v,
        Ok(Some(Outcome::Error(v))) => v,
        _ => match default {
            Some(d) => d,
            None => if bounded {
                Datum::Str(timed_out_message(name))
            } else {
                Datum::Str(still_pending_message())
            },
        },
    }
}

/// The shape of what became of a queued command: the reason it could not
/// be queued, or the result of the wait (`None` when it ran out of time).
pub open spec fn queued_view(q: Result<Option<CommandResult>, String>) -> Result<Option<Outcome>, Seq<char>> {
    match q {
        Err(m) => Err(m@),
        Ok(Some(r)) => Ok(Some(r@)),
        Ok(None) => Ok(None),
    }
}

/// The value that `!` returns for `call`, given what became of it.
pub fn call_value(call: CommandCall, queued: Result<Option<CommandResult>, String>) -> (r: PtrValue)
    ensures
        r@ == call_value_spec(call.name@, queued_view(queued), opt_data(call.default), call.timeout_ms is Some),
        queued matches Ok(Some(res)) ==> (res@ matches Outcome::Success(v) ==> r@ == v),
        queued matches Ok(Some(res)) ==> (res@ matches Outcome::Error(v) ==> r@ == v),
{
    match queued {
        Err(reason) => {
            let mut m = String::from_str("Failed to execute command '");
            m.append(call.name.as_str());
            m.append("': ");
            m.append(reason.as_str());
            Arc::new(Value::String(m))
        },
        Ok(Some(CommandResult::Success(v))) => v,
        Ok(Some(CommandResult::Error(v))) => v,
        _ => match call.default {
            Some(d) => d,
            None => if call.timeout_ms.is_some() {
                let mut m = String::from_str("Command '");
                m.append(call.name.as_str());
                m.append("' timed out");
                Arc::new(Value::String(m))
            } else {
                Arc::new(Value::String(String::from_str("Command still pending")))
            },
        },
    }
}

/// Whatever the default and the time limit, a command that delivered a
/// success or an error makes `!` return that value; only a wait without a
/// result gives the default or a message.
pub proof fn lemma_delivered_value_is_returned(
    name: Seq<char>,
    default: Option<Datum>,
    bounded: bool,
    outcome: Outcome,
)
    ensures
        outcome matches Outcome::Success(v) ==> call_value_spec(name, Ok(Some(outcome)), default, bounded) == v,
        outcome matches Outcome::Error(v) ==> call_value_spec(name, Ok(Some(outcome)), default, bounded) == v,
        outcome is Pending ==> call_value_spec(name, Ok(Some(outcome)), default, bounded) == call_value_spec(
            name,
            Ok(None),
            default,
            bounded,
        ),
        default matches Some(d) ==> call_value_spec(name, Ok(None), default, bounded) == d,
{
}

/// The message that `(deref promise)` gives for a pending result.
pub open spec fn still_pending_message() -> Seq<char> {
    "Command still pending"@
}

/// `(deref promise)`: a success or an error gives its value; a pending
/// result gives a message.
pub fn deref_result(result: CommandResult) -> (r: PtrValue)
    ensures
        r@ == match result@ {
            Outcome::Success(v) => v,
            Outcome::Error(v) => v,
            Outcome::Pending => Datum::Str(still_pending_message()),
        },
{
    match result {
        CommandResult::Success(v) => v,
        CommandResult::Error(v) => v,
        CommandResult::Pending => Arc::new(Value::String(String::from_str("Command still pending"))),
    }
}

/// The wait of `(deref promise ms timeout-val)` in milliseconds: the integer
/// `ms` taken as unsigned, or five seconds when `ms` is not an integer.
pub fn deref_timeout_ms(ms: &Value) -> (r: u64)
    ensures
        r == match ms@ {
            Datum::Integer(i) => i as u64,
            _ => 5000u64,
        },
{
    match ms {
        Value::Integer(i) => #[verifier::truncate] (*i as u64),
        _ => 5000,
    }
}

/// `(deref promise ms timeout-val)`: a success or an error gives its value;
/// a wait that ends without a result, or with a pending one, gives
/// `timeout_val`.
pub fn deref_with_timeout(waited: Option<CommandResult>, timeout_val: PtrValue) -> (r: PtrValue)
    ensures
        r@ == match waited {
            Some(res) => match res@ {
                Outcome::Success(v) => v,
                Outcome::Error(v) => v,
                Outcome::Pending => timeout_val@,
            },
            None => timeout_val@,
        },
{
    match waited {
        Some(CommandResult::Success(v)) => v,
        Some(CommandResult::Error(v)) => v,
        _ => timeout_val,
    }
}

} // verus!

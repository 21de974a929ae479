//! The decisions of the REPL server: what a line from a client asks for,
//! which lines the server answers with, whether an expression is a command
//! call, what a command's result is answered with, and when shutting down
//! gives up.
use crate::script::{CommandRegistry, CommandResult, Outcome};
use crate::value::{data_of, lemma_data_of, Datum, PtrValue, Value};
use std::sync::Arc;
use vstd::prelude::*;

verus! {

// ---------------------------------------------------------------------------
// Lines
// ---------------------------------------------------------------------------

/// Unicode white space, as `char::is_whitespace` and `str::trim` know it.
pub open spec fn is_white_space(c: char) -> bool {
    ||| ('\u{9}' <= c <= '\u{d}')
    ||| c == ' '
    ||| c == '\u{85}'
    ||| c == '\u{a0}'
    ||| c == '\u{1680}'
    ||| ('\u{2000}' <= c <= '\u{200a}')
    ||| c == '\u{2028}'
    ||| c == '\u{2029}'
    ||| c == '\u{202f}'
    ||| c == '\u{205f}'
    ||| c == '\u{3000}'
}

fn white_space(c: char) -> (r: bool)
    ensures
        r == is_white_space(c),
{
    ('\u{9}' <= c && c <= '\u{d}') || c == ' ' || c == '\u{85}' || c == '\u{a0}' || c == '\u{1680}' || (
    '\u{2000}' <= c && c <= '\u{200a}') || c == '\u{2028}' || c == '\u{2029}' || c == '\u{202f}' || c
        == '\u{205f}' || c == '\u{3000}'
}

/// The number of white-space characters that `s` starts with.
pub open spec fn leading_white_space(s: Seq<char>) -> int
    decreases s.len(),
{
    if s.len() == 0 || !is_white_space(s[0]) {
        0
    } else {
        1 + leading_white_space(s.subrange(1, s.len() as int))
    }
}

/// The number of white-space characters that `s` ends with.
pub open spec fn trailing_white_space(s: Seq<char>) -> int
    decreases s.len(),
{
    if s.len() == 0 || !is_white_space(s.last()) {
        0
    } else {
        1 + trailing_white_space(s.drop_last())
    }
}

/// `s` without its leading and trailing white space.
pub open spec fn trim_spec(s: Seq<char>) -> Seq<char> {
    let a = leading_white_space(s);
    if a >= s.len() {
        Seq::empty()
    } else {
        s.subrange(a, s.len() - trailing_white_space(s))
    }
}

proof fn lemma_leading_props(s: Seq<char>)
    ensures
        0 <= leading_white_space(s) <= s.len(),
        forall|k: int| 0 <= k < leading_white_space(s) ==> is_white_space(#[trigger] s[k]),
        leading_white_space(s) < s.len() ==> !is_white_space(s[leading_white_space(s)]),
    decreases s.len(),
{
    if s.len() > 0 && is_white_space(s[0]) {
        let t = s.subrange(1, s.len() as int);
        lemma_leading_props(t);
        assert forall|k: int| 0 <= k < leading_white_space(s) implies is_white_space(#[trigger] s[k]) by {
            if k > 0 {
                assert(s[k] == t[k - 1]);
            }
        }
        if leading_white_space(s) < s.len() {
            assert(s[leading_white_space(s)] == t[leading_white_space(t)]);
        }
    }
}

proof fn lemma_trailing_props(s: Seq<char>)
    ensures
        0 <= trailing_white_space(s) <= s.len(),
        forall|k: int| s.len() - trailing_white_space(s) <= k < s.len() ==> is_white_space(#[trigger] s[k]),
        trailing_white_space(s) < s.len() ==> !is_white_space(s[s.len() - trailing_white_space(s) - 1]),
    decreases s.len(),
{
    if s.len() > 0 && is_white_space(s.last()) {
        let t = s.drop_last();
        lemma_trailing_props(t);
        assert forall|k: int| s.len() - trailing_white_space(s) <= k < s.len() implies is_white_space(#[trigger] s[k]) by {
            if k < s.len() - 1 {
                assert(s[k] == t[k]);
            }
        }
        if trailing_white_space(s) < s.len() {
            assert(s[s.len() - trailing_white_space(s) - 1] == t[t.len() - trailing_white_space(t) - 1]);
        }
    }
}

/// Trimming takes away white space at both ends and nothing else: the
/// result is a stretch of the line with only white space before and after
/// it, and it neither starts nor ends with white space.
pub proof fn lemma_trim_removes_outer_white_space(s: Seq<char>)
    ensures
        exists|i: int, j: int|
            0 <= i <= j <= s.len() && trim_spec(s) == s.subrange(i, j) && (forall|k: int|
                0 <= k < i ==> is_white_space(#[trigger] s[k])) && (forall|k: int|
                j <= k < s.len() ==> is_white_space(#[trigger] s[k])),
        trim_spec(s).len() > 0 ==> !is_white_space(trim_spec(s)[0]) && !is_white_space(trim_spec(s).last()),
        (forall|k: int| 0 <= k < s.len() ==> is_white_space(#[trigger] s[k])) ==> trim_spec(s).len() == 0,
{
    lemma_leading_props(s);
    lemma_trailing_props(s);
    let a = leading_white_space(s);
    let b = s.len() - trailing_white_space(s);
    if a >= s.len() {
        assert(trim_spec(s) =~= s.subrange(a, a));
        assert(forall|k: int| a <= k < s.len() ==> is_white_space(#[trigger] s[k]));
    } else {
        assert(!is_white_space(s[a]));
        assert(a < b) by {
            if b <= a {
                assert(is_white_space(s[a]));
            }
        }
    }
}

proof fn lemma_leading(s: Seq<char>, i: int)
    requires
        0 <= i <= s.len(),
        forall|k: int| 0 <= k < i ==> is_white_space(#[trigger] s[k]),
        i < s.len() ==> !is_white_space(s[i]),
    ensures
        leading_white_space(s) == i,
    decreases i,
{
    if i > 0 {
        let t = s.subrange(1, s.len() as int);
        assert forall|k: int| 0 <= k < i - 1 implies is_white_space(#[trigger] t[k]) by {
            assert(t[k] == s[k + 1]);
        }
        if i - 1 < t.len() {
            assert(t[i - 1] == s[i]);
        }
        lemma_leading(t, i - 1);
    }
}

proof fn lemma_trailing(s: Seq<char>, j: int)
    requires
        0 <= j <= s.len(),
        forall|k: int| j <= k < s.len() ==> is_white_space(#[trigger] s[k]),
        j > 0 ==> !is_white_space(s[j - 1]),
    ensures
        trailing_white_space(s) == s.len() - j,
    decreases s.len() - j,
{
    if j < s.len() {
        let t = s.drop_last();
        assert forall|k: int| j <= k < t.len() implies is_white_space(#[trigger] t[k]) by {
            assert(t[k] == s[k]);
        }
        if j > 0 {
            assert(t[j - 1] == s[j - 1]);
        }
        lemma_trailing(t, j);
    }
}

/// `line` without its leading and trailing white space.
pub fn trim(line: &str) -> (r: &str)
    ensures
        r@ == trim_spec(line@),
{
    let n = line.unicode_len();
    let mut i: usize = 0;
    while i < n && white_space(line.get_char(i))
        invariant
            n == line@.len(),
            0 <= i <= n,
            forall|k: int| 0 <= k < i ==> is_white_space(#[trigger] line@[k]),
        decreases n - i,
    {
        i += 1;
    }
    proof {
        lemma_leading(line@, i as int);
    }
    if i == n {
        let r = line.substring_char(0, 0);
        assert(r@ =~= trim_spec(line@));
        return r;
    }
    let mut j: usize = n;
    while j > i && white_space(line.get_char(j - 1))
        invariant
            n == line@.len(),
            i < n,
            !is_white_space(line@[i as int]),
            i <= j <= n,
            forall|k: int| j <= k < n ==> is_white_space(#[trigger] line@[k]),
        decreases j,
    {
        j -= 1;
    }
    proof {
        lemma_trailing(line@, j as int);
    }
    line.substring_char(i, j)
}

/// What a line from a client asks for.
pub enum LineAction {
    /// An empty line or a comment: nothing.
    Skip,
    /// `(exit)` or `(quit)`: say goodbye and close.
    Exit,
    /// `(help)`: list the commands.
    Help,
    /// Anything else: evaluate the trimmed line.
    Evaluate(String),
}

/// An empty line or a comment.
pub open spec fn is_blank_or_comment(t: Seq<char>) -> bool {
    t.len() == 0 || t[0] == ';'
}

/// The text to evaluate of a trimmed line, if it asks for an evaluation.
pub open spec fn line_action_spec(t: Seq<char>) -> Option<Seq<char>> {
    if is_blank_or_comment(t) || t == "(exit)"@ || t == "(quit)"@ || t == "(help)"@ {
        None
    } else {
        Some(t)
    }
}

/// Every trimmed line that is not empty, not a comment, and none of
/// `(exit)`, `(quit)` and `(help)` is evaluated as it stands, whatever it
/// looks like.
pub proof fn lemma_other_lines_are_evaluated(t: Seq<char>)
    requires
        t.len() > 0,
        t[0] != ';',
        t != "(exit)"@,
        t != "(quit)"@,
        t != "(help)"@,
    ensures
        line_action_spec(t) == Some(t),
{
}

/// What `line` asks for.
pub fn classify_line(line: &str) -> (r: LineAction)
    ensures
        is_blank_or_comment(trim_spec(line@)) ==> r is Skip,
        !is_blank_or_comment(trim_spec(line@)) && (trim_spec(line@) == "(exit)"@ || trim_spec(line@)
            == "(quit)"@) ==> r is Exit,
        !is_blank_or_comment(trim_spec(line@)) && trim_spec(line@) == "(help)"@ ==> r is Help,
        line_action_spec(trim_spec(line@)) is Some ==> (r matches LineAction::Evaluate(s) && s@ == trim_spec(
            line@,
        )),
        trim_spec(line@).len() > 0 && trim_spec(line@)[0] != ';' && trim_spec(line@) != "(exit)"@ && trim_spec(
            line@,
        ) != "(quit)"@ && trim_spec(line@) != "(help)"@ ==> (r matches LineAction::Evaluate(s) && s@ == trim_spec(
            line@,
        )),
{
    proof {
        reveal_strlit("(exit)");
        reveal_strlit("(quit)");
        reveal_strlit("(help)");
    }
    let t = trim(line);
    if t.unicode_len() == 0 || t.get_char(0) == ';' {
        return LineAction::Skip;
    }
    let text = String::from_str(t);
    if text == String::from_str("(exit)") || text == String::from_str("(quit)") {
        assert(text@[1] != "(help)"@[1]);
        LineAction::Exit
    } else if text == String::from_str("(help)") {
        LineAction::Help
    } else {
        LineAction::Evaluate(text)
    }
}

/// The lines that greet a client.
pub fn greeting() -> (r: Vec<String>)
    ensures
        r@.len() == 3,
        r@[0]@ == "Welcome to the Bevy CLJX REPL server!"@,
        r@[1]@ == "Type (help) for available commands."@,
        r@[2]@ == Seq::<char>::empty(),
{
    let mut r = Vec::new();
    r.push(String::from_str("Welcome to the Bevy CLJX REPL server!"));
    r.push(String::from_str("Type (help) for available commands."));
    r.push(String::new());
    r
}

/// The lines that answer `(help)`.
pub fn help_lines() -> (r: Vec<String>)
    ensures
        r@.len() == 4,
        r@[0]@ == "Available commands:"@,
        r@[1]@ == "  (help) - Show this help message"@,
        r@[2]@ == "  (exit) or (quit) - Exit the REPL"@,
        r@[3]@ == "  <expr> - Evaluate a Clojure expression"@,
{
    let mut r = Vec::new();
    r.push(String::from_str("Available commands:"));
    r.push(String::from_str("  (help) - Show this help message"));
    r.push(String::from_str("  (exit) or (quit) - Exit the REPL"));
    r.push(String::from_str("  <expr> - Evaluate a Clojure expression"));
    r
}

/// The line that answers `(exit)` and `(quit)`.
pub fn goodbye() -> (r: String)
    ensures
        r@ == "Goodbye!"@,
{
    String::from_str("Goodbye!")
}

/// The line that answers an evaluated line: `=> <printed value>`, or
/// `Error: <reason>`.
pub fn reply_line(reply: Result<String, String>) -> (r: String)
    ensures
        r@ == match reply {
            Ok(s) => "=> "@ + s@,
            Err(e) => "Error: "@ + e@,
        },
{
    match reply {
        Ok(s) => {
            let mut m = String::from_str("=> ");
            m.append(s.as_str());
            m
        },
        Err(e) => {
            let mut m = String::from_str("Error: ");
            m.append(e.as_str());
            m
        },
    }
}

// ---------------------------------------------------------------------------
// Commands typed at the REPL
// ---------------------------------------------------------------------------

/// How the REPL handles an expression.
pub enum ReplPlan {
    /// Run the registered command of this name with these arguments.
    RunCommand(String, Vec<PtrValue>),
    /// Evaluate the expression.
    Evaluate,
}

/// The name of the command that a list starting with a symbol calls.
pub open spec fn called_name(expr: Datum) -> Option<Seq<char>> {
    match expr {
        Datum::List(s) => if s.len() > 0 {
            match s[0] {
                Datum::Symbol(_, n) => Some(n),
                _ => None,
            }
        } else {
            None
        },
        _ => None,
    }
}

/// A list whose first element is a symbol calls the command that the
/// symbol names, however many elements follow, none included; nothing else
/// calls a command.
pub proof fn lemma_called_name(s: Seq<Datum>, ns: Option<Seq<char>>, n: Seq<char>, other: Datum)
    requires
        !(other is List),
    ensures
        s.len() > 0 && s[0] == Datum::Symbol(ns, n) ==> called_name(Datum::List(s)) == Some(n),
        called_name(Datum::List(seq![Datum::Symbol(ns, n)])) == Some(n),
        called_name(Datum::List(Seq::empty())) is None,
        called_name(other) is None,
{
}

/// A list whose head is a symbol naming a registered command runs that
/// command with the rest of the list as arguments; everything else is
/// evaluated.
pub fn plan_dispatch(expr: &Value, registry: &CommandRegistry) -> (r: ReplPlan)
    ensures
        match called_name(expr@) {
            Some(n) => if registry@.contains_key(n) {
                r matches ReplPlan::RunCommand(name, args) && name@ == n && data_of(
                    args@.map_values(|a: PtrValue| *a),
                ) == expr@->List_0.subrange(1, expr@->List_0.len() as int)
            } else {
                r is Evaluate
            },
            None => r is Evaluate,
        },
        expr@ matches Datum::List(s) ==> (s.len() > 0 ==> (s[0] matches Datum::Symbol(_, n) ==> (
        registry@.contains_key(n) ==> (r matches ReplPlan::RunCommand(name, args) && name@ == n && data_of(
            args@.map_values(|a: PtrValue| *a),
        ) == s.subrange(1, s.len() as int))))),
        !(expr@ is List) ==> r is Evaluate,
{
    let items = match expr {
        Value::List(items) => items,
        _ => { return ReplPlan::Evaluate; },
    };
    proof {
        lemma_data_of(items@);
    }
    if items.len() == 0 {
        return ReplPlan::Evaluate;
    }
    let name = match &items[0] {
        Value::Symbol(_, n) => n,
        _ => { return ReplPlan::Evaluate; },
    };
    if !registry.contains(name.as_str()) {
        return ReplPlan::Evaluate;
    }
    let mut args: Vec<PtrValue> = Vec::new();
    let mut i: usize = 1;
    while i < items.len()
        invariant
            1 <= i <= items.len(),
            args.len() == i - 1,
            forall|k: int| 0 <= k < i - 1 ==> (*#[trigger] args@[k])@ == items@[k + 1]@,
        decreases items.len() - i,
    {
        args.push(Arc::new(items[i].deep_clone()));
        i += 1;
    }
    proof {
        let inner = args@.map_values(|a: PtrValue| *a);
        lemma_data_of(inner);
        assert(data_of(inner) =~= data_of(items@).subrange(1, items.len() as int));
    }
    ReplPlan::RunCommand(name.clone(), args)
}

/// The answer to a command typed at the REPL.
pub enum ReplReply {
    /// Print this value as the result.
    Value(PtrValue),
    /// Print this value as the error.
    ErrorValue(PtrValue),
    /// Print this text as the error.
    ErrorText(String),
}

/// The message for a command that did not finish in time.
pub open spec fn repl_timed_out_message() -> Seq<char> {
    "Command execution timed out"@
}

/// The message for a command still pending when the wait ended.
pub open spec fn repl_pending_message() -> Seq<char> {
    "Command still pending after timeout"@
}

/// The answer to a command typed at the REPL, given what became of it: the
/// reason it could not be queued, or the result of the wait (`None` when
/// the wait ran out of time).
pub fn settle_repl_command(queued: Result<Option<CommandResult>, String>) -> (r: ReplReply)
    ensures
        match queued {
            Err(e) => r matches ReplReply::ErrorText(m) && m@ == e@,
            Ok(None) => r matches ReplReply::ErrorText(m) && m@ == repl_timed_out_message(),
            Ok(Some(res)) => match res@ {
                Outcome::Success(v) => r matches ReplReply::Value(x) && x@ == v,
                Outcome::Error(v) => r matches ReplReply::ErrorValue(x) && x@ == v,
                Outcome::Pending => r matches ReplReply::ErrorText(m) && m@ == repl_pending_message(),
            },
        },
{
    match queued {
        Err(e) => ReplReply::ErrorText(e),
        Ok(None) => ReplReply::ErrorText(String::from_str("Command execution timed out")),
        Ok(Some(CommandResult::Success(v))) => ReplReply::Value(v),
        Ok(Some(CommandResult::Error(v))) => ReplReply::ErrorValue(v),
        Ok(Some(CommandResult::Pending)) => ReplReply::ErrorText(
            String::from_str("Command still pending after timeout"),
        ),
    }
}

/// What trying to accept a client gave.
pub enum AcceptEvent {
    /// A client connected.
    Connection,
    /// No client was waiting.
    NoClient,
    /// Accepting failed.
    Failed,
}

/// What the server's accept loop does next.
pub enum AcceptAction {
    /// Leave the loop.
    Stop,
    /// Serve the client that connected, on a thread of its own.
    Serve,
    /// Sleep this many milliseconds, then try again.
    Wait(u64),
}

/// How long the accept loop sleeps when no client connected, in milliseconds.
pub const ACCEPT_BACKOFF_MS: u64 = 100;

/// The accept loop's decision: stop once shutdown is requested, serve a
/// client that connected, and otherwise back off before trying again.
pub fn accept_step(shutdown: bool, event: AcceptEvent) -> (r: AcceptAction)
    ensures
        shutdown ==> r is Stop,
        !shutdown && event is Connection ==> r is Serve,
        !shutdown && !(event is Connection) ==> r == AcceptAction::Wait(ACCEPT_BACKOFF_MS),
{
    if shutdown {
        AcceptAction::Stop
    } else {
        match event {
            AcceptEvent::Connection => AcceptAction::Serve,
            _ => AcceptAction::Wait(ACCEPT_BACKOFF_MS),
        }
    }
}

/// How long the REPL waits for a command's result, in milliseconds.
pub const REPL_COMMAND_WAIT_MS: u64 = 5000;

/// How long shutting the server down waits for its thread, in milliseconds.
pub const SHUTDOWN_WAIT_MS: u64 = 10000;

/// How long dropping the server waits for its thread, in milliseconds.
pub const DROP_WAIT_MS: u64 = 5000;

/// What waiting for the server's thread to end does next.
pub enum ShutdownStep {
    /// The time is up.
    GiveUp,
    /// The thread has finished: join it.
    Join,
    /// Sleep and look again.
    Sleep,
}

/// The step of waiting at most `limit_ms` for the server's thread, after
/// `elapsed_ms`, when the thread has `finished` or not.
pub fn shutdown_step(elapsed_ms: u64, limit_ms: u64, finished: bool) -> (r: ShutdownStep)
    ensures
        elapsed_ms >= limit_ms ==> r is GiveUp,
        elapsed_ms < limit_ms && finished ==> r is Join,
        elapsed_ms < limit_ms && !finished ==> r is Sleep,
{
    if elapsed_ms >= limit_ms {
        ShutdownStep::GiveUp
    } else if finished {
        ShutdownStep::Join
    } else {
        ShutdownStep::Sleep
    }
}

/// How waiting for the server's thread at shutdown ended.
pub enum ThreadEnd {
    /// There was no thread to wait for.
    NoThread,
    /// The thread finished and was joined.
    Joined,
    /// The thread finished by panicking.
    Panicked,
    /// The thread did not finish in time.
    TimedOut,
}

/// The error of a shutdown whose thread did not finish in time.
pub open spec fn shutdown_timed_out_message() -> Seq<char> {
    "REPL server thread did not exit within timeout"@
}

/// The error of a shutdown whose thread panicked.
pub open spec fn thread_panicked_message() -> Seq<char> {
    "REPL server thread panicked"@
}

/// What shutting the server down returns, given how the wait for its thread
/// ended: success when there was no thread or it was joined, else the error
/// that says why not.
pub fn shutdown_result(end: ThreadEnd) -> (r: Result<(), String>)
    ensures
        match end {
            ThreadEnd::NoThread => r is Ok,
            ThreadEnd::Joined => r is Ok,
            ThreadEnd::Panicked => r matches Err(m) && m@ == thread_panicked_message(),
            ThreadEnd::TimedOut => r matches Err(m) && m@ == shutdown_timed_out_message(),
        },
{
    match end {
        ThreadEnd::NoThread => Ok(()),
        ThreadEnd::Joined => Ok(()),
        ThreadEnd::Panicked => Err(String::from_str("REPL server thread panicked")),
        ThreadEnd::TimedOut => Err(String::from_str("REPL server thread did not exit within timeout")),
    }
}

} // verus!

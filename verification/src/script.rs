//! Records exchanged with page script: limits, console entries, fetch and
//! WebSocket results, errors, and task reports.
use vstd::prelude::*;
use crate::text_util::{decimal, push_str, str_to_chars, string_push, u64_to_decimal};

verus! {

/// Resource limits applied to one script realm.
#[derive(Clone, Copy, Debug, PartialEq, Eq, Structural)]
pub struct ScriptLimits {
    pub max_source_bytes: usize,
    pub loop_iterations: u64,
    pub recursion_depth: usize,
    pub stack_size: usize,
    pub backtrace_frames: usize,
}

impl Default for ScriptLimits {
    fn default() -> (r: Self)
        ensures
            r == (ScriptLimits {
                max_source_bytes: 524288,
                loop_iterations: 1000000,
                recursion_depth: 128,
                stack_size: 4096,
                backtrace_frames: 16,
            }),
    {
        ScriptLimits {
            max_source_bytes: 524288,
            loop_iterations: 1000000,
            recursion_depth: 128,
            stack_size: 4096,
            backtrace_frames: 16,
        }
    }
}

/// Result of dispatching one DOM event through capture, target, and bubble phases.
#[derive(Clone, Copy, Debug, PartialEq, Eq, Structural)]
pub struct EventDispatchResult {
    pub default_prevented: bool,
}

impl Default for EventDispatchResult {
    fn default() -> (r: Self)
        ensures
            !r.default_prevented,
    {
        EventDispatchResult { default_prevented: false }
    }
}

/// Console severity retained by the document runtime.
#[derive(Clone, Copy, Debug, PartialEq, Eq, Structural)]
pub enum ConsoleLevel {
    Log,
    Info,
    Warn,
    Error,
}

/// One deterministic console entry emitted by page script.
#[derive(Clone, Debug, PartialEq, Eq)]
pub struct ConsoleMessage {
    pub level: ConsoleLevel,
    pub message: String,
}

/// The outcome of a fetch as handed back to script.
#[derive(Clone, Debug, PartialEq, Eq)]
pub struct FetchCompletion {
    pub ok: bool,
    pub name: Option<String>,
    pub error: Option<String>,
    pub body: Option<String>,
    pub response: Option<FetchResponseInit>,
}

/// Status line, headers, and final URL of a fetched response.
#[derive(Clone, Debug, PartialEq, Eq)]
pub struct FetchResponseInit {
    pub status: u16,
    pub status_text: String,
    pub headers: Vec<(String, String)>,
    pub url: String,
    pub redirected: bool,
    pub response_type: String,
}

/// One event of a WebSocket connection delivered to script.
#[derive(Clone, Debug, PartialEq, Eq)]
pub enum WebSocketEvent {
    Open { protocol: String },
    Text { data: String, origin: String },
    Binary { data: Vec<u8>, origin: String },
    Error { message: String },
    Close { code: u16, reason: String, was_clean: bool },
}

/// Category of a script failure.
#[derive(Clone, Copy, Debug, PartialEq, Eq, Structural)]
pub enum ScriptErrorKind {
    Syntax,
    Exception,
    ResourceLimit,
    Host,
    Load,
}

/// One script failure with the URL of its source.
#[derive(Clone, Debug, PartialEq, Eq)]
pub struct ScriptError {
    pub kind: ScriptErrorKind,
    pub message: String,
    pub source_url: String,
}

impl ScriptError {
    /// `source_url: message`, as the error is displayed.
    pub fn describe(&self) -> (r: String)
        ensures
            r@ == self.source_url@ + seq![':', ' '] + self.message@,
    {
        let mut out = crate::text_util::chars_to_string(
            crate::text_util::str_to_chars(self.source_url.as_str()).as_slice(),
        );
        crate::text_util::string_push(&mut out, ':');
        crate::text_util::string_push(&mut out, ' ');
        let message = crate::text_util::str_to_chars(self.message.as_str());
        let mut i: usize = 0;
        let ghost start = out@;
        while i < message.len()
            invariant
                i <= message@.len(),
                message@ == self.message@,
                out@ == start + message@.take(i as int),
            decreases message@.len() - i,
        {
            crate::text_util::string_push(&mut out, message[i]);
            assert(out@ =~= start + message@.take(i + 1));
            i += 1;
        }
        assert(message@.take(i as int) =~= message@);
        out
    }
}

/// One bounded timer-pump result.
#[derive(Clone, Debug, PartialEq, Eq)]
pub struct TimerRunReport {
    pub advanced_ms: u64,
    pub tasks_run: usize,
    pub budget_exhausted: bool,
    pub pending_timers: usize,
    pub errors: Vec<ScriptError>,
}

/// Scheduling phase used by the classic-script task queues.
#[derive(Clone, Copy, Debug, PartialEq, Eq, Structural)]
pub enum ScriptExecutionPhase {
    ParserBlocking,
    Deferred,
}

/// What one pump of fetch and WebSocket tasks did.
#[derive(Clone, Debug, PartialEq, Eq)]
pub struct WebTaskReport {
    pub fetches_completed: usize,
    pub websocket_events: usize,
    pub pending_websockets: usize,
    pub budget_exhausted: bool,
    pub errors: Vec<ScriptError>,
}

/// The completion of a fetch that failed with `error`.
pub fn failed_completion(error: &str) -> (r: FetchCompletion)
    ensures
        !r.ok,
        r.name is None,
        r.error matches Some(e) && e@ == error@,
        r.body is None,
        r.response is None,
{
    let chars = crate::text_util::str_to_chars(error);
    FetchCompletion {
        ok: false,
        name: None,
        error: Some(crate::text_util::chars_to_string(chars.as_slice())),
        body: None,
        response: None,
    }
}

/// The completion of an aborted fetch.
pub fn aborted_completion() -> (r: FetchCompletion)
    ensures
        !r.ok,
        r.name matches Some(n) && n@ == "AbortError"@,
        r.error matches Some(e) && e@ == "The operation was aborted"@,
        r.body is None,
        r.response is None,
{
    FetchCompletion {
        ok: false,
        name: Some(String::from_str("AbortError")),
        error: Some(String::from_str("The operation was aborted")),
        body: None,
        response: None,
    }
}

} // verus!

verus! {

/// When a classic script runs: deferred external scripts after parsing,
/// every other script (inline, or without `defer`) as the parser reaches it.
pub open spec fn spec_script_phase(defer: bool, is_external: bool) -> ScriptExecutionPhase {
    if defer && is_external {
        ScriptExecutionPhase::Deferred
    } else {
        ScriptExecutionPhase::ParserBlocking
    }
}

/// The execution phase of a classic script; `async` scripts are scheduled as
/// parser-blocking.
pub fn script_phase(defer: bool, is_external: bool) -> (r: ScriptExecutionPhase)
    ensures
        r == spec_script_phase(defer, is_external),
{
    if defer && is_external {
        ScriptExecutionPhase::Deferred
    } else {
        ScriptExecutionPhase::ParserBlocking
    }
}

/// Positions of the scripts in `phase`, in document order.
pub open spec fn indices_in_phase(phases: Seq<ScriptExecutionPhase>, phase: ScriptExecutionPhase) -> Seq<
    usize,
>
    decreases phases.len(),
{
    if phases.len() == 0 {
        Seq::empty()
    } else {
        let prev = indices_in_phase(phases.drop_last(), phase);
        if phases.last() == phase {
            prev.push((phases.len() - 1) as usize)
        } else {
            prev
        }
    }
}

/// The order in which a document's scripts run: each parser-blocking script
/// as it is reached, then the deferred scripts in document order.
pub fn execution_order(phases: &[ScriptExecutionPhase]) -> (r: Vec<usize>)
    ensures
        r@ == spec_execution_order(phases@),
{
    let mut blocking: Vec<usize> = Vec::new();
    let mut deferred: Vec<usize> = Vec::new();
    let mut i: usize = 0;
    while i < phases.len()
        invariant
            i <= phases@.len(),
            blocking@ == indices_in_phase(phases@.take(i as int), ScriptExecutionPhase::ParserBlocking),
            deferred@ == indices_in_phase(phases@.take(i as int), ScriptExecutionPhase::Deferred),
        decreases phases@.len() - i,
    {
        assert(phases@.take(i + 1).drop_last() =~= phases@.take(i as int));
        match phases[i] {
            ScriptExecutionPhase::ParserBlocking => blocking.push(i),
            ScriptExecutionPhase::Deferred => deferred.push(i),
        }
        i += 1;
    }
    assert(phases@.take(phases@.len() as int) =~= phases@);
    let mut k: usize = 0;
    let ghost b = blocking@;
    while k < deferred.len()
        invariant
            k <= deferred@.len(),
            blocking@ == b + deferred@.take(k as int),
        decreases deferred@.len() - k,
    {
        blocking.push(deferred[k]);
        assert(deferred@.take(k + 1) =~= deferred@.take(k as int).push(deferred@[k as int]));
        k += 1;
    }
    assert(deferred@.take(deferred@.len() as int) =~= deferred@);
    blocking
}

proof fn lemma_indices_in_phase(phases: Seq<ScriptExecutionPhase>, phase: ScriptExecutionPhase)
    requires
        phases.len() <= usize::MAX,
    ensures
        forall|k: int|
            0 <= k < indices_in_phase(phases, phase).len() ==> {
                let i = #[trigger] indices_in_phase(phases, phase)[k];
                &&& 0 <= i < phases.len()
                &&& phases[i as int] == phase
            },
        forall|a: int, b: int|
            0 <= a < b < indices_in_phase(phases, phase).len() ==> indices_in_phase(phases, phase)[a]
                < indices_in_phase(phases, phase)[b],
        forall|i: int|
            0 <= i < phases.len() && phases[i] == phase ==> indices_in_phase(phases, phase).contains(
                i as usize,
            ),
    decreases phases.len(),
{
    if phases.len() > 0 {
        let prev = phases.drop_last();
        lemma_indices_in_phase(prev, phase);
        let p = indices_in_phase(prev, phase);
        let q = indices_in_phase(phases, phase);
        assert forall|k: int| 0 <= k < p.len() implies q[k] == p[k] && p[k] < phases.len() - 1 by {
            let i = p[k];
            assert(0 <= i < prev.len());
        }
        assert forall|k: int| 0 <= k < q.len() implies {
            let i = #[trigger] q[k];
            &&& 0 <= i < phases.len()
            &&& phases[i as int] == phase
        } by {
            if k < p.len() {
                let i = p[k];
                assert(prev[i as int] == phases[i as int]);
            }
        }
        assert forall|a: int, b: int| 0 <= a < b < q.len() implies q[a] < q[b] by {
            if b < p.len() {
            } else {
                assert(q[b] == (phases.len() - 1) as usize);
            }
        }
        assert forall|i: int| 0 <= i < phases.len() && phases[i] == phase implies q.contains(
            i as usize,
        ) by {
            if i < phases.len() - 1 {
                assert(prev[i] == phases[i]);
                assert(p.contains(i as usize));
                let k = choose|k: int| 0 <= k < p.len() && p[k] == i as usize;
                assert(q[k] == i as usize);
            } else {
                assert(q[q.len() - 1] == i as usize);
            }
        }
    }
}

/// The order in which a document's scripts run, as positions.
pub open spec fn spec_execution_order(phases: Seq<ScriptExecutionPhase>) -> Seq<usize> {
    indices_in_phase(phases, ScriptExecutionPhase::ParserBlocking) + indices_in_phase(
        phases,
        ScriptExecutionPhase::Deferred,
    )
}

/// Every script runs exactly once: parser-blocking scripts in document
/// order, then deferred scripts in document order.
pub proof fn law_every_script_runs_once_blocking_first(phases: Seq<ScriptExecutionPhase>)
    requires
        phases.len() <= usize::MAX,
    ensures
        forall|i: int|
            0 <= i < phases.len() ==> #[trigger] spec_execution_order(phases).contains(i as usize),
        forall|a: int, c: int|
            0 <= a < c < spec_execution_order(phases).len() ==> spec_execution_order(phases)[a]
                != spec_execution_order(phases)[c],
        forall|a: int, c: int|
            0 <= a < c < spec_execution_order(phases).len() && phases[spec_execution_order(
                phases,
            )[a] as int] == phases[spec_execution_order(phases)[c] as int]
                ==> spec_execution_order(phases)[a] < spec_execution_order(phases)[c],
        forall|a: int, c: int|
            0 <= a < c < spec_execution_order(phases).len() ==> !(phases[spec_execution_order(
                phases,
            )[a] as int] == ScriptExecutionPhase::Deferred && phases[spec_execution_order(
                phases,
            )[c] as int] == ScriptExecutionPhase::ParserBlocking),
{
    lemma_indices_in_phase(phases, ScriptExecutionPhase::ParserBlocking);
    lemma_indices_in_phase(phases, ScriptExecutionPhase::Deferred);
    let b = indices_in_phase(phases, ScriptExecutionPhase::ParserBlocking);
    let d = indices_in_phase(phases, ScriptExecutionPhase::Deferred);
    let order = spec_execution_order(phases);
    assert forall|k: int| 0 <= k < order.len() implies (k < b.len() ==> order[k] == b[k]) && (k
        >= b.len() ==> order[k] == d[k - b.len()]) by {}
    assert forall|i: int| 0 <= i < phases.len() implies #[trigger] order.contains(i as usize) by {
        if phases[i] == ScriptExecutionPhase::ParserBlocking {
            assert(b.contains(i as usize));
            let k = choose|k: int| 0 <= k < b.len() && b[k] == i as usize;
            assert(order[k] == i as usize);
        } else {
            assert(d.contains(i as usize));
            let k = choose|k: int| 0 <= k < d.len() && d[k] == i as usize;
            assert(order[b.len() + k] == i as usize);
        }
    }
    assert forall|a: int, c: int| 0 <= a < c < order.len() implies order[a] != order[c] by {
        if c < b.len() {
            assert(b[a] < b[c]);
        } else if a >= b.len() {
            assert(d[a - b.len()] < d[c - b.len()]);
        } else {
            assert(phases[b[a] as int] != phases[d[c - b.len()] as int]);
        }
    }
    assert forall|a: int, c: int|
        0 <= a < c < order.len() && phases[order[a] as int] == phases[order[c] as int] implies order[a]
        < order[c] by {
        if c < b.len() {
            assert(b[a] < b[c]);
        } else if a >= b.len() {
            assert(d[a - b.len()] < d[c - b.len()]);
        } else {
            assert(phases[b[a] as int] != phases[d[c - b.len()] as int]);
        }
    }
}

} // verus!

verus! {

/// `char::is_control`: the general category `Cc`.
pub open spec fn is_control_char(c: char) -> bool {
    (c as u32) <= 0x1f || (0x7f <= (c as u32) && (c as u32) <= 0x9f)
}

/// Lowercase hexadecimal digit for `d < 16`.
pub open spec fn hex_digit(d: int) -> char {
    if d < 10 {
        (('0' as int) + d) as char
    } else {
        (('a' as int) + d - 10) as char
    }
}

/// `n` in four lowercase hexadecimal digits, for `n < 0x10000`.
pub open spec fn hex4(n: int) -> Seq<char> {
    seq![
        hex_digit((n / 4096) % 16),
        hex_digit((n / 256) % 16),
        hex_digit((n / 16) % 16),
        hex_digit(n % 16),
    ]
}

/// How one character is written inside a double-quoted script string.
pub open spec fn js_escape_char(c: char) -> Seq<char> {
    if c == '\\' {
        seq!['\\', '\\']
    } else if c == '"' {
        seq!['\\', '"']
    } else if c == '\n' {
        seq!['\\', 'n']
    } else if c == '\r' {
        seq!['\\', 'r']
    } else if c == '\t' {
        seq!['\\', 't']
    } else if is_control_char(c) {
        seq!['\\', 'u'] + hex4(c as int)
    } else {
        seq![c]
    }
}

/// The escaped body of a script string literal holding `s`.
pub open spec fn js_escaped(s: Seq<char>) -> Seq<char>
    decreases s.len(),
{
    if s.len() == 0 {
        Seq::empty()
    } else {
        js_escaped(s.drop_last()) + js_escape_char(s.last())
    }
}

/// The double-quoted script string literal that evaluates to `s`.
pub open spec fn js_literal(s: Seq<char>) -> Seq<char> {
    seq!['"'] + js_escaped(s) + seq!['"']
}

fn hex_digit_exec(d: u32) -> (c: char)
    requires
        d < 16,
    ensures
        c == hex_digit(d as int),
{
    if d < 10 {
        (('0' as u8) + (d as u8)) as char
    } else {
        (('a' as u8) + (d as u8) - 10) as char
    }
}

/// Appends the escaped form of `c` to `out`.
fn push_escaped(out: &mut Vec<char>, c: char)
    ensures
        final(out)@ == old(out)@ + js_escape_char(c),
{
    if c == '\\' {
        out.push('\\');
        out.push('\\');
    } else if c == '"' {
        out.push('\\');
        out.push('"');
    } else if c == '\n' {
        out.push('\\');
        out.push('n');
    } else if c == '\r' {
        out.push('\\');
        out.push('r');
    } else if c == '\t' {
        out.push('\\');
        out.push('t');
    } else if (c as u32) <= 0x1f || (0x7f <= (c as u32) && (c as u32) <= 0x9f) {
        let n = c as u32;
        out.push('\\');
        out.push('u');
        out.push(hex_digit_exec((n / 4096) % 16));
        out.push(hex_digit_exec((n / 256) % 16));
        out.push(hex_digit_exec((n / 16) % 16));
        out.push(hex_digit_exec(n % 16));
    } else {
        out.push(c);
    }
    assert(final(out)@ =~= old(out)@ + js_escape_char(c));
}

/// Writes `value` as a double-quoted script string literal, escaping
/// backslashes, quotes, line breaks, tabs and other control characters.
pub fn js_string_literal(value: &str) -> (r: String)
    ensures
        r@ == js_literal(value@),
{
    let chars = str_to_chars(value);
    let mut out: Vec<char> = Vec::new();
    out.push('"');
    let mut i: usize = 0;
    while i < chars.len()
        invariant
            i <= chars@.len(),
            chars@ == value@,
            out@ == seq!['"'] + js_escaped(chars@.take(i as int)),
        decreases chars@.len() - i,
    {
        assert(chars@.take(i + 1).drop_last() =~= chars@.take(i as int));
        push_escaped(&mut out, chars[i]);
        assert(out@ =~= seq!['"'] + js_escaped(chars@.take(i + 1)));
        i += 1;
    }
    out.push('"');
    assert(chars@.take(i as int) =~= chars@);
    let mut text = String::new();
    let mut k: usize = 0;
    while k < out.len()
        invariant
            k <= out@.len(),
            text@ == out@.take(k as int),
        decreases out@.len() - k,
    {
        string_push(&mut text, out[k]);
        assert(out@.take(k + 1) =~= out@.take(k as int).push(out@[k as int]));
        k += 1;
    }
    assert(out@.take(k as int) =~= out@);
    text
}

/// The text of a node identity: document, slot and generation joined by `:`.
pub open spec fn node_id_text(document: u64, slot: u64, generation: u64) -> Seq<char> {
    decimal(document as nat) + seq![':'] + decimal(slot as nat) + seq![':'] + decimal(
        generation as nat,
    )
}

/// Writes a node identity as `document:slot:generation`.
pub fn node_id_string(document: u64, slot: u64, generation: u64) -> (r: String)
    ensures
        r@ == node_id_text(document, slot, generation),
{
    let mut out = u64_to_decimal(document);
    string_push(&mut out, ':');
    let s = u64_to_decimal(slot);
    push_str(&mut out, s.as_str());
    string_push(&mut out, ':');
    let g = u64_to_decimal(generation);
    push_str(&mut out, g.as_str());
    out
}

/// `true` or `false`, as script source writes a boolean.
pub open spec fn bool_text(b: bool) -> Seq<char> {
    if b {
        "true"@
    } else {
        "false"@
    }
}

/// The script source that dispatches a trusted event of type `event_type`
/// at the element whose identity text is `target`.
pub open spec fn dispatch_source_text(
    target: Seq<char>,
    event_type: Seq<char>,
    bubbles: bool,
    cancelable: bool,
) -> Seq<char> {
    "__meow_dispatch_trusted("@ + js_literal(target) + ", "@ + js_literal(event_type) + ", "@
        + bool_text(bubbles) + ", "@ + bool_text(cancelable) + ")"@
}

/// Builds the script source that dispatches one trusted DOM event; the
/// runtime evaluates it, and a `false` result means the default was prevented.
pub fn dispatch_event_source(target: &str, event_type: &str, bubbles: bool, cancelable: bool) -> (r:
    String)
    ensures
        r@ == dispatch_source_text(target@, event_type@, bubbles, cancelable),
{
    let mut out = String::new();
    push_str(&mut out, "__meow_dispatch_trusted(");
    let t = js_string_literal(target);
    push_str(&mut out, t.as_str());
    push_str(&mut out, ", ");
    let e = js_string_literal(event_type);
    push_str(&mut out, e.as_str());
    push_str(&mut out, ", ");
    if bubbles {
        push_str(&mut out, "true");
    } else {
        push_str(&mut out, "false");
    }
    push_str(&mut out, ", ");
    if cancelable {
        push_str(&mut out, "true");
    } else {
        push_str(&mut out, "false");
    }
    push_str(&mut out, ")");
    out
}

} // verus!

use crate::encoding::{decode_classic_script, spec_decode_resource, LoadOutcome};

verus! {

/// Source text of one classic script, the URL it came from, and the element
/// that holds it.
#[derive(Clone, Debug, PartialEq, Eq)]
pub struct ScriptSource {
    pub code: String,
    pub url: String,
    pub node: Option<u64>,
}

/// A classic script ready to run in its phase, or the error that stands
/// for it.
#[derive(Debug)]
pub struct PendingScriptTask {
    pub node: u64,
    pub source_url: String,
    pub phase: ScriptExecutionPhase,
    pub source: Result<ScriptSource, ScriptError>,
}

/// A script that could not be loaded.
pub fn script_load_error(source_url: String, message: String) -> (r: ScriptError)
    ensures
        r.kind == ScriptErrorKind::Load,
        r.message@ == message@,
        r.source_url@ == source_url@,
{
    ScriptError { kind: ScriptErrorKind::Load, message, source_url }
}

/// An inline script: its text runs as part of the document, in its phase.
pub fn inline_script_task(node: u64, document_url: &str, code: String, defer: bool) -> (r:
    PendingScriptTask)
    ensures
        r.node == node,
        r.source_url@ == document_url@,
        r.phase == spec_script_phase(defer, false),
        r.source matches Ok(s) && s.code@ == code@ && s.url@ == document_url@ && s.node == Some(
            node,
        ),
{
    let url = crate::text_util::chars_to_string(crate::text_util::str_to_chars(document_url).as_slice());
    let source_url = url.clone();
    PendingScriptTask {
        node,
        source_url,
        phase: script_phase(defer, false),
        source: Ok(ScriptSource { code, url, node: Some(node) }),
    }
}

/// An external script whose reference did not resolve against the base URL.
pub fn unresolved_script_task(node: u64, base_url: &str, message: String, defer: bool) -> (r:
    PendingScriptTask)
    ensures
        r.node == node,
        r.source_url@ == base_url@,
        r.phase == spec_script_phase(defer, true),
        r.source matches Err(e) && e.kind == ScriptErrorKind::Load && e.message@ == message@
            && e.source_url@ == base_url@,
{
    let url = crate::text_util::chars_to_string(crate::text_util::str_to_chars(base_url).as_slice());
    let source_url = url.clone();
    PendingScriptTask {
        node,
        source_url,
        phase: script_phase(defer, true),
        source: Err(script_load_error(url, message)),
    }
}

/// Whether an HTTP status code is a success (200 to 299).
pub open spec fn is_success_status(status: u16) -> bool {
    200 <= status <= 299
}

/// An external script once its load finished: a successful response gives
/// the body decoded as script text, at the response's final URL; any other
/// status, or a failed load, gives a load error at the requested URL; a
/// cancelled load gives no task.
pub fn loaded_script_task(node: u64, requested_url: &str, defer: bool, outcome: LoadOutcome) -> (r:
    Option<PendingScriptTask>)
    requires
        outcome matches LoadOutcome::Response { status, .. } ==> 100 <= status <= 999,
    ensures
        r is None <==> outcome is Cancelled,
        r matches Some(t) ==> t.node == node && t.phase == spec_script_phase(defer, true),
        r matches Some(t) ==> match outcome {
            LoadOutcome::Response { status, final_url, content_type, body } => {
                if is_success_status(status) {
                    &&& t.source_url@ == final_url@
                    &&& t.source matches Ok(s) && s.url@ == final_url@ && s.node == Some(node)
                        && s.code@ == spec_decode_resource(
                        body@,
                        match content_type {
                            Some(t) => Some(t@),
                            None => None,
                        },
                    )
                } else {
                    &&& t.source_url@ == requested_url@
                    &&& t.source matches Err(e) && e.kind == ScriptErrorKind::Load && e.source_url@
                        == requested_url@ && e.message@ == "script HTTP status "@ + crate::fetch::status_line_text(status)
                }
            },
            LoadOutcome::Failed { message } => {
                &&& t.source_url@ == requested_url@
                &&& t.source matches Err(e) && e.kind == ScriptErrorKind::Load && e.source_url@
                    == requested_url@ && e.message@ == message@
            },
            LoadOutcome::Cancelled => false,
        },
{
    let phase = script_phase(defer, true);
    let requested = crate::text_util::chars_to_string(
        crate::text_util::str_to_chars(requested_url).as_slice(),
    );
    match outcome {
        LoadOutcome::Response { status, final_url, content_type, body } => {
            if 200 <= status && status <= 299 {
                let code = match &content_type {
                    Some(t) => decode_classic_script(body.as_slice(), Some(t.as_str())),
                    None => decode_classic_script(body.as_slice(), None),
                };
                let source_url = final_url.clone();
                Some(
                    PendingScriptTask {
                        node,
                        source_url,
                        phase,
                        source: Ok(ScriptSource { code, url: final_url, node: Some(node) }),
                    },
                )
            } else {
                let mut message = String::new();
                crate::text_util::push_str(&mut message, "script HTTP status ");
                let line = crate::fetch::status_line(status);
                crate::text_util::push_str(&mut message, line.as_str());
                let source_url = requested.clone();
                Some(
                    PendingScriptTask {
                        node,
                        source_url,
                        phase,
                        source: Err(script_load_error(requested, message)),
                    },
                )
            }
        },
        LoadOutcome::Failed { message } => {
            let source_url = requested.clone();
            Some(
                PendingScriptTask {
                    node,
                    source_url,
                    phase,
                    source: Err(script_load_error(requested, message)),
                },
            )
        },
        LoadOutcome::Cancelled => None,
    }
}

} // verus!

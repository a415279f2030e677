//! The request/response protocol between an embedded user interface and the
//! backend: routing an inbound message to an action, and the script that
//! hands the answer back to the interface.
use crate::text::{chars_of, string_of};
use vstd::prelude::*;

verus! {

/// An inbound message: an operation path, its data, and the id that the
/// answer must carry back.
pub struct BridgeMessage {
    pub path: String,
    pub data: String,
    pub request_id: String,
}

/// What the backend does with a message.
pub enum BridgeAction {
    /// Show `text` and wait until it is dismissed.
    Alert { text: String, request_id: String },
    /// Ask `text` as a yes/no question.
    Confirm { text: String, request_id: String },
    /// No operation has this path: nothing is done and nothing answered.
    Ignore,
}

pub open spec fn alert_suffix() -> Seq<char> {
    seq!['/', 'd', 'i', 'a', 'l', 'o', 'g', 's', '/', 'a', 'l', 'e', 'r', 't']
}

pub open spec fn confirm_suffix() -> Seq<char> {
    seq!['/', 'd', 'i', 'a', 'l', 'o', 'g', 's', '/', 'c', 'o', 'n', 'f', 'i', 'r', 'm']
}

fn concat_chars(a: &Vec<char>, b: &Vec<char>) -> (r: Vec<char>)
    ensures
        r@ == a@ + b@,
{
    let mut r: Vec<char> = Vec::new();
    let mut i: usize = 0;
    while i < a.len()
        invariant
            i <= a.len(),
            r@ == a@.take(i as int),
        decreases a.len() - i,
    {
        r.push(a[i]);
        i += 1;
        assert(r@ =~= a@.take(i as int));
    }
    let mut j: usize = 0;
    assert(a@.take(a.len() as int) =~= a@);
    while j < b.len()
        invariant
            j <= b.len(),
            r@ == a@ + b@.take(j as int),
        decreases b.len() - j,
    {
        r.push(b[j]);
        j += 1;
        assert(r@ =~= a@ + b@.take(j as int));
    }
    assert(b@.take(b.len() as int) =~= b@);
    r
}

/// `r` is what a message routed under `namespace` turns into: an alert or a
/// confirmation carrying the message's data and request id for the two
/// operation paths, nothing for any other path.
pub open spec fn dispatched(namespace: Seq<char>, message: BridgeMessage, r: BridgeAction) -> bool {
    &&& message.path@ == namespace + alert_suffix() ==> (r matches BridgeAction::Alert {
        text,
        request_id,
    } && text@ == message.data@ && request_id@ == message.request_id@)
    &&& message.path@ == namespace + confirm_suffix() ==> (r matches BridgeAction::Confirm {
        text,
        request_id,
    } && text@ == message.data@ && request_id@ == message.request_id@)
    &&& message.path@ != namespace + alert_suffix() && message.path@ != namespace
        + confirm_suffix() ==> r is Ignore
}

/// `r` is the answer that finishes `action`: `true` for a dismissed alert, the
/// user's choice for a confirmation, none for an ignored message.
pub open spec fn completed(action: BridgeAction, answer: bool, r: Option<String>) -> bool {
    match action {
        BridgeAction::Alert { request_id, .. } => r is Some && r->0@ == response_script(
            request_id@,
            true,
        ),
        BridgeAction::Confirm { request_id, .. } => r is Some && r->0@ == response_script(
            request_id@,
            answer,
        ),
        BridgeAction::Ignore => r is None,
    }
}

/// Routes a message by its exact path: `<namespace>/dialogs/alert` and
/// `<namespace>/dialogs/confirm` are the operations; any other path is ignored.
pub fn dispatch(namespace: &str, message: BridgeMessage) -> (r: BridgeAction)
    ensures
        dispatched(namespace@, message, r),
{
    let ns = chars_of(namespace);
    let alert = vec!['/', 'd', 'i', 'a', 'l', 'o', 'g', 's', '/', 'a', 'l', 'e', 'r', 't'];
    let confirm = vec!['/', 'd', 'i', 'a', 'l', 'o', 'g', 's', '/', 'c', 'o', 'n', 'f', 'i', 'r', 'm'];
    assert(alert@ =~= alert_suffix());
    assert(confirm@ =~= confirm_suffix());
    let alert_path = string_of(concat_chars(&ns, &alert).as_slice());
    let confirm_path = string_of(concat_chars(&ns, &confirm).as_slice());
    assert((ns@ + alert_suffix())[ns@.len() + 9int] != (ns@ + confirm_suffix())[ns@.len() + 9int]);
    if message.path == alert_path {
        BridgeAction::Alert { text: message.data, request_id: message.request_id }
    } else if message.path == confirm_path {
        BridgeAction::Confirm { text: message.data, request_id: message.request_id }
    } else {
        BridgeAction::Ignore
    }
}

pub open spec fn respond_head() -> Seq<char> {
    seq![
        'w', 'i', 'n', 'd', 'o', 'w', '.', 'n', 'a', 't', 'i', 'v', 'e', '_', 'b', 'r', 'i', 'd', 'g',
        'e', '.', 'r', 'e', 's', 'p', 'o', 'n', 'd', '(', '"',
    ]
}

pub open spec fn respond_middle() -> Seq<char> {
    seq!['"', ',', ' ', '{', ' ', 'r', 'e', 's', 'u', 'l', 't', ':']
}

pub open spec fn respond_tail() -> Seq<char> {
    seq![' ', '}', ')', ';']
}

/// A boolean written as JSON.
pub open spec fn json_bool(b: bool) -> Seq<char> {
    if b {
        seq!['t', 'r', 'u', 'e']
    } else {
        seq!['f', 'a', 'l', 's', 'e']
    }
}

pub open spec fn hex_digit(n: nat) -> char {
    seq!['0', '1', '2', '3', '4', '5', '6', '7', '8', '9', 'a', 'b', 'c', 'd', 'e', 'f'][n as int]
}

/// One character inside a JSON (and JavaScript) string literal: quote and
/// backslash escaped, control characters and the two line separators that
/// JavaScript reads as line ends written as `\uXXXX`, anything else as it is.
pub open spec fn escape_char(c: char) -> Seq<char> {
    let n = c as u32;
    if c == '"' {
        seq!['\\', '"']
    } else if c == '\\' {
        seq!['\\', '\\']
    } else if n < 0x20 {
        seq!['\\', 'u', '0', '0', hex_digit((n / 16) as nat), hex_digit((n % 16) as nat)]
    } else if n == 0x2028 {
        seq!['\\', 'u', '2', '0', '2', '8']
    } else if n == 0x2029 {
        seq!['\\', 'u', '2', '0', '2', '9']
    } else {
        seq![c]
    }
}

/// The body of a JSON string literal that stands for `s`.
pub open spec fn json_escape(s: Seq<char>) -> Seq<char>
    decreases s.len(),
{
    if s.len() == 0 {
        Seq::empty()
    } else {
        json_escape(s.drop_last()) + escape_char(s.last())
    }
}

/// The script that delivers an answer to the interface:
/// `window.native_bridge.respond("<request_id>", { result:<value> });`, the id
/// written as a JSON string literal, so that it reads back as exactly the id.
pub open spec fn response_script(request_id: Seq<char>, result: bool) -> Seq<char> {
    respond_head() + json_escape(request_id) + respond_middle() + json_bool(result)
        + respond_tail()
}

fn push_escaped(out: &mut Vec<char>, c: char)
    ensures
        final(out)@ == old(out)@ + escape_char(c),
{
    let n = c as u32;
    let hex = vec!['0', '1', '2', '3', '4', '5', '6', '7', '8', '9', 'a', 'b', 'c', 'd', 'e', 'f'];
    assert(hex@ =~= seq!['0', '1', '2', '3', '4', '5', '6', '7', '8', '9', 'a', 'b', 'c', 'd', 'e', 'f']);
    let ghost start = out@;
    if c == '"' {
        out.push('\\');
        out.push('"');
    } else if c == '\\' {
        out.push('\\');
        out.push('\\');
    } else if n < 0x20 {
        out.push('\\');
        out.push('u');
        out.push('0');
        out.push('0');
        out.push(hex[(n / 16) as usize]);
        out.push(hex[(n % 16) as usize]);
    } else if n == 0x2028 || n == 0x2029 {
        out.push('\\');
        out.push('u');
        out.push('2');
        out.push('0');
        out.push('2');
        out.push(if n == 0x2028 { '8' } else { '9' });
    } else {
        out.push(c);
    }
    assert(out@ =~= start + escape_char(c));
}

/// The body of the JSON string literal that stands for `s`.
pub fn escape_json(s: &str) -> (r: Vec<char>)
    ensures
        r@ == json_escape(s@),
{
    let chars = chars_of(s);
    let mut out: Vec<char> = Vec::new();
    let mut i: usize = 0;
    assert(chars@.take(0) =~= Seq::<char>::empty());
    while i < chars.len()
        invariant
            i <= chars.len(),
            chars@ == s@,
            out@ == json_escape(chars@.take(i as int)),
        decreases chars.len() - i,
    {
        assert(chars@.take(i + 1).drop_last() =~= chars@.take(i as int));
        push_escaped(&mut out, chars[i]);
        i += 1;
    }
    assert(chars@.take(chars.len() as int) =~= chars@);
    out
}

/// The script that delivers `result` as the answer to request `request_id`.
pub fn response(request_id: &str, result: bool) -> (r: String)
    ensures
        r@ == response_script(request_id@, result),
{
    let head = vec![
        'w', 'i', 'n', 'd', 'o', 'w', '.', 'n', 'a', 't', 'i', 'v', 'e', '_', 'b', 'r', 'i', 'd', 'g',
        'e', '.', 'r', 'e', 's', 'p', 'o', 'n', 'd', '(', '"',
    ];
    let middle = vec!['"', ',', ' ', '{', ' ', 'r', 'e', 's', 'u', 'l', 't', ':'];
    let tail = vec![' ', '}', ')', ';'];
    let value = if result {
        vec!['t', 'r', 'u', 'e']
    } else {
        vec!['f', 'a', 'l', 's', 'e']
    };
    assert(head@ =~= respond_head());
    assert(middle@ =~= respond_middle());
    assert(tail@ =~= respond_tail());
    assert(value@ =~= json_bool(result));
    let out = concat_chars(&head, &escape_json(request_id));
    let out = concat_chars(&out, &middle);
    let out = concat_chars(&out, &value);
    let out = concat_chars(&out, &tail);
    string_of(out.as_slice())
}

/// Finishes an action once the interface has answered: an alert answers
/// `true` once dismissed, a confirmation answers what the user chose
/// (`answer`), and an ignored message gets no answer.
pub fn complete(action: &BridgeAction, answer: bool) -> (r: Option<String>)
    ensures
        completed(*action, answer, r),
{
    match action {
        BridgeAction::Alert { request_id, .. } => Some(response(request_id.as_str(), true)),
        BridgeAction::Confirm { request_id, .. } => Some(response(request_id.as_str(), answer)),
        BridgeAction::Ignore => None,
    }
}

/// An alert is answered with `true` under the request id it came with,
/// whatever the interface reported.
pub proof fn lemma_alert_answer(
    namespace: Seq<char>,
    message: BridgeMessage,
    action: BridgeAction,
    answer: bool,
    reply: Option<String>,
)
    requires
        message.path@ == namespace + alert_suffix(),
        dispatched(namespace, message, action),
        completed(action, answer, reply),
    ensures
        reply is Some,
        reply->0@ == response_script(message.request_id@, true),
{
}

/// A message to a path that names no operation gets no answer.
pub proof fn lemma_unknown_path_unanswered(
    namespace: Seq<char>,
    message: BridgeMessage,
    action: BridgeAction,
    answer: bool,
    reply: Option<String>,
)
    requires
        message.path@ != namespace + alert_suffix(),
        message.path@ != namespace + confirm_suffix(),
        dispatched(namespace, message, action),
        completed(action, answer, reply),
    ensures
        reply is None,
{
}

} // verus!

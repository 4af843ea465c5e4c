//! The plugin-side protocol engine: the outbound channel that builds
//! and emits envelopes, the inbound dispatcher that routes decoded
//! messages to the plugin, the plugin capability surface, and the
//! notification helpers.
//!
//! The engine does no input or output of its own. Every outbound effect
//! is recorded as a `HostAction` in the order it must reach the host:
//! the surrounding process writes each emitted line to the output
//! stream, adds the line terminator, and raises the matching host
//! callout. Emitting a message always queues exactly one line followed
//! by exactly one callout signal.

use vstd::prelude::*;

use crate::IdAllocator;
use crate::codec::DecodeError;
use crate::codec::PluginServerRpc;
use crate::codec::SpecMsg;
use crate::codec::decode;
use crate::codec::encode_notification;
use crate::codec::encode_request;
use crate::codec::spec_decode;
use crate::codec::spec_encode_notification;
use crate::codec::spec_encode_request;
use crate::json::push_char;
use crate::json::push_escaped;
use crate::json::push_u64_digits;
use crate::json::spec_escape;
use crate::json::spec_u64_digits;

verus! {

/// One effect on the host boundary, in order: a line for the output
/// stream, a line for the error stream, or one of the two host
/// callouts.
#[derive(Debug, Clone)]
pub enum HostAction {
    WriteLine(String),
    WriteErrLine(String),
    SignalRpc,
    SignalStderr,
}

/// The mathematical form of a host action.
pub enum SpecAction {
    Line(Seq<char>),
    ErrLine(Seq<char>),
    SignalRpc,
    SignalStderr,
}

impl View for HostAction {
    type V = SpecAction;

    open spec fn view(&self) -> SpecAction {
        match self {
            HostAction::WriteLine(s) => SpecAction::Line(s@),
            HostAction::WriteErrLine(s) => SpecAction::ErrLine(s@),
            HostAction::SignalRpc => SpecAction::SignalRpc,
            HostAction::SignalStderr => SpecAction::SignalStderr,
        }
    }
}

/// The severity of a logged or shown message, with its numeric code on
/// the wire.
#[derive(Clone, Copy, Debug, PartialEq, Eq, Structural)]
pub enum MessageType {
    Error,
    Warning,
    Info,
    Log,
}

impl MessageType {
    /// The code the wire carries for this severity.
    pub open spec fn spec_code(self) -> u64 {
        match self {
            MessageType::Error => 1,
            MessageType::Warning => 2,
            MessageType::Info => 3,
            MessageType::Log => 4,
        }
    }

    pub fn code(self) -> (c: u64)
        ensures
            c == self.spec_code(),
    {
        match self {
            MessageType::Error => 1,
            MessageType::Warning => 2,
            MessageType::Info => 3,
            MessageType::Log => 4,
        }
    }
}

/// One clause of a document selector: which documents a language
/// server is wired up for.
#[derive(Debug, Clone)]
pub struct DocumentFilter {
    pub language: Option<String>,
    pub scheme: Option<String>,
    pub pattern: Option<String>,
}

/// The mathematical form of a document filter.
pub struct SpecFilter {
    pub language: Option<Seq<char>>,
    pub scheme: Option<Seq<char>>,
    pub pattern: Option<Seq<char>>,
}

impl View for DocumentFilter {
    type V = SpecFilter;

    open spec fn view(&self) -> SpecFilter {
        SpecFilter {
            language: match self.language {
                Some(ref s) => Some(s@),
                None => None,
            },
            scheme: match self.scheme {
                Some(ref s) => Some(s@),
                None => None,
            },
            pattern: match self.pattern {
                Some(ref s) => Some(s@),
                None => None,
            },
        }
    }
}

/// The capability surface a plugin author implements: handle one
/// request, handle one notification. Both default to doing nothing.
/// The engine is handed in so a handler can emit messages of its own.
pub trait LapcePlugin {
    fn handle_request(
        &mut self,
        rpc: &mut PluginServerRpcHandler,
        id: u64,
        method: String,
        params: String,
    ) {
    }

    fn handle_notification(
        &mut self,
        rpc: &mut PluginServerRpcHandler,
        method: String,
        params: String,
    ) {
    }
}

/// The protocol engine: the identifier allocator for outbound
/// requests, the queue of inbound messages awaiting dispatch, and the
/// ordered outbound effects not yet performed by the host boundary.
pub struct PluginServerRpcHandler {
    ids: IdAllocator,
    pending: Vec<PluginServerRpc>,
    outbox: Vec<HostAction>,
}

impl PluginServerRpcHandler {
    /// The identifier the next outbound request will carry.
    pub closed spec fn next_id(self) -> u64 {
        self.ids@
    }

    /// The inbound messages awaiting dispatch, oldest first.
    pub closed spec fn pending_view(self) -> Seq<SpecMsg> {
        self.pending@.map_values(|m: PluginServerRpc| m@)
    }

    /// The outbound effects not yet performed, oldest first.
    pub closed spec fn outbox_view(self) -> Seq<SpecAction> {
        self.outbox@.map_values(|a: HostAction| a@)
    }

    /// A fresh engine: identifiers start at zero, nothing is queued.
    pub fn new() -> (r: PluginServerRpcHandler)
        ensures
            r.next_id() == 0,
            r.pending_view() == Seq::<SpecMsg>::empty(),
            r.outbox_view() == Seq::<SpecAction>::empty(),
    {
        let r = PluginServerRpcHandler {
            ids: IdAllocator::new(),
            pending: Vec::new(),
            outbox: Vec::new(),
        };
        proof {
            assert(r.pending_view() =~= Seq::<SpecMsg>::empty());
            assert(r.outbox_view() =~= Seq::<SpecAction>::empty());
        }
        r
    }

    /// Queues one inbound message for the next dispatch round.
    pub fn enqueue(&mut self, rpc: PluginServerRpc)
        ensures
            final(self).pending_view() == old(self).pending_view().push(rpc@),
            final(self).outbox_view() == old(self).outbox_view(),
            final(self).next_id() == old(self).next_id(),
    {
        let ghost m = rpc@;
        self.pending.push(rpc);
        proof {
            assert(self.pending_view() =~= old(self).pending_view().push(m));
        }
    }

    /// Hands the outbound effects over, in order, and leaves the
    /// outbox empty; the caller performs them against the real host.
    pub fn take_actions(&mut self) -> (r: Vec<HostAction>)
        ensures
            r@.map_values(|a: HostAction| a@) == old(self).outbox_view(),
            final(self).outbox_view() == Seq::<SpecAction>::empty(),
            final(self).pending_view() == old(self).pending_view(),
            final(self).next_id() == old(self).next_id(),
    {
        let mut out: Vec<HostAction> = Vec::new();
        core::mem::swap(&mut out, &mut self.outbox);
        proof {
            assert(self.outbox_view() =~= Seq::<SpecAction>::empty());
        }
        out
    }

    /// Emits one action.
    fn push_action(&mut self, a: HostAction)
        ensures
            final(self).outbox_view() == old(self).outbox_view().push(a@),
            final(self).pending_view() == old(self).pending_view(),
            final(self).next_id() == old(self).next_id(),
            final(self).ids == old(self).ids,
    {
        let ghost va = a@;
        self.outbox.push(a);
        proof {
            assert(self.outbox_view() =~= old(self).outbox_view().push(va));
        }
    }

    /// Emits a notification: exactly one encoded line followed by
    /// exactly one host callout signal.
    pub fn host_notification(&mut self, method: &str, params: &str)
        ensures
            final(self).outbox_view() == old(self).outbox_view().push(
                SpecAction::Line(spec_encode_notification(method@, params@)),
            ).push(SpecAction::SignalRpc),
            final(self).pending_view() == old(self).pending_view(),
            final(self).next_id() == old(self).next_id(),
    {
        let line = encode_notification(method, params);
        self.push_action(HostAction::WriteLine(line));
        self.push_action(HostAction::SignalRpc);
    }

    /// Emits a request under a fresh identifier: exactly one encoded
    /// line followed by exactly one host callout signal. The engine
    /// does not await or correlate a response; identifiers only grow.
    pub fn host_request(&mut self, method: &str, params: &str)
        requires
            old(self).next_id() < u64::MAX,
        ensures
            final(self).next_id() == old(self).next_id() + 1,
            final(self).outbox_view() == old(self).outbox_view().push(
                SpecAction::Line(spec_encode_request(old(self).next_id(), method@, params@)),
            ).push(SpecAction::SignalRpc),
            final(self).pending_view() == old(self).pending_view(),
    {
        let id = self.ids.fetch_next();
        proof {
            assert(self.pending_view() =~= old(self).pending_view());
            assert(self.outbox_view() =~= old(self).outbox_view());
        }
        let line = encode_request(id, method, params);
        self.push_action(HostAction::WriteLine(line));
        self.push_action(HostAction::SignalRpc);
    }

    /// Reports a line on the error stream: the line, then exactly one
    /// stderr callout signal.
    pub fn stderr(&mut self, msg: &str)
        ensures
            final(self).outbox_view() == old(self).outbox_view().push(
                SpecAction::ErrLine(msg@),
            ).push(SpecAction::SignalStderr),
            final(self).pending_view() == old(self).pending_view(),
            final(self).next_id() == old(self).next_id(),
    {
        let line = msg.to_owned();
        self.push_action(HostAction::WriteErrLine(line));
        self.push_action(HostAction::SignalStderr);
    }

    /// Asks the host to log a message: one notification under the
    /// log-message method, carrying the severity code and the text.
    pub fn window_log_message(&mut self, kind: MessageType, message: String)
        ensures
            final(self).outbox_view() == old(self).outbox_view().push(
                SpecAction::Line(
                    spec_encode_notification(
                        log_message_method(),
                        spec_message_params(kind, message@),
                    ),
                ),
            ).push(SpecAction::SignalRpc),
            final(self).pending_view() == old(self).pending_view(),
            final(self).next_id() == old(self).next_id(),
    {
        let params = build_message_params(kind, message.as_str());
        let method = "window/logMessage";
        proof {
            reveal_strlit("window/logMessage");
            assert(method@ =~= log_message_method());
        }
        self.host_notification(method, params.as_str());
    }

    /// Asks the host to show a message to the user: one notification
    /// under the show-message method, carrying the severity code and
    /// the text.
    pub fn window_show_message(&mut self, kind: MessageType, message: String)
        ensures
            final(self).outbox_view() == old(self).outbox_view().push(
                SpecAction::Line(
                    spec_encode_notification(
                        show_message_method(),
                        spec_message_params(kind, message@),
                    ),
                ),
            ).push(SpecAction::SignalRpc),
            final(self).pending_view() == old(self).pending_view(),
            final(self).next_id() == old(self).next_id(),
    {
        let params = build_message_params(kind, message.as_str());
        let method = "window/showMessage";
        proof {
            reveal_strlit("window/showMessage");
            assert(method@ =~= show_message_method());
        }
        self.host_notification(method, params.as_str());
    }

    /// Asks the host to spawn a language-server subprocess and wire it
    /// to the given documents: one notification under the start-server
    /// method. No response is awaited; the spawn's outcome is observed
    /// only through later host messages.
    pub fn start_lsp(
        &mut self,
        server_uri: String,
        server_args: Vec<String>,
        document_selector: Vec<DocumentFilter>,
        options: Option<String>,
    )
        ensures
            final(self).outbox_view() == old(self).outbox_view().push(
                SpecAction::Line(
                    spec_encode_notification(
                        start_lsp_method(),
                        spec_start_lsp_params(
                            server_uri@,
                            server_args.deep_view(),
                            document_selector@.map_values(|d: DocumentFilter| d@),
                            match options {
                                Some(ref o) => Some(o@),
                                None => None,
                            },
                        ),
                    ),
                ),
            ).push(SpecAction::SignalRpc),
            final(self).pending_view() == old(self).pending_view(),
            final(self).next_id() == old(self).next_id(),
    {
        let params = build_start_lsp_params(&server_uri, &server_args, &document_selector, &options);
        let method = "startLspServer";
        proof {
            reveal_strlit("startLspServer");
            assert(method@ =~= start_lsp_method());
        }
        self.host_notification(method, params.as_str());
    }

    /// Routes one decoded message to the plugin: a request to
    /// `handle_request`, a notification to `handle_notification`.
    pub fn dispatch<P: LapcePlugin>(&mut self, plugin: &mut P, rpc: PluginServerRpc) {
        match rpc {
            PluginServerRpc::Request { id, method, params } => {
                plugin.handle_request(self, id, method, params);
            },
            PluginServerRpc::Notification { method, params } => {
                plugin.handle_notification(self, method, params);
            },
        }
    }

    /// Decodes one inbound line and routes it; a line the codec
    /// refuses is dropped and the reason returned, so the caller can
    /// report it and read on.
    pub fn dispatch_line<P: LapcePlugin>(&mut self, plugin: &mut P, line: &str) -> (r: Result<
        (),
        DecodeError,
    >)
        ensures
            r is Ok <==> spec_decode(line@) is Ok,
            spec_decode(line@) matches Err(e) ==> r == Result::<(), DecodeError>::Err(e),
    {
        match decode(line) {
            Ok(rpc) => {
                self.dispatch(plugin, rpc);
                Ok(())
            },
            Err(e) => Err(e),
        }
    }

    /// Dispatches every message queued so far, oldest first. Messages
    /// a handler enqueues during the round stay queued for the next
    /// one.
    pub fn mainloop<P: LapcePlugin>(&mut self, plugin: &mut P) {
        let mut batch: Vec<PluginServerRpc> = Vec::new();
        core::mem::swap(&mut batch, &mut self.pending);
        while batch.len() > 0
            decreases batch@.len(),
        {
            let rpc = batch.remove(0);
            self.dispatch(plugin, rpc);
        }
    }
}

pub open spec fn log_message_method() -> Seq<char> {
    seq!['w', 'i', 'n', 'd', 'o', 'w', '/', 'l', 'o', 'g', 'M', 'e', 's', 's', 'a', 'g', 'e']
}

pub open spec fn show_message_method() -> Seq<char> {
    seq!['w', 'i', 'n', 'd', 'o', 'w', '/', 's', 'h', 'o', 'w', 'M', 'e', 's', 's', 'a', 'g', 'e']
}

pub open spec fn start_lsp_method() -> Seq<char> {
    seq!['s', 't', 'a', 'r', 't', 'L', 's', 'p', 'S', 'e', 'r', 'v', 'e', 'r']
}

/// The payload of a log or show notification: the severity code under
/// `typ`, the text under `message`.
pub open spec fn spec_message_params(kind: MessageType, message: Seq<char>) -> Seq<char> {
    seq!['{', '"', 't', 'y', 'p', '"', ':'] + spec_u64_digits(kind.spec_code()) + seq![',', '"', 'm', 'e', 's', 's', 'a', 'g', 'e', '"', ':', '"'] + spec_escape(message) + seq!['"', '}']
}

/// Builds the payload of a log or show notification.
pub fn build_message_params(kind: MessageType, message: &str) -> (r: String)
    ensures
        r@ == spec_message_params(kind, message@),
{
    let mut out = String::from_str("{\"typ\":");
    proof {
        reveal_strlit("{\"typ\":");
        assert(out@ =~= seq!['{', '"', 't', 'y', 'p', '"', ':']);
    }
    push_u64_digits(kind.code(), &mut out);
    out.append(",\"message\":\"");
    proof {
        reveal_strlit(",\"message\":\"");
        assert(",\"message\":\""@ =~= seq![',', '"', 'm', 'e', 's', 's', 'a', 'g', 'e', '"', ':', '"']);
    }
    push_escaped(message, &mut out);
    out.append("\"}");
    proof {
        reveal_strlit("\"}");
        assert("\"}"@ =~= seq!['"', '}']);
        assert(out@ =~= spec_message_params(kind, message@));
    }
    out
}

/// A quoted and escaped string on the wire.
pub open spec fn spec_json_string(s: Seq<char>) -> Seq<char> {
    seq!['"'] + spec_escape(s) + seq!['"']
}

/// The items of an array of strings, separated by commas.
pub open spec fn spec_string_items(items: Seq<Seq<char>>) -> Seq<char>
    decreases items.len(),
{
    if items.len() == 0 {
        Seq::empty()
    } else if items.len() == 1 {
        spec_json_string(items[0])
    } else {
        spec_string_items(items.drop_last()) + seq![','] + spec_json_string(items.last())
    }
}

/// An array of strings on the wire.
pub open spec fn spec_string_array(items: Seq<Seq<char>>) -> Seq<char> {
    seq!['['] + spec_string_items(items) + seq![']']
}

/// Appends a quoted and escaped string to `out`.
fn push_json_string(s: &str, out: &mut String)
    ensures
        final(out)@ == old(out)@ + spec_json_string(s@),
{
    push_char(out, '"');
    push_escaped(s, out);
    push_char(out, '"');
    proof {
        assert(old(out)@.push('"') + spec_escape(s@) =~= old(out)@ + (seq!['"'] + spec_escape(s@)));
        assert((old(out)@ + (seq!['"'] + spec_escape(s@))).push('"') =~= old(out)@
            + spec_json_string(s@));
    }
}

/// Appends an array of quoted strings to `out`.
fn push_string_array(items: &Vec<String>, out: &mut String)
    ensures
        final(out)@ == old(out)@ + spec_string_array(items.deep_view()),
{
    push_char(out, '[');
    let n = items.len();
    let mut i: usize = 0;
    while i < n
        invariant
            i <= n,
            n == items@.len(),
            out@ == old(out)@.push('[') + spec_string_items(items.deep_view().take(i as int)),
        decreases n - i,
    {
        let ghost done = items.deep_view().take(i as int);
        let ghost next = items.deep_view().take(i as int + 1);
        proof {
            assert(next.drop_last() =~= done);
            assert(next.last() == items.deep_view()[i as int]);
        }
        if i > 0 {
            push_char(out, ',');
            push_json_string(items[i].as_str(), out);
            proof {
                assert(done.len() >= 1);
                assert(out@ =~= old(out)@.push('[') + spec_string_items(next));
            }
        } else {
            push_json_string(items[i].as_str(), out);
            proof {
                assert(Seq::<char>::empty() + spec_json_string(items.deep_view()[0]) =~=
                spec_json_string(items.deep_view()[0]));
                assert(out@ =~= old(out)@.push('[') + spec_string_items(next));
            }
        }
        i = i + 1;
    }
    proof {
        assert(items.deep_view().take(n as int) =~= items.deep_view());
    }
    push_char(out, ']');
    proof {
        assert(old(out)@.push('[') =~= old(out)@ + seq!['[']);
        assert((old(out)@ + seq!['['] + spec_string_items(items.deep_view())).push(']') =~= old(
            out,
        )@ + spec_string_array(items.deep_view()));
    }
}

/// The fields a document filter carries: only those that are present,
/// each as `"key":"value"`.
pub open spec fn spec_filter_fields(f: SpecFilter) -> Seq<Seq<char>> {
    let a: Seq<Seq<char>> = match f.language {
        Some(s) => seq![seq!['"', 'l', 'a', 'n', 'g', 'u', 'a', 'g', 'e', '"', ':'] + spec_json_string(s)],
        None => Seq::empty(),
    };
    let b: Seq<Seq<char>> = match f.scheme {
        Some(s) => seq![seq!['"', 's', 'c', 'h', 'e', 'm', 'e', '"', ':'] + spec_json_string(s)],
        None => Seq::empty(),
    };
    let c: Seq<Seq<char>> = match f.pattern {
        Some(s) => seq![seq!['"', 'p', 'a', 't', 't', 'e', 'r', 'n', '"', ':'] + spec_json_string(s)],
        None => Seq::empty(),
    };
    a + b + c
}

/// Pieces of text joined by commas.
pub open spec fn spec_join_comma(items: Seq<Seq<char>>) -> Seq<char>
    decreases items.len(),
{
    if items.len() == 0 {
        Seq::empty()
    } else if items.len() == 1 {
        items[0]
    } else {
        spec_join_comma(items.drop_last()) + seq![','] + items.last()
    }
}

/// One document filter on the wire.
pub open spec fn spec_filter_text(f: SpecFilter) -> Seq<char> {
    seq!['{'] + spec_join_comma(spec_filter_fields(f)) + seq!['}']
}

/// The items of the document selector, separated by commas.
pub open spec fn spec_filter_items(items: Seq<SpecFilter>) -> Seq<char>
    decreases items.len(),
{
    if items.len() == 0 {
        Seq::empty()
    } else if items.len() == 1 {
        spec_filter_text(items[0])
    } else {
        spec_filter_items(items.drop_last()) + seq![','] + spec_filter_text(items.last())
    }
}

/// The payload of a start-server notification: the server's location,
/// its arguments, the documents it serves, and free-form options or
/// `null`.
pub open spec fn spec_start_lsp_params(
    server_uri: Seq<char>,
    server_args: Seq<Seq<char>>,
    document_selector: Seq<SpecFilter>,
    options: Option<Seq<char>>,
) -> Seq<char> {
    seq!['{', '"', 's', 'e', 'r', 'v', 'e', 'r', '_', 'u', 'r', 'i', '"', ':']
        + spec_json_string(server_uri)
        + seq![',', '"', 's', 'e', 'r', 'v', 'e', 'r', '_', 'a', 'r', 'g', 's', '"', ':']
        + spec_string_array(server_args)
        + seq![',', '"', 'd', 'o', 'c', 'u', 'm', 'e', 'n', 't', '_', 's', 'e', 'l', 'e', 'c', 't', 'o', 'r', '"', ':', '[']
        + spec_filter_items(document_selector)
        + seq![']', ',', '"', 'o', 'p', 't', 'i', 'o', 'n', 's', '"', ':']
        + (match options {
        Some(o) => o,
        None => crate::codec::null_text(),
    }) + seq!['}']
}

/// Joins pieces of text with commas onto `out`.
fn push_join_comma(items: &Vec<String>, out: &mut String)
    ensures
        final(out)@ == old(out)@ + spec_join_comma(items.deep_view()),
{
    let n = items.len();
    let mut i: usize = 0;
    proof {
        assert(old(out)@ + Seq::<char>::empty() =~= old(out)@);
    }
    while i < n
        invariant
            i <= n,
            n == items@.len(),
            out@ == old(out)@ + spec_join_comma(items.deep_view().take(i as int)),
        decreases n - i,
    {
        let ghost done = items.deep_view().take(i as int);
        let ghost next = items.deep_view().take(i as int + 1);
        proof {
            assert(next.drop_last() =~= done);
            assert(next.last() == items.deep_view()[i as int]);
        }
        if i > 0 {
            push_char(out, ',');
            out.append(items[i].as_str());
            proof {
                assert(done.len() >= 1);
                assert(out@ =~= old(out)@ + spec_join_comma(next));
            }
        } else {
            out.append(items[i].as_str());
            proof {
                assert(out@ =~= old(out)@ + spec_join_comma(next));
            }
        }
        i = i + 1;
    }
    proof {
        assert(items.deep_view().take(n as int) =~= items.deep_view());
    }
}

/// Appends one document filter to `out`.
fn push_filter(f: &DocumentFilter, out: &mut String)
    ensures
        final(out)@ == old(out)@ + spec_filter_text(f@),
{
    let mut fields: Vec<String> = Vec::new();
    proof {
        assert(fields.deep_view() =~= Seq::<Seq<char>>::empty());
    }
    match &f.language {
        Some(s) => {
            let ghost pre = fields.deep_view();
            let mut t = String::from_str("\"language\":");
            proof {
                reveal_strlit("\"language\":");
                assert(t@ =~= seq!['"', 'l', 'a', 'n', 'g', 'u', 'a', 'g', 'e', '"', ':']);
            }
            push_json_string(s.as_str(), &mut t);
            let ghost tv = t@;
            fields.push(t);
            proof {
                assert(fields.deep_view() =~= pre.push(tv));
            }
        },
        None => {},
    }
    match &f.scheme {
        Some(s) => {
            let ghost pre = fields.deep_view();
            let mut t = String::from_str("\"scheme\":");
            proof {
                reveal_strlit("\"scheme\":");
                assert(t@ =~= seq!['"', 's', 'c', 'h', 'e', 'm', 'e', '"', ':']);
            }
            push_json_string(s.as_str(), &mut t);
            let ghost tv = t@;
            fields.push(t);
            proof {
                assert(fields.deep_view() =~= pre.push(tv));
            }
        },
        None => {},
    }
    match &f.pattern {
        Some(s) => {
            let ghost pre = fields.deep_view();
            let mut t = String::from_str("\"pattern\":");
            proof {
                reveal_strlit("\"pattern\":");
                assert(t@ =~= seq!['"', 'p', 'a', 't', 't', 'e', 'r', 'n', '"', ':']);
            }
            push_json_string(s.as_str(), &mut t);
            let ghost tv = t@;
            fields.push(t);
            proof {
                assert(fields.deep_view() =~= pre.push(tv));
            }
        },
        None => {},
    }
    proof {
        assert(fields.deep_view() =~= spec_filter_fields(f@));
    }
    push_char(out, '{');
    push_join_comma(&fields, out);
    push_char(out, '}');
    proof {
        assert(old(out)@.push('{') =~= old(out)@ + seq!['{']);
        assert((old(out)@ + seq!['{'] + spec_join_comma(spec_filter_fields(f@))).push('}') =~= old(
            out,
        )@ + spec_filter_text(f@));
    }
}

/// Builds the payload of a start-server notification.
pub fn build_start_lsp_params(
    server_uri: &String,
    server_args: &Vec<String>,
    document_selector: &Vec<DocumentFilter>,
    options: &Option<String>,
) -> (r: String)
    ensures
        r@ == spec_start_lsp_params(
            server_uri@,
            server_args.deep_view(),
            document_selector@.map_values(|d: DocumentFilter| d@),
            match options {
                Some(o) => Some(o@),
                None => None,
            },
        ),
{
    let mut out = String::from_str("{\"server_uri\":");
    proof {
        reveal_strlit("{\"server_uri\":");
        assert(out@ =~= seq!['{', '"', 's', 'e', 'r', 'v', 'e', 'r', '_', 'u', 'r', 'i', '"', ':']);
    }
    push_json_string(server_uri.as_str(), &mut out);
    out.append(",\"server_args\":");
    proof {
        reveal_strlit(",\"server_args\":");
        assert(",\"server_args\":"@ =~= seq![',', '"', 's', 'e', 'r', 'v', 'e', 'r', '_', 'a', 'r', 'g', 's', '"', ':']);
    }
    push_string_array(server_args, &mut out);
    out.append(",\"document_selector\":[");
    proof {
        reveal_strlit(",\"document_selector\":[");
        assert(",\"document_selector\":["@ =~= seq![',', '"', 'd', 'o', 'c', 'u', 'm', 'e', 'n', 't', '_', 's', 'e', 'l', 'e', 'c', 't', 'o', 'r', '"', ':', '[']);
    }
    let ghost sel = document_selector@.map_values(|d: DocumentFilter| d@);
    let n = document_selector.len();
    let ghost mid = out@;
    let mut i: usize = 0;
    while i < n
        invariant
            i <= n,
            n == document_selector@.len(),
            sel == document_selector@.map_values(|d: DocumentFilter| d@),
            out@ == mid + spec_filter_items(sel.take(i as int)),
        decreases n - i,
    {
        let ghost done = sel.take(i as int);
        let ghost next = sel.take(i as int + 1);
        proof {
            assert(next.drop_last() =~= done);
            assert(next.last() == sel[i as int]);
        }
        if i > 0 {
            push_char(&mut out, ',');
            push_filter(&document_selector[i], &mut out);
            proof {
                assert(done.len() >= 1);
                assert(out@ =~= mid + spec_filter_items(next));
            }
        } else {
            push_filter(&document_selector[i], &mut out);
            proof {
                assert(Seq::<char>::empty() + spec_filter_text(sel[0]) =~= spec_filter_text(
                    sel[0],
                ));
                assert(out@ =~= mid + spec_filter_items(next));
            }
        }
        i = i + 1;
    }
    proof {
        assert(sel.take(n as int) =~= sel);
    }
    out.append("],\"options\":");
    proof {
        reveal_strlit("],\"options\":");
        assert("],\"options\":"@ =~= seq![']', ',', '"', 'o', 'p', 't', 'i', 'o', 'n', 's', '"', ':']);
    }
    match options {
        Some(o) => {
            out.append(o.as_str());
        },
        None => {
            out.append("null");
            proof {
                reveal_strlit("null");
                assert("null"@ =~= crate::codec::null_text());
            }
        },
    }
    out.append("}");
    proof {
        reveal_strlit("}");
        assert("}"@ =~= seq!['}']);
        assert(out@ =~= spec_start_lsp_params(
            server_uri@,
            server_args.deep_view(),
            sel,
            match options {
                Some(o) => Some(o@),
                None => None,
            },
        ));
    }
    out
}

} // verus!

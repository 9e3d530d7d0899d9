//! Routing one inbound message.
//!
//! A message is classified, tried against the host's own commands, and then
//! handed to every module with a trigger pattern that matches the command
//! name. Calling a module and sending a reply are the host's work, so the
//! routing is written as a machine: it names the next thing to do, the host
//! does it and reports what came of it.
//!
//! Replies go out line by line, each line in chunks. A chunk that cannot be
//! sent ends its line; the lines and modules that follow are still served.

use vstd::prelude::*;
use vstd::string::StringExecFns;
use vstd::utf8::{decode_utf8, valid_utf8};
use crate::chunking::{chunk_line, chunks};
use crate::command::{command_name, command_parameter, is_command, parse_command};
use crate::common::{c1, coloured, enclosed, l};
use crate::marshal::{decode_output, encodable, encoded, lines, Invocation};
use crate::plugins::{clone_strings, records, Plugin, PluginView};
use crate::text::{chars_of, join, join_strings, same_text, split, texts};
use crate::triggers::{any_found, any_matches};

verus! {

/// The kinds of protocol message, as far as routing tells them apart.
#[derive(Clone, Copy, Debug, PartialEq, Eq, Structural)]
pub enum Payload {
    /// A message to a channel or to the bot.
    Message,
    /// A notice.
    Notice,
    /// Anything else.
    Other,
}

/// One inbound protocol message.
#[derive(Debug, PartialEq, Eq)]
pub struct Inbound {
    pub payload: Payload,
    /// The identity of the sender, `nickname!user@host`, if the message has one.
    pub origin: Option<String>,
    /// Where the protocol layer says an answer goes: the channel of a channel
    /// message, the sender of a private one.
    pub reply_target: Option<String>,
    pub text: String,
}

/// An `Inbound` as plain text.
pub ghost struct InboundView {
    pub payload: Payload,
    pub origin: Option<Seq<char>>,
    pub reply_target: Option<Seq<char>>,
    pub text: Seq<char>,
}

impl View for Inbound {
    type V = InboundView;

    open spec fn view(&self) -> InboundView {
        InboundView {
            payload: self.payload,
            origin: match self.origin {
                Some(s) => Some(s@),
                None => None,
            },
            reply_target: match self.reply_target {
                Some(s) => Some(s@),
                None => None,
            },
            text: self.text@,
        }
    }
}

/// A message that is a command.
#[derive(Debug, PartialEq, Eq)]
pub struct InboundCommand {
    pub trigger_char: char,
    pub command_name: String,
    pub parameter: String,
    pub author_identity: String,
    pub response_target: String,
}

/// An `InboundCommand` as plain text.
pub ghost struct InboundCommandView {
    pub trigger_char: char,
    pub command_name: Seq<char>,
    pub parameter: Seq<char>,
    pub author_identity: Seq<char>,
    pub response_target: Seq<char>,
}

impl View for InboundCommand {
    type V = InboundCommandView;

    open spec fn view(&self) -> InboundCommandView {
        InboundCommandView {
            trigger_char: self.trigger_char,
            command_name: self.command_name@,
            parameter: self.parameter@,
            author_identity: self.author_identity@,
            response_target: self.response_target@,
        }
    }
}

/// How a reply is sent.
#[derive(Debug, PartialEq, Eq)]
pub enum Responder {
    /// As a message to the target that the protocol layer resolved.
    Public(String),
    /// As a notice to the nickname of the sender.
    Private(String),
}

/// A `Responder` as plain text.
pub ghost enum ResponderView {
    Public(Seq<char>),
    Private(Seq<char>),
}

impl View for Responder {
    type V = ResponderView;

    open spec fn view(&self) -> ResponderView {
        match self {
            Responder::Public(t) => ResponderView::Public(t@),
            Responder::Private(t) => ResponderView::Private(t@),
        }
    }
}

impl Clone for Responder {
    fn clone(&self) -> (out: Responder)
        ensures
            out@ == self@,
    {
        match self {
            Responder::Public(t) => Responder::Public(t.clone()),
            Responder::Private(t) => Responder::Private(t.clone()),
        }
    }
}

/// The nickname of an identity: what stands before its first `!`.
pub open spec fn nickname(identity: Seq<char>) -> Seq<char> {
    split(identity, '!')[0]
}

/// The command that `msg` carries, if it carries one: it is a message or a
/// notice, has a sender and a reply target, and its text is a command.
pub open spec fn classified(msg: InboundView) -> Option<InboundCommandView> {
    if msg.payload == Payload::Other || msg.origin is None || msg.reply_target is None
        || !is_command(msg.text) {
        None
    } else {
        Some(
            InboundCommandView {
                trigger_char: msg.text[0],
                command_name: command_name(msg.text),
                parameter: command_parameter(msg.text),
                author_identity: msg.origin->0,
                response_target: msg.reply_target->0,
            },
        )
    }
}

/// How the replies to `cmd` are sent: `-` asks for a private reply.
pub open spec fn responder_of(cmd: InboundCommandView) -> ResponderView {
    if cmd.trigger_char == '-' {
        ResponderView::Private(nickname(cmd.author_identity))
    } else {
        ResponderView::Public(cmd.response_target)
    }
}

/// The commands that the modules of `registry` advertise, in registry order.
pub open spec fn all_commands(registry: Seq<PluginView>) -> Seq<Seq<char>>
    decreases registry.len(),
{
    if registry.len() == 0 {
        Seq::empty()
    } else {
        all_commands(registry.drop_last()) + registry.last().commands
    }
}

/// The answer to `help`.
pub open spec fn help_text(registry: Seq<PluginView>) -> Seq<char> {
    enclosed('[', ']', "Commands"@) + seq![' '] + coloured(
        '1',
        '4',
        join(all_commands(registry), ", "@),
    )
}

/// Whether the module `p` handles the command `name`.
pub open spec fn handles(p: PluginView, name: Seq<char>) -> bool {
    any_found(p.triggers, name)
}

/// The paths of the modules of `registry` that handle `name`, in registry
/// order.
pub open spec fn handlers(registry: Seq<PluginView>, name: Seq<char>) -> Seq<Seq<char>>
    decreases registry.len(),
{
    if registry.len() == 0 {
        Seq::empty()
    } else if handles(registry.last(), name) {
        handlers(registry.drop_last(), name).push(registry.last().name)
    } else {
        handlers(registry.drop_last(), name)
    }
}

/// The lines that the answer of a module makes: none where the call failed
/// or the answer is not text.
pub open spec fn output_lines(output: Option<Seq<u8>>) -> Seq<Seq<char>> {
    match output {
        Some(bytes) => if valid_utf8(bytes) {
            lines(decode_utf8(bytes))
        } else {
            Seq::empty()
        },
        None => Seq::empty(),
    }
}

/// Where a message ended up.
#[derive(Clone, Copy, Debug, PartialEq, Eq, Structural)]
pub enum Route {
    /// It is no command.
    Ignored,
    /// The host answers it itself.
    BuiltinHandled,
    /// It goes to the modules that handle it.
    PluginDispatched,
}

/// What the host is asked to do next.
#[derive(Debug, PartialEq, Eq)]
pub enum Action {
    /// Call the entry point of the module at `path`, and report the buffer it
    /// returns.
    Invoke { path: String, call: Invocation },
    /// Send `text`, and report whether that worked.
    Send { responder: Responder, text: String },
    /// Rescan the plugin directory, and report when that is done.
    Reload,
    /// Nothing: the message is dealt with.
    Done,
}

/// An `Action` as plain values.
pub ghost enum ActionView {
    Invoke { path: Seq<char>, command: Seq<u8>, parameter: Seq<u8>, author: Seq<u8> },
    Send { responder: ResponderView, text: Seq<char> },
    Reload,
    Done,
}

impl View for Action {
    type V = ActionView;

    open spec fn view(&self) -> ActionView {
        match self {
            Action::Invoke { path, call } => ActionView::Invoke {
                path: path@,
                command: call.command@,
                parameter: call.parameter@,
                author: call.author@,
            },
            Action::Send { responder, text } => ActionView::Send {
                responder: responder@,
                text: text@,
            },
            Action::Reload => ActionView::Reload,
            Action::Done => ActionView::Done,
        }
    }
}

/// What the host reports back.
#[derive(Debug, PartialEq, Eq)]
pub enum Event {
    /// The buffer that a module returned, without its terminator, or nothing
    /// where the library or its entry point could not be had.
    Output(Option<Vec<u8>>),
    /// Whether a send worked.
    Sent(bool),
    /// The rescan is done.
    Reloaded,
}

/// An `Event` as plain values.
pub ghost enum EventView {
    Output(Option<Seq<u8>>),
    Sent(bool),
    Reloaded,
}

impl View for Event {
    type V = EventView;

    open spec fn view(&self) -> EventView {
        match self {
            Event::Output(Some(bytes)) => EventView::Output(Some(bytes@)),
            Event::Output(None) => EventView::Output(None),
            Event::Sent(ok) => EventView::Sent(*ok),
            Event::Reloaded => EventView::Reloaded,
        }
    }
}

/// The routing of one message.
pub struct Dispatch {
    route: Route,
    responder: Responder,
    command: Vec<u8>,
    parameter: Vec<u8>,
    author: Vec<u8>,
    /// The modules still to call.
    modules: Vec<String>,
    /// The lines still to send, after the one in hand.
    lines: Vec<String>,
    /// The chunks still to send of the line in hand.
    chunks: Vec<String>,
    /// Whether a rescan is still owed.
    reload: bool,
}

/// A `Dispatch` as plain values.
pub ghost struct DispatchView {
    pub route: Route,
    pub responder: ResponderView,
    pub command: Seq<u8>,
    pub parameter: Seq<u8>,
    pub author: Seq<u8>,
    pub modules: Seq<Seq<char>>,
    pub lines: Seq<Seq<char>>,
    pub chunks: Seq<Seq<char>>,
    pub reload: bool,
}

impl View for Dispatch {
    type V = DispatchView;

    closed spec fn view(&self) -> DispatchView {
        DispatchView {
            route: self.route,
            responder: self.responder@,
            command: self.command@,
            parameter: self.parameter@,
            author: self.author@,
            modules: texts(self.modules@),
            lines: texts(self.lines@),
            chunks: texts(self.chunks@),
            reload: self.reload,
        }
    }
}

/// A routing with nothing left to do.
pub open spec fn idle(route: Route, responder: ResponderView) -> DispatchView {
    DispatchView {
        route,
        responder,
        command: Seq::empty(),
        parameter: Seq::empty(),
        author: Seq::empty(),
        modules: Seq::empty(),
        lines: Seq::empty(),
        chunks: Seq::empty(),
        reload: false,
    }
}

/// Whether nothing is left to do.
pub open spec fn finished(d: DispatchView) -> bool {
    d.modules.len() == 0 && d.lines.len() == 0 && d.chunks.len() == 0 && !d.reload
}

/// The routing of `msg` as it starts, `registry` being the active list and
/// `admin` the identity that may ask for a rescan.
pub open spec fn begun(msg: InboundView, registry: Seq<PluginView>, admin: Option<Seq<char>>)
    -> DispatchView {
    match classified(msg) {
        None => idle(Route::Ignored, ResponderView::Public(Seq::empty())),
        Some(cmd) => {
            let quiet = idle(Route::BuiltinHandled, responder_of(cmd));
            if cmd.command_name == "help"@ {
                DispatchView { lines: seq![help_text(registry)], ..quiet }
            } else if cmd.command_name == "reload"@ {
                DispatchView { reload: admin == Some(cmd.author_identity), ..quiet }
            } else if encodable(cmd.command_name) && encodable(cmd.parameter) && encodable(
                cmd.author_identity,
            ) {
                DispatchView {
                    route: Route::PluginDispatched,
                    command: encoded(cmd.command_name),
                    parameter: encoded(cmd.parameter),
                    author: encoded(cmd.author_identity),
                    modules: handlers(registry, cmd.command_name),
                    ..quiet
                }
            } else {
                DispatchView { route: Route::PluginDispatched, ..quiet }
            }
        },
    }
}

/// `d` with the next line that has something to send taken in hand, if no
/// chunk is in hand yet.
pub open spec fn settled(d: DispatchView) -> DispatchView
    decreases d.lines.len(),
{
    if d.chunks.len() > 0 || d.lines.len() == 0 {
        d
    } else {
        settled(DispatchView { chunks: chunks(d.lines[0]), lines: d.lines.drop_first(), ..d })
    }
}

/// What a settled routing asks for: the chunk in hand is sent first, then a
/// rescan that is owed, then the next module is called.
pub open spec fn wanted(d: DispatchView) -> ActionView {
    if d.chunks.len() > 0 {
        ActionView::Send { responder: d.responder, text: d.chunks[0] }
    } else if d.reload {
        ActionView::Reload
    } else if d.modules.len() > 0 {
        ActionView::Invoke {
            path: d.modules[0],
            command: d.command,
            parameter: d.parameter,
            author: d.author,
        }
    } else {
        ActionView::Done
    }
}

/// `d` after the host reported `event`. A report that does not answer what
/// was asked for ends the routing.
pub open spec fn advanced(d: DispatchView, event: EventView) -> DispatchView {
    match (wanted(d), event) {
        (ActionView::Send { .. }, EventView::Sent(true)) => DispatchView {
            chunks: d.chunks.drop_first(),
            ..d
        },
        (ActionView::Send { .. }, EventView::Sent(false)) => DispatchView {
            chunks: Seq::empty(),
            ..d
        },
        (ActionView::Reload, EventView::Reloaded) => DispatchView { reload: false, ..d },
        (ActionView::Invoke { .. }, EventView::Output(output)) => DispatchView {
            modules: d.modules.drop_first(),
            lines: output_lines(output),
            ..d
        },
        _ => DispatchView {
            modules: Seq::empty(),
            lines: Seq::empty(),
            chunks: Seq::empty(),
            reload: false,
            ..d
        },
    }
}

/// The nickname of `identity`.
pub fn nickname_of(identity: &str) -> (out: String)
    ensures
        out@ == nickname(identity@),
{
    let chars = chars_of(identity);
    let mut out = String::new();
    let mut i: usize = 0;
    assert(chars@.take(0) == Seq::<char>::empty());
    while i < chars.len() && chars[i] != '!'
        invariant
            i <= chars.len(),
            chars@ == identity@,
            split(chars@.take(i as int), '!') == seq![out@],
        decreases chars.len() - i,
    {
        proof {
            let next = chars@.take(i + 1);
            assert(next.drop_last() == chars@.take(i as int));
            assert(seq![out@].drop_last().push(out@.push(chars@[i as int])) == seq![
                out@.push(chars@[i as int]),
            ]);
        }
        out.push(chars[i]);
        i += 1;
    }
    proof {
        lemma_split_first(chars@, i as int);
    }
    out
}

/// What precedes the first separator is the first piece.
proof fn lemma_split_first(s: Seq<char>, i: int)
    requires
        0 <= i <= s.len(),
        split(s.take(i), '!').len() == 1,
        i == s.len() || s[i] == '!',
    ensures
        split(s, '!').len() >= 1,
        split(s, '!')[0] == split(s.take(i), '!')[0],
    decreases s.len() - i,
{
    if i == s.len() {
        assert(s.take(i) == s);
    } else {
        assert(s.take(i + 1).drop_last() == s.take(i));
        lemma_split_prefix(s, i + 1);
    }
}

/// The first piece of a text is the first piece of any prefix of it that
/// has more than one piece.
proof fn lemma_split_prefix(s: Seq<char>, k: int)
    requires
        0 <= k <= s.len(),
        split(s.take(k), '!').len() >= 2,
    ensures
        split(s, '!').len() >= 2,
        split(s, '!')[0] == split(s.take(k), '!')[0],
    decreases s.len() - k,
{
    if k == s.len() {
        assert(s.take(k) == s);
    } else {
        assert(s.take(k + 1).drop_last() == s.take(k));
        lemma_split_prefix(s, k + 1);
    }
}

/// Reads `msg` as a command, if it is one.
pub fn classify(msg: &Inbound) -> (r: Option<InboundCommand>)
    ensures
        r is Some <==> classified(msg@) is Some,
        r matches Some(cmd) ==> Some(cmd@) == classified(msg@),
{
    match msg.payload {
        Payload::Other => {
            return None;
        },
        _ => {},
    }
    let author = match &msg.origin {
        Some(s) => s.clone(),
        None => {
            return None;
        },
    };
    let target = match &msg.reply_target {
        Some(s) => s.clone(),
        None => {
            return None;
        },
    };
    match parse_command(msg.text.as_str()) {
        Some(c) => Some(
            InboundCommand {
                trigger_char: c.sign,
                command_name: c.name,
                parameter: c.parameter,
                author_identity: author,
                response_target: target,
            },
        ),
        None => None,
    }
}

impl InboundCommand {
    /// How the replies to this command are sent.
    pub fn responder(&self) -> (r: Responder)
        ensures
            r@ == responder_of(self@),
    {
        if self.trigger_char == '-' {
            Responder::Private(nickname_of(self.author_identity.as_str()))
        } else {
            Responder::Public(self.response_target.clone())
        }
    }
}

/// The commands that the modules of `registry` advertise, in registry order.
pub fn advertised(registry: &Vec<Plugin>) -> (out: Vec<String>)
    ensures
        texts(out@) == all_commands(records(registry@)),
{
    let mut out: Vec<String> = Vec::new();
    let mut i: usize = 0;
    assert(records(registry@).take(0) == Seq::<PluginView>::empty());
    while i < registry.len()
        invariant
            i <= registry.len(),
            texts(out@) == all_commands(records(registry@).take(i as int)),
        decreases registry.len() - i,
    {
        proof {
            let next = records(registry@).take(i + 1);
            assert(next.drop_last() == records(registry@).take(i as int));
            assert(next.last() == registry@[i as int]@);
        }
        let ghost before = texts(out@);
        let mut more = clone_strings(&registry[i].commands);
        out.append(&mut more);
        assert(texts(out@) == before + registry@[i as int]@.commands);
        i += 1;
    }
    assert(records(registry@).take(registry.len() as int) == records(registry@));
    out
}

/// The answer to `help`: the advertised commands of all modules, in registry
/// order and separated by commas, behind a label.
pub fn help_reply(registry: &Vec<Plugin>) -> (out: String)
    ensures
        out@ == help_text(records(registry@)),
{
    let commands = advertised(registry);
    let list = join_strings(&commands, ", ");
    let mut out = l("Commands");
    out.push(' ');
    out.append(c1(list.as_str()).as_str());
    out
}

/// The paths of the modules of `registry` that handle `name`, in registry
/// order.
pub fn matching(registry: &Vec<Plugin>, name: &str) -> (out: Vec<String>)
    ensures
        texts(out@) == handlers(records(registry@), name@),
{
    let mut out: Vec<String> = Vec::new();
    let mut i: usize = 0;
    assert(records(registry@).take(0) == Seq::<PluginView>::empty());
    while i < registry.len()
        invariant
            i <= registry.len(),
            texts(out@) == handlers(records(registry@).take(i as int), name@),
        decreases registry.len() - i,
    {
        proof {
            let next = records(registry@).take(i + 1);
            assert(next.drop_last() == records(registry@).take(i as int));
            assert(next.last() == registry@[i as int]@);
        }
        if any_matches(&registry[i].triggers, name) {
            let ghost before = texts(out@);
            out.push(registry[i].name.clone());
            assert(texts(out@) == before.push(out@.last()@));
        }
        i += 1;
    }
    assert(records(registry@).take(registry.len() as int) == records(registry@));
    out
}

impl Dispatch {
    fn quiet(route: Route, responder: Responder) -> (d: Dispatch)
        ensures
            d@ == idle(route, responder@),
    {
        let d = Dispatch {
            route,
            responder,
            command: Vec::new(),
            parameter: Vec::new(),
            author: Vec::new(),
            modules: Vec::new(),
            lines: Vec::new(),
            chunks: Vec::new(),
            reload: false,
        };
        assert(texts(d.modules@) == Seq::<Seq<char>>::empty());
        assert(texts(d.lines@) == Seq::<Seq<char>>::empty());
        assert(texts(d.chunks@) == Seq::<Seq<char>>::empty());
        d
    }

    /// Where the message ended up.
    pub fn route(&self) -> (r: Route)
        ensures
            r == self@.route,
    {
        self.route
    }

    /// Whether nothing is left to do.
    pub fn is_finished(&self) -> (r: bool)
        ensures
            r == finished(self@),
    {
        self.modules.len() == 0 && self.lines.len() == 0 && self.chunks.len() == 0 && !self.reload
    }

    /// Takes the next line that has something to send in hand, and names
    /// what to do next.
    fn settle(&mut self) -> (action: Action)
        ensures
            final(self)@ == settled(old(self)@),
            action@ == wanted(final(self)@),
    {
        while self.chunks.len() == 0 && self.lines.len() > 0
            invariant
                settled(self@) == settled(old(self)@),
            decreases self.lines.len(),
        {
            let ghost before = self@;
            let line = self.lines.remove(0);
            self.chunks = chunk_line(line.as_str());
            proof {
                assert(texts(self.lines@) == before.lines.drop_first());
                assert(self@ == DispatchView {
                    chunks: chunks(before.lines[0]),
                    lines: before.lines.drop_first(),
                    ..before
                });
            }
        }
        if self.chunks.len() > 0 {
            Action::Send { responder: self.responder.clone(), text: self.chunks[0].clone() }
        } else if self.reload {
            Action::Reload
        } else if self.modules.len() > 0 {
            Action::Invoke {
                path: self.modules[0].clone(),
                call: Invocation {
                    command: self.command.clone(),
                    parameter: self.parameter.clone(),
                    author: self.author.clone(),
                },
            }
        } else {
            Action::Done
        }
    }

    /// Starts routing `msg`. `registry` is a snapshot of the active list,
    /// and `admin` the identity that may ask for a rescan, if there is one.
    ///
    /// A message that is no command is ignored. `help` is answered with the
    /// advertised commands of all modules. `reload` is for the host too: it
    /// asks for a rescan where the sender is `admin`, and for nothing
    /// otherwise. Any other command goes to the modules with a trigger
    /// pattern that matches its name, in registry order; where an argument
    /// cannot be encoded no module can be called, and none is.
    pub fn begin(msg: &Inbound, registry: &Vec<Plugin>, admin: Option<&str>) -> (r: (
        Dispatch,
        Action,
    ))
        ensures
            r.0@ == settled(
                begun(
                    msg@,
                    records(registry@),
                    match admin {
                        Some(a) => Some(a@),
                        None => None,
                    },
                ),
            ),
            r.1@ == wanted(r.0@),
    {
        let cmd = match classify(msg) {
            Some(cmd) => cmd,
            None => {
                let mut d = Dispatch::quiet(Route::Ignored, Responder::Public(String::new()));
                let action = d.settle();
                return (d, action);
            },
        };
        let mut d = Dispatch::quiet(Route::BuiltinHandled, cmd.responder());
        if same_text(cmd.command_name.as_str(), "help") {
            let ghost before = texts(d.lines@);
            d.lines.push(help_reply(registry));
            assert(texts(d.lines@) == seq![help_text(records(registry@))]);
        } else if same_text(cmd.command_name.as_str(), "reload") {
            d.reload = match admin {
                Some(a) => same_text(a, cmd.author_identity.as_str()),
                None => false,
            };
        } else {
            d.route = Route::PluginDispatched;
            match Invocation::encode(
                cmd.command_name.as_str(),
                cmd.parameter.as_str(),
                cmd.author_identity.as_str(),
            ) {
                Ok(call) => {
                    d.command = call.command;
                    d.parameter = call.parameter;
                    d.author = call.author;
                    d.modules = matching(registry, cmd.command_name.as_str());
                },
                Err(_) => {},
            }
        }
        let action = d.settle();
        (d, action)
    }

    /// Takes the host's report on what was asked for last, and names what to
    /// do next.
    ///
    /// After a send that worked the next chunk follows; after one that
    /// failed the rest of the line is dropped. After a call, the lines of
    /// the answer are sent before the next module is called; a call that
    /// failed, or whose answer is not text, gives no lines. A report that
    /// does not answer what was asked for ends the routing.
    pub fn step(&mut self, event: Event) -> (action: Action)
        ensures
            final(self)@ == settled(advanced(old(self)@, event@)),
            action@ == wanted(final(self)@),
    {
        let sending = self.chunks.len() > 0;
        let reloading = !sending && self.reload;
        let invoking = !sending && !reloading && self.modules.len() > 0;
        let ghost before = self@;
        match event {
            Event::Sent(ok) if sending => {
                if ok {
                    self.chunks.remove(0);
                    assert(texts(self.chunks@) == before.chunks.drop_first());
                } else {
                    self.chunks = Vec::new();
                    assert(texts(self.chunks@) == Seq::<Seq<char>>::empty());
                }
            },
            Event::Reloaded if reloading => {
                self.reload = false;
            },
            Event::Output(output) if invoking => {
                self.modules.remove(0);
                assert(texts(self.modules@) == before.modules.drop_first());
                self.lines = match output {
                    Some(bytes) => match decode_output(&bytes) {
                        Ok(list) => list,
                        Err(_) => Vec::new(),
                    },
                    None => Vec::new(),
                };
                assert(texts(self.lines@) == output_lines(event@->Output_0));
            },
            _ => {
                self.modules = Vec::new();
                self.lines = Vec::new();
                self.chunks = Vec::new();
                self.reload = false;
                assert(texts(self.modules@) == Seq::<Seq<char>>::empty());
                assert(texts(self.lines@) == Seq::<Seq<char>>::empty());
                assert(texts(self.chunks@) == Seq::<Seq<char>>::empty());
            },
        }
        assert(self@ == advanced(before, event@));
        self.settle()
    }
}

/// Whether some module of `registry` advertises the command `c`.
pub open spec fn advertises(registry: Seq<PluginView>, c: Seq<char>) -> bool {
    exists|i: int| 0 <= i < registry.len() && (#[trigger] registry[i]).commands.contains(c)
}

/// The commands that `help` lists are those that some active module
/// advertises: each of them, and no other.
pub proof fn lemma_help_lists_all(registry: Seq<PluginView>, c: Seq<char>)
    ensures
        all_commands(registry).contains(c) <==> advertises(registry, c),
    decreases registry.len(),
{
    if registry.len() > 0 {
        let init = registry.drop_last();
        let last = registry.last();
        lemma_help_lists_all(init, c);
        let all = all_commands(registry);
        if all.contains(c) {
            let k = choose|k: int| 0 <= k < all.len() && all[k] == c;
            if k < all_commands(init).len() {
                assert(all_commands(init)[k] == c);
                let i = choose|i: int|
                    0 <= i < init.len() && (#[trigger] init[i]).commands.contains(c);
                assert(registry[i] == init[i]);
            } else {
                assert(last.commands[k - all_commands(init).len()] == c);
                assert(registry[registry.len() - 1].commands.contains(c));
            }
        }
        if advertises(registry, c) {
            let i = choose|i: int|
                0 <= i < registry.len() && (#[trigger] registry[i]).commands.contains(c);
            if i < init.len() {
                assert(init[i] == registry[i]);
                assert(advertises(init, c));
                let k = choose|k: int|
                    0 <= k < all_commands(init).len() && all_commands(init)[k] == c;
                assert(all[k] == c);
            } else {
                let j = choose|j: int| 0 <= j < last.commands.len() && last.commands[j] == c;
                assert(all[all_commands(init).len() + j] == c);
            }
        }
    }
}

/// A message whose text is no command is ignored: routing it asks for
/// nothing, whatever the registry holds.
pub proof fn lemma_no_command_no_reply(
    msg: InboundView,
    registry: Seq<PluginView>,
    admin: Option<Seq<char>>,
)
    requires
        !is_command(msg.text),
    ensures
        settled(begun(msg, registry, admin)).route == Route::Ignored,
        finished(settled(begun(msg, registry, admin))),
        wanted(settled(begun(msg, registry, admin))) == ActionView::Done,
{
}

/// A routing with nothing left to do asks for nothing, and no report
/// changes that.
pub proof fn lemma_finished_stays(d: DispatchView, event: EventView)
    requires
        finished(d),
    ensures
        wanted(d) == ActionView::Done,
        finished(settled(advanced(d, event))),
        wanted(settled(advanced(d, event))) == ActionView::Done,
{
    assert(advanced(d, event).lines == Seq::<Seq<char>>::empty());
}

/// A command that no builtin and no module handles gets no reply.
pub proof fn lemma_unhandled_no_reply(
    msg: InboundView,
    registry: Seq<PluginView>,
    admin: Option<Seq<char>>,
)
    requires
        classified(msg) matches Some(cmd) && cmd.command_name != "help"@ && cmd.command_name
            != "reload"@ && handlers(registry, cmd.command_name).len() == 0,
    ensures
        finished(settled(begun(msg, registry, admin))),
        wanted(settled(begun(msg, registry, admin))) == ActionView::Done,
{
}

/// The chunks that `lines` are sent in, line after line.
pub open spec fn chunks_of(lines: Seq<Seq<char>>) -> Seq<Seq<char>>
    decreases lines.len(),
{
    if lines.len() == 0 {
        Seq::empty()
    } else {
        chunks(lines[0]) + chunks_of(lines.drop_first())
    }
}

/// The chunks that the answers `outputs` are sent in, answer after answer.
pub open spec fn replies(outputs: Seq<Option<Seq<u8>>>) -> Seq<Seq<char>>
    decreases outputs.len(),
{
    if outputs.len() == 0 {
        Seq::empty()
    } else {
        chunks_of(output_lines(outputs[0])) + replies(outputs.drop_first())
    }
}

/// What is sent from `d` on in a run in which every send works, a rescan is
/// reported when it was asked for, and the modules answer with `outputs`, in
/// the order they are called. The run ends early where the answers run out.
pub open spec fn sent_from(d: DispatchView, outputs: Seq<Option<Seq<u8>>>) -> Seq<Seq<char>>
    decreases
            d.modules.len(),
            d.lines.len(),
            d.chunks.len(),
            (if d.reload {
                1nat
            } else {
                0nat
            }),
    via sent_from_ends
{
    match wanted(d) {
        ActionView::Send { text, .. } => seq![text] + sent_from(
            settled(advanced(d, EventView::Sent(true))),
            outputs,
        ),
        ActionView::Reload => sent_from(settled(advanced(d, EventView::Reloaded)), outputs),
        ActionView::Invoke { .. } => if outputs.len() > 0 {
            sent_from(settled(advanced(d, EventView::Output(outputs[0]))), outputs.drop_first())
        } else {
            Seq::empty()
        },
        ActionView::Done => Seq::empty(),
    }
}

#[via_fn]
proof fn sent_from_ends(d: DispatchView, outputs: Seq<Option<Seq<u8>>>) {
    lemma_settled(advanced(d, EventView::Sent(true)));
    lemma_settled(advanced(d, EventView::Reloaded));
    if outputs.len() > 0 {
        lemma_settled(advanced(d, EventView::Output(outputs[0])));
    }
}

/// Settling changes the lines and chunks only: it takes lines in hand, and
/// leaves what is to be sent as it was.
proof fn lemma_settled(d: DispatchView)
    ensures
        settled(d).route == d.route,
        settled(d).responder == d.responder,
        settled(d).command == d.command,
        settled(d).parameter == d.parameter,
        settled(d).author == d.author,
        settled(d).modules == d.modules,
        settled(d).reload == d.reload,
        settled(d).lines.len() <= d.lines.len(),
        settled(d).lines.len() == d.lines.len() ==> settled(d) == d,
        settled(d).chunks + chunks_of(settled(d).lines) == d.chunks + chunks_of(d.lines),
        settled(d).chunks.len() == 0 ==> settled(d).lines.len() == 0,
    decreases d.lines.len(),
{
    if !(d.chunks.len() > 0 || d.lines.len() == 0) {
        let next = DispatchView { chunks: chunks(d.lines[0]), lines: d.lines.drop_first(), ..d };
        lemma_settled(next);
        assert(d.chunks + chunks_of(d.lines) == chunks(d.lines[0]) + chunks_of(
            d.lines.drop_first(),
        ));
    }
}

/// What a run sends, all told: the chunks in hand, then the chunks of the
/// lines that wait, then the chunks of the answer of each module that is
/// still to be called, in the order of the calls. Every line goes out whole
/// before the next, and every answer before the next module is called.
pub proof fn lemma_sent_from(d: DispatchView, outputs: Seq<Option<Seq<u8>>>)
    requires
        d == settled(d),
        outputs.len() == d.modules.len(),
    ensures
        sent_from(d, outputs) == d.chunks + chunks_of(d.lines) + replies(outputs),
    decreases
            d.modules.len(),
            d.lines.len(),
            d.chunks.len(),
            (if d.reload {
                1nat
            } else {
                0nat
            }),
{
    lemma_settled(d);
    match wanted(d) {
        ActionView::Send { text, .. } => {
            let x = advanced(d, EventView::Sent(true));
            let y = settled(x);
            lemma_settled(x);
            lemma_settled(y);
            lemma_settled_twice(x);
            lemma_sent_from(y, outputs);
            assert(d.chunks == seq![text] + x.chunks);
            assert(seq![text] + (y.chunks + chunks_of(y.lines) + replies(outputs)) == (seq![text]
                + x.chunks) + chunks_of(x.lines) + replies(outputs)) by {
                assert(y.chunks + chunks_of(y.lines) == x.chunks + chunks_of(x.lines));
                assert(seq![text] + (y.chunks + chunks_of(y.lines) + replies(outputs)) == seq![
                    text,
                ] + (y.chunks + chunks_of(y.lines)) + replies(outputs));
                assert(seq![text] + (x.chunks + chunks_of(x.lines)) == (seq![text] + x.chunks)
                    + chunks_of(x.lines));
            }
        },
        ActionView::Reload => {
            let x = advanced(d, EventView::Reloaded);
            let y = settled(x);
            lemma_settled(x);
            lemma_settled_twice(x);
            lemma_sent_from(y, outputs);
        },
        ActionView::Invoke { .. } => {
            let x = advanced(d, EventView::Output(outputs[0]));
            let y = settled(x);
            lemma_settled(x);
            lemma_settled_twice(x);
            lemma_sent_from(y, outputs.drop_first());
            assert(d.chunks + chunks_of(d.lines) == Seq::<Seq<char>>::empty());
            assert(y.chunks + chunks_of(y.lines) == chunks_of(output_lines(outputs[0])));
            assert(Seq::<Seq<char>>::empty() + replies(outputs) == replies(outputs));
        },
        ActionView::Done => {
            assert(outputs.len() == 0);
            assert(d.chunks + chunks_of(d.lines) + replies(outputs) == Seq::<Seq<char>>::empty());
        },
    }
}

/// Settling once is enough.
proof fn lemma_settled_twice(d: DispatchView)
    ensures
        settled(settled(d)) == settled(d),
    decreases d.lines.len(),
{
    if !(d.chunks.len() > 0 || d.lines.len() == 0) {
        lemma_settled_twice(
            DispatchView { chunks: chunks(d.lines[0]), lines: d.lines.drop_first(), ..d },
        );
    }
}

/// What is sent for a message, all told, where every send works: nothing for
/// a message that is no command; for `help`, its answer in chunks; nothing
/// for `reload`; and for any other command the answers of the modules that
/// handle it, in registry order, each line of an answer in chunks and empty
/// lines left out.
pub proof fn lemma_replies_to(
    msg: InboundView,
    registry: Seq<PluginView>,
    admin: Option<Seq<char>>,
    outputs: Seq<Option<Seq<u8>>>,
)
    requires
        outputs.len() == begun(msg, registry, admin).modules.len(),
    ensures
        sent_from(settled(begun(msg, registry, admin)), outputs) == match classified(msg) {
            None => Seq::<Seq<char>>::empty(),
            Some(cmd) => if cmd.command_name == "help"@ {
                chunks(help_text(registry))
            } else if cmd.command_name == "reload"@ {
                Seq::<Seq<char>>::empty()
            } else {
                replies(outputs)
            },
        },
{
    let d = begun(msg, registry, admin);
    lemma_settled(d);
    lemma_settled_twice(d);
    lemma_sent_from(settled(d), outputs);
    assert(settled(d).chunks + chunks_of(settled(d).lines) == d.chunks + chunks_of(d.lines));
    assert(d.chunks == Seq::<Seq<char>>::empty());
    assert(Seq::<Seq<char>>::empty() + chunks_of(d.lines) == chunks_of(d.lines));
    match classified(msg) {
        None => {
            assert(replies(outputs) == Seq::<Seq<char>>::empty());
        },
        Some(cmd) => {
            if cmd.command_name == "help"@ {
                assert(d.lines == seq![help_text(registry)]);
                assert(d.lines[0] == help_text(registry));
                assert(d.lines.drop_first() == Seq::<Seq<char>>::empty());
                assert(chunks_of(d.lines.drop_first()) == Seq::<Seq<char>>::empty());
                assert(chunks_of(d.lines) == chunks(help_text(registry)) + Seq::<
                    Seq<char>,
                >::empty());
                assert(replies(outputs) == Seq::<Seq<char>>::empty());
            } else if cmd.command_name == "reload"@ {
                assert(replies(outputs) == Seq::<Seq<char>>::empty());
            } else {
                assert(chunks_of(d.lines) == Seq::<Seq<char>>::empty());
            }
        },
    }
}

} // verus!

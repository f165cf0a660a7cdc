//! The automation channel: a second invocation of the program signals the
//! running instance instead of starting again. The channel itself is
//! process plumbing; here live its vocabulary, the mapping from command
//! line flags to the one message that is sent, the dispatch of received
//! messages, and the derivation of the socket path.

use vstd::prelude::*;

use vstd::utf8::encode_utf8;

verus! {

/// The envelope kinds travelling over the automation socket.
#[derive(Clone, Debug)]
pub enum IPCMessage {
    /// The initial channel value; never a real message.
    Init,
    /// An automation command follows.
    AutomationSocket,
    /// A plugin forwarded a response over the channel.
    PluginResponse(String),
}

/// The command line flags of a second invocation.
#[derive(Clone, Copy, Debug, PartialEq, Eq, Structural)]
pub struct Args {
    /// Start hidden in the background.
    pub background: bool,
    /// Ask the running instance to quit.
    pub quit: bool,
    /// Ask the running instance to rotate now.
    pub update: bool,
    /// Ask the running instance to refetch its queue.
    pub fetch: bool,
}

/// What one invocation can ask the running instance to do.
#[derive(Clone, Debug)]
pub enum Message {
    /// Rotate the wallpaper now.
    UpdateWallpaper,
    /// Rotate using one specific source.
    UpdateFromSource(String),
    /// Show the main window.
    Show,
    /// Refetch the queue from every plugin.
    FetchCache,
    /// Quit.
    Quit,
}

/// The message a set of flags sends, by precedence: quit wins, then
/// fetch, then update; plain invocations just show the window.
pub open spec fn spec_message_for(args: Args) -> Message {
    if args.quit {
        Message::Quit
    } else if args.fetch {
        Message::FetchCache
    } else if args.update {
        Message::UpdateWallpaper
    } else {
        Message::Show
    }
}

impl Args {
    /// The one message this invocation sends to the running instance.
    pub fn message(&self) -> (r: Message)
        ensures
            r == spec_message_for(*self),
    {
        if self.quit {
            Message::Quit
        } else if self.fetch {
            Message::FetchCache
        } else if self.update {
            Message::UpdateWallpaper
        } else {
            Message::Show
        }
    }
}

/// What the running instance does with a received message.
#[derive(Clone, Copy, Debug, PartialEq, Eq, Structural)]
pub enum AutomationAction {
    /// Bring up the main window.
    ShowWindow,
    /// Run one rotation cycle.
    RunUpdate,
    /// Exit the process.
    Exit,
    /// Nothing; the message has no handler.
    Ignore,
}

/// The dispatch of automation messages.
pub open spec fn spec_automation_action(m: Message) -> AutomationAction {
    match m {
        Message::Show => AutomationAction::ShowWindow,
        Message::UpdateWallpaper => AutomationAction::RunUpdate,
        Message::Quit => AutomationAction::Exit,
        Message::UpdateFromSource(_) => AutomationAction::Ignore,
        Message::FetchCache => AutomationAction::Ignore,
    }
}

/// Decides what a received automation message amounts to.
pub fn automation_action(m: &Message) -> (r: AutomationAction)
    ensures
        r == spec_automation_action(*m),
{
    match m {
        Message::Show => AutomationAction::ShowWindow,
        Message::UpdateWallpaper => AutomationAction::RunUpdate,
        Message::Quit => AutomationAction::Exit,
        Message::UpdateFromSource(_) => AutomationAction::Ignore,
        Message::FetchCache => AutomationAction::Ignore,
    }
}

/// The channel's initial value is never delivered as a message.
pub fn passes_filter(m: &IPCMessage) -> (r: bool)
    ensures
        r == !(*m is Init),
{
    match m {
        IPCMessage::Init => false,
        _ => true,
    }
}

/// How binding the automation socket went.
#[derive(Clone, Copy, Debug, PartialEq, Eq, Structural)]
pub enum BindOutcome {
    /// The socket is ours.
    Bound,
    /// Another process holds the address.
    AddressInUse,
    /// Binding failed for any other reason.
    OtherFailure,
}

/// How connecting to an already-bound socket went.
#[derive(Clone, Copy, Debug, PartialEq, Eq, Structural)]
pub enum ConnectOutcome {
    /// A running instance answered.
    Connected,
    /// Nobody listens: the socket file is stale.
    Refused,
    /// Connecting failed for any other reason.
    OtherFailure,
}

/// What this invocation does about the automation socket.
#[derive(Clone, Copy, Debug, PartialEq, Eq, Structural)]
pub enum SocketPlan {
    /// First instance: listen and dispatch automation messages.
    Serve,
    /// An instance is running: send it our one message and exit.
    SendAndExit,
    /// The socket file is left over from a dead instance: remove it and
    /// bind again.
    RemoveStaleAndRebind,
    /// The socket can neither be claimed nor reached.
    Fail,
}

/// The socket-claim decision: a fresh bind serves; a busy address is a
/// running instance to signal, unless the connection is refused, in which
/// case the file is stale and reclaimed; anything else fails.
pub open spec fn spec_claim_socket(bind: BindOutcome, busy: ConnectOutcome) -> SocketPlan {
    match bind {
        BindOutcome::Bound => SocketPlan::Serve,
        BindOutcome::OtherFailure => SocketPlan::Fail,
        BindOutcome::AddressInUse => match busy {
            ConnectOutcome::Connected => SocketPlan::SendAndExit,
            ConnectOutcome::Refused => SocketPlan::RemoveStaleAndRebind,
            ConnectOutcome::OtherFailure => SocketPlan::Fail,
        },
    }
}

/// Decides what to do with the automation socket, from the bind attempt's
/// outcome and, where the address was busy, the connect attempt's.
pub fn claim_socket(bind: BindOutcome, busy: ConnectOutcome) -> (r: SocketPlan)
    ensures
        r == spec_claim_socket(bind, busy),
{
    match bind {
        BindOutcome::Bound => SocketPlan::Serve,
        BindOutcome::OtherFailure => SocketPlan::Fail,
        BindOutcome::AddressInUse => match busy {
            ConnectOutcome::Connected => SocketPlan::SendAndExit,
            ConnectOutcome::Refused => SocketPlan::RemoveStaleAndRebind,
            ConnectOutcome::OtherFailure => SocketPlan::Fail,
        },
    }
}

/// One lowercase hexadecimal digit.
pub open spec fn hex_digit(n: int) -> char {
    if n < 10 {
        ((48 + n) as u8) as char
    } else {
        ((87 + n) as u8) as char
    }
}

/// Lowercase hexadecimal, two digits per byte.
pub open spec fn hex_of(bytes: Seq<u8>) -> Seq<char>
    decreases bytes.len(),
{
    if bytes.len() == 0 {
        Seq::empty()
    } else {
        hex_of(bytes.drop_last()) + seq![
            hex_digit(bytes.last() as int / 16),
            hex_digit(bytes.last() as int % 16),
        ]
    }
}

/// Relies on `hex::encode`: two lowercase hexadecimal digits per input
/// byte, in order.
#[verifier::external_body]
fn hex_encode(b: &[u8]) -> (r: String)
    ensures
        r@ == hex_of(b@),
{
    hex::encode(b)
}

/// The path of the automation socket: a fixed stem, the build's socket
/// id, and the user's name hex-encoded so that any name is path-safe.
pub fn socket_path(socket_id: &str, username: &str) -> (r: String)
    ensures
        r@ == "/tmp/reddw-"@ + socket_id@ + "-"@ + hex_of(encode_utf8(username@)) + ".sock"@,
{
    let mut out = String::new();
    out.append("/tmp/reddw-");
    out.append(socket_id);
    out.append("-");
    let user_hex = hex_encode(username.as_bytes());
    out.append(user_hex.as_str());
    out.append(".sock");
    out
}

} // verus!

//! What clients ask of the daemon, and what it tells them.

use crate::backend::PaneId;
use vstd::prelude::*;

verus! {

/// A request of an attached client.
#[derive(Debug)]
pub enum ClientMessage {
    Hello { version: String },
    OpenRepo { path: String },
    FocusRepo { repo: String },
    SetAccent { accent: usize },
    ReloadConfig,
    CloseRepo { repo: String },
    Shutdown,
}

pub enum ClientMessageModel {
    Hello { version: Seq<char> },
    OpenRepo { path: Seq<char> },
    FocusRepo { repo: Seq<char> },
    SetAccent { accent: usize },
    ReloadConfig,
    CloseRepo { repo: Seq<char> },
    Shutdown,
}

impl ClientMessage {
    pub open spec fn model(&self) -> ClientMessageModel {
        match self {
            ClientMessage::Hello { version } => ClientMessageModel::Hello { version: version@ },
            ClientMessage::OpenRepo { path } => ClientMessageModel::OpenRepo { path: path@ },
            ClientMessage::FocusRepo { repo } => ClientMessageModel::FocusRepo { repo: repo@ },
            ClientMessage::SetAccent { accent } => ClientMessageModel::SetAccent {
                accent: *accent,
            },
            ClientMessage::ReloadConfig => ClientMessageModel::ReloadConfig,
            ClientMessage::CloseRepo { repo } => ClientMessageModel::CloseRepo { repo: repo@ },
            ClientMessage::Shutdown => ClientMessageModel::Shutdown,
        }
    }
}

/// An open repository, by its catalog id.
#[derive(Debug)]
pub struct SessionRepo {
    pub id: String,
    pub path: String,
}

/// What a repository's terminals report.
#[derive(Debug)]
pub enum TerminalEvent {
    /// A pane now exists; `client` asked for it.
    Created { pane: PaneId, rows: u16, cols: u16, client: Option<u64>, title: Option<String> },
    /// Any other event, in its JSON form.
    Other(String),
}

/// What the daemon says to a client.
#[derive(Debug)]
pub enum ServerMessage {
    Hello { version: String, client: u64 },
    /// The repositories that are open now.
    Repos { repos: Vec<SessionRepo> },
    /// Something happened to a repository's terminals.
    Terminal { repo: String, event: TerminalEvent },
    Error { message: String },
    /// The configuration was read again.
    Reloaded,
}

/// The event with its requester in the attach socket's id space: a pane that
/// `hub_client` asked for is one that `attached` asked for, and no other pane
/// is.
pub open spec fn rewritten(event: TerminalEvent, hub_client: u64, attached: u64) -> TerminalEvent {
    match event {
        TerminalEvent::Created { pane, rows, cols, client, title } => TerminalEvent::Created {
            pane,
            rows,
            cols,
            client: if client == Some(hub_client) {
                Some(attached)
            } else {
                None
            },
            title,
        },
        other => other,
    }
}

/// Put a `Created` event's requester into the attach socket's id space, and
/// leave every other event alone. The client has no way to know its id at each
/// repository's hub.
pub fn rewrite_requester(event: TerminalEvent, hub_client: u64, attached: u64) -> (r: TerminalEvent)
    ensures
        r == rewritten(event, hub_client, attached),
{
    match event {
        TerminalEvent::Created { pane, rows, cols, client, title } => {
            let mine = match client {
                Some(id) => id == hub_client,
                None => false,
            };
            TerminalEvent::Created {
                pane,
                rows,
                cols,
                client: if mine {
                    Some(attached)
                } else {
                    None
                },
                title,
            }
        },
        other => other,
    }
}

/// A client recognises its own panes: after the rewrite an event names the
/// attached client exactly where the hub named this client's bridge.
pub proof fn law_own_panes_are_recognised(event: TerminalEvent, hub_client: u64, attached: u64)
    requires
        event is Created,
    ensures
        rewritten(event, hub_client, attached)->client == Some(attached) <==> event->client == Some(
            hub_client,
        ),
        rewritten(event, hub_client, attached)->client is Some ==> rewritten(
            event,
            hub_client,
            attached,
        )->client == Some(attached),
{
}

/// Rewriting touches nothing but who asked for a pane: everything else of an
/// arrival, and every other event, is passed on as it is.
pub proof fn law_only_the_requester_is_rewritten(
    event: TerminalEvent,
    hub_client: u64,
    attached: u64,
)
    ensures
        event is Other ==> rewritten(event, hub_client, attached) == event,
        event matches TerminalEvent::Created { pane, rows, cols, client, title } ==> rewritten(
            event,
            hub_client,
            attached,
        ) == (TerminalEvent::Created {
            pane,
            rows,
            cols,
            client: if client == Some(hub_client) {
                Some(attached)
            } else {
                None
            },
            title,
        }),
{
}

} // verus!

//! Which backend holds the state, and which part of it serves each area.

use vstd::prelude::*;

verus! {

/// A place to keep the agent's state.
#[derive(Clone, Copy, Debug, PartialEq, Eq, Structural)]
pub enum Backend {
    /// JSON files under the data directory.
    Files,
    /// The database `agent.db`.
    Sqlite,
}

/// A part of the agent's state.
#[derive(Clone, Copy, Debug, PartialEq, Eq, Structural)]
pub enum Area {
    /// Chat transcripts.
    Chats,
    /// Paused and finished flow runs.
    FlowRuns,
    /// Named JSON documents.
    Docs,
    /// Scheduled follow-up tasks.
    Scheduled,
    /// The vault of keys and secrets.
    Keys,
    /// Gateway channel instances.
    Gateway,
    /// Which integration packs are enabled.
    Packs,
}

/// The backend to use, and whether it is another one than was asked for.
#[derive(Clone, Copy, Debug, PartialEq, Eq, Structural)]
pub struct Choice {
    pub backend: Backend,
    /// The database was asked for and cannot be had: a warning is due.
    pub fell_back: bool,
}

/// What a setting asks for: the database where it reads `sqlite`, files otherwise.
pub open spec fn requested_by(setting: Option<Seq<char>>) -> Backend {
    if setting == Some("sqlite"@) {
        Backend::Sqlite
    } else {
        Backend::Files
    }
}

/// The text of an optional string.
pub open spec fn text_of(string: Option<&str>) -> Option<Seq<char>> {
    match string {
        Some(text) => Some(text@),
        None => None,
    }
}

/// The backend that the value of `METALCRAFT_STORE` asks for; `None` where it is not
/// set.
pub fn requested(setting: Option<&str>) -> (backend: Backend)
    ensures
        backend == requested_by(text_of(setting)),
{
    match setting {
        Some(text) => {
            if text.to_owned() == "sqlite".to_owned() {
                Backend::Sqlite
            } else {
                Backend::Files
            }
        },
        None => Backend::Files,
    }
}

/// The backend to use. A request for the database that cannot be met is answered with
/// files.
pub fn select(setting: Option<&str>, sqlite_available: bool) -> (choice: Choice)
    ensures
        choice.backend == Backend::Sqlite <==> requested_by(text_of(setting))
            == Backend::Sqlite && sqlite_available,
        choice.fell_back <==> requested_by(text_of(setting)) == Backend::Sqlite
            && !sqlite_available,
{
    match requested(setting) {
        Backend::Sqlite => {
            if sqlite_available {
                Choice { backend: Backend::Sqlite, fell_back: false }
            } else {
                Choice { backend: Backend::Files, fell_back: true }
            }
        },
        Backend::Files => Choice { backend: Backend::Files, fell_back: false },
    }
}

impl Area {
    /// The document that holds the area, for one that is kept as a single document.
    pub open spec fn document_name(self) -> Option<Seq<char>> {
        match self {
            Area::Scheduled => Some("scheduled_tasks"@),
            Area::Keys => Some("keys"@),
            Area::Gateway => Some("gateway_channels"@),
            Area::Packs => Some("integration_packs"@),
            Area::Chats | Area::FlowRuns | Area::Docs => None,
        }
    }

    /// The document that holds the area, for one that is kept as a single document.
    pub fn document(self) -> (name: Option<&'static str>)
        ensures
            text_of(name) == self.document_name(),
    {
        match self {
            Area::Scheduled => Some("scheduled_tasks"),
            Area::Keys => Some("keys"),
            Area::Gateway => Some("gateway_channels"),
            Area::Packs => Some("integration_packs"),
            Area::Chats | Area::FlowRuns | Area::Docs => None,
        }
    }
}

impl Backend {
    /// The backend whose code answers for an area. The areas that are kept as one
    /// document carry their logic in the files backend, whichever backend is in use.
    pub open spec fn serves(self, area: Area) -> Backend {
        if area.document_name() is Some {
            Backend::Files
        } else {
            self
        }
    }

    /// The backend in which the state of an area ends up. What is kept as one document
    /// is read and written through the documents of the backend in use.
    pub open spec fn keeps(self, area: Area) -> Backend {
        if area.document_name() is Some {
            self.serves(Area::Docs)
        } else {
            self.serves(area)
        }
    }

    /// The backend whose code answers for an area.
    pub fn facade(self, area: Area) -> (backend: Backend)
        ensures
            backend == self.serves(area),
    {
        match area {
            Area::Chats | Area::FlowRuns | Area::Docs => self,
            Area::Scheduled | Area::Keys | Area::Gateway | Area::Packs => Backend::Files,
        }
    }

    /// The backend in which the state of an area ends up.
    pub fn persists_in(self, area: Area) -> (backend: Backend)
        ensures
            backend == self.keeps(area),
    {
        match area.document() {
            Some(_) => self.facade(Area::Docs),
            None => self.facade(area),
        }
    }
}

} // verus!

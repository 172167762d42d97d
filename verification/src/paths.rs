//! Where the state lies under the data directory.
//!
//! A file is told by the folder that it is in and its name there. Which path that is, the
//! system says that joins the two: a name may lead out of its folder, such as one that is
//! an absolute path.

use vstd::prelude::*;

verus! {

/// A folder of the data directory.
#[derive(Clone, Copy, Debug, PartialEq, Eq, Structural)]
pub enum Folder {
    /// The data directory itself.
    Data,
    /// The folder of the chat files.
    Chats,
    /// The folder of the flow run files.
    Runs,
}

/// A file: the name to join to the path of its folder.
pub struct FilePath {
    pub folder: Folder,
    pub name: String,
}

/// What a file is told by.
pub struct Place {
    pub folder: Folder,
    pub name: Seq<char>,
}

impl View for FilePath {
    type V = Place;

    open spec fn view(&self) -> Place {
        Place { folder: self.folder, name: self.name@ }
    }
}

impl Folder {
    /// The name of the folder in the data directory; none for the data directory itself.
    pub open spec fn name_text(self) -> Option<Seq<char>> {
        match self {
            Folder::Data => None,
            Folder::Chats => Some("chats"@),
            Folder::Runs => Some("runs"@),
        }
    }

    /// The name to join to the path of the data directory; none for the data directory
    /// itself.
    pub fn name(self) -> (name: Option<&'static str>)
        ensures
            match name {
                Some(text) => self.name_text() == Some(text@),
                None => self.name_text() is None,
            },
    {
        match self {
            Folder::Data => None,
            Folder::Chats => Some("chats"),
            Folder::Runs => Some("runs"),
        }
    }
}

/// The file name of what is kept under `id` as JSON.
pub open spec fn json_name(id: Seq<char>) -> Seq<char> {
    id + ".json"@
}

/// The file that is kept under `id` in a folder.
pub open spec fn json_place(folder: Folder, id: Seq<char>) -> Place {
    Place { folder, name: json_name(id) }
}

/// Whether a file name has the extension `json`. A name that is an extension only has
/// none.
pub open spec fn is_json_name(name: Seq<char>) -> bool {
    name.len() > 5 && name.skip(name.len() - 5) == ".json"@
}

/// The file that is kept under `id` in a folder.
pub fn json_file(folder: Folder, id: &str) -> (path: FilePath)
    ensures
        path@ == json_place(folder, id@),
{
    let mut name = id.to_owned();
    name.append(".json");
    FilePath { folder, name }
}

/// Whether a file name has the extension `json`.
pub fn has_json_extension(name: &str) -> (yes: bool)
    ensures
        yes == is_json_name(name@),
{
    proof {
        reveal_strlit(".json");
    }
    let n: usize = name.unicode_len();
    if n <= 5 {
        return false;
    }
    let tail = name.substring_char(n - 5, n);
    assert(tail@ =~= name@.skip(name@.len() - 5));
    tail.to_owned() == ".json".to_owned()
}

/// The database.
pub fn default_db_path() -> (path: FilePath)
    ensures
        path@ == (Place { folder: Folder::Data, name: "agent.db"@ }),
{
    FilePath { folder: Folder::Data, name: "agent.db".to_owned() }
}

} // verus!

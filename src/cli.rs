use vstd::prelude::*;

verus! {

/// How much the program reports.
#[derive(Debug, Clone, Copy, PartialEq, Eq, Structural)]
pub enum LogLevel {
    Trace,
    Debug,
    Info,
    Warn,
    Error,
}

/// A source of metadata.
#[derive(Debug, Clone, Copy, PartialEq, Eq, Structural)]
pub enum Backend {
    Spotify,
}

/// What the program is asked to do.
#[derive(Debug, Clone)]
pub enum Command {
    /// Sort files by their metadata, in place or copied out to a directory.
    Sort { destination_directory: Option<String>, ignore_db: bool, auto_init: bool },
    /// Fetch metadata for files.
    Fetch { backend: bool },
    /// Scan the library again and reconcile its index, assigning identities.
    Update,
    /// Create an index at the library root.
    Init { force_reinit: bool },
    /// Print the contents of the index.
    DumpDb,
    /// Print the files of the library.
    List,
    /// Edit the metadata of a song.
    Edit { song: String, editor: Option<String> },
    /// Print the metadata of songs.
    Show { songs: Vec<String> },
}

/// The arguments of the program.
#[derive(Debug, Clone)]
pub struct Cli {
    pub log_level: LogLevel,
    pub no_browser: bool,
    /// The library directory; the current directory when absent.
    pub directory: Option<String>,
    pub command: Command,
}

/// Arguments that cannot go together.
#[derive(Debug, Clone, Copy, PartialEq, Eq, Structural)]
pub enum CliError {
    /// A sort may not both leave the index alone and create one.
    IgnoreAndInit,
}

impl Command {
    /// Whether the arguments conflict.
    pub open spec fn conflicts(&self) -> bool {
        match self {
            Command::Sort { ignore_db, auto_init, .. } => *ignore_db && *auto_init,
            _ => false,
        }
    }

    /// Refuses a command whose arguments conflict, before anything is done.
    pub fn validate(&self) -> (r: Result<(), CliError>)
        ensures
            r is Err <==> self.conflicts(),
    {
        match self {
            Command::Sort { ignore_db, auto_init, .. } => {
                if *ignore_db && *auto_init {
                    Err(CliError::IgnoreAndInit)
                } else {
                    Ok(())
                }
            },
            _ => Ok(()),
        }
    }
}

} // verus!

//! Status of the server's environment file.
use vstd::prelude::*;

verus! {

/// Whether the environment file was found and loaded, and from where.
#[derive(Debug, Clone)]
pub struct EnvStatus {
    pub env_file_loaded: bool,
    pub env_file_path: String,
    pub env_file_error: Option<String>,
}

/// What happened when the environment file at a path was looked at.
#[derive(Debug, Clone)]
pub enum EnvFileProbe {
    /// The path is not a regular file; nothing was loaded.
    NotAFile,
    /// The file was read and its variables set.
    Loaded,
    /// The file exists but could not be loaded, with the loader's message.
    Failed(String),
}

/// The status reported for the environment file at `path` (shown as given):
/// loaded only when the file was read; a loader error is kept; a missing file
/// is no error.
pub fn load_env(path: String, probe: EnvFileProbe) -> (s: EnvStatus)
    ensures
        s.env_file_path@ == path@,
        s.env_file_loaded == (probe is Loaded),
        match probe {
            EnvFileProbe::Failed(msg) => s.env_file_error == Some(msg),
            _ => s.env_file_error is None,
        },
{
    match probe {
        EnvFileProbe::NotAFile => EnvStatus {
            env_file_loaded: false,
            env_file_path: path,
            env_file_error: None,
        },
        EnvFileProbe::Loaded => EnvStatus {
            env_file_loaded: true,
            env_file_path: path,
            env_file_error: None,
        },
        EnvFileProbe::Failed(msg) => EnvStatus {
            env_file_loaded: false,
            env_file_path: path,
            env_file_error: Some(msg),
        },
    }
}

} // verus!

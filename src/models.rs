use vstd::prelude::*;

verus! {

/// Where a plugin was found.
#[derive(Clone, Copy, Debug, PartialEq, Eq, Structural)]
pub enum PluginLocation {
    User,
    BuiltIn,
}

/// The location of a plugin as a summary reports it.
#[derive(Clone, Copy, Debug, PartialEq, Eq, Structural)]
pub enum PluginLocationRepr {
    BuiltIn,
    User,
}

impl From<PluginLocation> for PluginLocationRepr {
    fn from(value: PluginLocation) -> (r: PluginLocationRepr) {
        match value {
            PluginLocation::BuiltIn => PluginLocationRepr::BuiltIn,
            PluginLocation::User => PluginLocationRepr::User,
        }
    }
}

impl vstd::std_specs::convert::FromSpecImpl<PluginLocation> for PluginLocationRepr {
    open spec fn obeys_from_spec() -> bool {
        true
    }

    open spec fn from_spec(v: PluginLocation) -> PluginLocationRepr {
        match v {
            PluginLocation::BuiltIn => PluginLocationRepr::BuiltIn,
            PluginLocation::User => PluginLocationRepr::User,
        }
    }
}

/// The directories that are searched for plugins.
#[derive(Debug, PartialEq, Eq)]
pub struct PluginDirectoriesConfig {
    pub user: Vec<String>,
    pub built_in: Vec<String>,
}

impl Default for PluginDirectoriesConfig {
    fn default() -> (r: PluginDirectoriesConfig)
        ensures
            r.user@.len() == 0,
            r.built_in@.len() == 0,
    {
        PluginDirectoriesConfig { user: Vec::new(), built_in: Vec::new() }
    }
}

/// Progress of preparing the sandbox's root file system.
#[derive(Debug, PartialEq, Eq)]
pub enum DownloadProgress {
    Downloading { file: String, downloaded: u64, total: Option<u64>, percentage: Option<u8> },
    Extracting { file: String, percentage: Option<u8> },
    Completed,
    Error { message: String },
}

/// A project folder as the project list shows it.
#[derive(Debug, PartialEq, Eq)]
pub struct ProjectEntry {
    pub name: String,
    pub path: String,
    pub last_modified_secs: Option<u64>,
}

/// A request to create a project from a template.
#[derive(Debug, PartialEq, Eq)]
pub struct CreateProjectRequest {
    pub template_id: String,
    pub name: String,
}

/// The project that was created.
#[derive(Debug, PartialEq, Eq)]
pub struct CreateProjectResponse {
    pub project: ProjectEntry,
}

/// What a new entry of a project is.
#[derive(Clone, Copy, Debug, PartialEq, Eq, Structural)]
pub enum NewEntryKind {
    File,
    Folder,
}

/// A ping to the file-picker service.
#[derive(Debug, PartialEq, Eq)]
pub struct PingRequest {
    pub value: Option<String>,
}

/// The file-picker service's answer to a ping.
#[derive(Debug, PartialEq, Eq)]
pub struct PingResponse {
    pub value: Option<String>,
}

/// A request to copy what a content URI names to a local file.
#[derive(Debug, PartialEq, Eq)]
pub struct ReadContentUriRequest {
    pub content_uri: String,
    pub target_path: Option<String>,
}

/// What reading a content URI gave.
#[derive(Debug, PartialEq, Eq)]
pub struct ReadContentUriResponse {
    pub success: bool,
    pub path: Option<String>,
    pub content: Option<String>,
    pub size: Option<usize>,
}

} // verus!

//! Data types shared by discovery and loading, together with their
//! mathematical views. Exec values carry `String` and `Vec`; each type views
//! to a model made of `Seq<char>` and `Seq<u8>` so that contracts can be
//! stated over pure sequences.

use vstd::prelude::*;

verus! {

/// Origin of a steering document.
#[derive(Debug, Clone, Copy, PartialEq, Eq, Structural)]
pub enum SteeringScope {
    Global,
    Project,
}

impl SteeringScope {
    pub fn as_str(self) -> (r: &'static str)
        ensures
            r@ == spec_scope_str(self),
    {
        match self {
            SteeringScope::Global => "global",
            SteeringScope::Project => "project",
        }
    }
}

/// The character sequence that names a scope in reports and headers.
pub open spec fn spec_scope_str(scope: SteeringScope) -> Seq<char> {
    match scope {
        SteeringScope::Global => "global"@,
        SteeringScope::Project => "project"@,
    }
}

/// Health of one scanned directory.
#[derive(Debug, Clone, PartialEq, Eq)]
pub enum DirState {
    Missing,
    Present,
    Error(String),
}

/// Model of [`DirState`].
#[verifier::ext_equal]
pub enum DirStateModel {
    Missing,
    Present,
    Error(Seq<char>),
}

impl View for DirState {
    type V = DirStateModel;

    open spec fn view(&self) -> DirStateModel {
        match self {
            DirState::Missing => DirStateModel::Missing,
            DirState::Present => DirStateModel::Present,
            DirState::Error(m) => DirStateModel::Error(m@),
        }
    }
}

/// One discovered candidate document.
#[derive(Debug, Clone, PartialEq, Eq)]
pub struct SteeringFile {
    pub scope: SteeringScope,
    /// Path to the file on disk.
    pub path: String,
    /// Stable, scope-prefixed path used for ordering and reporting.
    pub display_path: String,
}

/// Model of [`SteeringFile`].
#[verifier::ext_equal]
pub struct FileModel {
    pub scope: SteeringScope,
    pub path: Seq<char>,
    pub display: Seq<char>,
}

impl View for SteeringFile {
    type V = FileModel;

    open spec fn view(&self) -> FileModel {
        FileModel { scope: self.scope, path: self.path@, display: self.display_path@ }
    }
}

/// Maps a sequence of exec files to their models.
pub open spec fn files_view(s: Seq<SteeringFile>) -> Seq<FileModel> {
    s.map_values(|f: SteeringFile| f@)
}

/// Everything discovery determines: the two directories, their health, and
/// the ordered candidate list.
#[derive(Debug, Clone, PartialEq, Eq)]
pub struct SteeringDiscovery {
    pub codex_home: String,
    pub repo_root: String,
    pub global_dir: String,
    pub project_dir: String,
    /// Discovered steering files in deterministic load order.
    pub files: Vec<SteeringFile>,
    pub global_dir_state: DirState,
    pub project_dir_state: DirState,
}

/// Model of [`SteeringDiscovery`].
#[verifier::ext_equal]
pub struct DiscoveryModel {
    pub codex_home: Seq<char>,
    pub repo_root: Seq<char>,
    pub global_dir: Seq<char>,
    pub project_dir: Seq<char>,
    pub files: Seq<FileModel>,
    pub global_dir_state: DirStateModel,
    pub project_dir_state: DirStateModel,
}

impl View for SteeringDiscovery {
    type V = DiscoveryModel;

    open spec fn view(&self) -> DiscoveryModel {
        DiscoveryModel {
            codex_home: self.codex_home@,
            repo_root: self.repo_root@,
            global_dir: self.global_dir@,
            project_dir: self.project_dir@,
            files: files_view(self.files@),
            global_dir_state: self.global_dir_state@,
            project_dir_state: self.project_dir_state@,
        }
    }
}

/// Why a discovered file contributed no text.
#[derive(Debug, Clone, PartialEq, Eq)]
pub enum OmissionReason {
    Disabled,
    Empty,
    NonUtf8,
    OverBudget,
    Io(String),
}

impl OmissionReason {
    pub fn as_str(&self) -> (r: &'static str)
        ensures
            r@ == spec_reason_str(self@),
    {
        match self {
            OmissionReason::Disabled => "disabled",
            OmissionReason::Empty => "empty",
            OmissionReason::NonUtf8 => "non-utf8",
            OmissionReason::OverBudget => "over-budget",
            OmissionReason::Io(_) => "io-error",
        }
    }
}

/// Model of [`OmissionReason`].
#[verifier::ext_equal]
pub enum ReasonModel {
    Disabled,
    Empty,
    NonUtf8,
    OverBudget,
    Io(Seq<char>),
}

impl View for OmissionReason {
    type V = ReasonModel;

    open spec fn view(&self) -> ReasonModel {
        match self {
            OmissionReason::Disabled => ReasonModel::Disabled,
            OmissionReason::Empty => ReasonModel::Empty,
            OmissionReason::NonUtf8 => ReasonModel::NonUtf8,
            OmissionReason::OverBudget => ReasonModel::OverBudget,
            OmissionReason::Io(m) => ReasonModel::Io(m@),
        }
    }
}

/// The character sequence that names an omission reason in reports.
pub open spec fn spec_reason_str(r: ReasonModel) -> Seq<char> {
    match r {
        ReasonModel::Disabled => "disabled"@,
        ReasonModel::Empty => "empty"@,
        ReasonModel::NonUtf8 => "non-utf8"@,
        ReasonModel::OverBudget => "over-budget"@,
        ReasonModel::Io(_) => "io-error"@,
    }
}

/// What loading did with one discovered file.
#[derive(Debug, Clone, PartialEq, Eq)]
pub enum SteeringFileStatus {
    Included { bytes: usize, truncated: bool },
    Omitted { reason: OmissionReason },
}

/// Model of [`SteeringFileStatus`].
#[verifier::ext_equal]
pub enum StatusModel {
    Included { bytes: int, truncated: bool },
    Omitted { reason: ReasonModel },
}

impl View for SteeringFileStatus {
    type V = StatusModel;

    open spec fn view(&self) -> StatusModel {
        match self {
            SteeringFileStatus::Included { bytes, truncated } => StatusModel::Included {
                bytes: *bytes as int,
                truncated: *truncated,
            },
            SteeringFileStatus::Omitted { reason } => StatusModel::Omitted { reason: reason@ },
        }
    }
}

/// Per-file loading report.
#[derive(Debug, Clone, PartialEq, Eq)]
pub struct SteeringFileOutcome {
    pub scope: SteeringScope,
    pub path: String,
    pub display_path: String,
    pub status: SteeringFileStatus,
}

/// Model of [`SteeringFileOutcome`].
#[verifier::ext_equal]
pub struct OutcomeModel {
    pub scope: SteeringScope,
    pub path: Seq<char>,
    pub display: Seq<char>,
    pub status: StatusModel,
}

impl View for SteeringFileOutcome {
    type V = OutcomeModel;

    open spec fn view(&self) -> OutcomeModel {
        OutcomeModel {
            scope: self.scope,
            path: self.path@,
            display: self.display_path@,
            status: self.status@,
        }
    }
}

/// Maps a sequence of exec outcomes to their models.
pub open spec fn outcomes_view(s: Seq<SteeringFileOutcome>) -> Seq<OutcomeModel> {
    s.map_values(|o: SteeringFileOutcome| o@)
}

/// The complete loading report handed to the consumer.
#[derive(Debug, Clone, PartialEq, Eq)]
pub struct SteeringLoadResult {
    pub enabled: bool,
    pub max_bytes: usize,
    pub discovery: SteeringDiscovery,
    pub files: Vec<SteeringFileOutcome>,
    pub combined: Option<String>,
}

/// Model of [`SteeringLoadResult`].
#[verifier::ext_equal]
pub struct LoadModel {
    pub enabled: bool,
    pub max_bytes: int,
    pub discovery: DiscoveryModel,
    pub files: Seq<OutcomeModel>,
    pub combined: Option<Seq<char>>,
}

impl View for SteeringLoadResult {
    type V = LoadModel;

    open spec fn view(&self) -> LoadModel {
        LoadModel {
            enabled: self.enabled,
            max_bytes: self.max_bytes as int,
            discovery: self.discovery@,
            files: outcomes_view(self.files@),
            combined: match self.combined {
                Some(s) => Some(s@),
                None => None,
            },
        }
    }
}

/// What the caller learned about one directory entry's kind, probed without
/// following symbolic links.
#[derive(Debug, Clone, Copy, PartialEq, Eq, Structural)]
pub enum EntryKind {
    /// A regular file.
    RegularFile,
    /// Anything else: a directory, a symbolic link, or a special file.
    NotFile,
    /// The entry's metadata could not be read.
    StatFailed,
}

/// One entry of a scanned directory, as the caller saw it.
#[derive(Debug, Clone, PartialEq, Eq)]
pub struct DirEntry {
    /// The entry's file name.
    pub name: String,
    pub kind: EntryKind,
}

/// Model of [`DirEntry`].
#[verifier::ext_equal]
pub struct EntryModel {
    pub name: Seq<char>,
    pub kind: EntryKind,
}

impl View for DirEntry {
    type V = EntryModel;

    open spec fn view(&self) -> EntryModel {
        EntryModel { name: self.name@, kind: self.kind }
    }
}

/// Maps a sequence of exec entries to their models.
pub open spec fn entries_view(s: Seq<DirEntry>) -> Seq<EntryModel> {
    s.map_values(|e: DirEntry| e@)
}

/// The outcome of listing one directory.
#[derive(Debug, Clone, PartialEq, Eq)]
pub enum DirListing {
    /// The directory does not exist.
    Missing,
    /// Listing failed for another reason; the message describes it.
    Unreadable(String),
    /// The directory was listed; entries come in filesystem order.
    Listed(Vec<DirEntry>),
}

/// Model of [`DirListing`].
#[verifier::ext_equal]
pub enum ListingModel {
    Missing,
    Unreadable(Seq<char>),
    Listed(Seq<EntryModel>),
}

impl View for DirListing {
    type V = ListingModel;

    open spec fn view(&self) -> ListingModel {
        match self {
            DirListing::Missing => ListingModel::Missing,
            DirListing::Unreadable(m) => ListingModel::Unreadable(m@),
            DirListing::Listed(es) => ListingModel::Listed(entries_view(es@)),
        }
    }
}

/// The outcome of opening and reading one candidate file to its end.
#[derive(Debug, Clone, PartialEq, Eq)]
pub enum FileRead {
    /// The file's full contents.
    Content(Vec<u8>),
    /// Opening failed; the message describes the error.
    OpenFailed(String),
}

/// Model of [`FileRead`].
#[verifier::ext_equal]
pub enum ReadModel {
    Content(Seq<u8>),
    OpenFailed(Seq<char>),
}

impl View for FileRead {
    type V = ReadModel;

    open spec fn view(&self) -> ReadModel {
        match self {
            FileRead::Content(v) => ReadModel::Content(v@),
            FileRead::OpenFailed(m) => ReadModel::OpenFailed(m@),
        }
    }
}

/// Maps a sequence of exec reads to their models.
pub open spec fn reads_view(s: Seq<FileRead>) -> Seq<ReadModel> {
    s.map_values(|r: FileRead| r@)
}

} // verus!

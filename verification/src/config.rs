//! The persisted configuration: which folders are scanned, whether that
//! list is usable, and what has to be done to the place where it is kept.
use vstd::prelude::*;

verus! {

/// Why a path cannot serve as a folder to scan.
#[derive(Clone, Copy, Debug, PartialEq, Eq, Structural)]
pub enum PathError {
    /// Nothing exists at the path.
    NotFound,
    /// Something exists there, and it is no directory.
    NotADirectory,
    /// It is a directory whose entries cannot be listed.
    Unreadable,
}

/// Why the persisted configuration could not be had or kept.
#[derive(Clone, Copy, Debug, PartialEq, Eq, Structural)]
pub enum ConfigError {
    /// The directory that holds the file could not be created.
    MkdirFailed,
    /// The configuration could not be put into its persisted form.
    SerializeFailed,
    /// The file could not be written.
    WriteFailed,
    /// The file could not be read.
    ReadFailed,
    /// The file does not hold a configuration.
    ParseFailed,
}

/// What was observed of one path.
#[derive(Clone, Copy, Debug, PartialEq, Eq, Structural)]
pub struct PathProbe {
    /// Something exists at the path.
    pub exists: bool,
    /// It is a directory.
    pub is_dir: bool,
    /// Its entries could be listed.
    pub readable: bool,
}

impl PathProbe {
    /// The verdict on a path of which this was observed. The conditions are
    /// taken in order, so the first one that fails names the error.
    pub open spec fn verdict(self) -> Result<(), PathError> {
        if !self.exists {
            Err(PathError::NotFound)
        } else if !self.is_dir {
            Err(PathError::NotADirectory)
        } else if !self.readable {
            Err(PathError::Unreadable)
        } else {
            Ok(())
        }
    }

    /// The path exists, is a directory and can be listed.
    pub open spec fn usable(self) -> bool {
        self.exists && self.is_dir && self.readable
    }
}

/// The two ordered path lists of a configuration.
#[derive(Debug, PartialEq, Eq)]
pub struct Filters {
    /// Absolute paths of the folders to scan, without repetition, in the
    /// order in which they were added.
    pub include_paths: Vec<String>,
    /// Paths kept for a later exclusion rule. No scan consults them.
    pub exclude_paths: Vec<String>,
}

/// The configuration as it is persisted.
#[derive(Debug, PartialEq, Eq)]
pub struct ResourceConfig {
    /// Identifier of the configuration set.
    pub id: String,
    /// Label shown to the user.
    pub name: String,
    pub filters: Filters,
}

/// The mathematical value of a [`Filters`].
pub ghost struct FiltersView {
    pub include_paths: Seq<Seq<char>>,
    pub exclude_paths: Seq<Seq<char>>,
}

/// The mathematical value of a [`ResourceConfig`].
pub ghost struct ConfigView {
    pub id: Seq<char>,
    pub name: Seq<char>,
    pub filters: FiltersView,
}

impl View for Filters {
    type V = FiltersView;

    open spec fn view(&self) -> FiltersView {
        FiltersView {
            include_paths: self.include_paths.deep_view(),
            exclude_paths: self.exclude_paths.deep_view(),
        }
    }
}

impl View for ResourceConfig {
    type V = ConfigView;

    open spec fn view(&self) -> ConfigView {
        ConfigView { id: self.id@, name: self.name@, filters: self.filters@ }
    }
}

/// The configuration that is written where none is found.
pub open spec fn default_config() -> ConfigView {
    ConfigView {
        id: "allviewer-resources"@,
        name: "AllViewer画像リソース"@,
        filters: FiltersView { include_paths: Seq::empty(), exclude_paths: Seq::empty() },
    }
}

/// A configuration is valid when it names at least one folder and every
/// folder it names was observed to be usable. `probes[i]` is what was
/// observed of the `i`-th folder; a folder without an observation does not
/// count as usable.
pub open spec fn config_valid(config: ConfigView, probes: Seq<PathProbe>) -> bool {
    &&& 0 < config.filters.include_paths.len() <= probes.len()
    &&& forall|i: int|
        0 <= i < config.filters.include_paths.len() ==> (#[trigger] probes[i]).usable()
}

/// What was observed of the place where the configuration is kept.
#[derive(Clone, Copy, Debug, PartialEq, Eq, Structural)]
pub struct StoreProbe {
    /// The file lies in a directory that does not exist yet.
    pub parent_missing: bool,
    /// The file exists.
    pub file_exists: bool,
}

/// One thing to do to the place where the configuration is kept.
#[derive(Debug, PartialEq, Eq)]
pub enum StoreAction {
    /// Create the directory that holds the file, and those above it.
    CreateParentDir,
    /// Write this configuration to the file.
    WriteConfig(ResourceConfig),
}

/// The mathematical value of a [`StoreAction`].
pub ghost enum StoreActionView {
    CreateParentDir,
    WriteConfig(ConfigView),
}

impl DeepView for StoreAction {
    type V = StoreActionView;

    open spec fn deep_view(&self) -> StoreActionView {
        match self {
            StoreAction::CreateParentDir => StoreActionView::CreateParentDir,
            StoreAction::WriteConfig(config) => StoreActionView::WriteConfig(config@),
        }
    }
}

/// What has to be done so that a configuration file exists, in the order
/// in which it is done: the directory is created where it is missing, and
/// the default configuration is written where there is no file. A file
/// that exists is left alone.
pub open spec fn ensure_plan(probe: StoreProbe) -> Seq<StoreActionView> {
    let create = if probe.parent_missing {
        seq![StoreActionView::CreateParentDir]
    } else {
        Seq::empty()
    };
    let write = if probe.file_exists {
        Seq::empty()
    } else {
        seq![StoreActionView::WriteConfig(default_config())]
    };
    create + write
}

/// Where the configuration is kept: a directory, and the name of the file
/// in it.
#[derive(Debug, PartialEq, Eq)]
pub struct ConfigLocation {
    pub dir: String,
    pub file_name: String,
}

/// The directory in which the configuration is kept: the data directory of
/// the application where the platform gives one, else the directory of the
/// running executable, else the current directory.
pub open spec fn config_dir(app_data_dir: Option<Seq<char>>, exe_dir: Option<Seq<char>>) -> Seq<
    char,
> {
    match app_data_dir {
        Some(dir) => dir,
        None => match exe_dir {
            Some(dir) => dir,
            None => "."@,
        },
    }
}

/// The configuration after `path` has been added to `config`: a path that
/// it names already is not added again.
pub open spec fn with_path(config: ConfigView, path: Seq<char>) -> ConfigView {
    if config.filters.include_paths.contains(path) {
        config
    } else {
        ConfigView {
            filters: FiltersView {
                include_paths: config.filters.include_paths.push(path),
                ..config.filters
            },
            ..config
        }
    }
}

/// What the presentation layer is told about the configuration.
#[derive(Clone, Copy, Debug, PartialEq, Eq, Structural)]
pub enum Notification {
    /// The configuration was loaded; the flag says whether it is valid.
    ConfigStatus(bool),
    /// The configuration was loaded and names no usable set of folders.
    ConfigRequired,
    /// The configuration could not be loaded.
    ConfigFailed(ConfigError),
}

/// The notifications that follow an attempt to load the configuration and
/// judge it, in the order in which they are sent.
pub open spec fn notifications_for(checked: Result<bool, ConfigError>) -> Seq<Notification> {
    match checked {
        Ok(true) => seq![Notification::ConfigStatus(true)],
        Ok(false) => seq![Notification::ConfigStatus(false), Notification::ConfigRequired],
        Err(e) => seq![Notification::ConfigFailed(e)],
    }
}

/// Says what the presentation layer is to be told once the configuration
/// has been loaded and judged, or could not be loaded.
pub fn config_notifications(checked: Result<bool, ConfigError>) -> (sent: Vec<Notification>)
    ensures
        sent@ == notifications_for(checked),
{
    let mut sent: Vec<Notification> = Vec::new();
    match checked {
        Ok(valid) => {
            sent.push(Notification::ConfigStatus(valid));
            if !valid {
                sent.push(Notification::ConfigRequired);
            }
        },
        Err(e) => {
            sent.push(Notification::ConfigFailed(e));
        },
    }
    assert(sent@ =~= notifications_for(checked));
    sent
}

/// Whether a path that the user entered can be added as a folder: it is
/// not empty, and what was observed of it makes it usable.
pub fn validate_resource_path(path: &str, probe: &PathProbe) -> (valid: bool)
    ensures
        valid == (path@.len() > 0 && probe.usable()),
{
    if path.is_empty() {
        return false;
    }
    ResourceConfig::validate_path(probe).is_ok()
}

/// The default configuration is not valid, whatever is observed: it names
/// no folder.
pub proof fn default_is_not_valid(probes: Seq<PathProbe>)
    ensures
        default_config().filters.include_paths.len() == 0,
        default_config().filters.exclude_paths.len() == 0,
        !config_valid(default_config(), probes),
{
}

/// Where the file is missing, the last thing done is to write the default
/// configuration; where the file and its directory exist, nothing is done,
/// so ensuring a second time changes nothing.
pub proof fn ensure_writes_default_once(probe: StoreProbe)
    ensures
        !probe.file_exists ==> ensure_plan(probe).len() > 0 && ensure_plan(probe).last()
            == StoreActionView::WriteConfig(default_config()),
        probe.file_exists && !probe.parent_missing ==> ensure_plan(probe) == Seq::<
            StoreActionView,
        >::empty(),
{
    if probe.file_exists && !probe.parent_missing {
        assert(ensure_plan(probe) =~= Seq::<StoreActionView>::empty());
    }
}

/// One folder that is not usable makes the configuration invalid, whatever
/// holds of the others: a valid configuration stops being valid as soon as
/// one of its folders stops existing, being a directory or being readable.
pub proof fn one_bad_folder_invalidates(
    config: ConfigView,
    probes: Seq<PathProbe>,
    i: int,
    changed: PathProbe,
)
    requires
        0 <= i < config.filters.include_paths.len(),
        i < probes.len(),
        !changed.exists || !changed.is_dir || !changed.readable,
    ensures
        !config_valid(config, probes.update(i, changed)),
{
    assert(probes.update(i, changed)[i] == changed);
}

/// Adding a path keeps the list of folders free of repetition.
pub proof fn with_path_keeps_distinct(config: ConfigView, path: Seq<char>)
    requires
        config.filters.include_paths.no_duplicates(),
    ensures
        with_path(config, path).filters.include_paths.no_duplicates(),
        with_path(config, path).filters.include_paths.contains(path),
        with_path(with_path(config, path), path) == with_path(config, path),
{
    let before = config.filters.include_paths;
    if !before.contains(path) {
        let after = before.push(path);
        assert(after[before.len() as int] == path);
        assert forall|i: int, j: int| 0 <= i < after.len() && 0 <= j < after.len() && i != j implies after[i]
            != after[j] by {
            if i < before.len() && j < before.len() {
            } else if i < before.len() {
                assert(before.contains(before[i]));
            } else {
                assert(before.contains(before[j]));
            }
        }
    }
}

fn copy_of(paths: &Vec<String>) -> (copy: Vec<String>)
    ensures
        copy.deep_view() == paths.deep_view(),
{
    let mut copy: Vec<String> = Vec::new();
    let mut i: usize = 0;
    while i < paths.len()
        invariant
            i <= paths@.len(),
            copy@.len() == i,
            forall|k: int| 0 <= k < i ==> copy@[k]@ == paths@[k]@,
        decreases paths@.len() - i,
    {
        copy.push(paths[i].clone());
        i += 1;
    }
    assert(copy.deep_view() =~= paths.deep_view());
    copy
}

impl Clone for Filters {
    fn clone(&self) -> (copy: Self)
        ensures
            copy@ == self@,
    {
        Filters {
            include_paths: copy_of(&self.include_paths),
            exclude_paths: copy_of(&self.exclude_paths),
        }
    }
}

impl Clone for ResourceConfig {
    fn clone(&self) -> (copy: Self)
        ensures
            copy@ == self@,
    {
        ResourceConfig {
            id: self.id.clone(),
            name: self.name.clone(),
            filters: self.filters.clone(),
        }
    }
}

impl Default for ResourceConfig {
    fn default() -> (config: Self)
        ensures
            config@ == default_config(),
    {
        let config = ResourceConfig {
            id: "allviewer-resources".to_owned(),
            name: "AllViewer画像リソース".to_owned(),
            filters: Filters { include_paths: Vec::new(), exclude_paths: Vec::new() },
        };
        assert(config.filters.include_paths.deep_view() =~= Seq::empty());
        assert(config.filters.exclude_paths.deep_view() =~= Seq::empty());
        config
    }
}

impl ResourceConfig {
    /// Judges a path by what was observed of it.
    pub fn validate_path(probe: &PathProbe) -> (verdict: Result<(), PathError>)
        ensures
            verdict == probe.verdict(),
            verdict is Ok <==> probe.usable(),
    {
        if !probe.exists {
            Err(PathError::NotFound)
        } else if !probe.is_dir {
            Err(PathError::NotADirectory)
        } else if !probe.readable {
            Err(PathError::Unreadable)
        } else {
            Ok(())
        }
    }

    /// Says where the configuration is kept, given the data directory of
    /// the application and the directory of the running executable as far
    /// as the platform could name them.
    pub fn get_config_path(app_data_dir: Option<String>, exe_dir: Option<String>) -> (location:
        ConfigLocation)
        ensures
            location.dir@ == config_dir(
                match app_data_dir {
                    Some(dir) => Some(dir@),
                    None => None,
                },
                match exe_dir {
                    Some(dir) => Some(dir@),
                    None => None,
                },
            ),
            location.file_name@ == "resources.json"@,
    {
        let dir = match app_data_dir {
            Some(dir) => dir,
            None => match exe_dir {
                Some(dir) => dir,
                None => ".".to_owned(),
            },
        };
        ConfigLocation { dir, file_name: "resources.json".to_owned() }
    }

    /// Says what has to be done so that a configuration file exists, given
    /// what was observed of its place.
    pub fn ensure_config_exists(probe: StoreProbe) -> (plan: Vec<StoreAction>)
        ensures
            plan.deep_view() == ensure_plan(probe),
    {
        let mut plan: Vec<StoreAction> = Vec::new();
        if probe.parent_missing {
            plan.push(StoreAction::CreateParentDir);
        }
        if !probe.file_exists {
            plan.push(StoreAction::WriteConfig(ResourceConfig::default()));
        }
        assert(plan.deep_view() =~= ensure_plan(probe));
        plan
    }

    /// Adds a folder to scan, given what was observed of its path. A path
    /// that is not usable is refused with the reason and changes nothing.
    /// A usable path is appended unless the configuration names it
    /// already; the result says whether it was appended, so whether there
    /// is anything new to persist.
    pub fn add_include_path(&mut self, path: String, probe: &PathProbe) -> (added: Result<
        bool,
        PathError,
    >)
        ensures
            match probe.verdict() {
                Err(e) => added == Err::<bool, PathError>(e) && final(self)@ == old(self)@,
                Ok(_) => {
                    &&& added == Ok::<bool, PathError>(
                        !old(self)@.filters.include_paths.contains(path@),
                    )
                    &&& final(self)@ == with_path(old(self)@, path@)
                },
            },
    {
        match Self::validate_path(probe) {
            Err(e) => {
                return Err(e);
            },
            Ok(_) => {},
        }
        let ghost paths = self.filters.include_paths.deep_view();
        let n = self.filters.include_paths.len();
        let mut i: usize = 0;
        while i < n
            invariant
                n == self.filters.include_paths@.len(),
                paths == self.filters.include_paths.deep_view(),
                *self == *old(self),
                probe.verdict() is Ok,
                i <= n,
                forall|k: int| 0 <= k < i ==> paths[k] != path@,
            decreases n - i,
        {
            if self.filters.include_paths[i] == path {
                assert(paths[i as int] == path@);
                assert(paths.contains(path@));
                return Ok(false);
            }
            i += 1;
        }
        self.filters.include_paths.push(path);
        assert(self.filters.include_paths.deep_view() =~= paths.push(path@));
        Ok(true)
    }

    /// Whether the configuration can drive a scan, given what was observed
    /// of its folders, in their order.
    pub fn is_valid(&self, probes: &Vec<PathProbe>) -> (valid: bool)
        ensures
            valid == config_valid(self@, probes@),
    {
        let n = self.filters.include_paths.len();
        if n == 0 || probes.len() < n {
            return false;
        }
        let mut i: usize = 0;
        while i < n
            invariant
                n == self.filters.include_paths@.len(),
                n <= probes@.len(),
                i <= n,
                forall|k: int| 0 <= k < i ==> (#[trigger] probes@[k]).usable(),
            decreases n - i,
        {
            if Self::validate_path(&probes[i]).is_err() {
                return false;
            }
            i += 1;
        }
        true
    }
}

} // verus!

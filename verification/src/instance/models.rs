//! What is known of an instance.
use vstd::prelude::*;
use crate::paths::{PathModel, TargetPath};
use crate::text::{concat3, opt_text};

verus! {

/// Why a request about an instance failed.
#[derive(Clone, Copy, Debug, PartialEq, Eq, Structural)]
pub enum InstanceError {
    InstanceNotFoundByID,
    InvalidSourcePath,
    FolderCreationFailed,
    ZipFileProcessFailed,
    FileCopyFailed,
    FileMoveFailed,
    SemaphoreAcquireFailed,
    ServerNbtReadError,
    FileOperationError,
    DuplicateServer,
    FileNotFoundError,
    WorldNotExistError,
    LevelNotExistError,
    LevelParseError,
    ShortcutCreationFailed,
    InvalidNameError,
    ConflictNameError,
    ClientJsonParseError,
    NetworkError,
    FileCreationFailed,
    ProcessorExecutionFailed,
    InstallationDuplicated,
    NotSupportChangeModLoader,
    ModpackManifestParseError,
    ModLoaderVersionParseError,
    CurseForgeFileManifestParseError,
}

/// A mod loader.
#[derive(Clone, Copy, Debug, PartialEq, Eq, Structural)]
pub enum ModLoaderType {
    Unknown,
    Fabric,
    Forge,
    LegacyForge,
    NeoForge,
    LiteLoader,
    Quilt,
}

/// How far the installation of a loader has come.
#[derive(Clone, Copy, Debug, PartialEq, Eq, Structural)]
pub enum ModLoaderStatus {
    NotDownloaded,
    Downloading,
    DownloadFailed,
    Installing,
    Installed,
}

/// The mod loader of an instance.
#[derive(Debug)]
pub struct ModLoader {
    pub loader_type: ModLoaderType,
    pub status: ModLoaderStatus,
    pub version: String,
    pub branch: Option<String>,
}

/// A mod loader as texts.
pub struct ModLoaderModel {
    pub loader_type: ModLoaderType,
    pub status: ModLoaderStatus,
    pub version: Seq<char>,
    pub branch: Option<Seq<char>>,
}

impl View for ModLoader {
    type V = ModLoaderModel;

    open spec fn view(&self) -> ModLoaderModel {
        ModLoaderModel {
            loader_type: self.loader_type,
            status: self.status,
            version: self.version@,
            branch: opt_text(self.branch),
        }
    }
}

/// A copy of an optional text.
pub fn copy_text(s: &Option<String>) -> (r: Option<String>)
    ensures
        opt_text(r) == opt_text(*s),
{
    match s {
        Some(s) => Some(s.clone()),
        None => None,
    }
}

impl ModLoader {
    /// The same loader.
    pub fn duplicate(&self) -> (r: Self)
        ensures
            r@ == self@,
    {
        ModLoader {
            loader_type: self.loader_type,
            status: self.status,
            version: self.version.clone(),
            branch: copy_text(&self.branch),
        }
    }
}

/// The OptiFine of an instance.
#[derive(Debug)]
pub struct OptiFine {
    pub filename: String,
    pub version: String,
    pub status: ModLoaderStatus,
}

/// An OptiFine as texts.
pub struct OptiFineModel {
    pub filename: Seq<char>,
    pub version: Seq<char>,
    pub status: ModLoaderStatus,
}

impl View for OptiFine {
    type V = OptiFineModel;

    open spec fn view(&self) -> OptiFineModel {
        OptiFineModel { filename: self.filename@, version: self.version@, status: self.status }
    }
}

/// An optional OptiFine as texts.
pub open spec fn optifine_view(o: Option<OptiFine>) -> Option<OptiFineModel> {
    match o {
        Some(o) => Some(o@),
        None => None,
    }
}

/// A copy of an optional OptiFine.
pub fn copy_optifine(o: &Option<OptiFine>) -> (r: Option<OptiFine>)
    ensures
        optifine_view(r) == optifine_view(*o),
{
    match o {
        Some(o) => Some(
            OptiFine {
                filename: o.filename.clone(),
                version: o.version.clone(),
                status: o.status,
            },
        ),
        None => None,
    }
}

/// How a game is run: whether its files are kept apart from those of other versions, and the
/// other settings as one document.
#[derive(Debug)]
pub struct GameConfig {
    pub version_isolation: bool,
    pub document: String,
}

/// A game configuration as texts.
pub struct GameConfigModel {
    pub version_isolation: bool,
    pub document: Seq<char>,
}

impl View for GameConfig {
    type V = GameConfigModel;

    open spec fn view(&self) -> GameConfigModel {
        GameConfigModel {
            version_isolation: self.version_isolation,
            document: self.document@,
        }
    }
}

impl GameConfig {
    /// The same configuration.
    pub fn duplicate(&self) -> (r: Self)
        ensures
            r@ == self@,
    {
        GameConfig { version_isolation: self.version_isolation, document: self.document.clone() }
    }
}

/// An optional configuration as texts.
pub open spec fn config_view(c: Option<GameConfig>) -> Option<GameConfigModel> {
    match c {
        Some(c) => Some(c@),
        None => None,
    }
}

/// An instance of the game.
#[derive(Debug)]
pub struct Instance {
    pub id: String,
    pub name: String,
    pub version: String,
    pub version_path: TargetPath,
    pub mod_loader: ModLoader,
    pub optifine: Option<OptiFine>,
    pub description: String,
    pub tag: Option<String>,
    pub icon_src: String,
    pub starred: bool,
    pub play_time: u128,
    pub use_spec_game_config: bool,
    pub spec_game_config: Option<GameConfig>,
    pub modpack_version: Option<String>,
    pub modpack_update_channel: Option<String>,
}

/// An instance as texts.
pub struct InstanceModel {
    pub id: Seq<char>,
    pub name: Seq<char>,
    pub version: Seq<char>,
    pub version_path: PathModel,
    pub mod_loader: ModLoaderModel,
    pub optifine: Option<OptiFineModel>,
    pub description: Seq<char>,
    pub tag: Option<Seq<char>>,
    pub icon_src: Seq<char>,
    pub starred: bool,
    pub play_time: u128,
    pub use_spec_game_config: bool,
    pub spec_game_config: Option<GameConfigModel>,
    pub modpack_version: Option<Seq<char>>,
    pub modpack_update_channel: Option<Seq<char>>,
}

impl View for Instance {
    type V = InstanceModel;

    open spec fn view(&self) -> InstanceModel {
        InstanceModel {
            id: self.id@,
            name: self.name@,
            version: self.version@,
            version_path: self.version_path@,
            mod_loader: self.mod_loader@,
            optifine: optifine_view(self.optifine),
            description: self.description@,
            tag: opt_text(self.tag),
            icon_src: self.icon_src@,
            starred: self.starred,
            play_time: self.play_time,
            use_spec_game_config: self.use_spec_game_config,
            spec_game_config: config_view(self.spec_game_config),
            modpack_version: opt_text(self.modpack_version),
            modpack_update_channel: opt_text(self.modpack_update_channel),
        }
    }
}

/// The file that describes the client of an instance.
pub open spec fn client_json_of(instance: InstanceModel) -> PathModel {
    instance.version_path.child(instance.name + ".json"@)
}

/// The configuration with which an instance is run: its own if it uses one and has one, else the
/// global one.
pub open spec fn effective_config(
    instance: InstanceModel,
    global: GameConfigModel,
) -> GameConfigModel {
    match instance.spec_game_config {
        Some(own) => if instance.use_spec_game_config {
            own
        } else {
            global
        },
        None => global,
    }
}

/// An instance that uses its own configuration and has one is run with it; every other instance is run
/// with the global one.
pub proof fn own_configurations_count_only_where_they_are_used(
    instance: InstanceModel,
    global: GameConfigModel,
    own: GameConfigModel,
)
    ensures
        instance.use_spec_game_config && instance.spec_game_config == Some(own) ==> effective_config(
            instance,
            global,
        ) == own,
        !instance.use_spec_game_config ==> effective_config(instance, global) == global,
        instance.spec_game_config is None ==> effective_config(instance, global) == global,
{
}

/// The files of a client stand where its instance is kept, under the name of the instance.
pub proof fn clients_are_described_beside_their_instance(instance: InstanceModel)
    ensures
        client_json_of(instance).base == instance.version_path.base,
        client_json_of(instance).segments == instance.version_path.segments + seq![
            instance.name + ".json"@,
        ],
{
    assert(client_json_of(instance).segments =~= instance.version_path.segments + seq![
        instance.name + ".json"@,
    ]);
}

impl Instance {
    /// The same instance.
    pub fn duplicate(&self) -> (r: Self)
        ensures
            r@ == self@,
    {
        Instance {
            id: self.id.clone(),
            name: self.name.clone(),
            version: self.version.clone(),
            version_path: self.version_path.duplicate(),
            mod_loader: self.mod_loader.duplicate(),
            optifine: copy_optifine(&self.optifine),
            description: self.description.clone(),
            tag: copy_text(&self.tag),
            icon_src: self.icon_src.clone(),
            starred: self.starred,
            play_time: self.play_time,
            use_spec_game_config: self.use_spec_game_config,
            spec_game_config: match &self.spec_game_config {
                Some(c) => Some(c.duplicate()),
                None => None,
            },
            modpack_version: copy_text(&self.modpack_version),
            modpack_update_channel: copy_text(&self.modpack_update_channel),
        }
    }

    /// The file that describes the client of the instance.
    pub fn client_json_path(&self) -> (r: TargetPath)
        ensures
            r@ == client_json_of(self@),
    {
        let name = crate::text::concat2(self.name.as_str(), ".json");
        self.version_path.child(name.as_str())
    }

    /// The configuration with which the instance is run.
    pub fn game_config(&self, global: &GameConfig) -> (r: GameConfig)
        ensures
            r@ == effective_config(self@, global@),
    {
        if self.use_spec_game_config {
            if let Some(own) = &self.spec_game_config {
                return own.duplicate();
            }
        }
        global.duplicate()
    }
}

/// A loader that can be had, as it is listed.
#[derive(Debug)]
pub struct ModLoaderResourceInfo {
    pub loader_type: ModLoaderType,
    pub version: String,
    pub description: String,
    pub stable: Option<bool>,
    pub branch: Option<String>,
}

/// An OptiFine that can be had, as it is listed.
#[derive(Debug)]
pub struct OptiFineResourceInfo {
    pub filename: String,
    pub patch: String,
    pub kind: String,
}

/// A loader that needs no installer.
pub open spec fn needs_no_installer(loader_type: ModLoaderType) -> bool {
    loader_type == ModLoaderType::Unknown || loader_type == ModLoaderType::Fabric || loader_type
        == ModLoaderType::Quilt
}

/// The loader of an instance for which one was chosen: installed at once where it needs no
/// installer.
pub open spec fn chosen_loader(
    loader_type: ModLoaderType,
    version: Seq<char>,
    branch: Option<Seq<char>>,
) -> ModLoaderModel {
    ModLoaderModel {
        loader_type,
        status: if needs_no_installer(loader_type) {
            ModLoaderStatus::Installed
        } else {
            ModLoaderStatus::NotDownloaded
        },
        version,
        branch,
    }
}

/// A chosen loader has the kind, the version and the branch that were chosen. It is there at once
/// exactly where it needs no installer: no loader, Fabric and Quilt need none.
pub proof fn chosen_loaders_are_as_chosen(
    loader_type: ModLoaderType,
    version: Seq<char>,
    branch: Option<Seq<char>>,
)
    ensures
        ({
            let loader = chosen_loader(loader_type, version, branch);
            &&& loader.loader_type == loader_type
            &&& loader.version == version
            &&& loader.branch == branch
            &&& loader.status == ModLoaderStatus::Installed <==> loader_type == ModLoaderType::Unknown
                || loader_type == ModLoaderType::Fabric || loader_type == ModLoaderType::Quilt
            &&& loader.status == ModLoaderStatus::NotDownloaded <==> loader_type
                == ModLoaderType::Forge || loader_type == ModLoaderType::LegacyForge || loader_type
                == ModLoaderType::NeoForge || loader_type == ModLoaderType::LiteLoader
        }),
{
}

/// The loader of an instance for which one was chosen.
pub fn loader_from(info: &ModLoaderResourceInfo) -> (r: ModLoader)
    ensures
        r@ == chosen_loader(info.loader_type, info.version@, opt_text(info.branch)),
{
    let ready = matches!(
        info.loader_type,
        ModLoaderType::Unknown | ModLoaderType::Fabric | ModLoaderType::Quilt
    );
    ModLoader {
        loader_type: info.loader_type,
        status: if ready {
            ModLoaderStatus::Installed
        } else {
            ModLoaderStatus::NotDownloaded
        },
        version: info.version.clone(),
        branch: copy_text(&info.branch),
    }
}

/// The OptiFine of an instance for which one was chosen: its version is its kind and its patch.
pub open spec fn chosen_optifine(info: OptiFineResourceInfo) -> OptiFineModel {
    OptiFineModel {
        filename: info.filename@,
        version: info.kind@ + "_"@ + info.patch@,
        status: ModLoaderStatus::NotDownloaded,
    }
}

/// A chosen OptiFine has the file that was chosen, and its kind and its patch for a version; it is not
/// there yet.
pub proof fn a_chosen_optifine_is_as_chosen(info: OptiFineResourceInfo)
    ensures
        chosen_optifine(info).filename == info.filename@,
        chosen_optifine(info).version == info.kind@ + "_"@ + info.patch@,
        chosen_optifine(info).status == ModLoaderStatus::NotDownloaded,
{
}

/// The OptiFine of an instance for which one was chosen.
pub fn optifine_from(info: &OptiFineResourceInfo) -> (r: OptiFine)
    ensures
        r@ == chosen_optifine(*info),
{
    OptiFine {
        filename: info.filename.clone(),
        version: concat3(info.kind.as_str(), "_", info.patch.as_str()),
        status: ModLoaderStatus::NotDownloaded,
    }
}

} // verus!

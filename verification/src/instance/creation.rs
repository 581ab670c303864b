//! Creating an instance: what is checked, what is recorded, what is downloaded, in which order,
//! and what is undone where it fails.
use vstd::prelude::*;
use crate::download::candidates::{DownloadParam, ParamModel};
use crate::external::{
    backslash_separates, is_sanitized_name, legal_name, name_is_sanitized, parse_url, url_parsed,
    UrlParts,
};
use crate::instance::models::{
    chosen_loader, chosen_optifine, copy_text, loader_from, optifine_from, Instance, InstanceError,
    InstanceModel, ModLoaderResourceInfo, ModLoaderType, OptiFineModel, OptiFineResourceInfo,
};
use crate::instance::store::InstanceStore;
use crate::paths::{PathModel, TargetPath};
use crate::tasks::commands::PTaskParam;
use crate::text::{concat2, concat3, concat4, opt_text};

verus! {

// ---------------------------------------------------------------------------------------------
// The request
// ---------------------------------------------------------------------------------------------
/// A directory that holds games.
#[derive(Debug)]
pub struct GameDirectory {
    pub name: String,
    pub dir: TargetPath,
}

/// What is to be created.
#[derive(Debug)]
pub struct CreationRequest {
    pub directory: GameDirectory,
    pub name: String,
    pub description: String,
    pub icon_src: String,
    pub game_id: String,
    pub mod_loader: ModLoaderResourceInfo,
    pub optifine: Option<OptiFineResourceInfo>,
    pub modpack_version: Option<String>,
}

/// An instance may have a name: it is a file name.
pub open spec fn name_allowed(name: Seq<char>, windows: bool) -> bool {
    name.len() > 0 && name_is_sanitized(name, windows)
}

/// An instance may have every name that is fit for a file, but for the empty one.
pub proof fn instances_have_file_names(name: Seq<char>, windows: bool)
    ensures
        !name_allowed(Seq::empty(), windows),
        name_is_sanitized(name, windows) && name.len() > 0 ==> name_allowed(name, windows),
        name_allowed(name, windows) ==> name_is_sanitized(name, windows),
{
}

/// Where an instance is kept.
pub open spec fn version_path_of(directory: PathModel, name: Seq<char>) -> PathModel {
    directory.child("versions"@).child(name)
}

/// Where an instance is kept.
pub fn version_path(directory: &TargetPath, name: &str) -> (r: TargetPath)
    ensures
        r@ == version_path_of(directory@, name@),
{
    directory.child("versions").child(name)
}

/// The OptiFine of a new instance.
pub open spec fn requested_optifine(info: Option<OptiFineResourceInfo>) -> Option<OptiFineModel> {
    match info {
        Some(info) => Some(chosen_optifine(info)),
        None => None,
    }
}

/// The instance that a request describes.
pub open spec fn requested_instance(request: CreationRequest) -> InstanceModel {
    InstanceModel {
        id: request.directory.name@ + ":"@ + request.name@,
        name: request.name@,
        version: request.game_id@,
        version_path: version_path_of(request.directory.dir@, request.name@),
        mod_loader: chosen_loader(
            request.mod_loader.loader_type,
            request.mod_loader.version@,
            opt_text(request.mod_loader.branch),
        ),
        optifine: requested_optifine(request.optifine),
        description: request.description@,
        tag: None,
        icon_src: request.icon_src@,
        starred: false,
        play_time: 0,
        use_spec_game_config: false,
        spec_game_config: None,
        modpack_version: opt_text(request.modpack_version),
        modpack_update_channel: None,
    }
}

/// Whether a request is accepted: not if its name is none, nor if something stands where the
/// instance would be kept.
pub open spec fn accepted_request(
    request: CreationRequest,
    path_exists: bool,
    name_fits: bool,
) -> Result<InstanceModel, InstanceError> {
    if !name_fits {
        Err(InstanceError::InvalidNameError)
    } else if path_exists {
        Err(InstanceError::ConflictNameError)
    } else {
        Ok(requested_instance(request))
    }
}

/// A request is refused for its name, or else where something stands at its place; every other one
/// gives the instance that was asked for. Its identity is that of its directory and its name, and it
/// is kept below the directory, under its name. The game, the loader, OptiFine, the description, the
/// icon and the version of the modpack are those of the request, and all else is as in every new
/// instance.
pub proof fn new_instances_are_as_requested(
    request: CreationRequest,
    path_exists: bool,
    name_fits: bool,
)
    ensures
        match accepted_request(request, path_exists, name_fits) {
            Err(error) => error == (if name_fits {
                InstanceError::ConflictNameError
            } else {
                InstanceError::InvalidNameError
            }) && (path_exists || !name_fits),
            Ok(instance) => {
                &&& name_fits && !path_exists
                &&& instance.id == request.directory.name@ + ":"@ + request.name@
                &&& instance.name == request.name@
                &&& instance.version == request.game_id@
                &&& instance.version_path.base == request.directory.dir@.base
                &&& instance.version_path.segments == request.directory.dir@.segments + seq![
                    "versions"@,
                    request.name@,
                ]
                &&& instance.mod_loader.loader_type == request.mod_loader.loader_type
                &&& instance.mod_loader.version == request.mod_loader.version@
                &&& instance.mod_loader.branch == opt_text(request.mod_loader.branch)
                &&& match request.optifine {
                    None => instance.optifine is None,
                    Some(info) => instance.optifine matches Some(optifine) && optifine.filename
                        == info.filename@ && optifine.version == info.kind@ + "_"@ + info.patch@,
                }
                &&& instance.description == request.description@
                &&& instance.icon_src == request.icon_src@
                &&& instance.modpack_version == opt_text(request.modpack_version)
                &&& instance.tag is None && !instance.starred && instance.play_time == 0
                &&& !instance.use_spec_game_config && instance.spec_game_config is None
                &&& instance.modpack_update_channel is None
            },
        },
{
    if let Ok(instance) = accepted_request(request, path_exists, name_fits) {
        assert(instance.version_path.segments =~= request.directory.dir@.segments + seq![
            "versions"@,
            request.name@,
        ]);
    }
}

/// The result of checking a request, as texts.
pub open spec fn instance_result(r: Result<Instance, InstanceError>) -> Result<
    InstanceModel,
    InstanceError,
> {
    match r {
        Ok(instance) => Ok(instance@),
        Err(error) => Err(error),
    }
}

/// The instance that a request describes, given whether its name fits and whether something
/// stands where it would be kept.
pub fn new_instance_from(request: &CreationRequest, path_exists: bool, name_fits: bool) -> (r: Result<
    Instance,
    InstanceError,
>)
    ensures
        instance_result(r) == accepted_request(*request, path_exists, name_fits),
        r is Ok <==> name_fits && !path_exists,
        r matches Ok(instance) ==> instance.version@ == request.game_id@ && instance.name@
            == request.name@ && instance.description@ == request.description@ && instance.icon_src@
            == request.icon_src@ && instance.mod_loader.loader_type == request.mod_loader.loader_type
            && instance.mod_loader.version@ == request.mod_loader.version@,
{
    if !name_fits {
        return Err(InstanceError::InvalidNameError);
    }
    if path_exists {
        return Err(InstanceError::ConflictNameError);
    }
    let instance = Instance {
        id: concat3(request.directory.name.as_str(), ":", request.name.as_str()),
        name: request.name.clone(),
        version: request.game_id.clone(),
        version_path: version_path(&request.directory.dir, request.name.as_str()),
        mod_loader: loader_from(&request.mod_loader),
        optifine: match &request.optifine {
            Some(info) => Some(optifine_from(info)),
            None => None,
        },
        description: request.description.clone(),
        tag: None,
        icon_src: request.icon_src.clone(),
        starred: false,
        play_time: 0,
        use_spec_game_config: false,
        spec_game_config: None,
        modpack_version: copy_text(&request.modpack_version),
        modpack_update_channel: None,
    };
    Ok(instance)
}

/// The instance that a request describes, by the rules of Windows or of the other systems.
pub fn new_instance_for(request: &CreationRequest, path_exists: bool, windows: bool) -> (r: Result<
    Instance,
    InstanceError,
>)
    ensures
        instance_result(r) == accepted_request(
            *request,
            path_exists,
            name_allowed(request.name@, windows),
        ),
        r is Ok ==> legal_name(request.name@),
{
    let fits = request.name.as_str().unicode_len() > 0 && is_sanitized_name(
        request.name.as_str(),
        windows,
    );
    new_instance_from(request, path_exists, fits)
}

/// The instance that a request describes, by the rules of the system. `path_exists` tells whether
/// something stands where it would be kept. The name of an accepted request is a file name.
pub fn new_instance(request: &CreationRequest, path_exists: bool) -> (r: Result<
    Instance,
    InstanceError,
>)
    ensures
        exists|windows: bool|
            instance_result(r) == accepted_request(
                *request,
                path_exists,
                #[trigger] name_allowed(request.name@, windows),
            ),
        request.name@.len() == 0 ==> instance_result(r) == Err::<InstanceModel, InstanceError>(
            InstanceError::InvalidNameError,
        ),
        r is Ok ==> legal_name(request.name@),
{
    let windows = backslash_separates();
    new_instance_for(request, path_exists, windows)
}

// ---------------------------------------------------------------------------------------------
// The client
// ---------------------------------------------------------------------------------------------
/// The description of a client, or of a patch to one; what else it holds is kept as it is.
#[derive(Debug)]
pub struct ClientInfo {
    pub id: String,
    pub jar: Option<String>,
    pub version: Option<String>,
    pub inherits_from: Option<String>,
    pub priority: Option<i64>,
    pub patches: Vec<ClientInfo>,
    pub rest: String,
}

/// The description of a client as texts.
#[verifier::ext_equal]
pub struct ClientModel {
    pub id: Seq<char>,
    pub jar: Option<Seq<char>>,
    pub version: Option<Seq<char>>,
    pub inherits_from: Option<Seq<char>>,
    pub priority: Option<i64>,
    pub patches: Seq<ClientModel>,
    pub rest: Seq<char>,
}

/// The description of a client as texts.
pub open spec fn client_view(info: ClientInfo) -> ClientModel
    decreases info,
{
    ClientModel {
        id: info.id@,
        jar: opt_text(info.jar),
        version: opt_text(info.version),
        inherits_from: opt_text(info.inherits_from),
        priority: info.priority,
        patches: Seq::new(
            info.patches@.len(),
            |i: int|
                if 0 <= i < info.patches@.len() {
                    client_view(info.patches@[i])
                } else {
                    arbitrary()
                },
        ),
        rest: info.rest@,
    }
}

/// A client with the patch that is the game itself: named after the instance, and holding what it
/// was as a patch of lowest priority.
pub open spec fn prepared(info: ClientModel, name: Seq<char>, game_id: Seq<char>) -> ClientModel {
    let named = ClientModel { id: name, jar: Some(name), ..info };
    ClientModel {
        patches: named.patches.push(
            ClientModel {
                id: "game"@,
                version: Some(game_id),
                inherits_from: None,
                priority: Some(0),
                ..named
            },
        ),
        ..named
    }
}

/// A prepared client is named after its instance, and so is its file. What it was before is kept: its
/// patches, and, as one more patch, the game itself with its version, of the lowest priority and
/// inheriting from nothing.
pub proof fn prepared_clients_hold_the_game_as_a_patch(
    info: ClientModel,
    name: Seq<char>,
    game_id: Seq<char>,
)
    ensures
        ({
            let client = prepared(info, name, game_id);
            let n = info.patches.len() as int;
            &&& client.id == name
            &&& client.jar == Some(name)
            &&& client.version == info.version
            &&& client.inherits_from == info.inherits_from
            &&& client.priority == info.priority
            &&& client.rest == info.rest
            &&& client.patches.len() == n + 1
            &&& client.patches.take(n) == info.patches
            &&& client.patches[n].id == "game"@
            &&& client.patches[n].jar == Some(name)
            &&& client.patches[n].version == Some(game_id)
            &&& client.patches[n].inherits_from is None
            &&& client.patches[n].priority == Some(0i64)
            &&& client.patches[n].patches == info.patches
            &&& client.patches[n].rest == info.rest
        }),
{
    let client = prepared(info, name, game_id);
    assert(client.patches.take(info.patches.len() as int) =~= info.patches);
}

impl ClientInfo {
    /// The same description.
    pub fn duplicate(&self) -> (r: Self)
        ensures
            client_view(r) == client_view(*self),
        decreases self,
    {
        let mut patches: Vec<ClientInfo> = Vec::new();
        let mut i: usize = 0;
        while i < self.patches.len()
            invariant
                i <= self.patches.len(),
                patches.len() == i,
                forall|k: int|
                    0 <= k < i ==> client_view(#[trigger] patches@[k]) == client_view(
                        self.patches@[k],
                    ),
            decreases self.patches.len() - i,
        {
            let patch = self.patches[i].duplicate();
            patches.push(patch);
            i += 1;
        }
        let r = ClientInfo {
            id: self.id.clone(),
            jar: copy_text(&self.jar),
            version: copy_text(&self.version),
            inherits_from: copy_text(&self.inherits_from),
            priority: self.priority,
            patches,
            rest: self.rest.clone(),
        };
        assert(client_view(r).patches =~= client_view(*self).patches);
        r
    }

    /// Names the client after an instance, and adds the patch that is the game itself.
    pub fn prepare(&mut self, name: &str, game_id: &str)
        ensures
            client_view(*final(self)) == prepared(client_view(*old(self)), name@, game_id@),
    {
        let ghost before = client_view(*self);
        self.id = name.to_owned();
        self.jar = Some(name.to_owned());
        let ghost named = client_view(*self);
        assert(named =~= (ClientModel { id: name@, jar: Some(name@), ..before }));
        let mut patch = self.duplicate();
        patch.id = "game".to_owned();
        patch.version = Some(game_id.to_owned());
        patch.inherits_from = None;
        patch.priority = Some(0);
        let ghost added = client_view(patch);
        assert(added =~= (ClientModel {
            id: "game"@,
            version: Some(game_id@),
            inherits_from: None,
            priority: Some(0),
            ..named
        }));
        self.patches.push(patch);
        assert(client_view(*self).patches =~= named.patches.push(added));
        assert(client_view(*self) =~= prepared(before, name@, game_id@));
    }
}

/// Why no description of the client could be had: an answer was unreadable, or none came.
pub fn client_info_error(unreadable: bool) -> (r: InstanceError)
    ensures
        r == (if unreadable {
            InstanceError::ClientJsonParseError
        } else {
            InstanceError::NetworkError
        }),
{
    if unreadable {
        InstanceError::ClientJsonParseError
    } else {
        InstanceError::NetworkError
    }
}

/// The Java that a client asks for; 0 where it asks for none.
pub fn required_java(major_version: Option<i32>) -> (r: i32)
    ensures
        r == (match major_version {
            Some(version) => version,
            None => 0,
        }),
{
    match major_version {
        Some(version) => version,
        None => 0,
    }
}

/// Whether a Java is downloaded with the game: where that is wanted and none is suitable.
pub fn downloads_java(auto_download: bool, none_suitable: bool) -> (r: bool)
    ensures
        r == (auto_download && none_suitable),
{
    auto_download && none_suitable
}

/// Where the client itself comes from, as its description tells.
#[derive(Debug)]
pub struct ClientDownload {
    pub url: String,
    pub sha1: String,
}

/// The file of the client.
pub open spec fn client_jar_of(instance: InstanceModel) -> PathModel {
    instance.version_path.child(instance.name + ".jar"@)
}

/// The download of the client, given its address read.
pub open spec fn client_download(
    instance: InstanceModel,
    src: crate::external::UrlModel,
    sha1: Seq<char>,
) -> ParamModel {
    ParamModel { src, dest: client_jar_of(instance), filename: None, sha1: Some(sha1) }
}

/// The client is downloaded from its address to where its instance is kept, under the name of the
/// instance, and must have the SHA-1 that is told.
pub proof fn clients_are_kept_under_the_name_of_their_instance(
    instance: InstanceModel,
    src: crate::external::UrlModel,
    sha1: Seq<char>,
)
    ensures
        ({
            let param = client_download(instance, src, sha1);
            &&& param.src == src
            &&& param.dest.base == instance.version_path.base
            &&& param.dest.segments == instance.version_path.segments + seq![instance.name + ".jar"@]
            &&& param.filename is None
            &&& param.sha1 == Some(sha1)
        }),
{
    assert(client_download(instance, src, sha1).dest.segments =~= instance.version_path.segments
        + seq![instance.name + ".jar"@]);
}

/// The download of the client, given its address read.
pub fn client_jar_param(instance: &Instance, src: UrlParts, sha1: &str) -> (r: DownloadParam)
    ensures
        r@ == client_download(instance@, src@, sha1@),
{
    let file = concat2(instance.name.as_str(), ".jar");
    DownloadParam {
        src,
        dest: instance.version_path.child(file.as_str()),
        filename: None,
        sha1: Some(sha1.to_owned()),
    }
}

/// The download of the client; there is none where its description tells of none, or tells an
/// address that is none.
pub fn client_task(instance: &Instance, client: &Option<ClientDownload>) -> (r: Result<
    DownloadParam,
    InstanceError,
>)
    ensures
        match r {
            Ok(param) => client matches Some(c) && url_parsed(c.url@) is Ok && param@
                == client_download(instance@, url_parsed(c.url@)->Ok_0, c.sha1@),
            Err(error) => error == InstanceError::ClientJsonParseError && match client {
                Some(c) => url_parsed(c.url@) is Err,
                None => true,
            },
        },
{
    let client = match client {
        Some(client) => client,
        None => {
            return Err(InstanceError::ClientJsonParseError);
        },
    };
    match parse_url(client.url.as_str()) {
        Ok(src) => Ok(client_jar_param(instance, src, client.sha1.as_str())),
        Err(_) => Err(InstanceError::ClientJsonParseError),
    }
}

/// Whether an interface of Fabric is installed: with a modpack never, since the modpack names the
/// version that it needs; else as it was asked for.
pub fn installs_api(asked: Option<bool>, with_modpack: bool) -> (r: Option<bool>)
    ensures
        r == (if with_modpack {
            Some(false)
        } else {
            asked
        }),
{
    if with_modpack {
        Some(false)
    } else {
        asked
    }
}

/// What is written to the options of a new game so that its first screen is skipped; nothing where
/// that is not wanted, the language is not known to the game, or there are options already.
pub fn first_options(skip_first_screen: bool, lang_code: &Option<String>, options_exist: bool) -> (r:
    Option<String>)
    ensures
        opt_text(r) == (match opt_text(*lang_code) {
            Some(code) => if skip_first_screen && !options_exist {
                Some("lang:"@ + code + "\n"@)
            } else {
                None
            },
            None => None,
        }),
{
    if !skip_first_screen || options_exist {
        return None;
    }
    match lang_code {
        Some(code) => Some(concat3("lang:", code.as_str(), "\n")),
        None => None,
    }
}

/// The name of the task group of a new instance: with the Java that is downloaded, if one is.
pub fn creation_group_name(name: &str, java: &Option<String>) -> (r: String)
    ensures
        r@ == (match opt_text(*java) {
            Some(version) => "game-client-w-java?"@ + name@ + "&"@ + version,
            None => "game-client?"@ + name@,
        }),
{
    match java {
        Some(version) => concat4("game-client-w-java?", name, "&", version.as_str()),
        None => concat2("game-client?", name),
    }
}

/// The files that a new instance needs, by what they are for.
#[derive(Debug)]
pub struct CreationTasks {
    pub java: Vec<PTaskParam>,
    pub client: DownloadParam,
    pub libraries: Vec<PTaskParam>,
    pub assets: Vec<PTaskParam>,
    pub loader: Vec<PTaskParam>,
    pub optifine: Vec<PTaskParam>,
    pub modpack: Vec<PTaskParam>,
}

/// The files in the order in which they are scheduled.
pub fn creation_tasks(tasks: CreationTasks) -> (r: Vec<PTaskParam>)
    ensures
        r@ == tasks.java@ + seq![PTaskParam::Download(tasks.client)] + tasks.libraries@
            + tasks.assets@ + tasks.loader@ + tasks.optifine@ + tasks.modpack@,
{
    let ghost all = tasks.java@ + seq![PTaskParam::Download(tasks.client)] + tasks.libraries@
        + tasks.assets@ + tasks.loader@ + tasks.optifine@ + tasks.modpack@;
    let CreationTasks {
        java,
        client,
        mut libraries,
        mut assets,
        mut loader,
        mut optifine,
        mut modpack,
    } = tasks;
    let mut out = java;
    out.push(PTaskParam::Download(client));
    out.append(&mut libraries);
    out.append(&mut assets);
    out.append(&mut loader);
    out.append(&mut optifine);
    out.append(&mut modpack);
    assert(out@ =~= all);
    out
}

// ---------------------------------------------------------------------------------------------
// The order of the steps
// ---------------------------------------------------------------------------------------------
/// A step of the creation of an instance.
#[derive(Clone, Copy, Debug, PartialEq, Eq, Structural)]
pub enum CreationStep {
    FetchClientInfo,
    PrepareJava,
    MakeClientTask,
    FindDirectories,
    ReplaceNatives,
    ListLibraries,
    ListAssets,
    InstallLoader,
    FetchOptiFine,
    OpenModpack,
    ListModpackFiles,
    ExtractOverrides,
    WriteOptions,
    SaveClientInfo,
    SaveConfig,
    Register,
    Schedule,
    RecordPending,
}

/// What a creation involves.
#[derive(Clone, Copy, Debug, PartialEq, Eq, Structural)]
pub struct CreationScope {
    pub auto_download_java: bool,
    pub loader_type: ModLoaderType,
    pub with_optifine: bool,
    pub with_modpack: bool,
    pub skip_first_screen: bool,
}

/// A step is taken.
pub open spec fn taken(scope: CreationScope, step: CreationStep) -> bool {
    match step {
        CreationStep::PrepareJava => scope.auto_download_java,
        CreationStep::InstallLoader => scope.loader_type != ModLoaderType::Unknown,
        CreationStep::FetchOptiFine => scope.with_optifine,
        CreationStep::OpenModpack => scope.with_modpack,
        CreationStep::ListModpackFiles => scope.with_modpack,
        CreationStep::ExtractOverrides => scope.with_modpack,
        CreationStep::WriteOptions => scope.skip_first_screen,
        _ => true,
    }
}

fn is_taken(scope: &CreationScope, step: CreationStep) -> (r: bool)
    ensures
        r == taken(*scope, step),
{
    match step {
        CreationStep::PrepareJava => scope.auto_download_java,
        CreationStep::InstallLoader => !matches!(scope.loader_type, ModLoaderType::Unknown),
        CreationStep::FetchOptiFine => scope.with_optifine,
        CreationStep::OpenModpack => scope.with_modpack,
        CreationStep::ListModpackFiles => scope.with_modpack,
        CreationStep::ExtractOverrides => scope.with_modpack,
        CreationStep::WriteOptions => scope.skip_first_screen,
        _ => true,
    }
}

/// The steps that there may be up to the writing of files, in their order.
pub open spec fn possible_steps() -> Seq<CreationStep> {
    seq![
        CreationStep::FetchClientInfo,
        CreationStep::PrepareJava,
        CreationStep::MakeClientTask,
        CreationStep::FindDirectories,
        CreationStep::ReplaceNatives,
        CreationStep::ListLibraries,
        CreationStep::ListAssets,
        CreationStep::InstallLoader,
        CreationStep::FetchOptiFine,
        CreationStep::OpenModpack,
        CreationStep::ListModpackFiles,
        CreationStep::ExtractOverrides,
        CreationStep::WriteOptions,
    ]
}

fn possible() -> (r: Vec<CreationStep>)
    ensures
        r@ == possible_steps(),
{
    let r = vec![
        CreationStep::FetchClientInfo,
        CreationStep::PrepareJava,
        CreationStep::MakeClientTask,
        CreationStep::FindDirectories,
        CreationStep::ReplaceNatives,
        CreationStep::ListLibraries,
        CreationStep::ListAssets,
        CreationStep::InstallLoader,
        CreationStep::FetchOptiFine,
        CreationStep::OpenModpack,
        CreationStep::ListModpackFiles,
        CreationStep::ExtractOverrides,
        CreationStep::WriteOptions,
    ];
    assert(r@ =~= possible_steps());
    r
}

/// The steps up to the writing of files.
pub open spec fn gathering_steps(scope: CreationScope) -> Seq<CreationStep> {
    possible_steps().filter(|step: CreationStep| taken(scope, step))
}

/// The steps from the writing of files on.
pub open spec fn settling_steps() -> Seq<CreationStep> {
    seq![
        CreationStep::SaveClientInfo,
        CreationStep::SaveConfig,
        CreationStep::Register,
        CreationStep::Schedule,
        CreationStep::RecordPending,
    ]
}

/// The steps of a creation, in their order.
pub open spec fn steps_of(scope: CreationScope) -> Seq<CreationStep> {
    gathering_steps(scope) + settling_steps()
}

/// The steps of a creation, in their order.
pub fn creation_steps(scope: CreationScope) -> (r: Vec<CreationStep>)
    ensures
        r@ == steps_of(scope),
{
    let all = possible();
    let ghost test = |step: CreationStep| taken(scope, step);
    let mut out: Vec<CreationStep> = Vec::new();
    let mut i: usize = 0;
    proof {
        reveal(Seq::filter);
    }
    assert(out@ =~= all@.take(0).filter(test));
    while i < all.len()
        invariant
            i <= all.len(),
            test == (|step: CreationStep| taken(scope, step)),
            out@ == all@.take(i as int).filter(test),
        decreases all.len() - i,
    {
        proof {
            reveal(Seq::filter);
        }
        assert(all@.take(i + 1).drop_last() =~= all@.take(i as int));
        if is_taken(&scope, all[i]) {
            out.push(all[i]);
        }
        i += 1;
    }
    assert(all@.take(all.len() as int) =~= all@);
    let ghost gathered = out@;
    out.push(CreationStep::SaveClientInfo);
    out.push(CreationStep::SaveConfig);
    out.push(CreationStep::Register);
    out.push(CreationStep::Schedule);
    out.push(CreationStep::RecordPending);
    assert(out@ =~= gathered + settling_steps());
    out
}

/// The place of a step among all there are.
pub open spec fn place_of(step: CreationStep) -> int {
    match step {
        CreationStep::FetchClientInfo => 0,
        CreationStep::PrepareJava => 1,
        CreationStep::MakeClientTask => 2,
        CreationStep::FindDirectories => 3,
        CreationStep::ReplaceNatives => 4,
        CreationStep::ListLibraries => 5,
        CreationStep::ListAssets => 6,
        CreationStep::InstallLoader => 7,
        CreationStep::FetchOptiFine => 8,
        CreationStep::OpenModpack => 9,
        CreationStep::ListModpackFiles => 10,
        CreationStep::ExtractOverrides => 11,
        CreationStep::WriteOptions => 12,
        CreationStep::SaveClientInfo => 13,
        CreationStep::SaveConfig => 14,
        CreationStep::Register => 15,
        CreationStep::Schedule => 16,
        CreationStep::RecordPending => 17,
    }
}

/// Steps are taken in their order and none twice. Java is prepared only where it is to be downloaded, a
/// loader is installed only where there is one, and OptiFine, a modpack and the options of the first
/// screen take their steps only where they are wanted. All other steps are always taken.
pub proof fn steps_are_taken_in_their_order(scope: CreationScope, step: CreationStep)
    ensures
        forall|i: int, j: int|
            0 <= i < j < steps_of(scope).len() ==> place_of(#[trigger] steps_of(scope)[i]) < place_of(
                #[trigger] steps_of(scope)[j],
            ),
        steps_of(scope).contains(step) <==> {
            &&& step == CreationStep::PrepareJava ==> scope.auto_download_java
            &&& step == CreationStep::InstallLoader ==> scope.loader_type != ModLoaderType::Unknown
            &&& step == CreationStep::FetchOptiFine ==> scope.with_optifine
            &&& step == CreationStep::OpenModpack || step == CreationStep::ListModpackFiles || step
                == CreationStep::ExtractOverrides ==> scope.with_modpack
            &&& step == CreationStep::WriteOptions ==> scope.skip_first_screen
        },
{
    let test = |s: CreationStep| taken(scope, s);
    let all = possible_steps();
    let front = gathering_steps(scope);
    let back = settling_steps();
    assert forall|i: int, j: int| 0 <= i < j < all.len() implies place_of(#[trigger] all[i]) < place_of(
        #[trigger] all[j],
    ) by {
        assert(place_of(all[i]) == i && place_of(all[j]) == j);
    }
    lemma_filter_in_order(all, test);
    let steps = steps_of(scope);
    assert forall|i: int, j: int| 0 <= i < j < steps.len() implies place_of(#[trigger] steps[i])
        < place_of(#[trigger] steps[j]) by {
        if i < front.len() {
            assert(front.contains(front[i]));
            all.lemma_filter_contains_rev(test, front[i]);
        }
    }
    if steps.contains(step) {
        let i = choose|i: int| 0 <= i < steps.len() && steps[i] == step;
        if i < front.len() {
            assert(test(front[i])) by {
                all.lemma_filter_pred(test, i);
            }
        } else {
            assert(back[i - front.len()] == step);
        }
    }
    let k = place_of(step);
    if taken(scope, step) {
        if k < 13 {
            assert(all[k] == step);
            all.lemma_filter_contains(test, k);
            let i = choose|i: int| 0 <= i < front.len() && front[i] == step;
            assert(steps[i] == step);
        } else {
            assert(back[k - 13] == step);
            assert(steps[front.len() + k - 13] == step);
        }
    }
}

/// A filter keeps the order of steps.
proof fn lemma_filter_in_order(steps: Seq<CreationStep>, test: spec_fn(CreationStep) -> bool)
    requires
        forall|i: int, j: int|
            0 <= i < j < steps.len() ==> place_of(#[trigger] steps[i]) < place_of(
                #[trigger] steps[j],
            ),
    ensures
        forall|i: int, j: int|
            0 <= i < j < steps.filter(test).len() ==> place_of(#[trigger] steps.filter(test)[i])
                < place_of(#[trigger] steps.filter(test)[j]),
    decreases steps.len(),
{
    reveal(Seq::filter);
    if steps.len() > 0 {
        let front = steps.drop_last();
        assert forall|i: int, j: int| 0 <= i < j < front.len() implies place_of(#[trigger] front[i])
            < place_of(#[trigger] front[j]) by {
            assert(front[i] == steps[i] && front[j] == steps[j]);
        }
        lemma_filter_in_order(front, test);
        let kept = front.filter(test);
        assert forall|i: int, j: int| 0 <= i < j < steps.filter(test).len() implies place_of(
            #[trigger] steps.filter(test)[i],
        ) < place_of(#[trigger] steps.filter(test)[j]) by {
            if j == kept.len() {
                assert(kept.contains(kept[i]));
                front.lemma_filter_contains_rev(test, kept[i]);
                let k = choose|k: int| 0 <= k < front.len() && front[k] == kept[i];
                assert(steps[k] == kept[i]);
                assert(steps.last() == steps[steps.len() - 1]);
            }
        }
    }
}

/// Each kind of failure is told by its own error: a client without a download or natives as an
/// unreadable description, directories as an instance that is not known, a modpack as a file that is
/// not there, and options or a configuration that cannot be written as files that cannot be made.
pub proof fn failed_steps_tell_what_failed(step: CreationStep)
    ensures
        step_error_of(step) == Some(InstanceError::ClientJsonParseError) <==> step
            == CreationStep::MakeClientTask || step == CreationStep::ReplaceNatives,
        step_error_of(step) == Some(InstanceError::InstanceNotFoundByID) <==> step
            == CreationStep::FindDirectories,
        step_error_of(step) == Some(InstanceError::FileNotFoundError) <==> step
            == CreationStep::OpenModpack,
        step_error_of(step) == Some(InstanceError::FileCreationFailed) <==> step
            == CreationStep::WriteOptions || step == CreationStep::SaveConfig,
        step_error_of(step) is None <==> !(step == CreationStep::MakeClientTask || step
            == CreationStep::ReplaceNatives || step == CreationStep::FindDirectories || step
            == CreationStep::OpenModpack || step == CreationStep::WriteOptions || step
            == CreationStep::SaveConfig),
{
}

/// An instance is known from its registration on, as it was made, and the known ones stay as they
/// are.
pub proof fn created_instances_are_known(
    store: Map<Seq<char>, InstanceModel>,
    instance: InstanceModel,
    other: Seq<char>,
    step: CreationStep,
    succeeded: bool,
)
    requires
        other != instance.id,
    ensures
        ({
            let after = store_after(store, instance, step, succeeded);
            &&& step == CreationStep::Register && succeeded ==> after.dom().contains(instance.id)
                && after[instance.id] == instance
            &&& step == CreationStep::Schedule && !succeeded ==> !after.dom().contains(instance.id)
            &&& !(step == CreationStep::Register && succeeded) && !(step == CreationStep::Schedule
                && !succeeded) ==> after == store
            &&& after.dom().contains(other) == store.dom().contains(other)
            &&& store.dom().contains(other) ==> after[other] == store[other]
        }),
{
}

/// The error of a step that failed; `None` where the step has an error of its own.
pub open spec fn step_error_of(step: CreationStep) -> Option<InstanceError> {
    match step {
        CreationStep::MakeClientTask => Some(InstanceError::ClientJsonParseError),
        CreationStep::FindDirectories => Some(InstanceError::InstanceNotFoundByID),
        CreationStep::ReplaceNatives => Some(InstanceError::ClientJsonParseError),
        CreationStep::OpenModpack => Some(InstanceError::FileNotFoundError),
        CreationStep::WriteOptions => Some(InstanceError::FileCreationFailed),
        CreationStep::SaveConfig => Some(InstanceError::FileCreationFailed),
        _ => None,
    }
}

/// The error of a step that failed; `None` where the step has an error of its own.
pub fn step_error(step: CreationStep) -> (r: Option<InstanceError>)
    ensures
        r == step_error_of(step),
{
    match step {
        CreationStep::MakeClientTask => Some(InstanceError::ClientJsonParseError),
        CreationStep::FindDirectories => Some(InstanceError::InstanceNotFoundByID),
        CreationStep::ReplaceNatives => Some(InstanceError::ClientJsonParseError),
        CreationStep::OpenModpack => Some(InstanceError::FileNotFoundError),
        CreationStep::WriteOptions => Some(InstanceError::FileCreationFailed),
        CreationStep::SaveConfig => Some(InstanceError::FileCreationFailed),
        _ => None,
    }
}

/// What is known of instances once a step was taken.
pub open spec fn store_after(
    store: Map<Seq<char>, InstanceModel>,
    instance: InstanceModel,
    step: CreationStep,
    succeeded: bool,
) -> Map<Seq<char>, InstanceModel> {
    if step == CreationStep::Register && succeeded {
        store.insert(instance.id, instance)
    } else if step == CreationStep::Schedule && !succeeded {
        store.remove(instance.id)
    } else {
        store
    }
}

/// Keeps what is known of instances in step with a creation: the new instance is known once it was
/// registered, and no more once its files could not be scheduled.
pub fn settle_step(store: &mut InstanceStore, instance: &Instance, step: CreationStep, succeeded: bool)
    ensures
        final(store)@ == store_after(old(store)@, instance@, step, succeeded),
{
    match step {
        CreationStep::Register => {
            if succeeded {
                store.insert(instance.duplicate());
            }
        },
        CreationStep::Schedule => {
            if !succeeded {
                store.remove(instance.id.as_str());
            }
        },
        _ => {},
    }
}

/// The directory of a new instance is removed with all that it holds. `step` is the step that was
/// taken, or `None` where the request was judged: that leaves alone what stands there, which may be
/// somebody's files.
pub open spec fn directory_removed(step: Option<CreationStep>, succeeded: bool) -> bool {
    step is Some && !succeeded
}

/// Whether to remove the directory of a new instance: once a step of its creation failed, but not
/// where the request is refused.
pub fn removes_directory(step: Option<CreationStep>, succeeded: bool) -> (r: bool)
    ensures
        r == directory_removed(step, succeeded),
{
    match step {
        Some(_) => !succeeded,
        None => false,
    }
}

/// A directory that was there before a request stays: the request is refused, and nothing is removed
/// on that account. A creation that fails at any step leaves no directory behind, and one that goes
/// on removes none.
pub proof fn only_failed_creations_remove_their_directory(
    request: CreationRequest,
    fits: bool,
    scope: CreationScope,
    n: int,
)
    requires
        0 <= n < steps_of(scope).len(),
    ensures
        accepted_request(request, true, fits) is Err,
        !directory_removed(None, accepted_request(request, true, fits) is Ok),
        directory_removed(Some(steps_of(scope)[n]), false),
        !directory_removed(Some(steps_of(scope)[n]), true),
{
}

/// What is known of instances after the first `n` steps of a creation.
pub open spec fn store_after_steps(
    store: Map<Seq<char>, InstanceModel>,
    instance: InstanceModel,
    steps: Seq<CreationStep>,
    n: int,
) -> Map<Seq<char>, InstanceModel>
    decreases n,
{
    if n <= 0 {
        store
    } else {
        store_after(store_after_steps(store, instance, steps, n - 1), instance, steps[n - 1], true)
    }
}

proof fn lemma_gathering_step(scope: CreationScope, n: int)
    requires
        0 <= n < gathering_steps(scope).len(),
    ensures
        steps_of(scope)[n] == gathering_steps(scope)[n],
        steps_of(scope)[n] != CreationStep::Register,
        steps_of(scope)[n] != CreationStep::Schedule,
{
    let test = |step: CreationStep| taken(scope, step);
    let step = gathering_steps(scope)[n];
    possible_steps().lemma_filter_contains_rev(test, step);
}

proof fn lemma_gathering_registers_nothing(
    store: Map<Seq<char>, InstanceModel>,
    instance: InstanceModel,
    scope: CreationScope,
    n: int,
)
    requires
        0 <= n <= gathering_steps(scope).len() + 2,
    ensures
        store_after_steps(store, instance, steps_of(scope), n) == store,
    decreases n,
{
    let steps = steps_of(scope);
    let g = gathering_steps(scope).len();
    if n > 0 {
        lemma_gathering_registers_nothing(store, instance, scope, n - 1);
        if n - 1 < g {
            lemma_gathering_step(scope, n - 1);
        } else {
            assert(steps[n - 1] == settling_steps()[n - 1 - g]);
        }
    }
}

/// A creation that fails at any step before the last leaves no trace among the known instances:
/// they are as they were before it.
pub proof fn failed_creations_leave_no_instance_behind(
    store: Map<Seq<char>, InstanceModel>,
    instance: InstanceModel,
    scope: CreationScope,
    n: int,
)
    requires
        !store.dom().contains(instance.id),
        0 <= n < steps_of(scope).len() - 1,
    ensures
        store_after(
            store_after_steps(store, instance, steps_of(scope), n),
            instance,
            steps_of(scope)[n],
            false,
        ) == store,
{
    let steps = steps_of(scope);
    let g = gathering_steps(scope).len() as int;
    if n < g + 3 {
        if n <= g + 2 {
            lemma_gathering_registers_nothing(store, instance, scope, n);
        }
        if n < g {
            lemma_gathering_step(scope, n);
        } else {
            assert(steps[n] == settling_steps()[n - g]);
        }
    } else {
        lemma_gathering_registers_nothing(store, instance, scope, g + 2);
        assert(steps[g + 2] == settling_steps()[2]);
        assert(steps[g + 3] == settling_steps()[3]);
        assert(store_after_steps(store, instance, steps, g + 3) == store.insert(
            instance.id,
            instance,
        ));
        assert(store.insert(instance.id, instance).remove(instance.id) =~= store);
    }
}

/// All that describes an instance is written before any of its files is scheduled, and the
/// instance is known by then.
pub proof fn instances_are_saved_before_work_is_scheduled(
    store: Map<Seq<char>, InstanceModel>,
    instance: InstanceModel,
    scope: CreationScope,
    n: int,
)
    requires
        0 <= n < steps_of(scope).len(),
        steps_of(scope)[n] == CreationStep::Schedule,
    ensures
        n >= 3,
        steps_of(scope)[n - 3] == CreationStep::SaveClientInfo,
        steps_of(scope)[n - 2] == CreationStep::SaveConfig,
        steps_of(scope)[n - 1] == CreationStep::Register,
        store_after_steps(store, instance, steps_of(scope), n) == store.insert(
            instance.id,
            instance,
        ),
{
    let steps = steps_of(scope);
    let g = gathering_steps(scope).len() as int;
    if n < g {
        lemma_gathering_step(scope, n);
    } else {
        assert(steps[n] == settling_steps()[n - g]);
        assert(n == g + 3);
        assert(steps[g] == settling_steps()[0]);
        assert(steps[g + 1] == settling_steps()[1]);
        assert(steps[g + 2] == settling_steps()[2]);
        lemma_gathering_registers_nothing(store, instance, scope, g + 2);
    }
}

} // verus!

//! Installing, changing and removing the mod loader and the OptiFine of an instance.
use vstd::prelude::*;
use crate::instance::models::{
    chosen_loader, chosen_optifine, effective_config, loader_from, optifine_from, GameConfig,
    Instance, InstanceError, InstanceModel, ModLoader, ModLoaderModel, ModLoaderResourceInfo,
    ModLoaderStatus, ModLoaderType, OptiFineModel, OptiFineResourceInfo,
};
use crate::instance::store::InstanceStore;
use crate::text::{concat2, concat4, opt_text};

verus! {

/// The known instances.
pub type Known = Map<Seq<char>, InstanceModel>;

// ---------------------------------------------------------------------------------------------
// Finishing an installation
// ---------------------------------------------------------------------------------------------
/// What a request to finish an installation comes to: the installer runs, or there is nothing for
/// it to do.
#[derive(Clone, Copy, Debug, PartialEq, Eq, Structural)]
pub enum InstallStart {
    Run,
    Skip,
}

/// What a request to finish an installation comes to, by how far the installation is. One that
/// runs is not run twice, and one that failed to download is not run at all.
pub open spec fn start_of(status: ModLoaderStatus) -> Result<InstallStart, InstanceError> {
    match status {
        ModLoaderStatus::DownloadFailed => Err(InstanceError::ProcessorExecutionFailed),
        ModLoaderStatus::Installing => Err(InstanceError::InstallationDuplicated),
        ModLoaderStatus::Downloading => Ok(InstallStart::Run),
        _ => Ok(InstallStart::Skip),
    }
}

/// What a request to finish an installation comes to, by how far the installation is.
pub fn install_start(status: ModLoaderStatus) -> (r: Result<InstallStart, InstanceError>)
    ensures
        r == start_of(status),
{
    match status {
        ModLoaderStatus::DownloadFailed => Err(InstanceError::ProcessorExecutionFailed),
        ModLoaderStatus::Installing => Err(InstanceError::InstallationDuplicated),
        ModLoaderStatus::Downloading => Ok(InstallStart::Run),
        _ => Ok(InstallStart::Skip),
    }
}

/// An instance whose loader is at a status.
pub open spec fn with_loader_status(
    instance: InstanceModel,
    status: ModLoaderStatus,
) -> InstanceModel {
    InstanceModel { mod_loader: ModLoaderModel { status, ..instance.mod_loader }, ..instance }
}

/// An instance whose OptiFine, if it has one, is at a status.
pub open spec fn with_optifine_status(
    instance: InstanceModel,
    status: ModLoaderStatus,
) -> InstanceModel {
    match instance.optifine {
        Some(optifine) => InstanceModel {
            optifine: Some(OptiFineModel { status, ..optifine }),
            ..instance
        },
        None => instance,
    }
}

/// What a request to finish the installation of a loader comes to, and the instances after it.
pub open spec fn loader_install_begun(known: Known, id: Seq<char>) -> (
    Known,
    Result<InstallStart, InstanceError>,
) {
    if !known.dom().contains(id) {
        (known, Err(InstanceError::InstanceNotFoundByID))
    } else {
        let start = start_of(known[id].mod_loader.status);
        if start == Ok::<InstallStart, InstanceError>(InstallStart::Run) {
            (
                known.insert(id, with_loader_status(known[id], ModLoaderStatus::Installing)),
                start,
            )
        } else {
            (known, start)
        }
    }
}

/// What a request to finish the installation of an OptiFine comes to, and the instances after it.
pub open spec fn optifine_install_begun(known: Known, id: Seq<char>) -> (
    Known,
    Result<InstallStart, InstanceError>,
) {
    if !known.dom().contains(id) {
        (known, Err(InstanceError::InstanceNotFoundByID))
    } else {
        match known[id].optifine {
            None => (known, Ok(InstallStart::Skip)),
            Some(optifine) => {
                let start = start_of(optifine.status);
                if start == Ok::<InstallStart, InstanceError>(InstallStart::Run) {
                    (
                        known.insert(
                            id,
                            with_optifine_status(known[id], ModLoaderStatus::Installing),
                        ),
                        start,
                    )
                } else {
                    (known, start)
                }
            },
        }
    }
}

/// Begins to finish the installation of the loader of an instance.
pub fn begin_mod_loader_install(store: &mut InstanceStore, id: &str) -> (r: Result<
    InstallStart,
    InstanceError,
>)
    ensures
        (final(store)@, r) == loader_install_begun(old(store)@, id@),
{
    let mut instance = store.get_instance(id)?;
    let start = install_start(instance.mod_loader.status)?;
    if matches!(start, InstallStart::Run) {
        instance.mod_loader.status = ModLoaderStatus::Installing;
        store.insert(instance);
    }
    Ok(start)
}

/// Ends the installation of the loader of an instance: it is installed. The result is what is
/// saved of the instance.
pub fn finish_mod_loader_install(store: &mut InstanceStore, id: &str) -> (r: Result<
    Instance,
    InstanceError,
>)
    ensures
        match r {
            Ok(instance) => old(store)@.dom().contains(id@) && instance@ == with_loader_status(
                old(store)@[id@],
                ModLoaderStatus::Installed,
            ) && final(store)@ == old(store)@.insert(id@, instance@),
            Err(error) => !old(store)@.dom().contains(id@) && error
                == InstanceError::InstanceNotFoundByID && final(store)@ == old(store)@,
        },
{
    let mut instance = store.get_instance(id)?;
    instance.mod_loader.status = ModLoaderStatus::Installed;
    let saved = instance.duplicate();
    store.insert(instance);
    Ok(saved)
}

fn set_optifine_status(instance: &mut Instance, status: ModLoaderStatus)
    ensures
        final(instance)@ == with_optifine_status(old(instance)@, status),
        final(instance).id@ == old(instance).id@,
{
    let mut optifine = None;
    std::mem::swap(&mut optifine, &mut instance.optifine);
    if let Some(mut own) = optifine {
        own.status = status;
        instance.optifine = Some(own);
    }
}

/// Begins to finish the installation of the OptiFine of an instance.
pub fn begin_optifine_install(store: &mut InstanceStore, id: &str) -> (r: Result<
    InstallStart,
    InstanceError,
>)
    ensures
        (final(store)@, r) == optifine_install_begun(old(store)@, id@),
{
    let mut instance = store.get_instance(id)?;
    let start = match &instance.optifine {
        Some(optifine) => install_start(optifine.status)?,
        None => InstallStart::Skip,
    };
    if matches!(start, InstallStart::Run) {
        set_optifine_status(&mut instance, ModLoaderStatus::Installing);
        store.insert(instance);
    }
    Ok(start)
}

/// Ends the installation of the OptiFine of an instance: it is installed, if there is one. The
/// result is what is saved of the instance.
pub fn finish_optifine_loader_install(store: &mut InstanceStore, id: &str) -> (r: Result<
    Instance,
    InstanceError,
>)
    ensures
        match r {
            Ok(instance) => old(store)@.dom().contains(id@) && instance@ == with_optifine_status(
                old(store)@[id@],
                ModLoaderStatus::Installed,
            ) && final(store)@ == old(store)@.insert(id@, instance@),
            Err(error) => !old(store)@.dom().contains(id@) && error
                == InstanceError::InstanceNotFoundByID && final(store)@ == old(store)@,
        },
{
    let mut instance = store.get_instance(id)?;
    set_optifine_status(&mut instance, ModLoaderStatus::Installed);
    let saved = instance.duplicate();
    store.insert(instance);
    Ok(saved)
}

/// An installer that runs is not run a second time: until the installation ends, a further request
/// is refused and changes nothing.
pub proof fn installers_do_not_run_twice(known: Known, id: Seq<char>)
    ensures
        loader_install_begun(known, id).1 == Ok::<InstallStart, InstanceError>(InstallStart::Run)
            ==> loader_install_begun(loader_install_begun(known, id).0, id) == (
            loader_install_begun(known, id).0,
            Err::<InstallStart, InstanceError>(InstanceError::InstallationDuplicated),
        ),
        optifine_install_begun(known, id).1 == Ok::<InstallStart, InstanceError>(InstallStart::Run)
            ==> optifine_install_begun(optifine_install_begun(known, id).0, id) == (
            optifine_install_begun(known, id).0,
            Err::<InstallStart, InstanceError>(InstanceError::InstallationDuplicated),
        ),
{
}

/// An installer runs exactly where its files are being downloaded. Where that failed it is refused,
/// and where it runs already it is refused as a second one; in every other state there is nothing to
/// do. Where it runs, the loader is being installed from then on, and nothing else changes.
pub proof fn installers_run_once_their_files_are_fetched(known: Known, id: Seq<char>, other: Seq<char>)
    requires
        known.dom().contains(id),
        other != id,
    ensures
        ({
            let status = known[id].mod_loader.status;
            let (after, start) = loader_install_begun(known, id);
            &&& start == Ok::<InstallStart, InstanceError>(InstallStart::Run) <==> status
                == ModLoaderStatus::Downloading
            &&& start == Err::<InstallStart, InstanceError>(InstanceError::ProcessorExecutionFailed)
                <==> status == ModLoaderStatus::DownloadFailed
            &&& start == Err::<InstallStart, InstanceError>(InstanceError::InstallationDuplicated)
                <==> status == ModLoaderStatus::Installing
            &&& status == ModLoaderStatus::Downloading ==> after[id].mod_loader.status
                == ModLoaderStatus::Installing
            &&& status != ModLoaderStatus::Downloading ==> after == known
            &&& with_loader_status(after[id], status) == known[id]
            &&& after.dom().contains(other) == known.dom().contains(other) && after[other]
                == known[other]
        }),
{
}

/// The same holds of an OptiFine; an instance that has none has nothing to install.
pub proof fn optifines_are_installed_once_they_are_fetched(
    known: Known,
    id: Seq<char>,
    other: Seq<char>,
)
    requires
        known.dom().contains(id),
        other != id,
    ensures
        ({
            let (after, start) = optifine_install_begun(known, id);
            &&& known[id].optifine is None ==> start == Ok::<InstallStart, InstanceError>(
                InstallStart::Skip,
            ) && after == known
            &&& known[id].optifine matches Some(optifine) ==> {
                &&& start == Ok::<InstallStart, InstanceError>(InstallStart::Run) <==> optifine.status
                    == ModLoaderStatus::Downloading
                &&& start is Err <==> optifine.status == ModLoaderStatus::DownloadFailed
                    || optifine.status == ModLoaderStatus::Installing
                &&& optifine.status == ModLoaderStatus::Downloading ==> (after[id].optifine
                    matches Some(o) && o.status == ModLoaderStatus::Installing)
                &&& optifine.status != ModLoaderStatus::Downloading ==> after == known
                &&& with_optifine_status(after[id], optifine.status) == known[id]
            }
            &&& after.dom().contains(other) == known.dom().contains(other) && after[other]
                == known[other]
        }),
{
}

/// Of instances that are not known nothing is installed.
pub proof fn unknown_instances_are_refused(known: Known, id: Seq<char>)
    requires
        !known.dom().contains(id),
    ensures
        loader_install_begun(known, id) == (
            known,
            Err::<InstallStart, InstanceError>(InstanceError::InstanceNotFoundByID),
        ),
        optifine_install_begun(known, id) == (
            known,
            Err::<InstallStart, InstanceError>(InstanceError::InstanceNotFoundByID),
        ),
{
}

/// A status is taken over by the loader or the OptiFine that it is of. Its kind, its version and
/// everything else of the instance stay.
pub proof fn statuses_change_nothing_else(instance: InstanceModel, status: ModLoaderStatus)
    ensures
        ({
            let a = with_loader_status(instance, status);
            let b = with_optifine_status(instance, status);
            &&& a.mod_loader.status == status
            &&& a.mod_loader.loader_type == instance.mod_loader.loader_type
            &&& a.mod_loader.version == instance.mod_loader.version
            &&& a.mod_loader.branch == instance.mod_loader.branch
            &&& a == (InstanceModel { mod_loader: a.mod_loader, ..instance })
            &&& b == (InstanceModel { optifine: b.optifine, ..instance })
            &&& b.optifine is Some <==> instance.optifine is Some
            &&& b.optifine matches Some(o) ==> o.status == status && (OptiFineModel {
                status: (instance.optifine->0).status,
                ..o
            }) == instance.optifine->0
        }),
{
}

/// The interfaces of Fabric are removed exactly where an instance with mods of its own leaves Fabric or
/// Quilt for another loader.
pub proof fn fabric_interfaces_go_with_fabric(from: ModLoaderType, to: ModLoaderType, isolated: bool)
    ensures
        removes_api_mods(from, to, isolated) <==> isolated && from != to && (from
            == ModLoaderType::Fabric || from == ModLoaderType::Quilt),
        !removes_api_mods(from, from, isolated),
{
}

/// Once an installation has ended, there is nothing left for the installer to do.
pub proof fn ended_installations_are_not_run_again(known: Known, id: Seq<char>)
    requires
        known.dom().contains(id),
    ensures
        loader_install_begun(
            known.insert(id, with_loader_status(known[id], ModLoaderStatus::Installed)),
            id,
        ).1 == Ok::<InstallStart, InstanceError>(InstallStart::Skip),
        optifine_install_begun(
            known.insert(id, with_optifine_status(known[id], ModLoaderStatus::Installed)),
            id,
        ).1 == Ok::<InstallStart, InstanceError>(InstallStart::Skip),
{
}

// ---------------------------------------------------------------------------------------------
// Changing the loader
// ---------------------------------------------------------------------------------------------
/// Whether the loader of an instance can be changed: only if the description of its client is
/// there and readable, and is made up of patches. `patches` is how many it has, if it is readable.
pub fn check_change_mod_loader_availablity(
    store: &InstanceStore,
    id: &str,
    json_exists: bool,
    patches: Option<usize>,
) -> (r: Result<bool, InstanceError>)
    ensures
        r == (if !store@.dom().contains(id@) {
            Err::<bool, InstanceError>(InstanceError::InstanceNotFoundByID)
        } else if json_exists && patches is Some && patches->0 > 0 {
            Ok(true)
        } else {
            Err(InstanceError::NotSupportChangeModLoader)
        }),
{
    if store.get(id).is_none() {
        return Err(InstanceError::InstanceNotFoundByID);
    }
    if !json_exists {
        return Err(InstanceError::NotSupportChangeModLoader);
    }
    match patches {
        Some(n) => if n == 0 {
            Err(InstanceError::NotSupportChangeModLoader)
        } else {
            Ok(true)
        },
        None => Err(InstanceError::NotSupportChangeModLoader),
    }
}

/// A loader of the Fabric family.
pub open spec fn fabric_family(loader_type: ModLoaderType) -> bool {
    loader_type == ModLoaderType::Fabric || loader_type == ModLoaderType::Quilt
}

/// The mods that are the interfaces of Fabric are removed where an instance with mods of its own
/// leaves a loader of the Fabric family for another.
pub open spec fn removes_api_mods(from: ModLoaderType, to: ModLoaderType, isolated: bool) -> bool {
    fabric_family(from) && from != to && isolated
}

/// What changing the loader of an instance amounts to.
#[derive(Debug)]
pub struct LoaderChange {
    /// The instance as it is saved.
    pub instance: Instance,
    /// The loader that is taken out of the description of the client.
    pub removed: ModLoaderType,
    /// Whether the mods that are the interfaces of Fabric are removed.
    pub removes_api_mods: bool,
    /// Whether the new loader is put into the description of the client and its files are fetched.
    pub installs: bool,
}

/// Changes the loader of an instance.
pub fn change_mod_loader(
    store: &InstanceStore,
    id: &str,
    new_mod_loader: &ModLoaderResourceInfo,
    global: &GameConfig,
) -> (r: Result<LoaderChange, InstanceError>)
    ensures
        match r {
            Ok(change) => {
                let old = store@[id@];
                let loader = chosen_loader(
                    new_mod_loader.loader_type,
                    new_mod_loader.version@,
                    opt_text(new_mod_loader.branch),
                );
                &&& store@.dom().contains(id@)
                &&& change.instance@ == (InstanceModel { mod_loader: loader, ..old })
                &&& change.removed == old.mod_loader.loader_type
                &&& change.removes_api_mods == removes_api_mods(
                    old.mod_loader.loader_type,
                    new_mod_loader.loader_type,
                    effective_config(old, global@).version_isolation,
                )
                &&& change.installs == (new_mod_loader.loader_type != ModLoaderType::Unknown)
            },
            Err(error) => !store@.dom().contains(id@) && error
                == InstanceError::InstanceNotFoundByID,
        },
{
    let mut instance = store.get_instance(id)?;
    let config = instance.game_config(global);
    let removed = instance.mod_loader.loader_type;
    let leaves = matches!(removed, ModLoaderType::Fabric | ModLoaderType::Quilt) && removed
        != new_mod_loader.loader_type && config.version_isolation;
    instance.mod_loader = loader_from(new_mod_loader);
    let installs = !matches!(new_mod_loader.loader_type, ModLoaderType::Unknown);
    Ok(LoaderChange { instance, removed, removes_api_mods: leaves, installs })
}

/// The loader of an instance that has none.
pub open spec fn no_loader() -> ModLoaderModel {
    ModLoaderModel {
        loader_type: ModLoaderType::Unknown,
        status: ModLoaderStatus::Installed,
        version: ""@,
        branch: None,
    }
}

/// Removes the loader of an instance.
pub fn remove_mod_loader(store: &InstanceStore, id: &str, global: &GameConfig) -> (r: Result<
    LoaderChange,
    InstanceError,
>)
    ensures
        match r {
            Ok(change) => {
                let old = store@[id@];
                &&& store@.dom().contains(id@)
                &&& change.instance@ == (InstanceModel { mod_loader: no_loader(), ..old })
                &&& change.removed == old.mod_loader.loader_type
                &&& change.removes_api_mods == (fabric_family(old.mod_loader.loader_type)
                    && effective_config(old, global@).version_isolation)
                &&& !change.installs
            },
            Err(error) => !store@.dom().contains(id@) && error
                == InstanceError::InstanceNotFoundByID,
        },
{
    let mut instance = store.get_instance(id)?;
    let config = instance.game_config(global);
    let removed = instance.mod_loader.loader_type;
    let leaves = matches!(removed, ModLoaderType::Fabric | ModLoaderType::Quilt)
        && config.version_isolation;
    instance.mod_loader = ModLoader {
        loader_type: ModLoaderType::Unknown,
        status: ModLoaderStatus::Installed,
        version: "".to_owned(),
        branch: None,
    };
    Ok(LoaderChange { instance, removed, removes_api_mods: leaves, installs: false })
}

/// The task group that fetches the files of a new loader, given how the loader is called; none
/// where there is nothing to fetch.
pub fn loader_group_name(loader_name: &str, version: &str, tasks: usize) -> (r: Option<String>)
    ensures
        opt_text(r) == (if tasks == 0 {
            None
        } else {
            Some("change-mod-loader?"@ + loader_name@ + " "@ + version@)
        }),
{
    if tasks == 0 {
        None
    } else {
        Some(concat4("change-mod-loader?", loader_name, " ", version))
    }
}

/// The loader that an instance has once it was removed is the one that it has after a change to
/// none, and both remove the interfaces of Fabric alike.
pub proof fn removing_is_changing_to_no_loader(from: ModLoaderType, isolated: bool)
    ensures
        chosen_loader(ModLoaderType::Unknown, ""@, None) == no_loader(),
        removes_api_mods(from, ModLoaderType::Unknown, isolated) == (fabric_family(from)
            && isolated),
{
}

// ---------------------------------------------------------------------------------------------
// OptiFine
// ---------------------------------------------------------------------------------------------
/// Changes the OptiFine of an instance. The result is the instance as it is saved.
pub fn change_optifine(store: &InstanceStore, id: &str, new_optifine: &OptiFineResourceInfo) -> (r:
    Result<Instance, InstanceError>)
    ensures
        match r {
            Ok(instance) => store@.dom().contains(id@) && instance@ == (InstanceModel {
                optifine: Some(chosen_optifine(*new_optifine)),
                ..store@[id@]
            }),
            Err(error) => !store@.dom().contains(id@) && error
                == InstanceError::InstanceNotFoundByID,
        },
{
    let mut instance = store.get_instance(id)?;
    instance.optifine = Some(optifine_from(new_optifine));
    Ok(instance)
}

/// The task group that fetches a new OptiFine; none where there is nothing to fetch.
pub fn optifine_group_name(filename: &str, tasks: usize) -> (r: Option<String>)
    ensures
        opt_text(r) == (if tasks == 0 {
            None
        } else {
            Some("change-optifine?"@ + filename@)
        }),
{
    if tasks == 0 {
        None
    } else {
        Some(concat2("change-optifine?", filename))
    }
}

/// Removes the OptiFine of an instance. The result is the instance as it is saved.
pub fn remove_optifine(store: &InstanceStore, id: &str) -> (r: Result<Instance, InstanceError>)
    ensures
        match r {
            Ok(instance) => store@.dom().contains(id@) && instance@ == (InstanceModel {
                optifine: None,
                ..store@[id@]
            }),
            Err(error) => !store@.dom().contains(id@) && error
                == InstanceError::InstanceNotFoundByID,
        },
{
    let mut instance = store.get_instance(id)?;
    instance.optifine = None;
    Ok(instance)
}

} // verus!

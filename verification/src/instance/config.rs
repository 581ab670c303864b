//! Changing the settings of an instance.
use vstd::prelude::*;
use crate::external::{json_text, json_text_of, unicode_uppercase, JsonText, JsonTextModel};
use crate::instance::models::{GameConfig, GameConfigModel, Instance, InstanceError, InstanceModel};
use crate::instance::store::InstanceStore;
use crate::paths::TargetPath;
use crate::text::{
    chars_of, lower, lower_char, prefixes_are_taken_off, same, strip_prefix, to_lower_char, trim,
    trimmed, without_prefix,
};

verus! {

/// The name of a setting with words parted by underscores instead of capitals.
pub open spec fn snake_case_of(key: Seq<char>) -> Seq<char>
    decreases key.len(),
{
    if key.len() == 0 {
        seq![]
    } else {
        let front = snake_case_of(key.drop_last());
        let c = key.last();
        if key.len() > 1 && unicode_uppercase(c) {
            front.push('_').push(lower_char(c))
        } else {
            front.push(lower_char(c))
        }
    }
}

/// The name of a setting with words parted by underscores instead of capitals.
pub fn snake_case(key: &str) -> (r: String)
    ensures
        r@ == snake_case_of(key@),
{
    let chars = chars_of(key);
    let mut out = String::new();
    let mut i: usize = 0;
    assert(out@ =~= snake_case_of(key@.take(0)));
    while i < chars.len()
        invariant
            i <= chars.len(),
            chars@ == key@,
            out@ == snake_case_of(key@.take(i as int)),
        decreases chars.len() - i,
    {
        assert(key@.take(i + 1).drop_last() =~= key@.take(i as int));
        assert(key@.take(i + 1).last() == chars@[i as int]);
        if i > 0 && chars[i].is_uppercase() {
            out.push('_');
        }
        out.push(to_lower_char(chars[i]));
        i += 1;
    }
    assert(key@.take(key@.len() as int) =~= key@);
    out
}

/// Why a setting was not changed.
#[derive(Clone, Copy, Debug, PartialEq, Eq, Structural)]
pub enum ConfigError {
    /// There is no such instance.
    Instance(InstanceError),
    /// There is no such setting.
    NotFound,
    /// The value is neither `true` nor `false`.
    NotABool,
}

/// What is left to do once a setting was taken.
#[derive(Debug)]
pub enum ConfigOutcome {
    /// Save the instance.
    Save,
    /// Change a setting of its game configuration, then save the instance.
    UpdateGameConfig { key: String },
}

/// What is left to do, as texts.
pub enum ConfigOutcomeModel {
    Save,
    UpdateGameConfig { key: Seq<char> },
}

impl View for ConfigOutcome {
    type V = ConfigOutcomeModel;

    open spec fn view(&self) -> ConfigOutcomeModel {
        match *self {
            ConfigOutcome::Save => ConfigOutcomeModel::Save,
            ConfigOutcome::UpdateGameConfig { key } => ConfigOutcomeModel::UpdateGameConfig {
                key: key@,
            },
        }
    }
}

/// A value as a truth value.
pub open spec fn bool_value(value: Seq<char>) -> Option<bool> {
    if value == "true"@ {
        Some(true)
    } else if value == "false"@ {
        Some(false)
    } else {
        None
    }
}

fn parse_bool(value: &str) -> (r: Option<bool>)
    ensures
        r == bool_value(value@),
{
    if same(value, "true") {
        Some(true)
    } else if same(value, "false") {
        Some(false)
    } else {
        None
    }
}

/// A value as a text: the string that it writes in JSON, or itself.
pub open spec fn text_value(value: Seq<char>, read: JsonTextModel) -> Seq<char> {
    match read {
        JsonTextModel::Text(s) => s,
        _ => value,
    }
}

/// A value as an optional text without white space on both ends.
pub open spec fn tag_value(read: JsonTextModel) -> Option<Seq<char>> {
    match read {
        JsonTextModel::Text(s) => Some(trimmed(s)),
        _ => None,
    }
}

/// An instance once a setting was taken, and what is left to do; or why it was not. `key` has
/// words parted by underscores, and `read` is what the value writes in JSON.
pub open spec fn configured(
    instance: InstanceModel,
    key: Seq<char>,
    value: Seq<char>,
    read: JsonTextModel,
    global: GameConfigModel,
) -> Result<(InstanceModel, ConfigOutcomeModel), ConfigError> {
    if key == "description"@ {
        Ok(
            (
                InstanceModel { description: text_value(value, read), ..instance },
                ConfigOutcomeModel::Save,
            ),
        )
    } else if key == "tag"@ {
        Ok((InstanceModel { tag: tag_value(read), ..instance }, ConfigOutcomeModel::Save))
    } else if key == "icon_src"@ {
        Ok(
            (
                InstanceModel { icon_src: text_value(value, read), ..instance },
                ConfigOutcomeModel::Save,
            ),
        )
    } else if key == "starred"@ {
        match bool_value(value) {
            Some(starred) => Ok((InstanceModel { starred, ..instance }, ConfigOutcomeModel::Save)),
            None => Err(ConfigError::NotABool),
        }
    } else if key == "use_spec_game_config"@ {
        match bool_value(value) {
            Some(used) => Ok(
                (
                    InstanceModel {
                        use_spec_game_config: used,
                        spec_game_config: if used && instance.spec_game_config is None {
                            Some(global)
                        } else {
                            instance.spec_game_config
                        },
                        ..instance
                    },
                    ConfigOutcomeModel::Save,
                ),
            ),
            None => Err(ConfigError::NotABool),
        }
    } else {
        match without_prefix(key, "spec_game_config."@) {
            Some(rest) => Ok(
                (
                    instance,
                    if instance.spec_game_config is Some {
                        ConfigOutcomeModel::UpdateGameConfig { key: rest }
                    } else {
                        ConfigOutcomeModel::Save
                    },
                ),
            ),
            None => Err(ConfigError::NotFound),
        }
    }
}

/// Takes a setting, given what its value writes in JSON.
pub fn configure(
    instance: &mut Instance,
    key: &str,
    value: &str,
    read: &JsonText,
    global: &GameConfig,
) -> (r: Result<ConfigOutcome, ConfigError>)
    ensures
        match configured(old(instance)@, key@, value@, read@, global@) {
            Ok((after, outcome)) => final(instance)@ == after && (r matches Ok(o) && o@ == outcome),
            Err(error) => final(instance)@ == old(instance)@ && r == Err::<
                ConfigOutcome,
                ConfigError,
            >(error),
        },
{
    if same(key, "description") {
        instance.description = match read {
            JsonText::Text(s) => s.clone(),
            _ => value.to_owned(),
        };
        Ok(ConfigOutcome::Save)
    } else if same(key, "tag") {
        instance.tag = match read {
            JsonText::Text(s) => Some(trim(s.as_str())),
            _ => None,
        };
        Ok(ConfigOutcome::Save)
    } else if same(key, "icon_src") {
        instance.icon_src = match read {
            JsonText::Text(s) => s.clone(),
            _ => value.to_owned(),
        };
        Ok(ConfigOutcome::Save)
    } else if same(key, "starred") {
        match parse_bool(value) {
            Some(starred) => {
                instance.starred = starred;
                Ok(ConfigOutcome::Save)
            },
            None => Err(ConfigError::NotABool),
        }
    } else if same(key, "use_spec_game_config") {
        match parse_bool(value) {
            Some(used) => {
                instance.use_spec_game_config = used;
                if used && instance.spec_game_config.is_none() {
                    instance.spec_game_config = Some(global.duplicate());
                }
                Ok(ConfigOutcome::Save)
            },
            None => Err(ConfigError::NotABool),
        }
    } else {
        match strip_prefix(key, "spec_game_config.") {
            Some(rest) => {
                if instance.spec_game_config.is_some() {
                    Ok(ConfigOutcome::UpdateGameConfig { key: rest })
                } else {
                    Ok(ConfigOutcome::Save)
                }
            },
            None => Err(ConfigError::NotFound),
        }
    }
}

/// The instances once a setting of one of them was taken.
pub open spec fn store_configured(
    store: Map<Seq<char>, InstanceModel>,
    id: Seq<char>,
    key_path: Seq<char>,
    value: Seq<char>,
    global: GameConfigModel,
) -> Result<(Map<Seq<char>, InstanceModel>, ConfigOutcomeModel), ConfigError> {
    if !store.dom().contains(id) {
        Err(ConfigError::Instance(InstanceError::InstanceNotFoundByID))
    } else {
        match configured(
            store[id],
            snake_case_of(key_path),
            value,
            json_text_of(value),
            global,
        ) {
            Ok((after, outcome)) => Ok((store.insert(id, after), outcome)),
            Err(error) => Err(error),
        }
    }
}

/// Takes a setting of an instance.
pub fn update_instance_config(
    store: &mut InstanceStore,
    instance_id: &str,
    key_path: &str,
    value: &str,
    global: &GameConfig,
) -> (r: Result<ConfigOutcome, ConfigError>)
    ensures
        match store_configured(old(store)@, instance_id@, key_path@, value@, global@) {
            Ok((after, outcome)) => final(store)@ == after && (r matches Ok(o) && o@ == outcome),
            Err(error) => final(store)@ == old(store)@ && r == Err::<ConfigOutcome, ConfigError>(
                error,
            ),
        },
{
    let mut instance = match store.get_instance(instance_id) {
        Ok(instance) => instance,
        Err(error) => {
            return Err(ConfigError::Instance(error));
        },
    };
    let ghost before = instance@;
    let key = snake_case(key_path);
    let read = json_text(value);
    let outcome = match configure(&mut instance, key.as_str(), value, &read, global) {
        Ok(outcome) => outcome,
        Err(error) => {
            return Err(error);
        },
    };
    assert(instance.id@ == instance_id@) by {
        assert(instance@.id == before.id);
    }
    store.insert(instance);
    Ok(outcome)
}

/// Gives an instance the global game configuration as its own.
pub fn reset_instance_game_config(
    store: &mut InstanceStore,
    instance_id: &str,
    global: &GameConfig,
) -> (r: Result<Instance, InstanceError>)
    ensures
        !old(store)@.dom().contains(instance_id@) ==> final(store)@ == old(store)@ && r == Err::<
            Instance,
            InstanceError,
        >(InstanceError::InstanceNotFoundByID),
        old(store)@.dom().contains(instance_id@) ==> {
            let after = InstanceModel {
                spec_game_config: Some(global@),
                ..old(store)@[instance_id@]
            };
            &&& final(store)@ == old(store)@.insert(instance_id@, after)
            &&& r matches Ok(instance) && instance@ == after
        },
{
    let mut instance = match store.get_instance(instance_id) {
        Ok(instance) => instance,
        Err(error) => {
            return Err(error);
        },
    };
    instance.spec_game_config = Some(global.duplicate());
    store.insert(instance.duplicate());
    Ok(instance)
}

/// The configuration with which an instance is run.
pub fn retrieve_instance_game_config(
    store: &InstanceStore,
    instance_id: &str,
    global: &GameConfig,
) -> (r: Result<GameConfig, InstanceError>)
    ensures
        !store@.dom().contains(instance_id@) ==> r == Err::<GameConfig, InstanceError>(
            InstanceError::InstanceNotFoundByID,
        ),
        store@.dom().contains(instance_id@) ==> (r matches Ok(config) && config@
            == crate::instance::models::effective_config(store@[instance_id@], global@)),
{
    match store.get(instance_id) {
        Some(instance) => Ok(instance.game_config(global)),
        None => Err(InstanceError::InstanceNotFoundByID),
    }
}

/// Gives an instance another name and the path that goes with it.
pub fn rename_instance(
    store: &mut InstanceStore,
    instance_id: &str,
    new_name: &str,
    new_path: &TargetPath,
) -> (r: Result<(), InstanceError>)
    ensures
        !old(store)@.dom().contains(instance_id@) ==> final(store)@ == old(store)@ && r == Err::<
            (),
            InstanceError,
        >(InstanceError::InstanceNotFoundByID),
        old(store)@.dom().contains(instance_id@) ==> r is Ok && final(store)@ == old(store)@.insert(
            instance_id@,
            (InstanceModel {
                name: new_name@,
                version_path: new_path@,
                ..old(store)@[instance_id@]
            }),
        ),
{
    let mut instance = match store.get_instance(instance_id) {
        Ok(instance) => instance,
        Err(error) => {
            return Err(error);
        },
    };
    instance.version_path = new_path.duplicate();
    instance.name = new_name.to_owned();
    store.insert(instance);
    Ok(())
}

/// A name of two words, the second with a capital, is parted there by an underscore, and the capital
/// becomes small.
pub proof fn words_are_parted_at_capitals(first: Seq<char>, capital: char, rest: Seq<char>)
    requires
        first.len() > 0,
        forall|i: int| 0 <= i < first.len() ==> !unicode_uppercase(#[trigger] first[i]),
        forall|i: int| 0 <= i < rest.len() ==> !unicode_uppercase(#[trigger] rest[i]),
        unicode_uppercase(capital),
    ensures
        snake_case_of(first) == lower(first),
        snake_case_of(first + seq![capital] + rest) == lower(first) + seq!['_', lower_char(capital)]
            + lower(rest),
{
    lemma_small_words(Seq::empty(), first);
    assert(Seq::<char>::empty() + first =~= first);
    let front = first + seq![capital];
    assert(front.drop_last() =~= first);
    assert(snake_case_of(front) =~= lower(first) + seq!['_', lower_char(capital)]);
    lemma_small_words(front, rest);
}

proof fn lemma_small_words(front: Seq<char>, word: Seq<char>)
    requires
        forall|i: int| 0 <= i < word.len() ==> !unicode_uppercase(#[trigger] word[i]),
    ensures
        snake_case_of(front + word) == snake_case_of(front) + lower(word),
    decreases word.len(),
{
    if word.len() == 0 {
        assert(front + word =~= front);
        assert(snake_case_of(front) + lower(word) =~= snake_case_of(front));
    } else {
        let w = word.drop_last();
        lemma_small_words(front, w);
        assert((front + word).drop_last() =~= front + w);
        assert(!unicode_uppercase(word[word.len() - 1]));
        assert(snake_case_of(front + word) =~= snake_case_of(front) + lower(word));
    }
}

/// The description, the icon and the tag are set to the text that the value writes in JSON. A value
/// that writes none is taken as it stands for the first two, and takes the tag away. Nothing else
/// changes.
pub proof fn texts_are_set(
    instance: InstanceModel,
    value: Seq<char>,
    read: JsonTextModel,
    global: GameConfigModel,
)
    ensures
        ({
            let text = if let JsonTextModel::Text(s) = read {
                s
            } else {
                value
            };
            let tag = if let JsonTextModel::Text(s) = read {
                Some(trimmed(s))
            } else {
                None
            };
            let save = ConfigOutcomeModel::Save;
            &&& configured(instance, "description"@, value, read, global) == Ok::<_, ConfigError>(
                (InstanceModel { description: text, ..instance }, save),
            )
            &&& configured(instance, "icon_src"@, value, read, global) == Ok::<_, ConfigError>(
                (InstanceModel { icon_src: text, ..instance }, save),
            )
            &&& configured(instance, "tag"@, value, read, global) == Ok::<_, ConfigError>(
                (InstanceModel { tag, ..instance }, save),
            )
        }),
{
    lemma_settings_differ();
}

/// Switches are set by `true` and `false` and by nothing else. An instance that is to use its own
/// configuration and has none gets the global one; one that it has is kept, also where it is not used
/// any more.
pub proof fn switches_are_set(
    instance: InstanceModel,
    value: Seq<char>,
    read: JsonTextModel,
    global: GameConfigModel,
)
    ensures
        ({
            let starred = configured(instance, "starred"@, value, read, global);
            let used = configured(instance, "use_spec_game_config"@, value, read, global);
            let save = ConfigOutcomeModel::Save;
            let known = value == "true"@ || value == "false"@;
            &&& starred is Ok <==> known
            &&& used is Ok <==> known
            &&& !known ==> starred->Err_0 == ConfigError::NotABool && used->Err_0
                == ConfigError::NotABool
            &&& known ==> starred->Ok_0 == (
                InstanceModel { starred: value == "true"@, ..instance },
                save,
            )
            &&& value == "false"@ ==> used->Ok_0 == (
                InstanceModel { use_spec_game_config: false, ..instance },
                save,
            )
            &&& value == "true"@ && instance.spec_game_config is Some ==> used->Ok_0 == (
                InstanceModel { use_spec_game_config: true, ..instance },
                save,
            )
            &&& value == "true"@ && instance.spec_game_config is None ==> used->Ok_0 == (
                InstanceModel {
                    use_spec_game_config: true,
                    spec_game_config: Some(global),
                    ..instance
                },
                save,
            )
        }),
{
    lemma_settings_differ();
    reveal_strlit("true");
    reveal_strlit("false");
    assert("true"@.len() != "false"@.len());
}

/// A setting of the game configuration is handed on by its own name, if the instance has one of its
/// own, and leaves the instance as it is. Every other name is unknown.
pub proof fn settings_of_the_game_are_handed_on(
    instance: InstanceModel,
    key: Seq<char>,
    value: Seq<char>,
    read: JsonTextModel,
    global: GameConfigModel,
)
    ensures
        ({
            let handed_on = configured(
                instance,
                "spec_game_config."@ + key,
                value,
                read,
                global,
            );
            let known = key == "description"@ || key == "tag"@ || key == "icon_src"@ || key
                == "starred"@ || key == "use_spec_game_config"@
                || "spec_game_config."@.is_prefix_of(key);
            &&& handed_on matches Ok((after, outcome)) && after == instance && (
            instance.spec_game_config is Some ==> outcome == (
            ConfigOutcomeModel::UpdateGameConfig { key })) && (instance.spec_game_config is None
                ==> outcome == ConfigOutcomeModel::Save)
            &&& configured(instance, key, value, read, global) == Err::<
                (InstanceModel, ConfigOutcomeModel),
                ConfigError,
            >(ConfigError::NotFound) <==> !known
        }),
{
    reveal_strlit("spec_game_config.");
    let whole = "spec_game_config."@ + key;
    lemma_settings_differ();
    prefixes_are_taken_off(key, "spec_game_config."@);
    assert(whole[0] == 's' && whole[1] == 'p');
}

proof fn lemma_settings_differ()
    ensures
        "description"@.len() == 11 && "description"@[0] == 'd',
        "tag"@.len() == 3 && "tag"@[0] == 't',
        "icon_src"@.len() == 8 && "icon_src"@[0] == 'i',
        "starred"@.len() == 7 && "starred"@[0] == 's' && "starred"@[1] == 't',
        "use_spec_game_config"@.len() == 20 && "use_spec_game_config"@[0] == 'u',
{
    reveal_strlit("description");
    reveal_strlit("tag");
    reveal_strlit("icon_src");
    reveal_strlit("starred");
    reveal_strlit("use_spec_game_config");
}

/// A setting of an instance is taken as that instance takes it, by its name with words parted by
/// underscores. One of an instance that is not known is refused.
pub proof fn settings_are_taken_by_their_instance(
    store: Map<Seq<char>, InstanceModel>,
    id: Seq<char>,
    key_path: Seq<char>,
    value: Seq<char>,
    global: GameConfigModel,
)
    ensures
        !store.dom().contains(id) ==> store_configured(store, id, key_path, value, global) == Err::<
            (Map<Seq<char>, InstanceModel>, ConfigOutcomeModel),
            ConfigError,
        >(ConfigError::Instance(InstanceError::InstanceNotFoundByID)),
        store.dom().contains(id) ==> match configured(
            store[id],
            snake_case_of(key_path),
            value,
            json_text_of(value),
            global,
        ) {
            Ok((after, outcome)) => store_configured(store, id, key_path, value, global) matches Ok(
                (known, left),
            ) && known.dom().contains(id) && known[id] == after && left == outcome,
            Err(error) => store_configured(store, id, key_path, value, global) matches Err(told)
                && told == error,
        },
{
}

/// A setting that is refused leaves every instance as it was, and one that is taken leaves every
/// other instance as it was.
pub proof fn settings_concern_one_instance(
    store: Map<Seq<char>, InstanceModel>,
    id: Seq<char>,
    key_path: Seq<char>,
    value: Seq<char>,
    global: GameConfigModel,
    other: Seq<char>,
)
    requires
        other != id,
        store.dom().contains(other),
    ensures
        store_configured(store, id, key_path, value, global) matches Ok((after, _))
            ==> after.dom().contains(other) && after[other] == store[other] && after[id].id
            == store[id].id,
{
}

} // verus!

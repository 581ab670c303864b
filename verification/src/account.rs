//! Offline accounts.
use vstd::prelude::*;
use crate::external::{choose_below, name_uuid, parse_uuid, uuid_of_name, uuid_parsed};
use crate::text::{concat2, concat3};

verus! {

/// Why an account could not be had.
#[derive(Clone, Copy, Debug, PartialEq, Eq, Structural)]
pub enum AccountError {
    Invalid,
}

/// A figure whose skin comes with the launcher.
#[derive(Clone, Copy, Debug, PartialEq, Eq, Structural)]
pub enum PresetRole {
    Steve,
    Alex,
}

/// The shape of a skin.
#[derive(Clone, Copy, Debug, PartialEq, Eq, Structural)]
pub enum SkinModel {
    Default,
    Slim,
}

/// The shape of the skin of a figure.
pub open spec fn model_of(role: PresetRole) -> SkinModel {
    if role == PresetRole::Alex {
        SkinModel::Slim
    } else {
        SkinModel::Default
    }
}

/// The shape of the skin of a figure.
pub fn skin_model(role: PresetRole) -> (r: SkinModel)
    ensures
        r == model_of(role),
{
    match role {
        PresetRole::Alex => SkinModel::Slim,
        _ => SkinModel::Default,
    }
}

/// The file that holds the skin of a figure, given how the figure is called.
pub fn skin_file(role_name: &str) -> (r: String)
    ensures
        r@ == "assets/skins/"@ + role_name@ + ".png"@,
{
    concat3("assets/skins/", role_name, ".png")
}

/// The width and the height of a skin.
pub const SKIN_SIZE: usize = 64;

/// A colour, by its parts.
#[derive(Clone, Copy, Debug, PartialEq, Eq, Structural)]
pub struct Rgba {
    pub red: u8,
    pub green: u8,
    pub blue: u8,
    pub alpha: u8,
}

/// The colour of a skin that could not be loaded.
pub open spec fn placeholder_colour() -> Rgba {
    Rgba { red: 143, green: 168, blue: 168, alpha: 255 }
}

/// A skin of one colour, for a figure whose skin could not be loaded: so many pixels as a skin
/// has, row by row.
pub fn placeholder_skin() -> (r: Vec<Rgba>)
    ensures
        r@ == Seq::new((SKIN_SIZE * SKIN_SIZE) as nat, |i: int| placeholder_colour()),
{
    let pixel = Rgba { red: 143, green: 168, blue: 168, alpha: 255 };
    let mut out: Vec<Rgba> = Vec::new();
    let mut i: usize = 0;
    while i < SKIN_SIZE * SKIN_SIZE
        invariant
            i <= SKIN_SIZE * SKIN_SIZE,
            pixel == placeholder_colour(),
            out@ == Seq::new(i as nat, |k: int| placeholder_colour()),
        decreases SKIN_SIZE * SKIN_SIZE - i,
    {
        out.push(pixel);
        i += 1;
        assert(out@ =~= Seq::new(i as nat, |k: int| placeholder_colour()));
    }
    out
}

/// The skin of a player: the figure that it is of, and its shape.
#[derive(Clone, Copy, Debug, PartialEq, Eq, Structural)]
pub struct SkinChoice {
    pub role: PresetRole,
    pub model: SkinModel,
}

/// The text to whose identity an offline player belongs.
pub open spec fn offline_name(username: Seq<char>) -> Seq<char> {
    "OfflinePlayer:"@ + username
}

/// The identity of an offline player: the one given, or else the one that belongs to the name. One
/// that is given and cannot be read is an error.
pub open spec fn player_identity(given: Option<u128>, given_empty: bool, of_name: u128) -> Result<
    u128,
    AccountError,
> {
    match given {
        Some(id) => Ok(id),
        None => if given_empty {
            Ok(of_name)
        } else {
            Err(AccountError::Invalid)
        },
    }
}

/// The identity of an offline player, given what was read of the identity that was given and the
/// one that belongs to the name.
pub fn identity_from(given: Option<u128>, given_empty: bool, of_name: u128) -> (r: Result<
    u128,
    AccountError,
>)
    ensures
        r == player_identity(given, given_empty, of_name),
{
    match given {
        Some(id) => Ok(id),
        None => if given_empty {
            Ok(of_name)
        } else {
            Err(AccountError::Invalid)
        },
    }
}

/// The identity of an offline player, by the identity that was given and the name.
pub fn offline_identity(username: &str, raw_uuid: &str) -> (r: Result<u128, AccountError>)
    ensures
        r == player_identity(
            uuid_parsed(raw_uuid@),
            raw_uuid@.len() == 0,
            uuid_of_name(offline_name(username@)),
        ),
{
    let name = concat2("OfflinePlayer:", username);
    let given = parse_uuid(raw_uuid);
    let empty = raw_uuid.unicode_len() == 0;
    let of_name = name_uuid(name.as_str());
    identity_from(given, empty, of_name)
}

/// The figure at a position, or Steve.
pub open spec fn role_of(position: Option<usize>) -> PresetRole {
    match position {
        Some(1) => PresetRole::Alex,
        _ => PresetRole::Steve,
    }
}

/// The figure at a position, or Steve.
pub fn role_at(position: Option<usize>) -> (r: PresetRole)
    ensures
        r == role_of(position),
{
    match position {
        Some(1) => PresetRole::Alex,
        _ => PresetRole::Steve,
    }
}

/// An offline player.
#[derive(Debug)]
pub struct OfflinePlayer {
    pub name: String,
    pub uuid: u128,
    pub skin: SkinChoice,
}

/// An offline player of a name, with an identity and the skin of a figure.
pub open spec fn is_player(
    player: OfflinePlayer,
    username: Seq<char>,
    uuid: u128,
    role: PresetRole,
) -> bool {
    player.name@ == username && player.uuid == uuid && player.skin == (SkinChoice {
        role,
        model: model_of(role),
    })
}

/// An offline player, given its identity and the position of its figure.
pub fn player_from(username: &str, uuid: u128, position: Option<usize>) -> (r: OfflinePlayer)
    ensures
        is_player(r, username@, uuid, role_of(position)),
{
    let role = role_at(position);
    OfflinePlayer {
        name: username.to_owned(),
        uuid,
        skin: SkinChoice { role, model: skin_model(role) },
    }
}

/// Logs an offline player in, with the skin of a figure chosen by chance.
pub fn login(username: &str, raw_uuid: &str) -> (r: Result<OfflinePlayer, AccountError>)
    ensures
        ({
            let identity = player_identity(
                uuid_parsed(raw_uuid@),
                raw_uuid@.len() == 0,
                uuid_of_name(offline_name(username@)),
            );
            match r {
                Ok(player) => identity is Ok && exists|role: PresetRole|
                    is_player(player, username@, identity->Ok_0, role),
                Err(error) => identity == Err::<u128, AccountError>(error),
            }
        }),
{
    let uuid = offline_identity(username, raw_uuid)?;
    let position = choose_below(2);
    Ok(player_from(username, uuid, position))
}

/// A given identity that can be read is the identity of the player, whatever the name is; one that
/// is given and cannot be read is refused, and nothing else is.
pub proof fn given_identities_are_kept(given: Option<u128>, given_empty: bool, of_name: u128)
    ensures
        given is Some ==> player_identity(given, given_empty, of_name) == Ok::<u128, AccountError>(
            given->0,
        ),
        player_identity(given, given_empty, of_name) is Err <==> given is None && !given_empty,
{
}

/// Offline players of different names are told apart by the text to whose identity they belong.
pub proof fn offline_names_differ(a: Seq<char>, b: Seq<char>)
    ensures
        offline_name(a) == offline_name(b) ==> a == b,
        offline_name(a).take("OfflinePlayer:"@.len() as int) == "OfflinePlayer:"@,
        offline_name(a).skip("OfflinePlayer:"@.len() as int) == a,
{
    let n = "OfflinePlayer:"@.len() as int;
    assert(offline_name(a).take(n) =~= "OfflinePlayer:"@);
    assert(offline_name(a).skip(n) =~= a);
    assert(offline_name(b).skip(n) =~= b);
}

/// A player has the name, the identity and the figure with which it logs in, and the shape of that
/// figure.
pub proof fn players_are_as_they_log_in(
    player: OfflinePlayer,
    username: Seq<char>,
    uuid: u128,
    role: PresetRole,
)
    ensures
        is_player(player, username, uuid, role) <==> player.name@ == username && player.uuid == uuid
            && player.skin.role == role && (player.skin.model == SkinModel::Slim <==> role
            == PresetRole::Alex),
{
}

/// The colour that stands for a skin is opaque, with more blue and green than red.
pub proof fn placeholders_are_opaque()
    ensures
        placeholder_colour().alpha == 255,
        placeholder_colour().red == 143,
        placeholder_colour().green == 168,
        placeholder_colour().blue == 168,
{
}

/// Alex is slim and stands at the second position; Steve is not, and stands at every other.
pub proof fn alex_is_slim(position: Option<usize>)
    ensures
        role_of(position) == PresetRole::Alex <==> position == Some(1usize),
        model_of(PresetRole::Alex) == SkinModel::Slim,
        model_of(PresetRole::Steve) == SkinModel::Default,
{
}

/// Without an identity of one's own, logging in never fails, and the identity depends on the name
/// alone.
pub proof fn players_without_identity_are_told_by_name(of_name: u128)
    ensures
        player_identity(None, true, of_name) == Ok::<u128, AccountError>(of_name),
{
}

} // verus!

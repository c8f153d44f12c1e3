//! The decisions of a connection: which state it is in, what each incoming
//! packet asks for, and the bodies of the packets the server builds by hand.
use vstd::prelude::*;

use crate::proto::bytes_buf::{be_bytes, max_buffer_len};
use crate::proto::packet_bytes::{string_bytes, uuid_bytes, PacketBytes};
use crate::proto::packets::play::GameMode;
use crate::proto::varint::{lemma_varint_bytes_len, varint_bytes};

verus! {

/// Where a connection is in the protocol.
#[derive(PartialEq, Eq, Structural, PartialOrd, Ord, Clone, Copy, Debug)]
pub enum ConnectionState {
    Handshaking,
    Status,
    Login,
    Configuration,
    Play,
}

/// The id of the packet that carries a disconnect message in a state: none
/// before login, the play disconnect in play, and the login disconnect while
/// logging in or configuring.
pub fn disconnect_packet_id(state: ConnectionState) -> (r: Option<i32>)
    ensures
        r == match state {
            ConnectionState::Handshaking | ConnectionState::Status => None,
            ConnectionState::Play => Some(0x20i32),
            ConnectionState::Login | ConnectionState::Configuration => Some(0x02i32),
        },
{
    match state {
        ConnectionState::Handshaking | ConnectionState::Status => None,
        ConnectionState::Play => Some(0x20),
        ConnectionState::Login | ConnectionState::Configuration => Some(0x02),
    }
}

/// Whether a handshake's intent is to log in.
pub fn wants_login(intent: i32) -> (r: bool)
    ensures
        r == (intent == 2),
{
    intent == 2
}

/// A text component as an unnamed NBT string tag: the tag type 8, a zero
/// byte, then the text with its length in front.
pub open spec fn nbt_text(text: Seq<char>) -> Seq<u8> {
    seq![0x08u8, 0x00u8] + string_bytes(text)
}

fn put_byte(dst: &mut PacketBytes, v: u8)
    requires
        old(dst)@.len() + 1 <= max_buffer_len(),
    ensures
        final(dst)@ == old(dst)@.push(v),
{
    let _ = dst.put_u8(v);
    proof {
        reveal_with_fuel(be_bytes, 2);
        assert(be_bytes(v as int, 1) =~= seq![v]);
    }
}

/// The body of a disconnect or kick: the message as an NBT text.
pub fn nbt_text_body(text: &str) -> (r: PacketBytes)
    requires
        string_bytes(text@).len() + 2 <= max_buffer_len(),
    ensures
        r@ == nbt_text(text@),
{
    let mut body = PacketBytes::new();
    put_byte(&mut body, 0x08);
    put_byte(&mut body, 0x00);
    let _ = body.put_str(text);
    assert(body@ =~= nbt_text(text@));
    body
}

/// The body of a system chat message: the text, then 0 for "not an overlay".
pub fn system_chat_body(text: &str) -> (r: PacketBytes)
    requires
        string_bytes(text@).len() + 3 <= max_buffer_len(),
    ensures
        r@ == nbt_text(text@).push(0x00),
{
    let mut body = nbt_text_body(text);
    put_byte(&mut body, 0x00);
    body
}

/// The body of a player info update that lists a player: actions 0x09 (add
/// player and list), one entry of the player's uuid and name, no properties,
/// listed.
pub fn player_info_add_body(uuid: u128, name: &str) -> (r: PacketBytes)
    requires
        string_bytes(name@).len() + 40 <= max_buffer_len(),
    ensures
        r@ == seq![0x09u8] + varint_bytes(1) + uuid_bytes(uuid) + string_bytes(name@) + varint_bytes(0) + seq![
            0x01u8,
        ],
{
    proof {
        lemma_varint_bytes_len(1);
        lemma_varint_bytes_len(0);
        crate::proto::bytes_buf::lemma_be_bytes_len(uuid as int, 16);
    }
    let mut body = PacketBytes::new();
    put_byte(&mut body, 0x09);
    let _ = body.put_var_int(1);
    let _ = body.put_uuid(uuid);
    let _ = body.put_str(name);
    let _ = body.put_var_int(0);
    let _ = body.put_bool(true);
    assert(body@ =~= seq![0x09u8] + varint_bytes(1) + uuid_bytes(uuid) + string_bytes(name@) + varint_bytes(0) + seq![0x01u8]);
    body
}

/// The body of a player info update of a player's game mode: action 0x04,
/// one entry of the player's uuid and the mode's number.
pub fn player_info_game_mode_body(uuid: u128, game_mode: GameMode) -> (r: PacketBytes)
    ensures
        r@ == seq![0x04u8] + varint_bytes(1) + uuid_bytes(uuid) + varint_bytes(game_mode.spec_id()),
{
    proof {
        lemma_varint_bytes_len(1);
        lemma_varint_bytes_len(game_mode.spec_id());
        crate::proto::bytes_buf::lemma_be_bytes_len(uuid as int, 16);
    }
    let mut body = PacketBytes::new();
    put_byte(&mut body, 0x04);
    let _ = body.put_var_int(1);
    let _ = body.put_uuid(uuid);
    let _ = body.put_var_int(game_mode.id());
    assert(body@ =~= seq![0x04u8] + varint_bytes(1) + uuid_bytes(uuid) + varint_bytes(game_mode.spec_id()));
    body
}

/// The ability flags the server grants: creative is invulnerable (0x01), may
/// fly (0x04) and breaks instantly (0x08); spectator flies (0x02) and may fly;
/// a player who is flying also gets 0x02.
pub open spec fn spec_ability_flags(game_mode: GameMode, flying: bool) -> u8 {
    let base: u8 = match game_mode {
        GameMode::Creative => 0x0d,
        GameMode::Spectator => 0x06,
        _ => 0x00,
    };
    if flying {
        base | 0x02
    } else {
        base
    }
}

pub fn ability_flags(game_mode: GameMode, flying: bool) -> (r: u8)
    ensures
        r == spec_ability_flags(game_mode, flying),
{
    let mut flags: u8 = 0x00;
    if game_mode == GameMode::Creative {
        flags |= 0x01;
        flags |= 0x04;
        flags |= 0x08;
    } else if game_mode == GameMode::Spectator {
        flags |= 0x02;
        flags |= 0x04;
    }
    if flying {
        flags |= 0x02;
    }
    assert(0u8 | 0x01u8 | 0x04u8 | 0x08u8 == 0x0du8) by (bit_vector);
    assert(0u8 | 0x02u8 | 0x04u8 == 0x06u8) by (bit_vector);
    flags
}

/// Whether a client's abilities packet says it flies: its flags are exactly
/// 0x02.
pub fn abilities_say_flying(flags: u8) -> (r: bool)
    ensures
        r == (flags == 0x02),
{
    flags == 0x02
}

/// What the server does with a packet received while logging in.
#[derive(PartialEq, Eq, Structural, Clone, Copy, Debug)]
pub enum LoginPacket {
    /// The client acknowledged the login: configuration starts.
    Acknowledged,
    Unknown,
}

/// The id of the login acknowledgement.
pub const CS_LOGIN_ACKNOWLEDGED: i32 = 0x03;

pub open spec fn classify_login_packet_spec(id: i32) -> LoginPacket {
    if id == CS_LOGIN_ACKNOWLEDGED {
        LoginPacket::Acknowledged
    } else {
        LoginPacket::Unknown
    }
}

pub fn classify_login_packet(id: i32) -> (r: LoginPacket)
    ensures
        r == classify_login_packet_spec(id),
{
    if id == CS_LOGIN_ACKNOWLEDGED {
        LoginPacket::Acknowledged
    } else {
        LoginPacket::Unknown
    }
}

/// What the server does with a packet received while configuring.
#[derive(PartialEq, Eq, Structural, Clone, Copy, Debug)]
pub enum ConfigPacket {
    /// Plugin messages and known packs need no answer.
    Ignored,
    /// The client's settings: the registries, tags and the end of
    /// configuration go out.
    ClientInformation,
    /// The client finished configuring: play starts.
    Finished,
    Unknown,
}

/// The ids of the configuration packets the server reads.
pub const CS_CLIENT_INFORMATION: i32 = 0x00;

pub const CS_CONFIG_CUSTOM_PAYLOAD: i32 = 0x02;

pub const CS_FINISH_CONFIGURATION: i32 = 0x03;

pub const CS_SELECT_KNOWN_PACKS: i32 = 0x07;

pub open spec fn classify_config_packet_spec(id: i32) -> ConfigPacket {
    if id == CS_CONFIG_CUSTOM_PAYLOAD || id == CS_SELECT_KNOWN_PACKS {
        ConfigPacket::Ignored
    } else if id == CS_CLIENT_INFORMATION {
        ConfigPacket::ClientInformation
    } else if id == CS_FINISH_CONFIGURATION {
        ConfigPacket::Finished
    } else {
        ConfigPacket::Unknown
    }
}

pub fn classify_config_packet(id: i32) -> (r: ConfigPacket)
    ensures
        r == classify_config_packet_spec(id),
{
    if id == CS_CONFIG_CUSTOM_PAYLOAD || id == CS_SELECT_KNOWN_PACKS {
        ConfigPacket::Ignored
    } else if id == CS_CLIENT_INFORMATION {
        ConfigPacket::ClientInformation
    } else if id == CS_FINISH_CONFIGURATION {
        ConfigPacket::Finished
    } else {
        ConfigPacket::Unknown
    }
}

/// The state a connection moves to on a packet: the login acknowledgement
/// starts configuration, the end of configuration starts play; any other
/// packet leaves the state as it is.
pub open spec fn spec_state_after(state: ConnectionState, id: i32) -> ConnectionState {
    match state {
        ConnectionState::Login => if classify_login_packet_spec(id) == LoginPacket::Acknowledged {
            ConnectionState::Configuration
        } else {
            state
        },
        ConnectionState::Configuration => if classify_config_packet_spec(id) == ConfigPacket::Finished {
            ConnectionState::Play
        } else {
            state
        },
        _ => state,
    }
}

pub fn state_after(state: ConnectionState, id: i32) -> (r: ConnectionState)
    ensures
        r == spec_state_after(state, id),
{
    match state {
        ConnectionState::Login => match classify_login_packet(id) {
            LoginPacket::Acknowledged => ConnectionState::Configuration,
            LoginPacket::Unknown => state,
        },
        ConnectionState::Configuration => match classify_config_packet(id) {
            ConfigPacket::Finished => ConnectionState::Play,
            _ => state,
        },
        _ => state,
    }
}

/// What the server does with a packet received in play.
#[derive(PartialEq, Eq, Structural, Clone, Copy, Debug)]
pub enum PlayPacket {
    /// Rotation, input, player commands, chunk acknowledgements, held item,
    /// plugin messages, teleport confirmations, "loaded", block actions,
    /// swings and pings need no answer.
    Ignored,
    /// The end of a client tick: every twentieth one is answered with a keep
    /// alive.
    ClientTickEnd,
    /// The client's keep alive needs no answer.
    KeepAlive,
    MovePlayerPos,
    MovePlayerPosRot,
    PlayerAbilities,
    ChangeGameMode,
    ChatCommand,
    Unknown,
}

/// The ids of the play packets the server reads.
pub const CS_ACCEPT_TELEPORTATION: i32 = 0x00;

pub const CS_CHANGE_GAME_MODE: i32 = 0x04;

pub const CS_CHAT_COMMAND: i32 = 0x06;

pub const CS_CHUNK_BATCH_RECEIVED: i32 = 0x0A;

pub const CS_CLIENT_TICK_END: i32 = 0x0C;

pub const CS_CUSTOM_PAYLOAD: i32 = 0x15;

pub const CS_KEEP_ALIVE: i32 = 0x1B;

pub const CS_MOVE_PLAYER_POS: i32 = 0x1D;

pub const CS_MOVE_PLAYER_POS_ROT: i32 = 0x1E;

pub const CS_MOVE_PLAYER_ROT: i32 = 0x1F;

pub const CS_PING_REQUEST: i32 = 0x25;

pub const CS_PLAYER_ABILITIES: i32 = 0x27;

pub const CS_PLAYER_ACTION: i32 = 0x28;

pub const CS_PLAYER_COMMAND: i32 = 0x29;

pub const CS_PLAYER_INPUT: i32 = 0x2A;

pub const CS_PLAYER_LOADED: i32 = 0x2B;

pub const CS_SET_CARRIED_ITEM: i32 = 0x34;

pub const CS_SWING: i32 = 0x3C;

/// The play packets that need no answer.
pub open spec fn ignored_in_play(id: i32) -> bool {
    id == CS_MOVE_PLAYER_ROT || id == CS_PLAYER_INPUT || id == CS_PLAYER_COMMAND || id
        == CS_CHUNK_BATCH_RECEIVED || id == CS_SET_CARRIED_ITEM || id == CS_CUSTOM_PAYLOAD || id
        == CS_ACCEPT_TELEPORTATION || id == CS_PLAYER_LOADED || id == CS_PLAYER_ACTION || id == CS_SWING
        || id == CS_PING_REQUEST
}

pub open spec fn spec_classify_play_packet(id: i32) -> PlayPacket {
    if ignored_in_play(id) {
        PlayPacket::Ignored
    } else if id == CS_CLIENT_TICK_END {
        PlayPacket::ClientTickEnd
    } else if id == CS_KEEP_ALIVE {
        PlayPacket::KeepAlive
    } else if id == CS_MOVE_PLAYER_POS {
        PlayPacket::MovePlayerPos
    } else if id == CS_MOVE_PLAYER_POS_ROT {
        PlayPacket::MovePlayerPosRot
    } else if id == CS_PLAYER_ABILITIES {
        PlayPacket::PlayerAbilities
    } else if id == CS_CHANGE_GAME_MODE {
        PlayPacket::ChangeGameMode
    } else if id == CS_CHAT_COMMAND {
        PlayPacket::ChatCommand
    } else {
        PlayPacket::Unknown
    }
}

pub fn classify_play_packet(id: i32) -> (r: PlayPacket)
    ensures
        r == spec_classify_play_packet(id),
{
    if id == CS_MOVE_PLAYER_ROT || id == CS_PLAYER_INPUT || id == CS_PLAYER_COMMAND || id
        == CS_CHUNK_BATCH_RECEIVED || id == CS_SET_CARRIED_ITEM || id == CS_CUSTOM_PAYLOAD || id
        == CS_ACCEPT_TELEPORTATION || id == CS_PLAYER_LOADED || id == CS_PLAYER_ACTION || id == CS_SWING
        || id == CS_PING_REQUEST {
        PlayPacket::Ignored
    } else if id == CS_CLIENT_TICK_END {
        PlayPacket::ClientTickEnd
    } else if id == CS_KEEP_ALIVE {
        PlayPacket::KeepAlive
    } else if id == CS_MOVE_PLAYER_POS {
        PlayPacket::MovePlayerPos
    } else if id == CS_MOVE_PLAYER_POS_ROT {
        PlayPacket::MovePlayerPosRot
    } else if id == CS_PLAYER_ABILITIES {
        PlayPacket::PlayerAbilities
    } else if id == CS_CHANGE_GAME_MODE {
        PlayPacket::ChangeGameMode
    } else if id == CS_CHAT_COMMAND {
        PlayPacket::ChatCommand
    } else {
        PlayPacket::Unknown
    }
}

/// The end of client tick `client_tick`: whether a keep alive is due (every
/// twentieth tick, from the first), and the next tick's number.
pub fn client_tick_end(client_tick: i32) -> (r: (bool, i32))
    requires
        client_tick < i32::MAX,
    ensures
        r.0 == (client_tick % 20 == 0),
        r.1 == client_tick + 1,
{
    (client_tick % 20 == 0, client_tick + 1)
}

/// What the server does in answer to a packet; one packet may call for
/// several of these, in order.
#[derive(PartialEq, Eq, Structural, Clone, Copy, Debug)]
pub enum Reply {
    /// Send the compression threshold, then compress from there on.
    SetCompression(i32),
    /// Send the login success with the player's profile.
    LoginSuccess,
    /// Send the enabled features (vanilla).
    EnabledFeatures,
    /// Send the known packs (minecraft:core).
    KnownPacks,
    /// Send every registry section.
    Registries,
    /// Send the tags.
    Tags,
    /// Send the end of configuration.
    FinishConfiguration,
    /// Send the login (join game) packet.
    JoinGame,
    /// Send the entity event that gives the player operator level 4.
    OpPermissionLevel,
    /// Send the game event that starts waiting for chunks.
    StartWaitingForChunks,
    /// Send the centre chunk (0, 0).
    CenterChunk,
    /// Send the spawn position.
    SpawnPosition,
    /// Send the server's brand.
    Brand,
    /// Send the tab list entry that adds the player.
    PlayerInfoAdd,
    /// Send a keep alive.
    KeepAlive,
    /// Read the payload as a position move and tell the world.
    MovePlayerPos,
    /// Read the payload as a position and rotation move and tell the world.
    MovePlayerPosRot,
    /// Read the payload as abilities and tell the world whether the player flies.
    UpdateFlying,
    /// Read the payload as a game mode change, tell the client and the world.
    ChangeGameMode,
    /// Read the payload as a chat command and run it.
    RunCommand,
    /// Report a packet the server does not read.
    LogUnknown,
}

/// The replies to packet `id` in `state`, at client tick `client_tick`.
pub open spec fn spec_replies(state: ConnectionState, client_tick: i32, id: i32) -> Seq<Reply> {
    match state {
        ConnectionState::Login => match classify_login_packet_spec(id) {
            LoginPacket::Acknowledged => seq![Reply::EnabledFeatures, Reply::KnownPacks],
            LoginPacket::Unknown => seq![Reply::LogUnknown],
        },
        ConnectionState::Configuration => match classify_config_packet_spec(id) {
            ConfigPacket::Ignored => Seq::empty(),
            ConfigPacket::ClientInformation => seq![Reply::Registries, Reply::Tags, Reply::FinishConfiguration],
            ConfigPacket::Finished => seq![
                Reply::JoinGame,
                Reply::OpPermissionLevel,
                Reply::StartWaitingForChunks,
                Reply::CenterChunk,
                Reply::SpawnPosition,
                Reply::Brand,
                Reply::PlayerInfoAdd,
                Reply::KeepAlive,
            ],
            ConfigPacket::Unknown => seq![Reply::LogUnknown],
        },
        ConnectionState::Play => match spec_classify_play_packet(id) {
            PlayPacket::Ignored => Seq::empty(),
            PlayPacket::KeepAlive => Seq::empty(),
            PlayPacket::ClientTickEnd => if client_tick % 20 == 0 {
                seq![Reply::KeepAlive]
            } else {
                Seq::empty()
            },
            PlayPacket::MovePlayerPos => seq![Reply::MovePlayerPos],
            PlayPacket::MovePlayerPosRot => seq![Reply::MovePlayerPosRot],
            PlayPacket::PlayerAbilities => seq![Reply::UpdateFlying],
            PlayPacket::ChangeGameMode => seq![Reply::ChangeGameMode],
            PlayPacket::ChatCommand => seq![Reply::RunCommand],
            PlayPacket::Unknown => seq![Reply::LogUnknown],
        },
        _ => Seq::empty(),
    }
}

/// The packet size from which frames are compressed.
pub const COMPRESSION_THRESHOLD: i32 = 256;

/// The step after the client asked to log in and sent its login start: the
/// compression threshold and the login success go out, and the connection
/// is logging in.
pub fn on_login_start() -> (r: (ConnectionState, Vec<Reply>))
    ensures
        r.0 == ConnectionState::Login,
        r.1@ == seq![Reply::SetCompression(COMPRESSION_THRESHOLD), Reply::LoginSuccess],
{
    let mut out: Vec<Reply> = Vec::new();
    out.push(Reply::SetCompression(COMPRESSION_THRESHOLD));
    out.push(Reply::LoginSuccess);
    assert(out@ =~= seq![Reply::SetCompression(COMPRESSION_THRESHOLD), Reply::LoginSuccess]);
    (ConnectionState::Login, out)
}

/// Whether packet `id` in `state` ends a client tick.
pub open spec fn ends_client_tick(state: ConnectionState, id: i32) -> bool {
    state == ConnectionState::Play && spec_classify_play_packet(id) == PlayPacket::ClientTickEnd
}

/// One step of a connection after login has started: on packet `id` in
/// `state` at client tick `client_tick`, the state and client tick that
/// follow, and the replies to make, in order.
pub fn next_replies(state: ConnectionState, client_tick: i32, id: i32) -> (r: (ConnectionState, i32, Vec<Reply>))
    requires
        state == ConnectionState::Login || state == ConnectionState::Configuration || state
            == ConnectionState::Play,
        ends_client_tick(state, id) ==> client_tick < i32::MAX,
    ensures
        r.0 == spec_state_after(state, id),
        r.1 == if ends_client_tick(state, id) {
            client_tick + 1
        } else {
            client_tick as int
        },
        r.2@ == spec_replies(state, client_tick, id),
{
    let mut out: Vec<Reply> = Vec::new();
    let mut tick = client_tick;
    match state {
        ConnectionState::Login => match classify_login_packet(id) {
            LoginPacket::Acknowledged => {
                out.push(Reply::EnabledFeatures);
                out.push(Reply::KnownPacks);
            },
            LoginPacket::Unknown => {
                out.push(Reply::LogUnknown);
            },
        },
        ConnectionState::Configuration => match classify_config_packet(id) {
            ConfigPacket::Ignored => {},
            ConfigPacket::ClientInformation => {
                out.push(Reply::Registries);
                out.push(Reply::Tags);
                out.push(Reply::FinishConfiguration);
            },
            ConfigPacket::Finished => {
                out.push(Reply::JoinGame);
                out.push(Reply::OpPermissionLevel);
                out.push(Reply::StartWaitingForChunks);
                out.push(Reply::CenterChunk);
                out.push(Reply::SpawnPosition);
                out.push(Reply::Brand);
                out.push(Reply::PlayerInfoAdd);
                out.push(Reply::KeepAlive);
            },
            ConfigPacket::Unknown => {
                out.push(Reply::LogUnknown);
            },
        },
        ConnectionState::Play => match classify_play_packet(id) {
            PlayPacket::Ignored => {},
            PlayPacket::KeepAlive => {},
            PlayPacket::ClientTickEnd => {
                let (keep_alive, next) = client_tick_end(client_tick);
                if keep_alive {
                    out.push(Reply::KeepAlive);
                }
                tick = next;
            },
            PlayPacket::MovePlayerPos => {
                out.push(Reply::MovePlayerPos);
            },
            PlayPacket::MovePlayerPosRot => {
                out.push(Reply::MovePlayerPosRot);
            },
            PlayPacket::PlayerAbilities => {
                out.push(Reply::UpdateFlying);
            },
            PlayPacket::ChangeGameMode => {
                out.push(Reply::ChangeGameMode);
            },
            PlayPacket::ChatCommand => {
                out.push(Reply::RunCommand);
            },
            PlayPacket::Unknown => {
                out.push(Reply::LogUnknown);
            },
        },
        _ => {},
    }
    assert(out@ =~= spec_replies(state, client_tick, id));
    (state_after(state, id), tick, out)
}

/// The state, client tick and replies after the packets `ids`, in order,
/// starting from `state` at client tick `client_tick`.
pub open spec fn spec_run(state: ConnectionState, client_tick: i32, ids: Seq<i32>) -> (ConnectionState, i32, Seq<Reply>)
    decreases ids.len(),
{
    if ids.len() == 0 {
        (state, client_tick, Seq::empty())
    } else {
        let (s, t, out) = spec_run(state, client_tick, ids.drop_last());
        let id = ids.last();
        let t2 = if ends_client_tick(s, id) {
            (t + 1) as i32
        } else {
            t
        };
        (spec_state_after(s, id), t2, out + spec_replies(s, t, id))
    }
}

/// The replies that only follow the known packs: everything but the
/// replies of the login phase (compression, login success, enabled
/// features, the known packs themselves) and reports of unknown packets.
pub open spec fn needs_known_packs(r: Reply) -> bool {
    !(r is SetCompression || r == Reply::LoginSuccess || r == Reply::EnabledFeatures || r == Reply::KnownPacks
        || r == Reply::LogUnknown)
}

/// The replies that only follow the join-game packet: keep alives and what
/// play packets ask for.
pub open spec fn needs_join(r: Reply) -> bool {
    r == Reply::KeepAlive || r == Reply::MovePlayerPos || r == Reply::MovePlayerPosRot || r == Reply::UpdateFlying
        || r == Reply::ChangeGameMode || r == Reply::RunCommand
}

/// What holds of the replies to any packets read from login on, and of the
/// state they leave.
pub open spec fn phases_ordered(s: ConnectionState, out: Seq<Reply>) -> bool {
    &&& (s == ConnectionState::Login || s == ConnectionState::Configuration || s == ConnectionState::Play)
    &&& s != ConnectionState::Login ==> out.contains(Reply::KnownPacks)
    &&& s == ConnectionState::Play ==> out.contains(Reply::JoinGame)
    &&& forall|i: int| 0 <= i < out.len() && #[trigger] needs_known_packs(out[i]) ==> exists|j: int| 0 <= j < i && out[j] == Reply::KnownPacks
    &&& forall|i: int| 0 <= i < out.len() && #[trigger] needs_join(out[i]) ==> exists|j: int| 0 <= j < i && out[j] == Reply::JoinGame
}

/// A connection's replies keep to its phases: from login on, whatever
/// packets arrive, the registries, tags, join game and every later reply
/// come only after the known packs were sent (on the login
/// acknowledgement), and keep alives and the answers to play packets come
/// only after the join-game packet (on the end of configuration).
pub proof fn lemma_replies_follow_phases(ids: Seq<i32>)
    ensures
        ({
            let out = spec_run(ConnectionState::Login, 0, ids).2;
            &&& forall|i: int| 0 <= i < out.len() && #[trigger] needs_known_packs(out[i]) ==> exists|j: int|
                0 <= j < i && out[j] == Reply::KnownPacks
            &&& forall|i: int| 0 <= i < out.len() && #[trigger] needs_join(out[i]) ==> exists|j: int|
                0 <= j < i && out[j] == Reply::JoinGame
        }),
{
    lemma_run_phases(ids);
}

proof fn lemma_run_phases(ids: Seq<i32>)
    ensures
        phases_ordered(spec_run(ConnectionState::Login, 0, ids).0, spec_run(ConnectionState::Login, 0, ids).2),
    decreases ids.len(),
{
    if ids.len() > 0 {
        lemma_run_phases(ids.drop_last());
        let (s, t, out) = spec_run(ConnectionState::Login, 0, ids.drop_last());
        let id = ids.last();
        let r = spec_replies(s, t, id);
        let out2 = out + r;
        let s2 = spec_state_after(s, id);
        let n = out.len() as int;
        assert forall|i: int| 0 <= i < out2.len() && #[trigger] needs_known_packs(out2[i]) implies exists|j: int|
            0 <= j < i && out2[j] == Reply::KnownPacks by {
            if i < n {
                assert(out2[i] == out[i]);
                let j = choose|j: int| 0 <= j < i && out[j] == Reply::KnownPacks;
                assert(out2[j] == Reply::KnownPacks);
            } else if s == ConnectionState::Login {
                assert(r == seq![Reply::EnabledFeatures, Reply::KnownPacks] || r == seq![Reply::LogUnknown]);
                assert(out2[i] == r[i - n]);
            } else {
                let j = choose|j: int| 0 <= j < out.len() && out[j] == Reply::KnownPacks;
                assert(out2[j] == Reply::KnownPacks);
            }
        }
        assert forall|i: int| 0 <= i < out2.len() && #[trigger] needs_join(out2[i]) implies exists|j: int|
            0 <= j < i && out2[j] == Reply::JoinGame by {
            if i < n {
                assert(out2[i] == out[i]);
                let j = choose|j: int| 0 <= j < i && out[j] == Reply::JoinGame;
                assert(out2[j] == Reply::JoinGame);
            } else if s == ConnectionState::Play {
                let j = choose|j: int| 0 <= j < out.len() && out[j] == Reply::JoinGame;
                assert(out2[j] == Reply::JoinGame);
            } else {
                assert(out2[i] == r[i - n]);
                assert(out2[n] == r[0]);
            }
        }
        if s2 != ConnectionState::Login {
            if s == ConnectionState::Login {
                assert(out2[n + 1] == Reply::KnownPacks);
            } else {
                let j = choose|j: int| 0 <= j < out.len() && out[j] == Reply::KnownPacks;
                assert(out2[j] == Reply::KnownPacks);
            }
        }
        if s2 == ConnectionState::Play {
            if s == ConnectionState::Configuration {
                assert(out2[n] == Reply::JoinGame);
            } else {
                let j = choose|j: int| 0 <= j < out.len() && out[j] == Reply::JoinGame;
                assert(out2[j] == Reply::JoinGame);
            }
        }
    }
}

/// Whether `p` occurs in `s` at `i`.
pub open spec fn occurs_at(s: Seq<char>, p: Seq<char>, i: int) -> bool {
    0 <= i && i + p.len() <= s.len() && s.subrange(i, i + p.len()) == p
}

/// The first place at or after `from` where `p` occurs in `s`.
pub open spec fn find_from(s: Seq<char>, p: Seq<char>, from: int) -> Option<int>
    decreases s.len() - from,
{
    if from < 0 || from >= s.len() {
        None
    } else if occurs_at(s, p, from) {
        Some(from)
    } else {
        find_from(s, p, from + 1)
    }
}

/// For `s` that starts with `p`: the second piece of `s` split at `p`, that
/// is, what follows the first `p` up to the next one or the end.
pub open spec fn piece_after(s: Seq<char>, p: Seq<char>) -> Seq<char> {
    let end = match find_from(s, p, p.len() as int) {
        Some(j) => j,
        None => s.len() as int,
    };
    s.subrange(p.len() as int, end)
}

/// The `k`-th field of `s` split at spaces, if it has that many.
pub open spec fn field(s: Seq<char>, k: nat) -> Option<Seq<char>>
    decreases s.len(),
{
    match find_from(s, seq![' '], 0) {
        None => if k == 0 {
            Some(s)
        } else {
            None
        },
        Some(i) => if k == 0 {
            Some(s.take(i))
        } else if 0 <= i < s.len() {
            field(s.skip(i + 1), (k - 1) as nat)
        } else {
            None
        },
    }
}

/// A chat command, as the server reads it.
pub enum ChatCommand {
    /// `fs <speed>`: set the flying speed; the text of the speed.
    FlySpeed(String),
    /// `surface`: back to the surface.
    Surface,
    /// `stop`: close the connection.
    Stop,
    /// `tp <x> <y> <z>`: the texts of the three fields, of which the last two
    /// may be missing.
    Teleport(String, Option<String>, Option<String>),
    /// `metaball`: a blob of planks above the player.
    Metaball,
    /// `metaballp`: the same, kept as patches.
    MetaballPerma,
    Unknown,
}

/// A chat command over character sequences.
pub enum CommandView {
    FlySpeed(Seq<char>),
    Surface,
    Stop,
    Teleport(Seq<char>, Option<Seq<char>>, Option<Seq<char>>),
    Metaball,
    MetaballPerma,
    Unknown,
}

pub open spec fn opt_string_view(o: Option<String>) -> Option<Seq<char>> {
    match o {
        Some(s) => Some(s@),
        None => None,
    }
}

impl View for ChatCommand {
    type V = CommandView;

    open spec fn view(&self) -> CommandView {
        match self {
            ChatCommand::FlySpeed(s) => CommandView::FlySpeed(s@),
            ChatCommand::Surface => CommandView::Surface,
            ChatCommand::Stop => CommandView::Stop,
            ChatCommand::Teleport(x, y, z) => CommandView::Teleport(x@, opt_string_view(*y), opt_string_view(*z)),
            ChatCommand::Metaball => CommandView::Metaball,
            ChatCommand::MetaballPerma => CommandView::MetaballPerma,
            ChatCommand::Unknown => CommandView::Unknown,
        }
    }
}

pub open spec fn fs_prefix() -> Seq<char> {
    seq!['f', 's', ' ']
}

pub open spec fn tp_prefix() -> Seq<char> {
    seq!['t', 'p', ' ']
}

/// How the server reads a command: checked in this order.
pub open spec fn spec_parse_command(c: Seq<char>) -> CommandView {
    if occurs_at(c, fs_prefix(), 0) {
        CommandView::FlySpeed(piece_after(c, fs_prefix()))
    } else if c == seq!['s', 'u', 'r', 'f', 'a', 'c', 'e'] {
        CommandView::Surface
    } else if c == seq!['s', 't', 'o', 'p'] {
        CommandView::Stop
    } else if occurs_at(c, tp_prefix(), 0) {
        let rest = piece_after(c, tp_prefix());
        CommandView::Teleport(field(rest, 0).unwrap(), field(rest, 1), field(rest, 2))
    } else if c == seq!['m', 'e', 't', 'a', 'b', 'a', 'l', 'l'] {
        CommandView::Metaball
    } else if c == seq!['m', 'e', 't', 'a', 'b', 'a', 'l', 'l', 'p'] {
        CommandView::MetaballPerma
    } else {
        CommandView::Unknown
    }
}

/// `String::push`: appends the character.
#[verifier::external_body]
fn string_push(s: &mut String, c: char)
    ensures
        final(s)@ == old(s)@.push(c),
{
    s.push(c)
}

/// The characters of `s`.
fn chars_of(s: &str) -> (r: Vec<char>)
    ensures
        r@ == s@,
{
    broadcast use vstd::string::axiom_spec_iter;
    let mut out: Vec<char> = Vec::new();
    for c in it: s.chars()
        invariant
            it.seq() == s@,
            out@ == s@.take(it.index()),
    {
        out.push(c);
        assert(s@.take(it.index() + 1) =~= s@.take(it.index()).push(c));
    }
    assert(s@.take(s@.len() as int) =~= s@);
    out
}

/// The characters of `cs` in [from, to), as a string.
fn string_of(cs: &Vec<char>, from: usize, to: usize) -> (r: String)
    requires
        from <= to <= cs@.len(),
    ensures
        r@ == cs@.subrange(from as int, to as int),
{
    let mut out = String::new();
    let mut i = from;
    while i < to
        invariant
            from <= i <= to <= cs@.len(),
            out@ == cs@.subrange(from as int, i as int),
        decreases to - i,
    {
        string_push(&mut out, cs[i]);
        assert(cs@.subrange(from as int, i + 1) =~= cs@.subrange(from as int, i as int).push(cs@[i as int]));
        i += 1;
    }
    out
}

fn occurs_at_exec(s: &Vec<char>, p: &Vec<char>, i: usize) -> (r: bool)
    ensures
        r == occurs_at(s@, p@, i as int),
{
    if i > s.len() || p.len() > s.len() - i {
        return false;
    }
    let mut k: usize = 0;
    while k < p.len()
        invariant
            s@.len() <= usize::MAX,
            i <= s@.len(),
            i + p@.len() <= s@.len(),
            k <= p@.len(),
            forall|j: int| 0 <= j < k ==> s@[i + j] == p@[j],
        decreases p@.len() - k,
    {
        let a = s[i + k];
        let b = p[k];
        if a != b {
            assert(s@.subrange(i as int, i + p@.len())[k as int] != p@[k as int]);
            return false;
        }
        k += 1;
    }
    assert(s@.subrange(i as int, i + p@.len()) =~= p@);
    true
}

/// A place that `find_from` finds lies at or after where it looked from,
/// and `p` occurs there.
proof fn lemma_find_from_bounds(s: Seq<char>, p: Seq<char>, from: int)
    ensures
        find_from(s, p, from) matches Some(j) ==> from <= j < s.len() && occurs_at(s, p, j),
    decreases s.len() - from,
{
    if 0 <= from < s.len() && !occurs_at(s, p, from) {
        lemma_find_from_bounds(s, p, from + 1);
    }
}

fn find_from_exec(s: &Vec<char>, p: &Vec<char>, from: usize) -> (r: Option<usize>)
    ensures
        r matches Some(j) ==> find_from(s@, p@, from as int) == Some(j as int) && from <= j < s@.len()
            && occurs_at(s@, p@, j as int),
        r is None ==> find_from(s@, p@, from as int) is None,
{
    proof {
        lemma_find_from_bounds(s@, p@, from as int);
    }
    let len = s.len();
    let mut i = from;
    while i < len
        invariant
            from <= i,
            len == s@.len(),
            find_from(s@, p@, from as int) == find_from(s@, p@, i as int),
        decreases s@.len() - i,
    {
        if occurs_at_exec(s, p, i) {
            return Some(i);
        }
        i += 1;
    }
    None
}

fn equals_exec(s: &Vec<char>, p: &Vec<char>) -> (r: bool)
    ensures
        r == (s@ == p@),
{
    if s.len() != p.len() {
        return false;
    }
    let r = occurs_at_exec(s, p, 0);
    assert(s@.subrange(0, p@.len() as int) =~= s@);
    r
}

/// The piece of `s` after prefix `p`, up to the next `p` or the end.
fn piece_after_exec(s: &Vec<char>, p: &Vec<char>) -> (r: Vec<char>)
    requires
        occurs_at(s@, p@, 0),
    ensures
        r@ == piece_after(s@, p@),
{
    let end = match find_from_exec(s, p, p.len()) {
        Some(j) => j,
        None => s.len(),
    };
    let mut out: Vec<char> = Vec::new();
    let mut i = p.len();
    while i < end
        invariant
            p@.len() <= i <= end <= s@.len(),
            out@ == s@.subrange(p@.len() as int, i as int),
        decreases end - i,
    {
        out.push(s[i]);
        assert(s@.subrange(p@.len() as int, i + 1) =~= s@.subrange(p@.len() as int, i as int).push(s@[i as int]));
        i += 1;
    }
    out
}

/// The `k`-th space-separated field of `s`, as a string.
fn field_exec(s: &Vec<char>, k: usize) -> (r: Option<String>)
    ensures
        opt_string_view(r) == field(s@, k as nat),
{
    let space = vec![' '];
    assert(space@ =~= seq![' ']);
    assert(s@.skip(0) =~= s@);
    let len = s.len();
    let mut start: usize = 0;
    let mut n: usize = 0;
    while n < k
        invariant
            len == s@.len(),
            start <= s@.len(),
            n <= k,
            space@ == seq![' '],
            field(s@, k as nat) == field(s@.skip(start as int), (k - n) as nat),
        decreases k - n,
    {
        let rest_start = start;
        let ghost t = s@.skip(start as int);
        match find_from_exec(s, &space, start) {
            None => {
                proof {
                    lemma_find_shift(s@, seq![' '], start as int, 0);
                }
                return None;
            },
            Some(i) => {
                proof {
                    lemma_find_shift(s@, seq![' '], start as int, 0);
                    assert(t.skip(i - start + 1) =~= s@.skip(i + 1));
                }
                start = i + 1;
            },
        }
        n += 1;
    }
    proof {
        lemma_find_shift(s@, seq![' '], start as int, 0);
    }
    match find_from_exec(s, &space, start) {
        None => {
            assert(s@.subrange(start as int, s@.len() as int) =~= s@.skip(start as int));
            Some(string_of(s, start, len))
        },
        Some(i) => {
            assert(s@.subrange(start as int, i as int) =~= s@.skip(start as int).take(i - start));
            Some(string_of(s, start, i))
        },
    }
}

/// Finding from `base + from` in `s` is finding from `from` in `s` without
/// its first `base` characters, shifted.
proof fn lemma_find_shift(s: Seq<char>, p: Seq<char>, base: int, from: int)
    requires
        0 <= base <= s.len(),
        0 <= from,
    ensures
        find_from(s, p, base + from) == match find_from(s.skip(base), p, from) {
            Some(j) => Some(j + base),
            None => None::<int>,
        },
    decreases s.len() - base - from,
{
    let t = s.skip(base);
    if base + from >= s.len() {
    } else {
        assert(occurs_at(s, p, base + from) == occurs_at(t, p, from)) by {
            if base + from + p.len() <= s.len() {
                assert(s.subrange(base + from, base + from + p.len()) =~= t.subrange(from, from + p.len()));
            }
        }
        if !occurs_at(s, p, base + from) {
            lemma_find_shift(s, p, base, from + 1);
        }
    }
}

/// Reads a chat command.
pub fn parse_command(command: &str) -> (r: ChatCommand)
    ensures
        r@ == spec_parse_command(command@),
{
    let c = chars_of(command);
    let fs = vec!['f', 's', ' '];
    let tp = vec!['t', 'p', ' '];
    let surface = vec!['s', 'u', 'r', 'f', 'a', 'c', 'e'];
    let stop = vec!['s', 't', 'o', 'p'];
    let metaball = vec!['m', 'e', 't', 'a', 'b', 'a', 'l', 'l'];
    let metaballp = vec!['m', 'e', 't', 'a', 'b', 'a', 'l', 'l', 'p'];
    assert(fs@ =~= fs_prefix());
    assert(tp@ =~= tp_prefix());
    assert(surface@ =~= seq!['s', 'u', 'r', 'f', 'a', 'c', 'e']);
    assert(stop@ =~= seq!['s', 't', 'o', 'p']);
    assert(metaball@ =~= seq!['m', 'e', 't', 'a', 'b', 'a', 'l', 'l']);
    assert(metaballp@ =~= seq!['m', 'e', 't', 'a', 'b', 'a', 'l', 'l', 'p']);
    if occurs_at_exec(&c, &fs, 0) {
        let piece = piece_after_exec(&c, &fs);
        assert(piece@.subrange(0, piece@.len() as int) =~= piece@);
        ChatCommand::FlySpeed(string_of(&piece, 0, piece.len()))
    } else if equals_exec(&c, &surface) {
        ChatCommand::Surface
    } else if equals_exec(&c, &stop) {
        ChatCommand::Stop
    } else if occurs_at_exec(&c, &tp, 0) {
        let rest = piece_after_exec(&c, &tp);
        let x = field_exec(&rest, 0);
        let y = field_exec(&rest, 1);
        let z = field_exec(&rest, 2);
        proof {
            lemma_first_field_exists(rest@);
        }
        ChatCommand::Teleport(x.unwrap(), y, z)
    } else if equals_exec(&c, &metaball) {
        ChatCommand::Metaball
    } else if equals_exec(&c, &metaballp) {
        ChatCommand::MetaballPerma
    } else {
        ChatCommand::Unknown
    }
}

/// Splitting at spaces always gives a first field.
proof fn lemma_first_field_exists(s: Seq<char>)
    ensures
        field(s, 0) is Some,
{
}

} // verus!

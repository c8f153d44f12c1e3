use mc_blackhole::handlers::{
    ability_flags, abilities_say_flying, classify_config_packet, classify_login_packet,
    classify_play_packet, client_tick_end, disconnect_packet_id, nbt_text_body, parse_command,
    player_info_add_body, player_info_game_mode_body, system_chat_body, wants_login, ChatCommand,
    ConfigPacket, ConnectionState, LoginPacket, PlayPacket, state_after, next_replies, on_login_start, Reply,
};
use mc_blackhole::proto::packets::play::GameMode;

#[test]
fn disconnect_ids_by_state() {
    assert_eq!(disconnect_packet_id(ConnectionState::Handshaking), None);
    assert_eq!(disconnect_packet_id(ConnectionState::Status), None);
    assert_eq!(disconnect_packet_id(ConnectionState::Login), Some(0x02));
    assert_eq!(disconnect_packet_id(ConnectionState::Configuration), Some(0x02));
    assert_eq!(disconnect_packet_id(ConnectionState::Play), Some(0x20));
    assert!(ConnectionState::Handshaking < ConnectionState::Play);
}

#[test]
fn only_intent_two_logs_in() {
    assert!(wants_login(2));
    assert!(!wants_login(1));
    assert!(!wants_login(3));
}

#[test]
fn commands() {
    assert!(matches!(parse_command("fs 0.5"), ChatCommand::FlySpeed(s) if s == "0.5"));
    assert!(matches!(parse_command("fs fs 1"), ChatCommand::FlySpeed(s) if s.is_empty()));
    assert!(matches!(parse_command("fs 2fs 3"), ChatCommand::FlySpeed(s) if s == "2"));
    assert!(matches!(parse_command("surface"), ChatCommand::Surface));
    assert!(matches!(parse_command("stop"), ChatCommand::Stop));
    assert!(matches!(parse_command("metaball"), ChatCommand::Metaball));
    assert!(matches!(parse_command("metaballp"), ChatCommand::MetaballPerma));
    assert!(matches!(parse_command("surface "), ChatCommand::Unknown));
    assert!(matches!(parse_command("fs"), ChatCommand::Unknown));
    assert!(matches!(parse_command(""), ChatCommand::Unknown));
    match parse_command("tp 1 2.5 -3") {
        ChatCommand::Teleport(x, y, z) => {
            assert_eq!(x, "1");
            assert_eq!(y.as_deref(), Some("2.5"));
            assert_eq!(z.as_deref(), Some("-3"));
        }
        _ => panic!("not a teleport"),
    }
    match parse_command("tp 1") {
        ChatCommand::Teleport(x, y, z) => {
            assert_eq!(x, "1");
            assert_eq!(y, None);
            assert_eq!(z, None);
        }
        _ => panic!("not a teleport"),
    }
    match parse_command("tp 1  2") {
        ChatCommand::Teleport(x, y, z) => {
            assert_eq!(x, "1");
            assert_eq!(y.as_deref(), Some(""));
            assert_eq!(z.as_deref(), Some("2"));
        }
        _ => panic!("not a teleport"),
    }
    match parse_command("tp é 2 3 4") {
        ChatCommand::Teleport(x, _, z) => {
            assert_eq!(x, "é");
            assert_eq!(z.as_deref(), Some("3"));
        }
        _ => panic!("not a teleport"),
    }
}

#[test]
fn flags_for_game_modes() {
    assert_eq!(ability_flags(GameMode::Survival, false), 0x00);
    assert_eq!(ability_flags(GameMode::Survival, true), 0x02);
    assert_eq!(ability_flags(GameMode::Creative, false), 0x0d);
    assert_eq!(ability_flags(GameMode::Creative, true), 0x0f);
    assert_eq!(ability_flags(GameMode::Spectator, false), 0x06);
    assert_eq!(ability_flags(GameMode::Adventure, false), 0x00);
    assert!(abilities_say_flying(0x02));
    assert!(!abilities_say_flying(0x06));
    assert!(GameMode::Creative.can_fly());
    assert!(GameMode::Spectator.can_fly());
    assert!(!GameMode::Survival.can_fly());
    assert!(!GameMode::Adventure.can_fly());
}

#[test]
fn packet_dispatch() {
    assert_eq!(classify_login_packet(0x03), LoginPacket::Acknowledged);
    assert_eq!(classify_login_packet(0x00), LoginPacket::Unknown);
    assert_eq!(classify_config_packet(0x02), ConfigPacket::Ignored);
    assert_eq!(classify_config_packet(0x07), ConfigPacket::Ignored);
    assert_eq!(classify_config_packet(0x00), ConfigPacket::ClientInformation);
    assert_eq!(classify_config_packet(0x03), ConfigPacket::Finished);
    assert_eq!(classify_config_packet(0x09), ConfigPacket::Unknown);
    for id in [0x1F, 0x2A, 0x29, 0x0A, 0x34, 0x15, 0x00, 0x2B, 0x28, 0x3C, 0x25] {
        assert_eq!(classify_play_packet(id), PlayPacket::Ignored);
    }
    assert_eq!(classify_play_packet(0x0C), PlayPacket::ClientTickEnd);
    assert_eq!(classify_play_packet(0x1B), PlayPacket::KeepAlive);
    assert_eq!(classify_play_packet(0x1D), PlayPacket::MovePlayerPos);
    assert_eq!(classify_play_packet(0x1E), PlayPacket::MovePlayerPosRot);
    assert_eq!(classify_play_packet(0x27), PlayPacket::PlayerAbilities);
    assert_eq!(classify_play_packet(0x04), PlayPacket::ChangeGameMode);
    assert_eq!(classify_play_packet(0x06), PlayPacket::ChatCommand);
    assert_eq!(classify_play_packet(0x7F), PlayPacket::Unknown);
}

#[test]
fn keep_alive_every_twenty_ticks() {
    assert_eq!(client_tick_end(0), (true, 1));
    assert_eq!(client_tick_end(1), (false, 2));
    assert_eq!(client_tick_end(19), (false, 20));
    assert_eq!(client_tick_end(20), (true, 21));
    assert_eq!(client_tick_end(40), (true, 41));
}

#[test]
fn hand_built_bodies() {
    assert_eq!(nbt_text_body("hi").to_vec(), vec![8, 0, 2, b'h', b'i']);
    assert_eq!(
        system_chat_body("unknown command!").to_vec()[..5].to_vec(),
        vec![8, 0, 16, b'u', b'n']
    );
    assert_eq!(*system_chat_body("x").to_vec().last().unwrap(), 0);
    let mut expected = vec![0x09, 1];
    expected.extend_from_slice(&[0; 15]);
    expected.push(7);
    expected.extend_from_slice(&[2, b'a', b'b', 0, 1]);
    assert_eq!(player_info_add_body(7, "ab").to_vec(), expected);
    let mut expected = vec![0x04, 1];
    expected.extend_from_slice(&[0; 15]);
    expected.push(7);
    expected.push(3);
    assert_eq!(player_info_game_mode_body(7, GameMode::Spectator).to_vec(), expected);
}

#[test]
fn state_moves_on_acknowledgement_and_finish() {
    assert_eq!(state_after(ConnectionState::Login, 0x03), ConnectionState::Configuration);
    assert_eq!(state_after(ConnectionState::Login, 0x00), ConnectionState::Login);
    assert_eq!(state_after(ConnectionState::Configuration, 0x00), ConnectionState::Configuration);
    assert_eq!(state_after(ConnectionState::Configuration, 0x03), ConnectionState::Play);
    assert_eq!(state_after(ConnectionState::Play, 0x03), ConnectionState::Play);
    assert_eq!(state_after(ConnectionState::Handshaking, 0x03), ConnectionState::Handshaking);
}

#[test]
fn replies_in_login_and_configuration() {
    let (st, tick, r) = next_replies(ConnectionState::Login, 0, 0x03);
    assert_eq!(st, ConnectionState::Configuration);
    assert_eq!(tick, 0);
    assert_eq!(r, vec![Reply::EnabledFeatures, Reply::KnownPacks]);
    let (st, _, r) = next_replies(ConnectionState::Login, 0, 0x01);
    assert_eq!(st, ConnectionState::Login);
    assert_eq!(r, vec![Reply::LogUnknown]);
    let (st, _, r) = next_replies(ConnectionState::Configuration, 0, 0x00);
    assert_eq!(st, ConnectionState::Configuration);
    assert_eq!(r, vec![Reply::Registries, Reply::Tags, Reply::FinishConfiguration]);
    let (_, _, r) = next_replies(ConnectionState::Configuration, 0, 0x07);
    assert!(r.is_empty());
    let (st, _, r) = next_replies(ConnectionState::Configuration, 0, 0x03);
    assert_eq!(st, ConnectionState::Play);
    assert_eq!(
        r,
        vec![
            Reply::JoinGame,
            Reply::OpPermissionLevel,
            Reply::StartWaitingForChunks,
            Reply::CenterChunk,
            Reply::SpawnPosition,
            Reply::Brand,
            Reply::PlayerInfoAdd,
            Reply::KeepAlive,
        ]
    );
}

#[test]
fn replies_in_play() {
    // every twentieth tick end is answered with a keep alive
    let (st, tick, r) = next_replies(ConnectionState::Play, 0, 0x0C);
    assert_eq!((st, tick), (ConnectionState::Play, 1));
    assert_eq!(r, vec![Reply::KeepAlive]);
    let (_, tick, r) = next_replies(ConnectionState::Play, 1, 0x0C);
    assert_eq!(tick, 2);
    assert!(r.is_empty());
    let (_, tick, r) = next_replies(ConnectionState::Play, 40, 0x0C);
    assert_eq!(tick, 41);
    assert_eq!(r, vec![Reply::KeepAlive]);
    // other packets leave the tick alone
    let (_, tick, r) = next_replies(ConnectionState::Play, 7, 0x1D);
    assert_eq!(tick, 7);
    assert_eq!(r, vec![Reply::MovePlayerPos]);
    assert_eq!(next_replies(ConnectionState::Play, 7, 0x1E).2, vec![Reply::MovePlayerPosRot]);
    assert_eq!(next_replies(ConnectionState::Play, 7, 0x27).2, vec![Reply::UpdateFlying]);
    assert_eq!(next_replies(ConnectionState::Play, 7, 0x04).2, vec![Reply::ChangeGameMode]);
    assert_eq!(next_replies(ConnectionState::Play, 7, 0x06).2, vec![Reply::RunCommand]);
    assert!(next_replies(ConnectionState::Play, 7, 0x1B).2.is_empty());
    assert!(next_replies(ConnectionState::Play, 7, 0x3C).2.is_empty());
    assert_eq!(next_replies(ConnectionState::Play, 7, 0x70).2, vec![Reply::LogUnknown]);
}

#[test]
fn login_start_sets_compression_then_succeeds() {
    let (st, r) = on_login_start();
    assert_eq!(st, ConnectionState::Login);
    assert_eq!(r, vec![Reply::SetCompression(256), Reply::LoginSuccess]);
}

#[test]
fn replies_follow_the_phases_over_a_session() {
    // a play packet, a config packet and client information while logging
    // in, then the acknowledgement, configuration, and play
    let ids = [0x1D, 0x00, 0x03, 0x00, 0x03, 0x0C, 0x1D];
    let mut state = ConnectionState::Login;
    let mut tick = 0;
    let mut all = Vec::new();
    for id in ids {
        let (s, t, r) = next_replies(state, tick, id);
        state = s;
        tick = t;
        all.extend(r);
    }
    assert_eq!(state, ConnectionState::Play);
    assert_eq!(tick, 1);
    let known = all.iter().position(|r| *r == Reply::KnownPacks).unwrap();
    let join = all.iter().position(|r| *r == Reply::JoinGame).unwrap();
    assert!(known < join);
    // before the known packs only unknown-packet reports and login replies
    assert!(all[..known].iter().all(|r| matches!(r, Reply::LogUnknown | Reply::EnabledFeatures)));
    // keep alives and moves only after the join
    for (i, r) in all.iter().enumerate() {
        if matches!(r, Reply::KeepAlive | Reply::MovePlayerPos) {
            assert!(i > join);
        }
    }
    assert_eq!(all.last(), Some(&Reply::MovePlayerPos));
}

use rustcraft::chunk::{Chunk, ChunkPos};
use rustcraft::chunk_packet::{
    block_type_to_id, build_palette, chunk_data_frame, create_chunk_data_nbt,
    create_heightmap_nbt, encode_block_data, has_section_data, serialize_chunk,
    serialize_section,
};
use rustcraft::chunk::BlockType;
use rustcraft::config::{configuration_step, ConfigStep, ConfigurationAckPacket, ConfigurationHandler};
use rustcraft::error_tracker::{ErrorKey, ErrorTracker};
use rustcraft::game_loop::GameLoop;
use rustcraft::join_game::JoinGameHandler;
use rustcraft::login::{
    disconnect_payload, is_valid_username, login_disconnect_frame, login_success_frame,
    offline_login, parse_handshake, parse_login_start,
};
use rustcraft::nbt::{bytes_contains, DamageTypeCompound, DimensionCompound, NBTBuilder};
use rustcraft::packet_log::PacketLogger;
use rustcraft::play::PlayStateHandler;
use rustcraft::player::{parse_movement_packet, MovementPacket};
use rustcraft::protocol::{decode_frame, PacketWriter};
use rustcraft::state::{ConnectionStage, ConnectionStateTracker};
use rustcraft::terrain::{Biome, BiomeMap};
use rustcraft::varint::DecodeError;
use rustcraft::world::{MinecraftWorld, World};

#[test]
fn test_connection_stage_transitions() {
    let mut tracker = ConnectionStateTracker::new();

    assert_eq!(tracker.current_stage(), ConnectionStage::Connected);
    assert!(tracker.is_connected());

    tracker.transition(ConnectionStage::Handshaking);
    assert_eq!(tracker.current_stage(), ConnectionStage::Handshaking);

    tracker.transition(ConnectionStage::Disconnected);
    assert!(!tracker.is_connected());
}

#[test]
fn stage_durations_from_instants() {
    let mut tracker = ConnectionStateTracker::new_at(1000);
    tracker.transition_at(ConnectionStage::Authenticating, 1500);
    let info = tracker.state_info_at(1700);
    assert_eq!(info.stage, ConnectionStage::Authenticating);
    assert_eq!(info.stage_duration_ms, 200);
    assert_eq!(info.total_duration_ms, 700);
    assert_eq!(tracker.current_stage().name(), "Authenticating");
}

#[test]
fn game_loop_ticks_on_period() {
    let mut gl = GameLoop::new_at(0);
    assert_eq!(gl.tick_count(), 0);
    gl.tick_at(49);
    assert_eq!(gl.tick_count(), 0);
    gl.tick_at(50);
    assert_eq!(gl.tick_count(), 1);
    gl.tick_at(99);
    assert_eq!(gl.tick_count(), 1);
    gl.tick_at(100);
    assert_eq!(gl.tick_count(), 2);
}

#[test]
fn world_names() {
    assert_eq!(World::new("alpha".to_owned()).name, "alpha");
    assert_eq!(World::default().name, "world");
    assert_eq!(MinecraftWorld::new("beta".to_owned()).name, "beta");
    let w: MinecraftWorld = Default::default();
    assert_eq!(w.name, "world");
}

#[test]
fn username_rules() {
    assert!(is_valid_username("Notch"));
    assert!(is_valid_username("a_b_C_9"));
    assert!(is_valid_username("0123456789abcdef"));
    assert!(!is_valid_username(""));
    assert!(!is_valid_username("0123456789abcdefg"));
    assert!(!is_valid_username("bad name!"));
    assert!(!is_valid_username("ünicode"));
}

#[test]
fn offline_uuid_is_deterministic_and_matches_v3() {
    let a = offline_login("Notch").unwrap();
    let b = offline_login("Notch").unwrap();
    assert_eq!(a.uuid, b.uuid);
    assert_eq!(a.username, "Notch");
    let expected =
        uuid::Uuid::new_v3(&uuid::Uuid::NAMESPACE_DNS, b"OfflinePlayer:Notch").as_u128();
    assert_eq!(a.uuid, expected);
    assert!(offline_login("bad name!").is_none());
}

#[test]
fn disconnect_payload_escapes_json() {
    let payload = disconnect_payload("a\"b\\c\nd");
    // The payload is a varint length, then {"text":"a\"b\\c\nd"}.
    let expected_json = b"{\"text\":\"a\\\"b\\\\c\\nd\"}";
    assert_eq!(payload[0] as usize, expected_json.len());
    assert_eq!(&payload[1..], expected_json);

    let frame = login_disconnect_frame("Outdated server! Please use 1.21.7");
    let packet = decode_frame(&frame).unwrap();
    assert_eq!(packet.id, 0x00);
    let expected = b"{\"text\":\"Outdated server! Please use 1.21.7\"}";
    assert_eq!(packet.data[0] as usize, expected.len());
    assert_eq!(&packet.data[1..], expected);
}

#[test]
fn login_success_frame_layout() {
    let uuid = 0x11223344556677889900aabbccddeeffu128;
    let frame = login_success_frame(uuid, "Notch");
    let packet = decode_frame(&frame).unwrap();
    assert_eq!(packet.id, 0x02);
    let mut expected: Vec<u8> = Vec::new();
    expected.extend_from_slice(&uuid.to_be_bytes());
    expected.push(5);
    expected.extend_from_slice(b"Notch");
    expected.push(0);
    assert_eq!(packet.data, expected);
}

#[test]
fn handshake_parses_and_validates_next_state() {
    let mut w = PacketWriter::new();
    w.write_varint(0x00);
    w.write_varint(772);
    w.write_string("localhost");
    w.write_unsigned_short(25565);
    w.write_varint(2);
    let body = w.finish();
    let h = parse_handshake(&body).unwrap();
    assert_eq!(h.protocol_version, 772);
    assert_eq!(h.server_address, "localhost");
    assert_eq!(h.server_port, 25565);
    assert_eq!(h.next_state, 2);

    let mut w = PacketWriter::new();
    w.write_varint(0x00);
    w.write_varint(771);
    w.write_string("");
    w.write_unsigned_short(0);
    w.write_varint(3);
    let body = w.finish();
    assert_eq!(parse_handshake(&body).err(), Some(DecodeError::BadFrame));
}

#[test]
fn login_start_parses_username() {
    let mut w = PacketWriter::new();
    w.write_varint(0x00);
    w.write_string("Notch");
    let body = w.finish();
    assert_eq!(parse_login_start(&body).unwrap(), "Notch");

    let mut w = PacketWriter::new();
    w.write_varint(0x00);
    w.write_string("");
    let body = w.finish();
    assert_eq!(parse_login_start(&body).err(), Some(DecodeError::BadFrame));

    let mut w = PacketWriter::new();
    w.write_varint(0x01);
    let body = w.finish();
    assert_eq!(parse_login_start(&body).err(), Some(DecodeError::BadFrame));
}

#[test]
fn test_duration_tracking() {
    let tracker = ConnectionStateTracker::new();
    let duration = tracker.connection_duration_ms();
    let _ = duration;
    assert!(tracker.is_connected());
}

#[test]
fn error_tracker_threshold_and_reset() {
    let mut tracker = ErrorTracker::new();
    for i in 0..4 {
        let key = ErrorKey::new("NETWORK", "accept_failed");
        assert!(!tracker.record_error_at(key, 1000 + i), "call {} must not trip", i);
    }
    let key = ErrorKey::new("NETWORK", "accept_failed");
    assert!(tracker.record_error_at(key, 1900));

    // A different class does not share the count.
    let other = ErrorKey::new("LOGIN", "auth_failed");
    assert!(!tracker.record_error_at(other, 1900));

    // After the window passes in silence, the count restarts at one.
    let key = ErrorKey::new("NETWORK", "accept_failed");
    assert!(!tracker.record_error_at(key, 12000));
    let stats = tracker.get_stats();
    let entry = stats
        .iter()
        .find(|(k, _, _)| k.category == "NETWORK")
        .unwrap();
    assert_eq!(entry.1, 1);
    assert_eq!(entry.2, 12000);

    tracker.clear();
    assert!(tracker.get_stats().is_empty());
}

#[test]
fn configuration_ids_classify() {
    assert!(matches!(
        ConfigurationAckPacket::from(0),
        ConfigurationAckPacket::ClientInformation
    ));
    assert!(matches!(
        ConfigurationAckPacket::from_id(3),
        Some(ConfigurationAckPacket::AcknowledgeFinishConfiguration)
    ));
    assert!(ConfigurationAckPacket::from_id(4).is_none());
    assert_eq!(configuration_step(0), ConfigStep::Ignore);
    assert_eq!(configuration_step(1), ConfigStep::Ignore);
    assert_eq!(configuration_step(2), ConfigStep::Ignore);
    assert_eq!(configuration_step(3), ConfigStep::Advance);
    assert_eq!(configuration_step(9), ConfigStep::Fatal);
}

#[test]
fn registries_have_required_entries() {
    let dims = ConfigurationHandler::get_dimension_type_registry();
    assert_eq!(dims.len(), 3);
    assert_eq!(dims[0].0, b"minecraft:overworld".to_vec());
    assert_eq!(dims[1].0, b"minecraft:the_nether".to_vec());
    assert_eq!(dims[2].0, b"minecraft:the_end".to_vec());
    for (_, nbt) in &dims {
        assert_eq!(nbt[0], 0x0a);
        assert_eq!(*nbt.last().unwrap(), 0x00);
        assert!(bytes_contains(nbt, b"min_y"));
        assert!(bytes_contains(nbt, b"coordinate_scale"));
    }
    // The nether blocks beds and allows respawn anchors.
    let nether = &dims[1].1;
    let bed_tag_at = nether.windows(9).position(|w| w == b"bed_works").unwrap();
    assert_eq!(nether[bed_tag_at + 9], 0);
    let overworld = &dims[0].1;
    let bed_tag_at = overworld.windows(9).position(|w| w == b"bed_works").unwrap();
    assert_eq!(overworld[bed_tag_at + 9], 1);

    let dmg = ConfigurationHandler::get_damage_type_registry();
    assert_eq!(dmg.len(), 9);
    assert_eq!(dmg[0].0, b"minecraft:generic".to_vec());
    assert_eq!(dmg[8].0, b"minecraft:falling_anvil".to_vec());
    for (_, nbt) in &dmg {
        assert!(bytes_contains(nbt, b"exhaustion"));
        assert!(bytes_contains(nbt, b"message_id"));
        assert!(bytes_contains(nbt, b"scaling"));
    }
}

#[test]
fn registry_frame_shape() {
    let dims = ConfigurationHandler::get_dimension_type_registry();
    let id = b"minecraft:dimension_type".to_vec();
    let frame = ConfigurationHandler::registry_frame(&id, &dims);
    let packet = decode_frame(&frame).unwrap();
    assert_eq!(packet.id, 0x07);
    assert_eq!(packet.data[0] as usize, id.len());
    assert_eq!(&packet.data[1..1 + id.len()], &id[..]);
    assert_eq!(packet.data[1 + id.len()], 3);

    let finish = ConfigurationHandler::finish_configuration_frame();
    assert_eq!(finish, vec![0x01, 0x03]);
}

#[test]
fn nbt_compound_layouts() {
    assert_eq!(NBTBuilder::empty_compound(), vec![0x0a, 0x00, 0x00, 0x00]);
    let dc = DimensionCompound::new(
        b"overworld".to_vec(),
        384,
        -64,
        true,
        false,
        false,
        true,
        1.0f32.to_bits(),
    );
    let bytes = NBTBuilder::dimension_compound(&dc);
    assert_eq!(bytes[0], 0x0a);
    // The first tag is TAG_Byte "bed_works" with value 1 in the overworld.
    assert_eq!(bytes[3], 0x01);
    assert_eq!(&bytes[4..6], &[0x00, 0x09]);
    assert_eq!(&bytes[6..15], b"bed_works");
    assert_eq!(bytes[15], 1);

    let dt = DamageTypeCompound::new(
        b"generic".to_vec(),
        b"always".to_vec(),
        0.1f32.to_bits(),
    );
    let bytes = NBTBuilder::damage_type_compound(&dt);
    assert_eq!(bytes[3], 0x05);
    assert_eq!(&bytes[6..16], b"exhaustion");
    assert_eq!(&bytes[16..20], &0.1f32.to_be_bytes());
}

#[test]
fn join_game_and_play_frames() {
    let frame = JoinGameHandler::join_game_frame(1);
    let packet = decode_frame(&frame).unwrap();
    assert_eq!(packet.id, 0x28);
    assert_eq!(&packet.data[0..4], &1i32.to_be_bytes());
    assert_eq!(packet.data[4], 0);
    assert_eq!(packet.data[5], 0);
    assert_eq!(packet.data[6], 0xff);
    assert_eq!(packet.data[7], 1);
    assert_eq!(packet.data[8] as usize, "minecraft:overworld".len());

    let uuid = 7u128;
    let frame = JoinGameHandler::player_info_add_frame(uuid, "Notch");
    let packet = decode_frame(&frame).unwrap();
    assert_eq!(packet.id, 0x53);
    assert_eq!(packet.data[0], 0);
    assert_eq!(packet.data[1], 1);
    assert_eq!(&packet.data[2..18], &uuid.to_be_bytes());

    let frame = JoinGameHandler::send_configuration_finish_frame();
    assert_eq!(frame, vec![0x01, 0x02]);

    let frame = PlayStateHandler::confirm_teleport_frame(5);
    assert_eq!(frame, vec![0x02, 0x00, 0x05]);

    let frame = PlayStateHandler::set_default_spawn_position_frame(0, 64, 0, 0.0f32.to_bits());
    let packet = decode_frame(&frame).unwrap();
    assert_eq!(packet.id, 0x4e);
    assert_eq!(&packet.data[4..8], &64i32.to_be_bytes());

    let frame = PlayStateHandler::synchronize_player_position_frame(
        0.0f64.to_bits(),
        64.0f64.to_bits(),
        0.0f64.to_bits(),
        0.0f32.to_bits(),
        0.0f32.to_bits(),
        0,
    );
    let packet = decode_frame(&frame).unwrap();
    assert_eq!(packet.id, 0x31);
    assert_eq!(&packet.data[8..16], &64.0f64.to_be_bytes());
    assert_eq!(packet.data[28], 0);

    let frame = PlayStateHandler::entity_status_frame(9, 2);
    let packet = decode_frame(&frame).unwrap();
    assert_eq!(packet.id, 0x01);
    assert_eq!(packet.data, vec![0, 0, 0, 9, 2]);
}

#[test]
fn chunk_data_packet_layout() {
    let hm = create_heightmap_nbt();
    assert_eq!(hm.len(), 3 + 1 + 2 + 15 + 4 + 288 + 1);
    assert_eq!(hm[0], 0x0a);
    assert_eq!(hm[3], 0x0c);
    assert_eq!(&hm[6..21], b"MOTION_BLOCKING");
    assert_eq!(&hm[21..25], &36i32.to_be_bytes());
    assert_eq!(create_chunk_data_nbt(), vec![0x0a, 0x00, 0x00, 0x00]);

    let c = Chunk::new(ChunkPos::new(2, -3));
    let frame = chunk_data_frame(&c);
    let packet = decode_frame(&frame).unwrap();
    assert_eq!(packet.id, 0x20);
    assert_eq!(&packet.data[0..4], &2i32.to_be_bytes());
    assert_eq!(&packet.data[4..8], &(-3i32).to_be_bytes());

    let legacy = serialize_chunk(&c);
    assert_eq!(&legacy[0..4], &2i32.to_be_bytes());
    assert_eq!(legacy.len(), 4 + 4 + 36 + 3);
}

#[test]
fn section_scan_and_block_ids() {
    let mut c = Chunk::new(ChunkPos::new(0, 0));
    assert!(!has_section_data(&c, 0));
    c.set_block(3, 17, 4, BlockType::Stone);
    assert!(has_section_data(&c, 1));
    assert!(!has_section_data(&c, 0));
    assert!(!has_section_data(&c, 2));
    assert_eq!(block_type_to_id(BlockType::OakLog), 17);
    assert_eq!(block_type_to_id(BlockType::Grass), 3);
}

#[test]
fn palette_and_section_encoding() {
    let mut c = Chunk::new(ChunkPos::new(0, 0));
    c.set_block(0, 0, 0, BlockType::Stone);
    c.set_block(1, 0, 0, BlockType::Grass);
    c.set_block(2, 0, 0, BlockType::Dirt);
    let palette = build_palette(&c, 0);
    // Air first, then stone (1) and the shared grass/dirt id (3), once each.
    assert_eq!(palette, vec![0, 1, 3]);

    let data = encode_block_data(&c, 0, &palette);
    assert_eq!(data.len(), 4096);
    // Cells run y, z, x: the three set blocks are the first three bytes.
    assert_eq!(data[0], 1);
    assert_eq!(data[1], 2);
    assert_eq!(data[2], 2);
    assert_eq!(data[3], 0);

    let mut w = PacketWriter::new();
    serialize_section(&mut w, &c, 0);
    let out = w.finish();
    // Three non-air blocks, a three-entry palette, 512 longs of data.
    assert_eq!(&out[0..2], &3i16.to_be_bytes());
    assert_eq!(out[2], 3);
    assert_eq!(&out[3..6], &[0, 1, 3]);
    assert_eq!(&out[6..8], &[0x80, 0x04]);
    assert_eq!(out.len(), 8 + 4096);
}

#[test]
fn biome_map_grid() {
    let mut map = BiomeMap::new(4, 4);
    assert_eq!(map.get(0, 0), Biome::Plains);
    map.set(2, 3, Biome::Snow);
    assert_eq!(map.get(2, 3), Biome::Snow);
    assert_eq!(map.get(4, 0), Biome::Ocean);
    // An out-of-bounds write changes nothing.
    map.set(9, 9, Biome::Desert);
    assert_eq!(map.get(2, 3), Biome::Snow);
}

#[test]
fn movement_packets_parse_positions() {
    let mut w = PacketWriter::new();
    w.write_double_bits(1.5f64.to_bits());
    w.write_double_bits(64.0f64.to_bits());
    w.write_double_bits((-7.25f64).to_bits());
    w.write_bool(true);
    let body = w.finish();
    match parse_movement_packet(0x04, &body).unwrap().unwrap() {
        MovementPacket::Position(p) => {
            assert_eq!(f64::from_bits(p.coordinates.x), 1.5);
            assert_eq!(f64::from_bits(p.coordinates.y), 64.0);
            assert_eq!(f64::from_bits(p.coordinates.z), -7.25);
            assert!(p.ground);
        }
        _ => panic!("expected a position packet"),
    }

    let mut w = PacketWriter::new();
    w.write_bool(false);
    w.write_float_bits(90.0f32.to_bits());
    w.write_float_bits((-10.0f32).to_bits());
    let body = w.finish();
    let parsed = parse_movement_packet(0x05, &body).unwrap().unwrap();
    assert!(!parsed.is_on_ground());
    match parsed {
        MovementPacket::Look(l) => {
            assert_eq!(f32::from_bits(l.rotation.yaw), 90.0);
            assert_eq!(f32::from_bits(l.rotation.pitch), -10.0);
        }
        _ => panic!("expected a look packet"),
    }

    assert_eq!(parse_movement_packet(0x99, &[]).unwrap(), None);
    assert_eq!(
        parse_movement_packet(0x06, &[0, 1, 2]).err(),
        Some(DecodeError::UnexpectedEnd)
    );
}

#[test]
fn packet_logger_renders_and_counts() {
    let mut logger = PacketLogger::new();
    assert_eq!(logger.next_count(), 0);
    assert_eq!(logger.next_count(), 1);
    assert_eq!(PacketLogger::capture_name(7, false), "000007_client.bin");
    assert_eq!(PacketLogger::capture_name(1234567, true), "1234567_server.bin");
    assert_eq!(PacketLogger::bytes_to_hex(&[0x00, 0xff]), "00 ff");
    assert_eq!(PacketLogger::hex_preview(&[0xab, 0xcd], 10), "ab cd");
    assert_eq!(PacketLogger::hex_preview(&[0xab, 0xcd, 0xef], 5), "ab cd...");

    // A frame of one byte payload: length 2, id 0x10, one payload byte.
    let frame = vec![0x02u8, 0x10, 0x42];
    assert_eq!(logger.parse_packet(&frame), Some((0x10, 1)));
    assert_eq!(logger.parse_packet(&[]), None);
}

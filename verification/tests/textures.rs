use doom_core::clock::{FrameClock, FRAME_TIME};
use doom_core::geometry::Vec2;
use doom_core::lumps::{DoomMap, DoomMapSector, DoomMapSidedef, Size};
use doom_core::protocol::{ClientMessage, Packet, SequencedPacket, ServerMessage};
use doom_core::textures::{
    flat_names, generate_lightmaps, group_by_size, is_listed, note_name, wall_texture_names,
    Placement,
};

fn size(width: u32, height: u32) -> Size {
    Size { width, height }
}

#[test]
fn images_of_one_size_are_stacked_in_order() {
    let sizes = vec![size(64, 64), size(64, 128), size(64, 64), size(8, 8), size(64, 64), size(64, 128)];
    assert_eq!(
        group_by_size(&sizes),
        vec![
            Placement { group: 0, layer: 0 },
            Placement { group: 1, layer: 0 },
            Placement { group: 0, layer: 1 },
            Placement { group: 3, layer: 0 },
            Placement { group: 0, layer: 2 },
            Placement { group: 1, layer: 1 },
        ]
    );
    assert_eq!(group_by_size(&Vec::new()), Vec::<Placement>::new());
    // Width and height are not interchangeable.
    assert_eq!(
        group_by_size(&vec![size(1, 2), size(2, 1)]),
        vec![Placement { group: 0, layer: 0 }, Placement { group: 1, layer: 0 }]
    );
}

#[test]
fn lightmaps_are_sixteen_greys() {
    let pixels = generate_lightmaps();
    assert_eq!(pixels.len(), 64);
    assert_eq!(pixels[0..4], [0, 0, 0, 255]);
    assert_eq!(pixels[4..8], [16, 16, 16, 255]);
    assert_eq!(pixels[60..64], [240, 240, 240, 255]);
    for (i, level) in pixels.chunks(4).enumerate() {
        assert_eq!(level, [16 * i as u8, 16 * i as u8, 16 * i as u8, 255]);
    }
}

#[test]
fn a_name_is_noted_once() {
    let mut names = Vec::new();
    note_name(&mut names, &"B".to_string());
    note_name(&mut names, &"A".to_string());
    note_name(&mut names, &"B".to_string());
    note_name(&mut names, &"b".to_string());
    assert_eq!(names, vec!["B".to_string(), "A".to_string(), "b".to_string()]);
    assert!(is_listed(&names, &"A".to_string()));
    assert!(!is_listed(&names, &"C".to_string()));
    assert!(!is_listed(&Vec::new(), &"A".to_string()));
}

fn side(top: Option<&str>, bottom: Option<&str>, middle: Option<&str>) -> DoomMapSidedef {
    DoomMapSidedef {
        texture_offset: Vec2::new(0, 0),
        top_texture_name: top.map(|s| s.to_string()),
        bottom_texture_name: bottom.map(|s| s.to_string()),
        middle_texture_name: middle.map(|s| s.to_string()),
        sector_index: 0,
    }
}

fn room(floor: &str, ceiling: &str) -> DoomMapSector {
    DoomMapSector {
        floor_height: 0,
        ceiling_height: 0,
        floor_flat_name: floor.to_string(),
        ceiling_flat_name: ceiling.to_string(),
        light_level: 0,
        special_type: 0,
        sector_tag: 0,
    }
}

fn raw_level() -> DoomMap {
    DoomMap {
        linedefs: Vec::new(),
        sidedefs: vec![
            side(None, Some("STEP"), Some("BRICK")),
            side(Some("BRICK"), None, None),
            side(Some("SKY"), Some("STEP"), Some("DOOR")),
            side(None, None, None),
        ],
        vertexes: Vec::new(),
        sectors: vec![room("FLOOR1", "CEIL1"), room("CEIL1", "FLOOR1"), room("FLOOR2", "FLOOR2")],
        gl_vert: Vec::new(),
        gl_segs: Vec::new(),
        gl_ssect: Vec::new(),
        gl_nodes: Vec::new(),
    }
}

#[test]
fn the_textures_of_a_level_are_listed_once_each() {
    let map = raw_level();
    let names: Vec<String> =
        ["STEP", "BRICK", "SKY", "DOOR"].iter().map(|s| s.to_string()).collect();
    assert_eq!(wall_texture_names(&map), names);
    let flats: Vec<String> = ["FLOOR1", "CEIL1", "FLOOR2"].iter().map(|s| s.to_string()).collect();
    assert_eq!(flat_names(&map), flats);
    let mut empty = raw_level();
    empty.sidedefs.clear();
    empty.sectors.clear();
    assert!(wall_texture_names(&empty).is_empty());
    assert!(flat_names(&empty).is_empty());
}

#[test]
fn a_tick_is_due_when_a_frame_time_has_passed() {
    assert_eq!(FRAME_TIME, 28_571_429);
    let mut clock = FrameClock::new();
    assert_eq!(clock.leftover_time, 0);
    assert!(!clock.advance(28_571_428));
    assert_eq!(clock.leftover_time, 28_571_428);
    assert!(clock.advance(1));
    assert_eq!(clock.leftover_time, 0);
    assert!(!clock.advance(0));
}

#[test]
fn only_one_tick_is_due_at_a_time() {
    let mut clock = FrameClock::new();
    assert!(clock.advance(3 * FRAME_TIME + 5));
    assert_eq!(clock.leftover_time, 2 * FRAME_TIME + 5);
    assert!(clock.advance(0));
    assert!(clock.advance(0));
    assert!(!clock.advance(0));
    assert_eq!(clock.leftover_time, 5);
}

#[test]
fn the_clock_stops_counting_at_its_limit() {
    let mut clock = FrameClock { leftover_time: u64::MAX - 3 };
    assert!(clock.advance(10));
    assert_eq!(clock.leftover_time, u64::MAX - FRAME_TIME);
}

#[test]
fn an_unsequenced_packet_is_written_as_its_messages_in_a_row() {
    let p: Packet<ClientMessage> =
        Packet::Unsequenced(vec![ClientMessage::Connect, ClientMessage::RCon("q".to_string())]);
    let bytes = p.to_bytes();
    assert_eq!(bytes, vec![0xff, 0xff, 0xff, 0xff, 1, 2, 0, 0, 0, 1, b'q']);
    match Packet::<ClientMessage>::try_from(bytes) {
        Ok(Packet::Unsequenced(messages)) => {
            assert_eq!(format!("{:?}", messages), "[Connect, RCon(\"q\")]");
        }
        other => panic!("{:?}", other),
    }
    let p: Packet<ServerMessage> = Packet::Unsequenced(vec![
        ServerMessage::EntityNew(1),
        ServerMessage::ComponentDelta(1, 2, vec![3]),
        ServerMessage::Disconnect,
    ]);
    assert_eq!(
        p.to_bytes(),
        vec![0xff, 0xff, 0xff, 0xff, 7, 0, 0, 0, 1, 3, 0, 0, 0, 1, 2, 0, 0, 0, 1, 3, 5]
    );
    let none: Packet<ServerMessage> = Packet::Unsequenced(Vec::new());
    assert_eq!(none.to_bytes(), vec![0xff, 0xff, 0xff, 0xff]);
}

#[test]
fn a_sequenced_packet_is_written_as_itself() {
    let p: Packet<ServerMessage> =
        Packet::Sequenced(SequencedPacket { sequence: 0x0a0b0c0d, data: vec![1, 2] });
    assert_eq!(p.to_bytes(), vec![0x0a, 0x0b, 0x0c, 0x0d, 1, 2]);
    let p: Packet<ClientMessage> = Packet::Sequenced(SequencedPacket { sequence: 0, data: vec![] });
    assert_eq!(p.to_bytes(), vec![0, 0, 0, 0]);
}

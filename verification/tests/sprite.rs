use doom_core::assets::AssetHandle;
use doom_core::fixed::ONE;
use doom_core::sprite::{
    arrange_frame, arrange_frames, greatest_frame, holds_image_of, read_lump_name, scan_lumps,
    starts_with, FrameEntry, Sprite, SpriteBuilder, SpriteError, SpriteImageInfo,
    SpriteImageInfoIntermediate, SPRITE_PATTERN,
};

fn names(list: &[&str]) -> Vec<String> {
    list.iter().map(|s| s.to_string()).collect()
}

fn plain(image_index: usize) -> SpriteImageInfoIntermediate {
    SpriteImageInfoIntermediate { flip: ONE, image_index }
}

fn mirrored(image_index: usize) -> SpriteImageInfoIntermediate {
    SpriteImageInfoIntermediate { flip: -ONE, image_index }
}

fn entry(frame: usize, rotation: i64, info: SpriteImageInfoIntermediate) -> FrameEntry {
    FrameEntry { frame, rotation, info }
}

#[test]
fn prefixes_are_compared_character_by_character() {
    assert!(starts_with("TROOA1", "TROO"));
    assert!(starts_with("TROO", "TROO"));
    assert!(starts_with("TROO", ""));
    assert!(!starts_with("TRO", "TROO"));
    assert!(!starts_with("TRoOA1", "TROO"));
    assert!(starts_with("éléphant", "élé"));
    assert!(!starts_with("elephant", "élé"));
}

#[test]
fn sprite_lumps_have_a_frame_letter_and_a_rotation_digit() {
    assert_eq!(SPRITE_PATTERN, "^....[A-Z][0-9](?:[A-Z][0-9])?$");
    assert!(holds_image_of("TROO", "TROOA1"));
    assert!(holds_image_of("TROO", "TROOA2A8"));
    assert!(holds_image_of("TROO", "TROOZ0"));
    assert!(holds_image_of("", "....A9"));
    assert!(holds_image_of("TR", "TR  B5"));
    // The wrong length.
    assert!(!holds_image_of("TROO", "TROOA"));
    assert!(!holds_image_of("TROO", "TROOA1B"));
    assert!(!holds_image_of("TROO", "TROOA1B2C"));
    assert!(!holds_image_of("TROO", "TROA1"));
    // The wrong kind of character in a place.
    assert!(!holds_image_of("TROO", "TROOa1"));
    assert!(!holds_image_of("TROO", "TROOAA"));
    assert!(!holds_image_of("TROO", "TROO11"));
    assert!(!holds_image_of("TROO", "TROOA1b2"));
    assert!(!holds_image_of("TROO", "TROOA1BB"));
    assert!(!holds_image_of("TROO", "TROO[1"));
    assert!(!holds_image_of("TROO", "TROO@1"));
    assert!(!holds_image_of("TROO", "TROOA/"));
    assert!(!holds_image_of("TROO", "TROOA:"));
    // Another sprite.
    assert!(!holds_image_of("TROO", "SARGA1"));
    assert!(!holds_image_of("TROO", "XTROOA1"));
    // A line feed is no character of a name; other odd characters are.
    assert!(!holds_image_of("", "AB\nDA1"));
    assert!(holds_image_of("", "AB\rDA1"));
    assert!(holds_image_of("", "ééééA1"));
    assert!(!holds_image_of("", "TROOA1\n"));
}

#[test]
fn a_lump_name_says_which_frame_and_rotation_its_image_is_for() {
    assert_eq!(read_lump_name("TROOA1", 4), Some(vec![entry(0, 0, plain(4))]));
    assert_eq!(read_lump_name("TROOZ0", 0), Some(vec![entry(25, -1, plain(0))]));
    assert_eq!(read_lump_name("TROOC8", 1), Some(vec![entry(2, 7, plain(1))]));
    assert_eq!(
        read_lump_name("TROOB2D8", 3),
        Some(vec![entry(1, 1, plain(3)), entry(3, 7, mirrored(3))])
    );
    assert_eq!(read_lump_name("TROOA9", 0), None);
    assert_eq!(read_lump_name("TROOA1B9", 0), None);
    // Eight bytes but six characters: there is no second frame to read.
    assert_eq!(read_lump_name("ééTRA1", 0), None);
    // Eight characters in more than eight bytes: the second pair is not looked at.
    assert_eq!(read_lump_name("éROOA1B9", 2), Some(vec![entry(0, 0, plain(2))]));
}

#[test]
fn lumps_are_scanned_in_order_and_others_passed_over() {
    let lumps = names(&["PLAYA1", "TROOA1", "TROOB2B8", "TROO", "troob3", "TROOC0", "TROOD1X"]);
    let (entries, images) = scan_lumps("TROO", &lumps).unwrap();
    assert_eq!(
        entries,
        vec![
            entry(0, 0, plain(0)),
            entry(1, 1, plain(1)),
            entry(1, 7, mirrored(1)),
            entry(2, -1, plain(2)),
        ]
    );
    assert_eq!(images, names(&["TROOA1", "TROOB2B8", "TROOC0"]));
    assert_eq!(scan_lumps("POSS", &lumps), Ok((Vec::new(), Vec::new())));
    assert_eq!(scan_lumps("TROO", &Vec::new()), Ok((Vec::new(), Vec::new())));
}

#[test]
fn a_lump_with_rotation_nine_is_an_error() {
    let lumps = names(&["TROOA0", "PLAYA9", "TROOB9", "TROOC9"]);
    assert_eq!(scan_lumps("TROO", &lumps), Err(SpriteError::BadLumpName(2)));
    assert_eq!(scan_lumps("PLAY", &lumps), Err(SpriteError::BadLumpName(1)));
    assert!(Sprite::import("TROO", &lumps).is_err());
}

#[test]
fn a_frame_has_one_image_or_eight() {
    let entries = vec![
        entry(0, -1, plain(0)),
        entry(2, 3, plain(1)),
        entry(2, 0, plain(2)),
        entry(2, 7, mirrored(3)),
        entry(2, 1, plain(4)),
        entry(2, 2, plain(5)),
        entry(2, 6, mirrored(5)),
        entry(2, 5, mirrored(6)),
        entry(2, 4, plain(7)),
        entry(3, 0, plain(8)),
        entry(4, -1, plain(9)),
        entry(4, -1, plain(10)),
    ];
    assert_eq!(greatest_frame(&entries), 4);
    assert_eq!(greatest_frame(&Vec::new()), 0);
    assert_eq!(arrange_frame(&entries, 0), Some(vec![plain(0)]));
    assert_eq!(arrange_frame(&entries, 1), Some(Vec::new()));
    assert_eq!(
        arrange_frame(&entries, 2),
        Some(vec![
            plain(2),
            plain(4),
            plain(5),
            plain(1),
            plain(7),
            mirrored(6),
            mirrored(5),
            mirrored(3),
        ])
    );
    // One image, but for a single rotation.
    assert_eq!(arrange_frame(&entries, 3), None);
    // Two images.
    assert_eq!(arrange_frame(&entries, 4), None);
    assert_eq!(arrange_frame(&entries, 99), Some(Vec::new()));
    assert_eq!(arrange_frames(&entries), Err(SpriteError::BadRotations(3)));
}

#[test]
fn eight_images_must_be_for_the_eight_rotations() {
    let mut entries: Vec<FrameEntry> = (0..8).map(|r| entry(0, r, plain(r as usize))).collect();
    assert_eq!(arrange_frame(&entries, 0).map(|f| f.len()), Some(8));
    entries[3].rotation = 4;
    assert_eq!(arrange_frame(&entries, 0), None);
    entries[3].rotation = -1;
    assert_eq!(arrange_frame(&entries, 0), None);
    entries[3].rotation = 8;
    assert_eq!(arrange_frame(&entries, 0), None);
    entries[3].rotation = 3;
    entries.push(entry(0, 3, plain(9)));
    assert_eq!(arrange_frame(&entries, 0), None);
}

#[test]
fn without_entries_there_is_one_empty_frame() {
    assert_eq!(arrange_frames(&Vec::new()), Ok(vec![Vec::new()]));
}

#[test]
fn a_sprite_is_put_together_from_its_lumps() {
    let lumps = names(&[
        "TROOA1", "TROOA2A8", "TROOA3A7", "TROOA4A6", "TROOA5", "TROOC0", "SARGA1", "TROOE0",
    ]);
    let builder = Sprite::import("TROO", &lumps).ok().unwrap();
    assert_eq!(
        builder.image_names,
        names(&["TROOA1", "TROOA2A8", "TROOA3A7", "TROOA4A6", "TROOA5", "TROOC0", "TROOE0"])
    );
    assert_eq!(
        builder.frames,
        vec![
            vec![
                plain(0),
                plain(1),
                plain(2),
                plain(3),
                plain(4),
                mirrored(3),
                mirrored(2),
                mirrored(1),
            ],
            Vec::new(),
            vec![plain(5)],
            Vec::new(),
            vec![plain(6)],
        ]
    );
    let handles: Vec<AssetHandle> = (10..17).map(AssetHandle::new).collect();
    let sprite = builder.build(&handles).ok().unwrap();
    assert_eq!(sprite.frames().len(), 5);
    assert_eq!(sprite.frames()[0].len(), 8);
    assert_eq!(sprite.frames()[0][0], SpriteImageInfo { flip: ONE, handle: AssetHandle::new(10) });
    assert_eq!(sprite.frames()[0][7], SpriteImageInfo { flip: -ONE, handle: AssetHandle::new(11) });
    assert_eq!(sprite.frames()[2], vec![SpriteImageInfo { flip: ONE, handle: AssetHandle::new(15) }]);
    assert!(sprite.frames()[3].is_empty());
}

#[test]
fn a_sprite_with_a_broken_frame_is_an_error() {
    let lumps = names(&["TROOA1", "TROOA2", "TROOB0"]);
    assert_eq!(Sprite::import("TROO", &lumps).err(), Some(SpriteError::BadRotations(0)));
    let lumps = names(&["TROOA0", "TROOB0", "TROOB1"]);
    assert_eq!(Sprite::import("TROO", &lumps).err(), Some(SpriteError::BadRotations(1)));
    let lumps = names(&["TROOA0", "TROOA0"]);
    assert_eq!(Sprite::import("TROO", &lumps).err(), Some(SpriteError::BadRotations(0)));
}

#[test]
fn a_builder_takes_frames_and_names() {
    let b = SpriteBuilder::new();
    assert!(b.frames.is_empty() && b.image_names.is_empty());
    let b = b.with_image_names(names(&["A", "B"])).with_frames(vec![vec![plain(1), mirrored(0)]]);
    assert_eq!(b.image_names, names(&["A", "B"]));
    let sprite = b.build(&vec![AssetHandle::new(5), AssetHandle::new(6)]).ok().unwrap();
    assert_eq!(
        sprite.frames,
        vec![vec![
            SpriteImageInfo { flip: ONE, handle: AssetHandle::new(6) },
            SpriteImageInfo { flip: -ONE, handle: AssetHandle::new(5) },
        ]]
    );
}

#[test]
fn a_frame_that_names_a_missing_image_is_an_error() {
    let b = SpriteBuilder::new().with_frames(vec![vec![plain(0)], vec![plain(2)]]);
    assert_eq!(
        b.build(&vec![AssetHandle::new(5), AssetHandle::new(6)]).err(),
        Some(SpriteError::BadImageIndex)
    );
    let b = SpriteBuilder::new().with_frames(vec![vec![plain(0)]]);
    assert_eq!(b.build(&Vec::new()).err(), Some(SpriteError::BadImageIndex));
    assert!(SpriteBuilder::new().build(&Vec::new()).is_ok());
}

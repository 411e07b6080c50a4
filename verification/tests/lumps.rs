use doom_core::fixed::ONE;
use doom_core::geometry::{Interval, Vec2, AABB2};
use doom_core::lumps::{
    find_texture, name_bytes, read_name, read_optional_name, read_records, read_texture,
    to_ascii_upper, to_bsp_child, to_gl_vertex, to_optional_index, to_units, BSPChildNode,
    DoomFlatFormat, DoomMapFormat, DoomMapGLNodesFormat, DoomMapGLSSect, DoomMapGLSSectFormat,
    DoomMapGLSegsFormat, DoomMapGLVertFormat, DoomMapLinedefsFormat, DoomMapLumps,
    DoomMapSectorsFormat, DoomMapSidedefsFormat, DoomMapThing, DoomMapThingsFormat,
    DoomMapVertexesFormat, DoomPNamesFormat, DoomPatchInfo, DoomTextureFormat, DoomTextureInfo,
    DoomTexturesFormat, LumpError, Offset, RGBAColor, Size, FLAT_PIXELS,
};

fn le16(v: i32) -> [u8; 2] {
    [(v & 0xff) as u8, ((v >> 8) & 0xff) as u8]
}

fn le32(v: i64) -> [u8; 4] {
    [(v & 0xff) as u8, ((v >> 8) & 0xff) as u8, ((v >> 16) & 0xff) as u8, ((v >> 24) & 0xff) as u8]
}

fn words(values: &[i32]) -> Vec<u8> {
    values.iter().flat_map(|v| le16(*v)).collect()
}

fn name8(name: &str) -> Vec<u8> {
    let mut bytes = name.as_bytes().to_vec();
    bytes.resize(8, 0);
    bytes
}

#[test]
fn whole_units_become_fixed_point() {
    assert_eq!(to_units(3), 3 * ONE);
    assert_eq!(to_units(-32768), -32768 * ONE);
    assert_eq!(to_units(0), 0);
}

#[test]
fn all_ones_stands_for_no_index() {
    assert_eq!(to_optional_index(0xffff), None);
    assert_eq!(to_optional_index(0), Some(0));
    assert_eq!(to_optional_index(0xfffe), Some(0xfffe));
}

#[test]
fn the_top_bit_marks_gl_vertices_and_leaves() {
    assert_eq!(to_gl_vertex(5), (5, false));
    assert_eq!(to_gl_vertex(0x8005), (5, true));
    assert_eq!(to_gl_vertex(0x8000), (0, true));
    assert_eq!(to_gl_vertex(0x7fff), (0x7fff, false));
    assert_eq!(to_bsp_child(0x8003), BSPChildNode::Leaf(3));
    assert_eq!(to_bsp_child(3), BSPChildNode::Branch(3));
    assert_eq!(to_bsp_child(0xffff), BSPChildNode::Leaf(0x7fff));
}

#[test]
fn things_are_ten_bytes_each() {
    let mut data = words(&[100, -200, 90, 3001, 7]);
    data.extend(words(&[-1, 0, 270, 1, 0xffff]));
    let things = DoomMapThingsFormat.import(&data).unwrap();
    assert_eq!(
        things,
        vec![
            DoomMapThing {
                position: Vec2::new(100 * ONE, -200 * ONE),
                angle: 90,
                doomednum: 3001,
                flags: 7
            },
            DoomMapThing { position: Vec2::new(-ONE, 0), angle: 270, doomednum: 1, flags: 0xffff },
        ]
    );
    assert_eq!(DoomMapThingsFormat.import(&[]), Ok(Vec::new()));
}

#[test]
fn a_stray_byte_after_the_last_record_is_passed_over() {
    let mut data = words(&[100, -200, 90, 3001, 7]);
    data.push(0xaa);
    assert_eq!(DoomMapThingsFormat.import(&data).map(|t| t.len()), Ok(1));
    assert_eq!(DoomMapThingsFormat.import(&[1]), Ok(Vec::new()));
}

#[test]
fn a_record_cut_short_is_an_error() {
    let data = words(&[100, -200, 90, 3001, 7, 5]);
    assert_eq!(DoomMapThingsFormat.import(&data), Err(LumpError::UnexpectedEof));
    assert_eq!(DoomMapThingsFormat.import(&data[..9]), Err(LumpError::UnexpectedEof));
    assert_eq!(DoomMapThingsFormat.import(&data[..2]), Err(LumpError::UnexpectedEof));
    assert_eq!(
        read_records::<DoomMapThingsFormat>(&data, 2).map(|t| t.len()),
        Ok(1)
    );
}

#[test]
fn linedefs_name_their_vertices_and_sides() {
    let data = words(&[1, 2, 0x11, 63, 5, 7, 0xffff, 3, 4, 0, 0, 0, 0xffff, 9]);
    let lines = DoomMapLinedefsFormat.import(&data).unwrap();
    assert_eq!(lines.len(), 2);
    assert_eq!(lines[0].start_vertex_index, 1);
    assert_eq!(lines[0].end_vertex_index, 2);
    assert_eq!(lines[0].flags, 0x11);
    assert_eq!(lines[0].special_type, 63);
    assert_eq!(lines[0].sector_tag, 5);
    assert_eq!(lines[0].sidedef_indices, [Some(7), None]);
    assert_eq!(lines[1].sidedef_indices, [None, Some(9)]);
    assert_eq!(DoomMapLinedefsFormat.import(&data[..20]).err(), Some(LumpError::UnexpectedEof));
}

#[test]
fn vertexes_are_pairs_of_whole_units() {
    let data = words(&[1, -1, 32767, -32768]);
    assert_eq!(
        DoomMapVertexesFormat.import(&data),
        Ok(vec![Vec2::new(ONE, -ONE), Vec2::new(32767 * ONE, -32768 * ONE)])
    );
    assert_eq!(DoomMapVertexesFormat.import(&data[..6]), Err(LumpError::UnexpectedEof));
    assert_eq!(DoomMapVertexesFormat.import(&data[..5]).map(|v| v.len()), Ok(1));
}

#[test]
fn gl_vertices_follow_a_signature_and_are_already_fixed_point() {
    let mut data = b"gNd2".to_vec();
    data.extend(le32(0x0001_8000));
    data.extend(le32(-1));
    data.extend(le32(-0x8000_0000));
    data.extend(le32(0x7fff_ffff));
    assert_eq!(
        DoomMapGLVertFormat.import(&data),
        Ok(vec![Vec2::new(ONE + ONE / 2, -1), Vec2::new(-0x8000_0000, 0x7fff_ffff)])
    );
    assert_eq!(DoomMapGLVertFormat.import(b"gNd2"), Ok(Vec::new()));
    // Up to three stray bytes are passed over, four are a vertex cut short.
    assert_eq!(DoomMapGLVertFormat.import(b"gNd2abc"), Ok(Vec::new()));
    assert_eq!(DoomMapGLVertFormat.import(b"gNd2abcd"), Err(LumpError::UnexpectedEof));
}

#[test]
fn gl_vertices_without_the_signature_are_refused() {
    assert_eq!(DoomMapGLVertFormat.import(b"gNd"), Err(LumpError::UnexpectedEof));
    assert_eq!(DoomMapGLVertFormat.import(b""), Err(LumpError::UnexpectedEof));
    assert_eq!(DoomMapGLVertFormat.import(b"gNd3"), Err(LumpError::BadSignature));
    assert_eq!(DoomMapGLVertFormat.import(b"GNd2\0\0\0\0\0\0\0\0"), Err(LumpError::BadSignature));
}

#[test]
fn gl_segs_name_vertices_of_either_list() {
    let data = words(&[0x8002, 3, 17, 1, 0xffff, 4, 0x8000, 0xffff, 0, 12]);
    let segs = DoomMapGLSegsFormat.import(&data).unwrap();
    assert_eq!(segs.len(), 2);
    assert_eq!(segs[0].vertex_indices, [(2, true), (3, false)]);
    assert_eq!(segs[0].linedef_index, Some(17));
    assert!(segs[0].side);
    assert_eq!(segs[0].partner_seg_index, None);
    assert_eq!(segs[1].vertex_indices, [(4, false), (0, true)]);
    assert_eq!(segs[1].linedef_index, None);
    assert!(!segs[1].side);
    assert_eq!(segs[1].partner_seg_index, Some(12));
}

#[test]
fn gl_subsectors_are_runs_of_segs() {
    let data = words(&[4, 0, 3, 4]);
    assert_eq!(
        DoomMapGLSSectFormat.import(&data),
        Ok(vec![
            DoomMapGLSSect { seg_count: 4, first_seg_index: 0 },
            DoomMapGLSSect { seg_count: 3, first_seg_index: 4 },
        ])
    );
}

#[test]
fn gl_nodes_carry_a_line_two_boxes_and_two_children() {
    let data = words(&[
        10, 20, -3, 4, // partition
        100, 50, -7, 9, // right box: top, bottom, left, right
        40, 30, 1, 2, // left box
        0x8001, 5,
    ]);
    let nodes = DoomMapGLNodesFormat.import(&data).unwrap();
    assert_eq!(nodes.len(), 1);
    let n = nodes[0];
    assert_eq!(n.partition_point, Vec2::new(10 * ONE, 20 * ONE));
    assert_eq!(n.partition_dir, Vec2::new(-3 * ONE, 4 * ONE));
    assert_eq!(
        n.right_bbox,
        AABB2 { x: Interval::new(-7 * ONE, 9 * ONE), y: Interval::new(50 * ONE, 100 * ONE) }
    );
    assert_eq!(
        n.left_bbox,
        AABB2 { x: Interval::new(ONE, 2 * ONE), y: Interval::new(30 * ONE, 40 * ONE) }
    );
    assert_eq!(n.right_child_index, BSPChildNode::Leaf(1));
    assert_eq!(n.left_child_index, BSPChildNode::Branch(5));
    assert_eq!(DoomMapGLNodesFormat.import(&data[..27]), Err(LumpError::UnexpectedEof));
}

#[test]
fn names_lose_the_zero_bytes_at_their_end() {
    let data = [b'x', b'F', b'L', b'O', b'O', b'R', 0, 0, 0, b'y'];
    assert_eq!(name_bytes(&data, 1), b"FLOOR".to_vec());
    assert_eq!(read_name(&data, 1), Ok("FLOOR".to_string()));
    assert_eq!(read_name(b"ABCDEFGH", 0), Ok("ABCDEFGH".to_string()));
    assert_eq!(read_name(&[0; 8], 0), Ok(String::new()));
    // A zero byte in the middle stays.
    assert_eq!(read_name(b"A\0B\0\0\0\0\0", 0), Ok("A\0B".to_string()));
    assert_eq!(read_name(&[0xff, 0, 0, 0, 0, 0, 0, 0], 0), Err(LumpError::InvalidUtf8));
    assert_eq!(read_name(&[0xc3, 0xa9, 0, 0, 0, 0, 0, 0], 0), Ok("é".to_string()));
}

#[test]
fn a_dash_stands_for_no_texture() {
    assert_eq!(read_optional_name(&name8("-"), 0), Ok(None));
    assert_eq!(read_optional_name(&name8("--"), 0), Ok(Some("--".to_string())));
    assert_eq!(read_optional_name(&name8("STARTAN3"), 0), Ok(Some("STARTAN3".to_string())));
    assert_eq!(read_optional_name(&name8(""), 0), Ok(Some(String::new())));
    assert_eq!(read_optional_name(&[0x80; 8], 0), Err(LumpError::InvalidUtf8));
}

fn sidedef(x: i32, y: i32, top: &str, bottom: &str, middle: &str, sector: i32) -> Vec<u8> {
    let mut data = words(&[x, y]);
    data.extend(name8(top));
    data.extend(name8(bottom));
    data.extend(name8(middle));
    data.extend(le16(sector));
    data
}

#[test]
fn sidedefs_carry_three_texture_names() {
    let mut data = sidedef(8, -16, "-", "STEP1", "BRICK", 3);
    data.extend(sidedef(0, 0, "SKY1", "-", "-", 0));
    let sides = DoomMapSidedefsFormat.import(&data).unwrap();
    assert_eq!(sides.len(), 2);
    assert_eq!(sides[0].texture_offset, Vec2::new(8 * ONE, -16 * ONE));
    assert_eq!(sides[0].top_texture_name, None);
    assert_eq!(sides[0].bottom_texture_name, Some("STEP1".to_string()));
    assert_eq!(sides[0].middle_texture_name, Some("BRICK".to_string()));
    assert_eq!(sides[0].sector_index, 3);
    assert_eq!(sides[1].top_texture_name, Some("SKY1".to_string()));
    assert_eq!(sides[1].middle_texture_name, None);
    assert_eq!(DoomMapSidedefsFormat.import(&data[..31]).map(|s| s.len()), Ok(1));
    assert_eq!(DoomMapSidedefsFormat.import(&data[..32]).err(), Some(LumpError::UnexpectedEof));
    data[14] = 0xff;
    assert_eq!(DoomMapSidedefsFormat.import(&data).err(), Some(LumpError::InvalidUtf8));
}

#[test]
fn sectors_carry_heights_flats_and_types() {
    let mut data = words(&[-8, 120]);
    data.extend(name8("FLOOR4_8"));
    data.extend(name8("CEIL3_5"));
    data.extend(words(&[160, 9, 42]));
    let sectors = DoomMapSectorsFormat.import(&data).unwrap();
    assert_eq!(sectors.len(), 1);
    assert_eq!(sectors[0].floor_height, -8 * ONE);
    assert_eq!(sectors[0].ceiling_height, 120 * ONE);
    assert_eq!(sectors[0].floor_flat_name, "FLOOR4_8");
    assert_eq!(sectors[0].ceiling_flat_name, "CEIL3_5");
    assert_eq!(sectors[0].light_level, 160);
    assert_eq!(sectors[0].special_type, 9);
    assert_eq!(sectors[0].sector_tag, 42);
    data[12] = 0xc0;
    assert_eq!(DoomMapSectorsFormat.import(&data).err(), Some(LumpError::InvalidUtf8));
}

#[test]
fn a_level_is_read_lump_by_lump() {
    let linedefs = words(&[0, 1, 0, 0, 0, 0, 0xffff]);
    let sidedefs = sidedef(0, 0, "-", "-", "WALL", 0);
    let vertexes = words(&[0, 0, 64, 0]);
    let mut sectors = words(&[0, 128]);
    sectors.extend(name8("F"));
    sectors.extend(name8("C"));
    sectors.extend(words(&[255, 0, 0]));
    let mut gl_vert = b"gNd2".to_vec();
    gl_vert.extend(le32(65536));
    gl_vert.extend(le32(0));
    let gl_segs = words(&[0, 1, 0, 0, 0xffff]);
    let gl_ssect = words(&[1, 0]);
    let gl_nodes = words(&[0, 0, 1, 0, 0, 0, 0, 0, 0, 0, 0, 0, 0x8000, 0x8000]);
    let lumps = DoomMapLumps {
        linedefs: &linedefs,
        sidedefs: &sidedefs,
        vertexes: &vertexes,
        sectors: &sectors,
        gl_vert: &gl_vert,
        gl_segs: &gl_segs,
        gl_ssect: &gl_ssect,
        gl_nodes: &gl_nodes,
    };
    let map = DoomMapFormat.import(&lumps).unwrap();
    assert_eq!(map.linedefs.len(), 1);
    assert_eq!(map.sidedefs[0].middle_texture_name, Some("WALL".to_string()));
    assert_eq!(map.vertexes, vec![Vec2::new(0, 0), Vec2::new(64 * ONE, 0)]);
    assert_eq!(map.sectors[0].ceiling_height, 128 * ONE);
    assert_eq!(map.gl_vert, vec![Vec2::new(ONE, 0)]);
    assert_eq!(map.gl_segs.len(), 1);
    assert_eq!(map.gl_ssect, vec![DoomMapGLSSect { seg_count: 1, first_seg_index: 0 }]);
    assert_eq!(map.gl_nodes[0].left_child_index, BSPChildNode::Leaf(0));

    // The first lump that cannot be read decides the error.
    let bad = DoomMapLumps { gl_vert: b"nope", vertexes: &vertexes[..6], ..lumps };
    assert_eq!(DoomMapFormat.import(&bad).err(), Some(LumpError::UnexpectedEof));
    let bad = DoomMapLumps { gl_vert: b"nope", gl_nodes: &gl_nodes[..5], ..lumps };
    assert_eq!(DoomMapFormat.import(&bad).err(), Some(LumpError::BadSignature));
}

fn palette() -> Vec<RGBAColor> {
    (0..256u32)
        .map(|i| RGBAColor { r: i as u8, g: (255 - i) as u8, b: (i / 2) as u8, a: 255 })
        .collect()
}

#[test]
fn a_flat_is_painted_from_the_palette() {
    let mut data = vec![0u8; FLAT_PIXELS];
    data[0] = 3;
    data[1] = 255;
    data[4095] = 100;
    let pixels = DoomFlatFormat.import(&data, &palette()).unwrap();
    assert_eq!(pixels.len(), 4 * FLAT_PIXELS);
    assert_eq!(pixels[0..8], [3, 252, 1, 255, 255, 0, 127, 255]);
    assert_eq!(pixels[8..12], [0, 255, 0, 255]);
    assert_eq!(pixels[4 * 4095..], [100, 155, 50, 255]);
    // Bytes after the 4096th are not looked at.
    data.push(9);
    assert_eq!(DoomFlatFormat.import(&data, &palette()).map(|p| p.len()), Ok(4 * FLAT_PIXELS));
}

#[test]
fn a_short_flat_or_palette_is_an_error() {
    let data = vec![0u8; FLAT_PIXELS - 1];
    assert_eq!(DoomFlatFormat.import(&data, &palette()), Err(LumpError::UnexpectedEof));
    let mut short = palette();
    short.pop();
    assert_eq!(
        DoomFlatFormat.import(&vec![0u8; FLAT_PIXELS], &short),
        Err(LumpError::ShortPalette)
    );
    assert_eq!(DoomFlatFormat.import(&data, &short), Err(LumpError::ShortPalette));
}

#[test]
fn patch_names_follow_their_count() {
    let mut data = le32(2).to_vec();
    data.extend(name8("WALL00_1"));
    data.extend(name8("door2"));
    data.extend(name8("IGNORED"));
    assert_eq!(
        DoomPNamesFormat.import(&data),
        Ok(vec!["WALL00_1".to_string(), "door2".to_string()])
    );
    assert_eq!(DoomPNamesFormat.import(&le32(0)), Ok(Vec::new()));
    assert_eq!(DoomPNamesFormat.import(&data[..19]), Err(LumpError::UnexpectedEof));
    assert_eq!(DoomPNamesFormat.import(&data[..3]), Err(LumpError::UnexpectedEof));
    data[12] = 0xff;
    assert_eq!(DoomPNamesFormat.import(&data), Err(LumpError::InvalidUtf8));
}

#[test]
fn small_letters_become_capitals() {
    assert_eq!(to_ascii_upper(b"aZ09{`z-"), b"AZ09{`Z-".to_vec());
    assert_eq!(to_ascii_upper(&[0xc3, 0xa9, b'q']), vec![0xc3, 0xa9, b'Q']);
}

fn texture(name: &str, width: i32, height: i32, patches: &[(i32, i32, i32)]) -> Vec<u8> {
    let mut data = name8(name);
    data.extend([0xde, 0xad, 0xbe, 0xef]);
    data.extend(words(&[width, height]));
    data.extend([1, 2, 3, 4]);
    data.extend(le16(patches.len() as i32));
    for (x, y, index) in patches {
        data.extend(words(&[*x, *y, *index]));
        data.extend([9, 9, 9, 9]);
    }
    data
}

fn texture_lump(textures: &[Vec<u8>]) -> Vec<u8> {
    let mut data = le32(textures.len() as i64).to_vec();
    let mut at = 4 + 4 * textures.len();
    for t in textures {
        data.extend(le32(at as i64));
        at += t.len();
    }
    for t in textures {
        data.extend(t);
    }
    data
}

#[test]
fn a_texture_is_a_name_a_size_and_patches() {
    let data = texture("Brick1", 128, 64, &[(0, 0, 5), (-4, 60, 2)]);
    let (name, info) = read_texture(&data, 0).unwrap();
    assert_eq!(name, "BRICK1");
    assert_eq!(info.size, Size { width: 128, height: 64 });
    assert_eq!(
        info.patches,
        vec![
            DoomPatchInfo { offset: Offset { x: 0, y: 0 }, index: 5 },
            DoomPatchInfo { offset: Offset { x: -4, y: 60 }, index: 2 },
        ]
    );
    assert_eq!(read_texture(&data[..41], 0).err(), Some(LumpError::UnexpectedEof));
    assert_eq!(read_texture(&data[..21], 0).err(), Some(LumpError::UnexpectedEof));
    assert_eq!(read_texture(&data[..7], 0).err(), Some(LumpError::UnexpectedEof));
    assert_eq!(read_texture(&data, data.len() + 1).err(), Some(LumpError::UnexpectedEof));
    let mut bad = data.clone();
    bad[0] = 0xff;
    assert_eq!(read_texture(&bad, 0).err(), Some(LumpError::InvalidUtf8));
    // The name is looked at before the rest is missed.
    assert_eq!(read_texture(&bad[..10], 0).err(), Some(LumpError::InvalidUtf8));
}

#[test]
fn a_texture_lump_is_a_directory_of_textures() {
    let data = texture_lump(&[
        texture("A", 8, 8, &[(0, 0, 0)]),
        texture("b", 16, 32, &[]),
        texture("A", 64, 64, &[(1, 1, 1)]),
    ]);
    let list = DoomTexturesFormat.import(&data).unwrap();
    let names: Vec<&str> = list.iter().map(|t| t.0.as_str()).collect();
    assert_eq!(names, vec!["A", "B", "A"]);
    assert_eq!(list[1].1.size, Size { width: 16, height: 32 });
    assert!(list[1].1.patches.is_empty());
    // Of two textures of one name the later counts.
    assert_eq!(find_texture(&list, &"A".to_string()), Some(2));
    assert_eq!(find_texture(&list, &"B".to_string()), Some(1));
    assert_eq!(find_texture(&list, &"b".to_string()), None);
    assert_eq!(DoomTexturesFormat.import(&le32(0)).map(|l| l.len()), Ok(0));
}

#[test]
fn a_broken_texture_lump_is_an_error() {
    let data = texture_lump(&[texture("A", 8, 8, &[(0, 0, 0)]), texture("B", 16, 32, &[])]);
    assert_eq!(DoomTexturesFormat.import(&data[..3]).err(), Some(LumpError::UnexpectedEof));
    assert_eq!(DoomTexturesFormat.import(&data[..11]).err(), Some(LumpError::UnexpectedEof));
    assert_eq!(
        DoomTexturesFormat.import(&data[..data.len() - 1]).err(),
        Some(LumpError::UnexpectedEof)
    );
    let mut far = data.clone();
    far[8..12].copy_from_slice(&le32(100_000));
    assert_eq!(DoomTexturesFormat.import(&far).err(), Some(LumpError::UnexpectedEof));
    let mut bad = data.clone();
    bad[12] = 0x80;
    assert_eq!(DoomTexturesFormat.import(&bad).err(), Some(LumpError::InvalidUtf8));
}

fn info(width: u32, patches: &[(i32, i32, usize)]) -> DoomTextureInfo {
    DoomTextureInfo {
        size: Size { width, height: 128 },
        patches: patches
            .iter()
            .map(|(x, y, index)| DoomPatchInfo { offset: Offset { x: *x, y: *y }, index: *index })
            .collect(),
    }
}

#[test]
fn a_texture_is_laid_out_from_its_named_patches() {
    let pnames = vec!["PATCH_A".to_string(), "PATCH_B".to_string(), "PATCH_C".to_string()];
    let textures = vec![
        ("DOOR".to_string(), info(32, &[(0, 0, 1)])),
        ("WALL".to_string(), info(64, &[(0, 0, 2), (32, -8, 0)])),
        ("DOOR".to_string(), info(48, &[(5, 6, 0)])),
    ];
    let layout = DoomTextureFormat.import(&"wall".to_string(), &pnames, &textures).unwrap();
    assert_eq!(layout.size, Size { width: 64, height: 128 });
    let placed: Vec<(&str, Offset)> =
        layout.patches.iter().map(|p| (p.name.as_str(), p.offset)).collect();
    assert_eq!(placed, vec![("PATCH_C", Offset { x: 0, y: 0 }), ("PATCH_A", Offset { x: 32, y: -8 })]);
    let layout = DoomTextureFormat.import(&"Door".to_string(), &pnames, &textures).unwrap();
    assert_eq!(layout.size.width, 48);
    assert_eq!(layout.patches[0].name, "PATCH_A");
}

#[test]
fn a_missing_texture_or_patch_is_an_error() {
    let pnames = vec!["PATCH_A".to_string()];
    let textures = vec![
        ("DOOR".to_string(), info(32, &[(0, 0, 0), (0, 0, 1)])),
        ("lower".to_string(), info(32, &[])),
    ];
    assert_eq!(
        DoomTextureFormat.import(&"WALL".to_string(), &pnames, &textures).err(),
        Some(LumpError::TextureNotFound)
    );
    // Names in the list are expected in capitals.
    assert_eq!(
        DoomTextureFormat.import(&"lower".to_string(), &pnames, &textures).err(),
        Some(LumpError::TextureNotFound)
    );
    assert_eq!(
        DoomTextureFormat.import(&"door".to_string(), &pnames, &textures).err(),
        Some(LumpError::PatchNotFound)
    );
}

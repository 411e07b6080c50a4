use vstd::prelude::*;
use vstd::arithmetic::div_mod::lemma_fundamental_div_mod_converse;
use vstd::utf8::{decode_utf8, valid_utf8};
use crate::bytes::{
    copy_range, i16_le, i32_le, read_i16, read_i32, read_u16, read_u32, u16_le, u32_le,
    utf8_string,
};
use crate::fixed::ONE;
use crate::geometry::{Interval, Vec2, AABB2};

verus! {

/// Why the bytes of a lump could not be read.
#[derive(Clone, Copy, Debug, PartialEq, Eq, Structural)]
pub enum LumpError {
    /// The lump ends in the middle of a record, or before its header does.
    UnexpectedEof,
    /// A name is not valid UTF-8.
    InvalidUtf8,
    /// The lump does not begin with the signature of its format.
    BadSignature,
    /// The texture asked for is not in the texture lumps.
    TextureNotFound,
    /// A texture names a patch that the patch-name lump does not have.
    PatchNotFound,
    /// A palette has fewer than 256 colours.
    ShortPalette,
}

/// A lump format that is a run of records of one size.
pub trait RecordFormat {
    type Item;

    /// How many bytes one record takes.
    spec fn spec_size() -> int;

    /// How many bytes the first field of a record takes. Fewer bytes than
    /// that after the last whole record are passed over; more are a record
    /// cut short.
    spec fn spec_first() -> int;

    /// The record at `at` can be read.
    spec fn valid(data: Seq<u8>, at: int) -> bool;

    /// `item` is what the record at `at` says.
    spec fn decodes(data: Seq<u8>, at: int, item: Self::Item) -> bool;

    /// Why the record at `at` cannot be read.
    spec fn failure(data: Seq<u8>, at: int) -> LumpError;

    fn size() -> (n: usize)
        ensures
            n == Self::spec_size(),
            0 < Self::spec_first() <= n,
    ;

    fn first() -> (n: usize)
        ensures
            n == Self::spec_first(),
    ;

    /// Reads the record at `at`.
    fn read(data: &[u8], at: usize) -> (r: Result<Self::Item, LumpError>)
        requires
            at + Self::spec_size() <= data.len(),
        ensures
            r is Ok <==> Self::valid(data@, at as int),
            r matches Ok(item) ==> Self::decodes(data@, at as int, item),
            r matches Err(e) ==> e == Self::failure(data@, at as int),
    ;
}

/// How many whole records follow position `from`.
pub open spec fn whole_records<F: RecordFormat>(data: Seq<u8>, from: int) -> int {
    (data.len() - from) / F::spec_size()
}

/// The bytes after the last whole record are the beginning of another.
pub open spec fn cut_short<F: RecordFormat>(data: Seq<u8>, from: int) -> bool {
    (data.len() - from) % F::spec_size() >= F::spec_first()
}

/// Where record `i` begins.
pub open spec fn record_at<F: RecordFormat>(from: int, i: int) -> int {
    from + i * F::spec_size()
}

/// Each of the first `n` records can be read.
pub open spec fn all_valid<F: RecordFormat>(data: Seq<u8>, from: int, n: int) -> bool {
    forall|i: int| 0 <= i < n ==> F::valid(data, #[trigger] record_at::<F>(from, i))
}

/// What reading the records after `from` gives: `Ok` with every whole
/// record, in order, when each can be read and none is cut short; else the
/// failure of the first record that cannot be read, or, if all can,
/// `UnexpectedEof` for the record cut short.
pub open spec fn records_read<F: RecordFormat>(
    data: Seq<u8>,
    from: int,
    r: Result<Vec<F::Item>, LumpError>,
) -> bool {
    let n = whole_records::<F>(data, from);
    match r {
        Ok(items) => {
            &&& all_valid::<F>(data, from, n)
            &&& !cut_short::<F>(data, from)
            &&& items.len() == n
            &&& forall|i: int|
                0 <= i < n ==> F::decodes(data, #[trigger] record_at::<F>(from, i), items[i])
        },
        Err(e) => {
            ||| exists|k: int|
                0 <= k < n && all_valid::<F>(data, from, k) && !F::valid(
                    data,
                    #[trigger] record_at::<F>(from, k),
                ) && e == F::failure(data, record_at::<F>(from, k))
            ||| all_valid::<F>(data, from, n) && cut_short::<F>(data, from) && e
                == LumpError::UnexpectedEof
        },
    }
}

/// Reads the records that follow position `from`.
pub fn read_records<F: RecordFormat>(data: &[u8], from: usize) -> (r: Result<
    Vec<F::Item>,
    LumpError,
>)
    requires
        from <= data.len(),
    ensures
        records_read::<F>(data@, from as int, r),
{
    let size = F::size();
    let first = F::first();
    let mut items: Vec<F::Item> = Vec::new();
    let mut at: usize = from;
    let ghost total = data.len() - from;
    assert(0 * F::spec_size() == 0) by (nonlinear_arith);
    loop
        invariant
            size == F::spec_size(),
            first == F::spec_first(),
            0 < first <= size,
            from <= at <= data.len(),
            total == data.len() - from,
            at == record_at::<F>(from as int, items.len() as int),
            all_valid::<F>(data@, from as int, items.len() as int),
            forall|i: int|
                0 <= i < items.len() ==> F::decodes(
                    data@,
                    #[trigger] record_at::<F>(from as int, i),
                    items[i],
                ),
        decreases data.len() - at,
    {
        let left = data.len() - at;
        let ghost count = items.len() as int;
        if left < size {
            proof {
                assert(total == count * size + left) by (nonlinear_arith)
                    requires
                        at == from + count * size,
                        total == data.len() - from,
                        left == data.len() - at,
                ;
                lemma_fundamental_div_mod_converse(total, size as int, count, left as int);
            }
            if left < first {
                return Ok(items);
            } else {
                return Err(LumpError::UnexpectedEof);
            }
        }
        proof {
            let rest = left - size;
            assert(total == (count + 1) * size + rest) by (nonlinear_arith)
                requires
                    at == from + count * size,
                    total == data.len() - from,
                    rest == data.len() - at - size,
            ;
            assert(total / (size as int) >= count + 1) by {
                vstd::arithmetic::div_mod::lemma_fundamental_div_mod(total, size as int);
                vstd::arithmetic::div_mod::lemma_mod_bound(total, size as int);
                let q = total / (size as int);
                let m = total % (size as int);
                assert(q >= count + 1) by (nonlinear_arith)
                    requires
                        total == size * q + m,
                        0 <= m < size,
                        total == (count + 1) * size + rest,
                        rest >= 0,
                        size > 0,
                ;
            }
            assert(record_at::<F>(from as int, count + 1) == at + size) by (nonlinear_arith)
                requires
                    at == from + count * size,
                    record_at::<F>(from as int, count + 1) == from + (count + 1) * size,
            ;
        }
        match F::read(data, at) {
            Ok(item) => {
                items.push(item);
                at = at + size;
            },
            Err(e) => {
                return Err(e);
            },
        }
    }
}

/// One thing of the THINGS lump: where it stands, which way it faces, what
/// it is, and on which skill levels it appears.
#[derive(Clone, Copy, Debug, PartialEq, Eq, Structural)]
pub struct DoomMapThing {
    pub position: Vec2,
    /// Degrees, counter-clockwise from east.
    pub angle: i64,
    pub doomednum: u16,
    pub flags: u16,
}

/// A coordinate of whole map units, as level data stores it, in the
/// library's scale.
pub open spec fn units(v: int) -> int {
    v * ONE
}

pub fn to_units(v: i16) -> (r: i64)
    ensures
        r == units(v as int),
{
    (v as i64) * ONE
}

pub struct DoomMapThingsFormat;

impl RecordFormat for DoomMapThingsFormat {
    type Item = DoomMapThing;

    open spec fn spec_size() -> int {
        10
    }

    open spec fn spec_first() -> int {
        2
    }

    open spec fn valid(data: Seq<u8>, at: int) -> bool {
        true
    }

    open spec fn decodes(data: Seq<u8>, at: int, item: DoomMapThing) -> bool {
        &&& item.position.x == units(i16_le(data, at))
        &&& item.position.y == units(i16_le(data, at + 2))
        &&& item.angle == i16_le(data, at + 4)
        &&& item.doomednum == u16_le(data, at + 6)
        &&& item.flags == u16_le(data, at + 8)
    }

    open spec fn failure(data: Seq<u8>, at: int) -> LumpError {
        LumpError::UnexpectedEof
    }

    fn size() -> (n: usize) {
        10
    }

    fn first() -> (n: usize) {
        2
    }

    fn read(data: &[u8], at: usize) -> (r: Result<DoomMapThing, LumpError>) {
        Ok(
            DoomMapThing {
                position: Vec2 {
                    x: to_units(read_i16(data, at)),
                    y: to_units(read_i16(data, at + 2)),
                },
                angle: read_i16(data, at + 4) as i64,
                doomednum: read_u16(data, at + 6),
                flags: read_u16(data, at + 8),
            },
        )
    }
}

impl DoomMapThingsFormat {
    /// Reads a THINGS lump.
    pub fn import(&self, data: &[u8]) -> (r: Result<Vec<DoomMapThing>, LumpError>)
        ensures
            records_read::<DoomMapThingsFormat>(data@, 0, r),
    {
        read_records::<DoomMapThingsFormat>(data, 0)
    }
}

/// An index that level data may leave out: 65535 stands for none.
pub open spec fn optional_index(v: int) -> Option<usize> {
    if v == 0xffff {
        None
    } else {
        Some(v as usize)
    }
}

pub fn to_optional_index(v: u16) -> (r: Option<usize>)
    ensures
        r == optional_index(v as int),
{
    if v == 0xffff {
        None
    } else {
        Some(v as usize)
    }
}

/// One line of the LINEDEFS lump.
#[derive(Clone, Copy, Debug)]
pub struct DoomMapLinedef {
    pub start_vertex_index: usize,
    pub end_vertex_index: usize,
    pub flags: u16,
    pub special_type: u16,
    pub sector_tag: u16,
    /// The right (front) sidedef, then the left.
    pub sidedef_indices: [Option<usize>; 2],
}

pub struct DoomMapLinedefsFormat;

impl RecordFormat for DoomMapLinedefsFormat {
    type Item = DoomMapLinedef;

    open spec fn spec_size() -> int {
        14
    }

    open spec fn spec_first() -> int {
        2
    }

    open spec fn valid(data: Seq<u8>, at: int) -> bool {
        true
    }

    open spec fn decodes(data: Seq<u8>, at: int, item: DoomMapLinedef) -> bool {
        &&& item.start_vertex_index == u16_le(data, at)
        &&& item.end_vertex_index == u16_le(data, at + 2)
        &&& item.flags == u16_le(data, at + 4)
        &&& item.special_type == u16_le(data, at + 6)
        &&& item.sector_tag == u16_le(data, at + 8)
        &&& item.sidedef_indices[0] == optional_index(u16_le(data, at + 10))
        &&& item.sidedef_indices[1] == optional_index(u16_le(data, at + 12))
    }

    open spec fn failure(data: Seq<u8>, at: int) -> LumpError {
        LumpError::UnexpectedEof
    }

    fn size() -> (n: usize) {
        14
    }

    fn first() -> (n: usize) {
        2
    }

    fn read(data: &[u8], at: usize) -> (r: Result<DoomMapLinedef, LumpError>) {
        Ok(
            DoomMapLinedef {
                start_vertex_index: read_u16(data, at) as usize,
                end_vertex_index: read_u16(data, at + 2) as usize,
                flags: read_u16(data, at + 4),
                special_type: read_u16(data, at + 6),
                sector_tag: read_u16(data, at + 8),
                sidedef_indices: [
                    to_optional_index(read_u16(data, at + 10)),
                    to_optional_index(read_u16(data, at + 12)),
                ],
            },
        )
    }
}

impl DoomMapLinedefsFormat {
    /// Reads a LINEDEFS lump.
    pub fn import(&self, data: &[u8]) -> (r: Result<Vec<DoomMapLinedef>, LumpError>)
        ensures
            records_read::<DoomMapLinedefsFormat>(data@, 0, r),
    {
        read_records::<DoomMapLinedefsFormat>(data, 0)
    }
}

pub struct DoomMapVertexesFormat;

impl RecordFormat for DoomMapVertexesFormat {
    type Item = Vec2;

    open spec fn spec_size() -> int {
        4
    }

    open spec fn spec_first() -> int {
        2
    }

    open spec fn valid(data: Seq<u8>, at: int) -> bool {
        true
    }

    open spec fn decodes(data: Seq<u8>, at: int, item: Vec2) -> bool {
        item.x == units(i16_le(data, at)) && item.y == units(i16_le(data, at + 2))
    }

    open spec fn failure(data: Seq<u8>, at: int) -> LumpError {
        LumpError::UnexpectedEof
    }

    fn size() -> (n: usize) {
        4
    }

    fn first() -> (n: usize) {
        2
    }

    fn read(data: &[u8], at: usize) -> (r: Result<Vec2, LumpError>) {
        Ok(Vec2 { x: to_units(read_i16(data, at)), y: to_units(read_i16(data, at + 2)) })
    }
}

impl DoomMapVertexesFormat {
    /// Reads a VERTEXES lump.
    pub fn import(&self, data: &[u8]) -> (r: Result<Vec<Vec2>, LumpError>)
        ensures
            records_read::<DoomMapVertexesFormat>(data@, 0, r),
    {
        read_records::<DoomMapVertexesFormat>(data, 0)
    }
}

/// The four bytes that a GL_VERT lump of version 2 begins with.
pub open spec fn gl_signature() -> Seq<u8> {
    seq![103u8, 78u8, 100u8, 50u8]
}

pub struct DoomMapGLVertFormat;

impl RecordFormat for DoomMapGLVertFormat {
    type Item = Vec2;

    open spec fn spec_size() -> int {
        8
    }

    open spec fn spec_first() -> int {
        4
    }

    open spec fn valid(data: Seq<u8>, at: int) -> bool {
        true
    }

    open spec fn decodes(data: Seq<u8>, at: int, item: Vec2) -> bool {
        item.x == i32_le(data, at) && item.y == i32_le(data, at + 4)
    }

    open spec fn failure(data: Seq<u8>, at: int) -> LumpError {
        LumpError::UnexpectedEof
    }

    fn size() -> (n: usize) {
        8
    }

    fn first() -> (n: usize) {
        4
    }

    fn read(data: &[u8], at: usize) -> (r: Result<Vec2, LumpError>) {
        Ok(Vec2 { x: read_i32(data, at) as i64, y: read_i32(data, at + 4) as i64 })
    }
}

impl DoomMapGLVertFormat {
    /// Reads a GL_VERT lump: the signature, then vertices whose
    /// coordinates are stored in 1/65536ths of a unit.
    pub fn import(&self, data: &[u8]) -> (r: Result<Vec<Vec2>, LumpError>)
        ensures
            data.len() < 4 ==> r == Err::<Vec<Vec2>, LumpError>(LumpError::UnexpectedEof),
            data.len() >= 4 && data@.subrange(0, 4) != gl_signature() ==> r == Err::<
                Vec<Vec2>,
                LumpError,
            >(LumpError::BadSignature),
            data.len() >= 4 && data@.subrange(0, 4) == gl_signature() ==> records_read::<
                DoomMapGLVertFormat,
            >(data@, 4, r),
    {
        if data.len() < 4 {
            return Err(LumpError::UnexpectedEof);
        }
        if data[0] != 103 || data[1] != 78 || data[2] != 100 || data[3] != 50 {
            assert(data@.subrange(0, 4) != gl_signature()) by {
                let head = data@.subrange(0, 4);
                assert(head[0] == data@[0] && head[1] == data@[1] && head[2] == data@[2] && head[3]
                    == data@[3]);
            }
            return Err(LumpError::BadSignature);
        }
        assert(data@.subrange(0, 4) =~= gl_signature());
        read_records::<DoomMapGLVertFormat>(data, 4)
    }
}

/// A vertex index of a GL seg: the position in a vertex list, and whether
/// that list is the one of GL vertices.
pub open spec fn gl_vertex(v: int) -> (usize, bool) {
    if v >= 0x8000 {
        ((v - 0x8000) as usize, true)
    } else {
        (v as usize, false)
    }
}

pub fn to_gl_vertex(v: u16) -> (r: (usize, bool))
    ensures
        r == gl_vertex(v as int),
{
    if v >= 0x8000 {
        ((v - 0x8000) as usize, true)
    } else {
        (v as usize, false)
    }
}

/// One segment of the GL_SEGS lump.
#[derive(Clone, Copy, Debug)]
pub struct DoomMapGLSeg {
    pub vertex_indices: [(usize, bool); 2],
    pub linedef_index: Option<usize>,
    pub side: bool,
    pub partner_seg_index: Option<usize>,
}

pub struct DoomMapGLSegsFormat;

impl RecordFormat for DoomMapGLSegsFormat {
    type Item = DoomMapGLSeg;

    open spec fn spec_size() -> int {
        10
    }

    open spec fn spec_first() -> int {
        2
    }

    open spec fn valid(data: Seq<u8>, at: int) -> bool {
        true
    }

    open spec fn decodes(data: Seq<u8>, at: int, item: DoomMapGLSeg) -> bool {
        &&& item.vertex_indices[0] == gl_vertex(u16_le(data, at))
        &&& item.vertex_indices[1] == gl_vertex(u16_le(data, at + 2))
        &&& item.linedef_index == optional_index(u16_le(data, at + 4))
        &&& item.side == (u16_le(data, at + 6) != 0)
        &&& item.partner_seg_index == optional_index(u16_le(data, at + 8))
    }

    open spec fn failure(data: Seq<u8>, at: int) -> LumpError {
        LumpError::UnexpectedEof
    }

    fn size() -> (n: usize) {
        10
    }

    fn first() -> (n: usize) {
        2
    }

    fn read(data: &[u8], at: usize) -> (r: Result<DoomMapGLSeg, LumpError>) {
        Ok(
            DoomMapGLSeg {
                vertex_indices: [
                    to_gl_vertex(read_u16(data, at)),
                    to_gl_vertex(read_u16(data, at + 2)),
                ],
                linedef_index: to_optional_index(read_u16(data, at + 4)),
                side: read_u16(data, at + 6) != 0,
                partner_seg_index: to_optional_index(read_u16(data, at + 8)),
            },
        )
    }
}

impl DoomMapGLSegsFormat {
    /// Reads a GL_SEGS lump.
    pub fn import(&self, data: &[u8]) -> (r: Result<Vec<DoomMapGLSeg>, LumpError>)
        ensures
            records_read::<DoomMapGLSegsFormat>(data@, 0, r),
    {
        read_records::<DoomMapGLSegsFormat>(data, 0)
    }
}

/// One subsector of the GL_SSECT lump: a run of segments.
#[derive(Clone, Copy, Debug, PartialEq, Eq, Structural)]
pub struct DoomMapGLSSect {
    pub seg_count: usize,
    pub first_seg_index: usize,
}

pub struct DoomMapGLSSectFormat;

impl RecordFormat for DoomMapGLSSectFormat {
    type Item = DoomMapGLSSect;

    open spec fn spec_size() -> int {
        4
    }

    open spec fn spec_first() -> int {
        2
    }

    open spec fn valid(data: Seq<u8>, at: int) -> bool {
        true
    }

    open spec fn decodes(data: Seq<u8>, at: int, item: DoomMapGLSSect) -> bool {
        item.seg_count == u16_le(data, at) && item.first_seg_index == u16_le(data, at + 2)
    }

    open spec fn failure(data: Seq<u8>, at: int) -> LumpError {
        LumpError::UnexpectedEof
    }

    fn size() -> (n: usize) {
        4
    }

    fn first() -> (n: usize) {
        2
    }

    fn read(data: &[u8], at: usize) -> (r: Result<DoomMapGLSSect, LumpError>) {
        Ok(
            DoomMapGLSSect {
                seg_count: read_u16(data, at) as usize,
                first_seg_index: read_u16(data, at + 2) as usize,
            },
        )
    }
}

impl DoomMapGLSSectFormat {
    /// Reads a GL_SSECT lump.
    pub fn import(&self, data: &[u8]) -> (r: Result<Vec<DoomMapGLSSect>, LumpError>)
        ensures
            records_read::<DoomMapGLSSectFormat>(data@, 0, r),
    {
        read_records::<DoomMapGLSSectFormat>(data, 0)
    }
}

/// A child of a node as level data stores it.
#[derive(Copy, Clone, Debug, PartialEq, Eq, Structural)]
pub enum BSPChildNode {
    Leaf(usize),
    Branch(usize),
}

/// The child that the number `v` stands for: a leaf when its top bit is
/// set, with the other bits as the leaf's index.
pub open spec fn bsp_child(v: int) -> BSPChildNode {
    if v >= 0x8000 {
        BSPChildNode::Leaf((v - 0x8000) as usize)
    } else {
        BSPChildNode::Branch(v as usize)
    }
}

pub fn to_bsp_child(v: u16) -> (r: BSPChildNode)
    ensures
        r == bsp_child(v as int),
{
    if v >= 0x8000 {
        BSPChildNode::Leaf((v - 0x8000) as usize)
    } else {
        BSPChildNode::Branch(v as usize)
    }
}

/// The rectangle whose four extents stand at `at` in the order top,
/// bottom, left, right.
pub open spec fn extents_at(data: Seq<u8>, at: int) -> AABB2 {
    AABB2 {
        x: Interval {
            min: units(i16_le(data, at + 4)) as i64,
            max: units(i16_le(data, at + 6)) as i64,
        },
        y: Interval {
            min: units(i16_le(data, at + 2)) as i64,
            max: units(i16_le(data, at)) as i64,
        },
    }
}

pub fn read_extents(data: &[u8], at: usize) -> (r: AABB2)
    requires
        at + 8 <= data.len(),
    ensures
        r == extents_at(data@, at as int),
{
    let top = to_units(read_i16(data, at));
    let bottom = to_units(read_i16(data, at + 2));
    let left = to_units(read_i16(data, at + 4));
    let right = to_units(read_i16(data, at + 6));
    AABB2 { x: Interval { min: left, max: right }, y: Interval { min: bottom, max: top } }
}

/// One node of the GL_NODES lump.
#[derive(Clone, Copy, Debug, PartialEq, Eq, Structural)]
pub struct DoomMapGLNode {
    pub partition_point: Vec2,
    pub partition_dir: Vec2,
    pub right_bbox: AABB2,
    pub left_bbox: AABB2,
    pub right_child_index: BSPChildNode,
    pub left_child_index: BSPChildNode,
}

pub struct DoomMapGLNodesFormat;

impl RecordFormat for DoomMapGLNodesFormat {
    type Item = DoomMapGLNode;

    open spec fn spec_size() -> int {
        28
    }

    open spec fn spec_first() -> int {
        2
    }

    open spec fn valid(data: Seq<u8>, at: int) -> bool {
        true
    }

    open spec fn decodes(data: Seq<u8>, at: int, item: DoomMapGLNode) -> bool {
        &&& item.partition_point.x == units(i16_le(data, at))
        &&& item.partition_point.y == units(i16_le(data, at + 2))
        &&& item.partition_dir.x == units(i16_le(data, at + 4))
        &&& item.partition_dir.y == units(i16_le(data, at + 6))
        &&& item.right_bbox == extents_at(data, at + 8)
        &&& item.left_bbox == extents_at(data, at + 16)
        &&& item.right_child_index == bsp_child(u16_le(data, at + 24))
        &&& item.left_child_index == bsp_child(u16_le(data, at + 26))
    }

    open spec fn failure(data: Seq<u8>, at: int) -> LumpError {
        LumpError::UnexpectedEof
    }

    fn size() -> (n: usize) {
        28
    }

    fn first() -> (n: usize) {
        2
    }

    fn read(data: &[u8], at: usize) -> (r: Result<DoomMapGLNode, LumpError>) {
        Ok(
            DoomMapGLNode {
                partition_point: Vec2 {
                    x: to_units(read_i16(data, at)),
                    y: to_units(read_i16(data, at + 2)),
                },
                partition_dir: Vec2 {
                    x: to_units(read_i16(data, at + 4)),
                    y: to_units(read_i16(data, at + 6)),
                },
                right_bbox: read_extents(data, at + 8),
                left_bbox: read_extents(data, at + 16),
                right_child_index: to_bsp_child(read_u16(data, at + 24)),
                left_child_index: to_bsp_child(read_u16(data, at + 26)),
            },
        )
    }
}

impl DoomMapGLNodesFormat {
    /// Reads a GL_NODES lump.
    pub fn import(&self, data: &[u8]) -> (r: Result<Vec<DoomMapGLNode>, LumpError>)
        ensures
            records_read::<DoomMapGLNodesFormat>(data@, 0, r),
    {
        read_records::<DoomMapGLNodesFormat>(data, 0)
    }
}

/// The bytes without the zero bytes at their end.
pub open spec fn trimmed(s: Seq<u8>) -> Seq<u8>
    decreases s.len(),
{
    if s.len() > 0 && s.last() == 0 {
        trimmed(s.drop_last())
    } else {
        s
    }
}

/// The bytes of the name that fills the eight bytes at `at`.
pub open spec fn name_at(data: Seq<u8>, at: int) -> Seq<u8> {
    trimmed(data.subrange(at, at + 8))
}

/// The bytes of the name at `at`.
pub fn name_bytes(data: &[u8], at: usize) -> (r: Vec<u8>)
    requires
        at + 8 <= data.len(),
    ensures
        r@ == name_at(data@, at as int),
{
    let mut end: usize = at + 8;
    while end > at && data[end - 1] == 0
        invariant
            at <= end <= at + 8,
            at + 8 <= data.len(),
            name_at(data@, at as int) == trimmed(data@.subrange(at as int, end as int)),
        decreases end - at,
    {
        proof {
            let s = data@.subrange(at as int, end as int);
            assert(s.last() == data@[end - 1]);
            assert(s.drop_last() =~= data@.subrange(at as int, end - 1));
        }
        end -= 1;
    }
    proof {
        let s = data@.subrange(at as int, end as int);
        if end > at {
            assert(s.last() == data@[end - 1]);
        }
    }
    copy_range(data, at, end)
}

/// Reads the name at `at`.
pub fn read_name(data: &[u8], at: usize) -> (r: Result<String, LumpError>)
    requires
        at + 8 <= data.len(),
    ensures
        r is Ok <==> valid_utf8(name_at(data@, at as int)),
        r matches Ok(name) ==> name@ == decode_utf8(name_at(data@, at as int)),
        r matches Err(e) ==> e == LumpError::InvalidUtf8,
{
    match utf8_string(name_bytes(data, at)) {
        Some(name) => Ok(name),
        None => Err(LumpError::InvalidUtf8),
    }
}

/// One entry of the directory of an archive of lumps: the lump's name and
/// where its bytes lie in the archive.
#[derive(Clone, Debug, PartialEq, Eq)]
pub struct DirectoryEntry {
    pub name: String,
    pub start: usize,
    pub size: usize,
}

/// The archive begins with one of the two signatures of its format.
pub open spec fn has_archive_signature(data: Seq<u8>) -> bool {
    data.len() >= 4 && (data[0] == 73 || data[0] == 80) && data[1] == 87 && data[2] == 65
        && data[3] == 68
}

/// Where entry `i` of the directory begins.
pub open spec fn entry_at(data: Seq<u8>, i: int) -> int {
    u32_le(data, 8) + 16 * i
}

/// What is wrong with entry `i` of the directory, if anything: it is cut
/// short, its name is not valid UTF-8, or its lump is not empty and does not
/// lie within the archive.
pub open spec fn entry_error(data: Seq<u8>, i: int) -> Option<LumpError> {
    let at = entry_at(data, i);
    if at + 16 > data.len() {
        Some(LumpError::UnexpectedEof)
    } else if !valid_utf8(name_at(data, at + 8)) {
        Some(LumpError::InvalidUtf8)
    } else if u32_le(data, at + 4) != 0 && u32_le(data, at) + u32_le(data, at + 4) > data.len() {
        Some(LumpError::UnexpectedEof)
    } else {
        None
    }
}

/// Entry `i` is the first of the directory with something wrong, and `e`
/// is what is wrong with it.
pub open spec fn first_error(data: Seq<u8>, i: int, e: LumpError) -> bool {
    entry_error(data, i) == Some(e) && forall|j: int|
        0 <= j < i ==> (#[trigger] entry_error(data, j)) is None
}

/// `entry` is what entry `i` of the directory says.
pub open spec fn is_entry(entry: DirectoryEntry, data: Seq<u8>, i: int) -> bool {
    let at = entry_at(data, i);
    &&& entry.start == u32_le(data, at)
    &&& entry.size == u32_le(data, at + 4)
    &&& entry.name@ == decode_utf8(name_at(data, at + 8))
}

/// The directory of an archive of lumps: after the signature come the
/// number of entries and the place of the directory, and each entry gives
/// the start and the size of its lump and its name. The first thing wrong, in
/// reading order, is the error.
pub fn read_directory(data: &[u8]) -> (r: Result<Vec<DirectoryEntry>, LumpError>)
    ensures
        match r {
            Ok(entries) => {
                &&& data@.len() >= 12
                &&& has_archive_signature(data@)
                &&& entries@.len() == u32_le(data@, 4)
                &&& forall|i: int|
                    0 <= i < entries@.len() ==> entry_error(data@, i) is None && is_entry(
                        #[trigger] entries@[i],
                        data@,
                        i,
                    )
            },
            Err(e) => if data@.len() < 12 {
                e == LumpError::UnexpectedEof
            } else if !has_archive_signature(data@) {
                e == LumpError::BadSignature
            } else {
                exists|i: int| 0 <= i < u32_le(data@, 4) && #[trigger] first_error(data@, i, e)
            },
        },
{
    if data.len() < 12 {
        return Err(LumpError::UnexpectedEof);
    }
    if !((data[0] == 73 || data[0] == 80) && data[1] == 87 && data[2] == 65 && data[3] == 68) {
        return Err(LumpError::BadSignature);
    }
    let count: u32 = read_u32(data, 4);
    let mut entries: Vec<DirectoryEntry> = Vec::new();
    let mut i: u32 = 0;
    while i < count
        invariant
            i <= count,
            count == u32_le(data@, 4),
            data@.len() >= 12,
            has_archive_signature(data@),
            entries@.len() == i,
            forall|k: int| 0 <= k < i ==> (#[trigger] entry_error(data@, k)) is None,
            forall|k: int| 0 <= k < i ==> is_entry(#[trigger] entries@[k], data@, k),
        decreases count - i,
    {
        match read_entry(data, i) {
            Ok(entry) => {
                entries.push(entry);
            },
            Err(e) => {
                assert(first_error(data@, i as int, e));
                return Err(e);
            },
        }
        i += 1;
    }
    Ok(entries)
}

/// Entry `i` of the directory of an archive, or what is wrong with it.
pub fn read_entry(data: &[u8], i: u32) -> (r: Result<DirectoryEntry, LumpError>)
    requires
        data@.len() >= 12,
    ensures
        match r {
            Ok(entry) => entry_error(data@, i as int) is None && is_entry(entry, data@, i as int),
            Err(e) => entry_error(data@, i as int) == Some(e),
        },
{
    let directory: u32 = read_u32(data, 8);
    let len: u64 = data.len() as u64;
    let place: u64 = directory as u64 + 16 * (i as u64);
    if place + 16 > len {
        return Err(LumpError::UnexpectedEof);
    }
    let at: usize = place as usize;
    let start: u32 = read_u32(data, at);
    let size: u32 = read_u32(data, at + 4);
    match read_name(data, at + 8) {
        Ok(name) => {
            if size != 0 && start as u64 + size as u64 > len {
                Err(LumpError::UnexpectedEof)
            } else {
                Ok(DirectoryEntry { name, start: start as usize, size: size as usize })
            }
        },
        Err(_) => Err(LumpError::InvalidUtf8),
    }
}

/// `name` is what the bytes spell, or nothing if they spell a single dash,
/// which stands for no texture.
pub open spec fn is_optional_name(name: Option<String>, bytes: Seq<u8>) -> bool {
    match name {
        Some(text) => bytes != seq![45u8] && text@ == decode_utf8(bytes),
        None => bytes == seq![45u8],
    }
}

/// Reads the name at `at`, taking a single dash for no name.
pub fn read_optional_name(data: &[u8], at: usize) -> (r: Result<Option<String>, LumpError>)
    requires
        at + 8 <= data.len(),
    ensures
        r is Ok <==> valid_utf8(name_at(data@, at as int)),
        r matches Ok(name) ==> is_optional_name(name, name_at(data@, at as int)),
        r matches Err(e) ==> e == LumpError::InvalidUtf8,
{
    let bytes = name_bytes(data, at);
    let dash = bytes.len() == 1 && bytes[0] == 45;
    proof {
        if dash {
            assert(bytes@ =~= seq![45u8]);
        }
    }
    match utf8_string(bytes) {
        Some(name) => if dash {
            Ok(None)
        } else {
            Ok(Some(name))
        },
        None => Err(LumpError::InvalidUtf8),
    }
}

/// One face of the SIDEDEFS lump.
#[derive(Clone, Debug)]
pub struct DoomMapSidedef {
    pub texture_offset: Vec2,
    pub top_texture_name: Option<String>,
    pub bottom_texture_name: Option<String>,
    pub middle_texture_name: Option<String>,
    pub sector_index: usize,
}

pub struct DoomMapSidedefsFormat;

impl RecordFormat for DoomMapSidedefsFormat {
    type Item = DoomMapSidedef;

    open spec fn spec_size() -> int {
        30
    }

    open spec fn spec_first() -> int {
        2
    }

    open spec fn valid(data: Seq<u8>, at: int) -> bool {
        &&& valid_utf8(name_at(data, at + 4))
        &&& valid_utf8(name_at(data, at + 12))
        &&& valid_utf8(name_at(data, at + 20))
    }

    open spec fn decodes(data: Seq<u8>, at: int, item: DoomMapSidedef) -> bool {
        &&& item.texture_offset.x == units(i16_le(data, at))
        &&& item.texture_offset.y == units(i16_le(data, at + 2))
        &&& is_optional_name(item.top_texture_name, name_at(data, at + 4))
        &&& is_optional_name(item.bottom_texture_name, name_at(data, at + 12))
        &&& is_optional_name(item.middle_texture_name, name_at(data, at + 20))
        &&& item.sector_index == u16_le(data, at + 28)
    }

    open spec fn failure(data: Seq<u8>, at: int) -> LumpError {
        LumpError::InvalidUtf8
    }

    fn size() -> (n: usize) {
        30
    }

    fn first() -> (n: usize) {
        2
    }

    fn read(data: &[u8], at: usize) -> (r: Result<DoomMapSidedef, LumpError>) {
        let x = to_units(read_i16(data, at));
        let y = to_units(read_i16(data, at + 2));
        let top = match read_optional_name(data, at + 4) {
            Ok(name) => name,
            Err(e) => {
                return Err(e);
            },
        };
        let bottom = match read_optional_name(data, at + 12) {
            Ok(name) => name,
            Err(e) => {
                return Err(e);
            },
        };
        let middle = match read_optional_name(data, at + 20) {
            Ok(name) => name,
            Err(e) => {
                return Err(e);
            },
        };
        Ok(
            DoomMapSidedef {
                texture_offset: Vec2 { x, y },
                top_texture_name: top,
                bottom_texture_name: bottom,
                middle_texture_name: middle,
                sector_index: read_u16(data, at + 28) as usize,
            },
        )
    }
}

impl DoomMapSidedefsFormat {
    /// Reads a SIDEDEFS lump.
    pub fn import(&self, data: &[u8]) -> (r: Result<Vec<DoomMapSidedef>, LumpError>)
        ensures
            records_read::<DoomMapSidedefsFormat>(data@, 0, r),
    {
        read_records::<DoomMapSidedefsFormat>(data, 0)
    }
}

/// One sector of the SECTORS lump.
#[derive(Clone, Debug)]
pub struct DoomMapSector {
    pub floor_height: i64,
    pub ceiling_height: i64,
    pub floor_flat_name: String,
    pub ceiling_flat_name: String,
    pub light_level: u16,
    pub special_type: u16,
    pub sector_tag: u16,
}

pub struct DoomMapSectorsFormat;

impl RecordFormat for DoomMapSectorsFormat {
    type Item = DoomMapSector;

    open spec fn spec_size() -> int {
        26
    }

    open spec fn spec_first() -> int {
        2
    }

    open spec fn valid(data: Seq<u8>, at: int) -> bool {
        valid_utf8(name_at(data, at + 4)) && valid_utf8(name_at(data, at + 12))
    }

    open spec fn decodes(data: Seq<u8>, at: int, item: DoomMapSector) -> bool {
        &&& item.floor_height == units(i16_le(data, at))
        &&& item.ceiling_height == units(i16_le(data, at + 2))
        &&& item.floor_flat_name@ == decode_utf8(name_at(data, at + 4))
        &&& item.ceiling_flat_name@ == decode_utf8(name_at(data, at + 12))
        &&& item.light_level == u16_le(data, at + 20)
        &&& item.special_type == u16_le(data, at + 22)
        &&& item.sector_tag == u16_le(data, at + 24)
    }

    open spec fn failure(data: Seq<u8>, at: int) -> LumpError {
        LumpError::InvalidUtf8
    }

    fn size() -> (n: usize) {
        26
    }

    fn first() -> (n: usize) {
        2
    }

    fn read(data: &[u8], at: usize) -> (r: Result<DoomMapSector, LumpError>) {
        let floor_height = to_units(read_i16(data, at));
        let ceiling_height = to_units(read_i16(data, at + 2));
        let floor_flat_name = match read_name(data, at + 4) {
            Ok(name) => name,
            Err(e) => {
                return Err(e);
            },
        };
        let ceiling_flat_name = match read_name(data, at + 12) {
            Ok(name) => name,
            Err(e) => {
                return Err(e);
            },
        };
        Ok(
            DoomMapSector {
                floor_height,
                ceiling_height,
                floor_flat_name,
                ceiling_flat_name,
                light_level: read_u16(data, at + 20),
                special_type: read_u16(data, at + 22),
                sector_tag: read_u16(data, at + 24),
            },
        )
    }
}

impl DoomMapSectorsFormat {
    /// Reads a SECTORS lump.
    pub fn import(&self, data: &[u8]) -> (r: Result<Vec<DoomMapSector>, LumpError>)
        ensures
            records_read::<DoomMapSectorsFormat>(data@, 0, r),
    {
        read_records::<DoomMapSectorsFormat>(data, 0)
    }
}

/// The records after `from` can all be read and none is cut short.
pub open spec fn lump_ok<F: RecordFormat>(data: Seq<u8>, from: int) -> bool {
    all_valid::<F>(data, from, whole_records::<F>(data, from)) && !cut_short::<F>(data, from)
}

/// A GL_VERT lump is whole: it has the signature and its vertices can be
/// read.
pub open spec fn gl_vert_ok(data: Seq<u8>) -> bool {
    data.len() >= 4 && data.subrange(0, 4) == gl_signature() && lump_ok::<DoomMapGLVertFormat>(
        data,
        4,
    )
}

/// What was read of a GL_VERT lump.
pub open spec fn gl_vert_read(data: Seq<u8>, r: Result<Vec<Vec2>, LumpError>) -> bool {
    if data.len() < 4 {
        r == Err::<Vec<Vec2>, LumpError>(LumpError::UnexpectedEof)
    } else if data.subrange(0, 4) != gl_signature() {
        r == Err::<Vec<Vec2>, LumpError>(LumpError::BadSignature)
    } else {
        records_read::<DoomMapGLVertFormat>(data, 4, r)
    }
}

/// A level as its lumps say it, before anything is made of it.
#[derive(Clone, Debug)]
pub struct DoomMap {
    pub linedefs: Vec<DoomMapLinedef>,
    pub sidedefs: Vec<DoomMapSidedef>,
    pub vertexes: Vec<Vec2>,
    pub sectors: Vec<DoomMapSector>,
    pub gl_vert: Vec<Vec2>,
    pub gl_segs: Vec<DoomMapGLSeg>,
    pub gl_ssect: Vec<DoomMapGLSSect>,
    pub gl_nodes: Vec<DoomMapGLNode>,
}

/// The lumps of one level.
pub struct DoomMapLumps<'a> {
    pub linedefs: &'a [u8],
    pub sidedefs: &'a [u8],
    pub vertexes: &'a [u8],
    pub sectors: &'a [u8],
    pub gl_vert: &'a [u8],
    pub gl_segs: &'a [u8],
    pub gl_ssect: &'a [u8],
    pub gl_nodes: &'a [u8],
}

pub struct DoomMapFormat;

impl DoomMapFormat {
    /// Reads the lumps of a level, in the order linedefs, sidedefs,
    /// vertexes, sectors, GL vertices, GL segments, GL subsectors, GL nodes,
    /// and stops at the first that cannot be read.
    pub fn import(&self, lumps: &DoomMapLumps) -> (r: Result<DoomMap, LumpError>)
        ensures
            match r {
                Ok(map) => {
                    &&& records_read::<DoomMapLinedefsFormat>(lumps.linedefs@, 0, Ok(map.linedefs))
                    &&& records_read::<DoomMapSidedefsFormat>(lumps.sidedefs@, 0, Ok(map.sidedefs))
                    &&& records_read::<DoomMapVertexesFormat>(lumps.vertexes@, 0, Ok(map.vertexes))
                    &&& records_read::<DoomMapSectorsFormat>(lumps.sectors@, 0, Ok(map.sectors))
                    &&& gl_vert_read(lumps.gl_vert@, Ok(map.gl_vert))
                    &&& records_read::<DoomMapGLSegsFormat>(lumps.gl_segs@, 0, Ok(map.gl_segs))
                    &&& records_read::<DoomMapGLSSectFormat>(lumps.gl_ssect@, 0, Ok(map.gl_ssect))
                    &&& records_read::<DoomMapGLNodesFormat>(lumps.gl_nodes@, 0, Ok(map.gl_nodes))
                },
                Err(e) => {
                    ||| records_read::<DoomMapLinedefsFormat>(lumps.linedefs@, 0, Err(e))
                    ||| {
                        &&& lump_ok::<DoomMapLinedefsFormat>(lumps.linedefs@, 0)
                        &&& records_read::<DoomMapSidedefsFormat>(lumps.sidedefs@, 0, Err(e))
                    }
                    ||| {
                        &&& lump_ok::<DoomMapLinedefsFormat>(lumps.linedefs@, 0)
                        &&& lump_ok::<DoomMapSidedefsFormat>(lumps.sidedefs@, 0)
                        &&& records_read::<DoomMapVertexesFormat>(lumps.vertexes@, 0, Err(e))
                    }
                    ||| {
                        &&& lump_ok::<DoomMapLinedefsFormat>(lumps.linedefs@, 0)
                        &&& lump_ok::<DoomMapSidedefsFormat>(lumps.sidedefs@, 0)
                        &&& lump_ok::<DoomMapVertexesFormat>(lumps.vertexes@, 0)
                        &&& records_read::<DoomMapSectorsFormat>(lumps.sectors@, 0, Err(e))
                    }
                    ||| {
                        &&& lump_ok::<DoomMapLinedefsFormat>(lumps.linedefs@, 0)
                        &&& lump_ok::<DoomMapSidedefsFormat>(lumps.sidedefs@, 0)
                        &&& lump_ok::<DoomMapVertexesFormat>(lumps.vertexes@, 0)
                        &&& lump_ok::<DoomMapSectorsFormat>(lumps.sectors@, 0)
                        &&& gl_vert_read(lumps.gl_vert@, Err(e))
                    }
                    ||| {
                        &&& lump_ok::<DoomMapLinedefsFormat>(lumps.linedefs@, 0)
                        &&& lump_ok::<DoomMapSidedefsFormat>(lumps.sidedefs@, 0)
                        &&& lump_ok::<DoomMapVertexesFormat>(lumps.vertexes@, 0)
                        &&& lump_ok::<DoomMapSectorsFormat>(lumps.sectors@, 0)
                        &&& gl_vert_ok(lumps.gl_vert@)
                        &&& records_read::<DoomMapGLSegsFormat>(lumps.gl_segs@, 0, Err(e))
                    }
                    ||| {
                        &&& lump_ok::<DoomMapLinedefsFormat>(lumps.linedefs@, 0)
                        &&& lump_ok::<DoomMapSidedefsFormat>(lumps.sidedefs@, 0)
                        &&& lump_ok::<DoomMapVertexesFormat>(lumps.vertexes@, 0)
                        &&& lump_ok::<DoomMapSectorsFormat>(lumps.sectors@, 0)
                        &&& gl_vert_ok(lumps.gl_vert@)
                        &&& lump_ok::<DoomMapGLSegsFormat>(lumps.gl_segs@, 0)
                        &&& records_read::<DoomMapGLSSectFormat>(lumps.gl_ssect@, 0, Err(e))
                    }
                    ||| {
                        &&& lump_ok::<DoomMapLinedefsFormat>(lumps.linedefs@, 0)
                        &&& lump_ok::<DoomMapSidedefsFormat>(lumps.sidedefs@, 0)
                        &&& lump_ok::<DoomMapVertexesFormat>(lumps.vertexes@, 0)
                        &&& lump_ok::<DoomMapSectorsFormat>(lumps.sectors@, 0)
                        &&& gl_vert_ok(lumps.gl_vert@)
                        &&& lump_ok::<DoomMapGLSegsFormat>(lumps.gl_segs@, 0)
                        &&& lump_ok::<DoomMapGLSSectFormat>(lumps.gl_ssect@, 0)
                        &&& records_read::<DoomMapGLNodesFormat>(lumps.gl_nodes@, 0, Err(e))
                    }
                },
            },
            r is Ok <==> {
                &&& lump_ok::<DoomMapLinedefsFormat>(lumps.linedefs@, 0)
                &&& lump_ok::<DoomMapSidedefsFormat>(lumps.sidedefs@, 0)
                &&& lump_ok::<DoomMapVertexesFormat>(lumps.vertexes@, 0)
                &&& lump_ok::<DoomMapSectorsFormat>(lumps.sectors@, 0)
                &&& gl_vert_ok(lumps.gl_vert@)
                &&& lump_ok::<DoomMapGLSegsFormat>(lumps.gl_segs@, 0)
                &&& lump_ok::<DoomMapGLSSectFormat>(lumps.gl_ssect@, 0)
                &&& lump_ok::<DoomMapGLNodesFormat>(lumps.gl_nodes@, 0)
            },
    {
        let linedefs = match DoomMapLinedefsFormat.import(lumps.linedefs) {
            Ok(v) => v,
            Err(e) => {
                proof {
                    lemma_failed_lump::<DoomMapLinedefsFormat>(lumps.linedefs@, 0, e);
                }
                return Err(e);
            },
        };
        let sidedefs = match DoomMapSidedefsFormat.import(lumps.sidedefs) {
            Ok(v) => v,
            Err(e) => {
                proof {
                    lemma_failed_lump::<DoomMapSidedefsFormat>(lumps.sidedefs@, 0, e);
                }
                return Err(e);
            },
        };
        let vertexes = match DoomMapVertexesFormat.import(lumps.vertexes) {
            Ok(v) => v,
            Err(e) => {
                proof {
                    lemma_failed_lump::<DoomMapVertexesFormat>(lumps.vertexes@, 0, e);
                }
                return Err(e);
            },
        };
        let sectors = match DoomMapSectorsFormat.import(lumps.sectors) {
            Ok(v) => v,
            Err(e) => {
                proof {
                    lemma_failed_lump::<DoomMapSectorsFormat>(lumps.sectors@, 0, e);
                }
                return Err(e);
            },
        };
        let gl_vert = match DoomMapGLVertFormat.import(lumps.gl_vert) {
            Ok(v) => v,
            Err(e) => {
                proof {
                    if lumps.gl_vert.len() >= 4 && lumps.gl_vert@.subrange(0, 4) == gl_signature() {
                        lemma_failed_lump::<DoomMapGLVertFormat>(lumps.gl_vert@, 4, e);
                    }
                }
                return Err(e);
            },
        };
        let gl_segs = match DoomMapGLSegsFormat.import(lumps.gl_segs) {
            Ok(v) => v,
            Err(e) => {
                proof {
                    lemma_failed_lump::<DoomMapGLSegsFormat>(lumps.gl_segs@, 0, e);
                }
                return Err(e);
            },
        };
        let gl_ssect = match DoomMapGLSSectFormat.import(lumps.gl_ssect) {
            Ok(v) => v,
            Err(e) => {
                proof {
                    lemma_failed_lump::<DoomMapGLSSectFormat>(lumps.gl_ssect@, 0, e);
                }
                return Err(e);
            },
        };
        let gl_nodes = match DoomMapGLNodesFormat.import(lumps.gl_nodes) {
            Ok(v) => v,
            Err(e) => {
                proof {
                    lemma_failed_lump::<DoomMapGLNodesFormat>(lumps.gl_nodes@, 0, e);
                }
                return Err(e);
            },
        };
        Ok(DoomMap { linedefs, sidedefs, vertexes, sectors, gl_vert, gl_segs, gl_ssect, gl_nodes })
    }
}

/// A lump that was read with an error is not whole.
pub proof fn lemma_failed_lump<F: RecordFormat>(data: Seq<u8>, from: int, e: LumpError)
    requires
        records_read::<F>(data, from, Err(e)),
    ensures
        !lump_ok::<F>(data, from),
{
}

/// One colour of a palette.
#[derive(Clone, Copy, Debug, PartialEq, Eq, Structural)]
pub struct RGBAColor {
    pub r: u8,
    pub g: u8,
    pub b: u8,
    pub a: u8,
}

/// How many pixels a flat has: 64 by 64.
pub const FLAT_PIXELS: usize = 4096;

pub struct DoomFlatFormat;

impl DoomFlatFormat {
    /// Turns the pixels of a flat, each the number of a colour of the
    /// palette, into four bytes each: red, green, blue, alpha.
    pub fn import(&self, data: &[u8], palette: &Vec<RGBAColor>) -> (r: Result<Vec<u8>, LumpError>)
        ensures
            match r {
                Ok(pixels) => {
                    &&& palette.len() >= 256
                    &&& data.len() >= FLAT_PIXELS
                    &&& pixels.len() == 4 * FLAT_PIXELS
                    &&& forall|i: int|
                        0 <= i < FLAT_PIXELS ==> {
                            let c = palette[(#[trigger] data[i]) as int];
                            &&& pixels[4 * i] == c.r
                            &&& pixels[4 * i + 1] == c.g
                            &&& pixels[4 * i + 2] == c.b
                            &&& pixels[4 * i + 3] == c.a
                        }
                },
                Err(e) => if palette.len() < 256 {
                    e == LumpError::ShortPalette
                } else {
                    data.len() < FLAT_PIXELS && e == LumpError::UnexpectedEof
                },
            },
    {
        if palette.len() < 256 {
            return Err(LumpError::ShortPalette);
        }
        if data.len() < FLAT_PIXELS {
            return Err(LumpError::UnexpectedEof);
        }
        let mut pixels: Vec<u8> = Vec::new();
        let mut i: usize = 0;
        while i < FLAT_PIXELS
            invariant
                i <= FLAT_PIXELS,
                palette.len() >= 256,
                data.len() >= FLAT_PIXELS,
                pixels.len() == 4 * i,
                forall|k: int|
                    0 <= k < i ==> {
                        let c = palette[(#[trigger] data[k]) as int];
                        &&& pixels[4 * k] == c.r
                        &&& pixels[4 * k + 1] == c.g
                        &&& pixels[4 * k + 2] == c.b
                        &&& pixels[4 * k + 3] == c.a
                    },
            decreases FLAT_PIXELS - i,
        {
            let c = palette[data[i] as usize];
            pixels.push(c.r);
            pixels.push(c.g);
            pixels.push(c.b);
            pixels.push(c.a);
            i += 1;
        }
        Ok(pixels)
    }
}

/// The bytes of name `i` of a lump of names.
pub open spec fn listed_name(data: Seq<u8>, i: int) -> Seq<u8> {
    name_at(data, 4 + 8 * i)
}

/// What was read of a lump of names: the number of names, then the names,
/// eight bytes each.
pub open spec fn names_read(data: Seq<u8>, r: Result<Vec<String>, LumpError>) -> bool {
    if data.len() < 4 {
        r == Err::<Vec<String>, LumpError>(LumpError::UnexpectedEof)
    } else {
        let count = u32_le(data, 0);
        match r {
            Ok(names) => {
                &&& names.len() == count
                &&& 4 + 8 * count <= data.len()
                &&& forall|i: int|
                    0 <= i < count ==> valid_utf8(#[trigger] listed_name(data, i)) && names[i]@
                        == decode_utf8(listed_name(data, i))
            },
            Err(e) => exists|k: int|
                #![trigger listed_name(data, k)]
                {
                    &&& 0 <= k < count
                    &&& forall|i: int| 0 <= i < k ==> valid_utf8(#[trigger] listed_name(data, i))
                    &&& if 4 + 8 * (k + 1) > data.len() {
                        e == LumpError::UnexpectedEof
                    } else {
                        !valid_utf8(listed_name(data, k)) && e == LumpError::InvalidUtf8
                    }
                },
        }
    }
}

pub struct DoomPNamesFormat;

impl DoomPNamesFormat {
    /// Reads a PNAMES lump.
    pub fn import(&self, data: &[u8]) -> (r: Result<Vec<String>, LumpError>)
        ensures
            names_read(data@, r),
    {
        if data.len() < 4 {
            return Err(LumpError::UnexpectedEof);
        }
        let count = read_u32(data, 0) as usize;
        let mut names: Vec<String> = Vec::new();
        let mut i: usize = 0;
        while i < count
            invariant
                i <= count,
                data.len() >= 4,
                count == u32_le(data@, 0),
                names.len() == i,
                4 + 8 * i <= data.len(),
                forall|k: int|
                    0 <= k < i ==> valid_utf8(#[trigger] listed_name(data@, k)) && names[k]@
                        == decode_utf8(listed_name(data@, k)),
            decreases count - i,
        {
            if data.len() - (4 + 8 * i) < 8 {
                assert(listed_name(data@, i as int) == name_at(data@, 4 + 8 * i));
                return Err(LumpError::UnexpectedEof);
            }
            match read_name(data, 4 + 8 * i) {
                Ok(name) => {
                    names.push(name);
                },
                Err(e) => {
                    assert(!valid_utf8(listed_name(data@, i as int)));
                    return Err(e);
                },
            }
            i += 1;
        }
        Ok(names)
    }
}

/// The byte with a small ASCII letter turned into the capital letter.
pub open spec fn upper_byte(b: u8) -> u8 {
    if 97 <= b <= 122 {
        (b - 32) as u8
    } else {
        b
    }
}

/// The bytes with every small ASCII letter turned into its capital.
pub open spec fn ascii_upper(s: Seq<u8>) -> Seq<u8> {
    Seq::new(s.len(), |i: int| upper_byte(s[i]))
}

pub fn to_ascii_upper(bytes: &[u8]) -> (r: Vec<u8>)
    ensures
        r@ == ascii_upper(bytes@),
{
    let mut out: Vec<u8> = Vec::new();
    let mut i: usize = 0;
    while i < bytes.len()
        invariant
            i <= bytes.len(),
            out@ == ascii_upper(bytes@).take(i as int),
        decreases bytes.len() - i,
    {
        let b = bytes[i];
        out.push(
            if 97 <= b && b <= 122 {
                b - 32
            } else {
                b
            },
        );
        assert(out@ =~= ascii_upper(bytes@).take(i + 1));
        i += 1;
    }
    assert(out@ =~= ascii_upper(bytes@));
    out
}

/// A place in an image, in pixels from its top left corner.
#[derive(Clone, Copy, Debug, PartialEq, Eq, Structural)]
pub struct Offset {
    pub x: i32,
    pub y: i32,
}

/// The width and height of an image, in pixels.
#[derive(Clone, Copy, Debug, PartialEq, Eq, Structural)]
pub struct Size {
    pub width: u32,
    pub height: u32,
}

/// Where a patch goes in a texture, and which patch it is.
#[derive(Clone, Copy, Debug, PartialEq, Eq, Structural)]
pub struct DoomPatchInfo {
    pub offset: Offset,
    /// Position of the patch's name in the list of patch names.
    pub index: usize,
}

/// A wall texture as the texture lumps describe it: its size and the
/// patches it is made of.
#[derive(Clone, Debug)]
pub struct DoomTextureInfo {
    pub size: Size,
    pub patches: Vec<DoomPatchInfo>,
}

/// The patch described by the ten bytes at `at`.
pub open spec fn patch_at(data: Seq<u8>, at: int) -> DoomPatchInfo {
    DoomPatchInfo {
        offset: Offset { x: i16_le(data, at) as i32, y: i16_le(data, at + 2) as i32 },
        index: u16_le(data, at + 4) as usize,
    }
}

/// The bytes of the name of the texture described at `at`, in capitals.
pub open spec fn texture_name(data: Seq<u8>, at: int) -> Seq<u8> {
    ascii_upper(name_at(data, at))
}

/// How many patches the texture described at `at` has.
pub open spec fn patch_count(data: Seq<u8>, at: int) -> int {
    u16_le(data, at + 20)
}

/// The description of a texture at `at` is whole and its name can be read.
pub open spec fn texture_ok(data: Seq<u8>, at: int) -> bool {
    &&& at + 22 <= data.len()
    &&& valid_utf8(texture_name(data, at))
    &&& at + 22 + 10 * patch_count(data, at) <= data.len()
}

/// Why the description of a texture at `at` cannot be read.
pub open spec fn texture_failure(data: Seq<u8>, at: int) -> LumpError {
    if at + 8 <= data.len() && !valid_utf8(texture_name(data, at)) {
        LumpError::InvalidUtf8
    } else {
        LumpError::UnexpectedEof
    }
}

/// `name` and `info` are what the description at `at` says.
pub open spec fn is_texture(data: Seq<u8>, at: int, name: String, info: DoomTextureInfo) -> bool {
    &&& name@ == decode_utf8(texture_name(data, at))
    &&& info.size.width == u16_le(data, at + 12)
    &&& info.size.height == u16_le(data, at + 14)
    &&& info.patches.len() == patch_count(data, at)
    &&& forall|j: int|
        0 <= j < info.patches.len() ==> #[trigger] info.patches[j] == patch_at(
            data,
            at + 22 + 10 * j,
        )
}

/// Reads the description of a texture at `at`.
pub fn read_texture(data: &[u8], at: usize) -> (r: Result<(String, DoomTextureInfo), LumpError>)
    ensures
        r is Ok <==> texture_ok(data@, at as int),
        r matches Ok(t) ==> is_texture(data@, at as int, t.0, t.1),
        r matches Err(e) ==> e == texture_failure(data@, at as int),
{
    if at > data.len() || data.len() - at < 8 {
        return Err(LumpError::UnexpectedEof);
    }
    let raw = name_bytes(data, at);
    let name = match utf8_string(to_ascii_upper(raw.as_slice())) {
        Some(name) => name,
        None => {
            return Err(LumpError::InvalidUtf8);
        },
    };
    let left = data.len() - at;
    if left < 22 {
        return Err(LumpError::UnexpectedEof);
    }
    let size = Size {
        width: read_u16(data, at + 12) as u32,
        height: read_u16(data, at + 14) as u32,
    };
    let count = read_u16(data, at + 20) as usize;
    if (left - 22) / 10 < count {
        return Err(LumpError::UnexpectedEof);
    }
    let mut patches: Vec<DoomPatchInfo> = Vec::new();
    let mut j: usize = 0;
    while j < count
        invariant
            j <= count,
            count == patch_count(data@, at as int),
            at + 22 + 10 * count <= data.len(),
            patches.len() == j,
            forall|k: int|
                0 <= k < j ==> #[trigger] patches[k] == patch_at(data@, at + 22 + 10 * k),
        decreases count - j,
    {
        let p = at + 22 + 10 * j;
        patches.push(
            DoomPatchInfo {
                offset: Offset { x: read_i16(data, p) as i32, y: read_i16(data, p + 2) as i32 },
                index: read_u16(data, p + 4) as usize,
            },
        );
        j += 1;
    }
    Ok((name, DoomTextureInfo { size, patches }))
}

/// Where the description of texture `i` begins, as the directory at the
/// head of the lump says.
pub open spec fn texture_offset(data: Seq<u8>, i: int) -> int {
    u32_le(data, 4 + 4 * i)
}

/// What was read of a texture lump: the number of textures, a directory of
/// where each is described, and the descriptions.
pub open spec fn textures_read(
    data: Seq<u8>,
    r: Result<Vec<(String, DoomTextureInfo)>, LumpError>,
) -> bool {
    if data.len() < 4 || 4 + 4 * u32_le(data, 0) > data.len() {
        r == Err::<Vec<(String, DoomTextureInfo)>, LumpError>(LumpError::UnexpectedEof)
    } else {
        let count = u32_le(data, 0);
        match r {
            Ok(list) => {
                &&& list.len() == count
                &&& forall|i: int|
                    0 <= i < count ==> texture_ok(data, #[trigger] texture_offset(data, i))
                        && is_texture(data, texture_offset(data, i), list[i].0, list[i].1)
            },
            Err(e) => exists|k: int|
                #![trigger texture_offset(data, k)]
                {
                    &&& 0 <= k < count
                    &&& forall|i: int|
                        0 <= i < k ==> texture_ok(data, #[trigger] texture_offset(data, i))
                    &&& !texture_ok(data, texture_offset(data, k))
                    &&& e == texture_failure(data, texture_offset(data, k))
                },
        }
    }
}

pub struct DoomTexturesFormat;

impl DoomTexturesFormat {
    /// Reads a TEXTURE1 or TEXTURE2 lump. The textures come in the order
    /// of the lump's directory, names in capitals.
    pub fn import(&self, data: &[u8]) -> (r: Result<Vec<(String, DoomTextureInfo)>, LumpError>)
        ensures
            textures_read(data@, r),
    {
        if data.len() < 4 {
            return Err(LumpError::UnexpectedEof);
        }
        let count = read_u32(data, 0) as usize;
        if (data.len() - 4) / 4 < count {
            return Err(LumpError::UnexpectedEof);
        }
        let mut list: Vec<(String, DoomTextureInfo)> = Vec::new();
        let mut i: usize = 0;
        while i < count
            invariant
                i <= count,
                data.len() >= 4,
                count == u32_le(data@, 0),
                4 + 4 * count <= data.len(),
                list.len() == i,
                forall|k: int|
                    0 <= k < i ==> texture_ok(data@, #[trigger] texture_offset(data@, k))
                        && is_texture(data@, texture_offset(data@, k), list[k].0, list[k].1),
            decreases count - i,
        {
            let at = read_u32(data, 4 + 4 * i) as usize;
            assert(at == texture_offset(data@, i as int));
            match read_texture(data, at) {
                Ok(t) => {
                    list.push(t);
                },
                Err(e) => {
                    return Err(e);
                },
            }
            i += 1;
        }
        Ok(list)
    }
}

/// The position of the last texture of the list that is called `name`.
pub open spec fn last_named(list: Seq<(String, DoomTextureInfo)>, name: Seq<char>) -> Option<int>
    decreases list.len(),
{
    if list.len() == 0 {
        None
    } else if list.last().0@ == name {
        Some(list.len() - 1)
    } else {
        last_named(list.drop_last(), name)
    }
}

pub fn find_texture(list: &Vec<(String, DoomTextureInfo)>, name: &String) -> (r: Option<usize>)
    ensures
        match r {
            Some(i) => last_named(list@, name@) == Some(i as int) && i < list.len(),
            None => last_named(list@, name@) is None,
        },
{
    let mut i: usize = list.len();
    assert(list@.take(i as int) =~= list@);
    while i > 0
        invariant
            i <= list.len(),
            last_named(list@, name@) == last_named(list@.take(i as int), name@),
        decreases i,
    {
        proof {
            let head = list@.take(i as int);
            assert(head.last() == list@[i - 1]);
            assert(head.drop_last() =~= list@.take(i - 1));
        }
        if list[i - 1].0 == *name {
            return Some(i - 1);
        }
        i -= 1;
    }
    None
}

/// One patch of a texture, by name, and where it goes.
#[derive(Clone, Debug)]
pub struct PlacedPatch {
    pub name: String,
    pub offset: Offset,
}

/// What to draw to make a texture: its size and its patches, in order.
#[derive(Clone, Debug)]
pub struct TextureLayout {
    pub size: Size,
    pub patches: Vec<PlacedPatch>,
}

pub struct DoomTextureFormat;

impl DoomTextureFormat {
    /// Finds the texture called `name`, whatever the case of its letters,
    /// among `textures`, of which a later one replaces an earlier one of the
    /// same name, and names its patches from `pnames`.
    pub fn import(
        &self,
        name: &String,
        pnames: &Vec<String>,
        textures: &Vec<(String, DoomTextureInfo)>,
    ) -> (r: Result<TextureLayout, LumpError>)
        ensures
            match r {
                Ok(layout) => {
                    &&& valid_utf8(ascii_upper(vstd::utf8::encode_utf8(name@)))
                    &&& last_named(
                        textures@,
                        decode_utf8(ascii_upper(vstd::utf8::encode_utf8(name@))),
                    ) matches Some(i)
                    &&& layout.size == textures[i].1.size
                    &&& layout.patches.len() == textures[i].1.patches.len()
                    &&& forall|j: int|
                        0 <= j < layout.patches.len() ==> {
                            let p = #[trigger] textures[i].1.patches[j];
                            &&& p.index < pnames.len()
                            &&& layout.patches[j].name@ == pnames[p.index as int]@
                            &&& layout.patches[j].offset == p.offset
                        }
                },
                Err(e) => {
                    let upper = ascii_upper(vstd::utf8::encode_utf8(name@));
                    if !valid_utf8(upper) || last_named(textures@, decode_utf8(upper)) is None {
                        e == LumpError::TextureNotFound
                    } else {
                        let i = last_named(textures@, decode_utf8(upper))->0;
                        &&& e == LumpError::PatchNotFound
                        &&& exists|j: int|
                            0 <= j < textures[i].1.patches.len() && (
                            #[trigger] textures[i].1.patches[j]).index >= pnames.len()
                    }
                },
            },
    {
        let upper = match utf8_string(to_ascii_upper(name.as_str().as_bytes())) {
            Some(u) => u,
            None => {
                return Err(LumpError::TextureNotFound);
            },
        };
        let i = match find_texture(textures, &upper) {
            Some(i) => i,
            None => {
                return Err(LumpError::TextureNotFound);
            },
        };
        let info = &textures[i].1;
        let ghost bytes = ascii_upper(vstd::utf8::encode_utf8(name@));
        let mut patches: Vec<PlacedPatch> = Vec::new();
        let mut j: usize = 0;
        while j < info.patches.len()
            invariant
                j <= info.patches.len(),
                i < textures.len(),
                *info == textures[i as int].1,
                bytes == ascii_upper(vstd::utf8::encode_utf8(name@)),
                valid_utf8(bytes),
                last_named(textures@, decode_utf8(bytes)) == Some(i as int),
                patches.len() == j,
                forall|k: int|
                    0 <= k < j ==> {
                        let p = #[trigger] info.patches[k];
                        &&& p.index < pnames.len()
                        &&& patches[k].name@ == pnames[p.index as int]@
                        &&& patches[k].offset == p.offset
                    },
            decreases info.patches.len() - j,
        {
            let p = info.patches[j];
            if p.index >= pnames.len() {
                proof {
                    let upper = ascii_upper(vstd::utf8::encode_utf8(name@));
                    assert(valid_utf8(upper));
                    assert(last_named(textures@, decode_utf8(upper)) is Some);
                    let w = last_named(textures@, decode_utf8(upper))->0;
                    assert(w == i);
                    assert(0 <= j < textures[w].1.patches.len());
                    assert(textures[w].1.patches[j as int].index >= pnames.len());
                    assert(exists|k: int|
                        0 <= k < textures[w].1.patches.len() && (
                        #[trigger] textures[w].1.patches[k]).index >= pnames.len());
                }
                return Err(LumpError::PatchNotFound);
            }
            patches.push(PlacedPatch { name: pnames[p.index].clone(), offset: p.offset });
            j += 1;
        }
        Ok(TextureLayout { size: info.size, patches })
    }
}

} // verus!

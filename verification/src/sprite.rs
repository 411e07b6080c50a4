use vstd::prelude::*;
use vstd::string::StrSliceExecFns;
use crate::assets::AssetHandle;
use crate::fixed::ONE;

verus! {

/// The shape of a lump name that holds a sprite image: four characters for
/// the sprite, a frame letter and a rotation digit, and perhaps a second
/// letter and digit for the frame that the mirrored image stands for.
pub const SPRITE_PATTERN: &'static str = "^....[A-Z][0-9](?:[A-Z][0-9])?$";

/// Why lump names do not make a sprite.
#[derive(Clone, Copy, Debug, PartialEq, Eq, Structural)]
pub enum SpriteError {
    /// The lump at this position has a rotation digit of 9, or its second
    /// frame cannot be read.
    BadLumpName(usize),
    /// This frame has a number of images other than one or eight, one image
    /// that is for a single rotation, or eight that are not for the eight
    /// rotations.
    BadRotations(usize),
    /// A frame names an image that the sprite does not have.
    BadImageIndex,
}

/// `s` has the shape of `SPRITE_PATTERN`: six or eight characters, none of
/// the first four a line feed, then a capital letter and a digit once or
/// twice.
pub open spec fn is_sprite_lump_name(s: Seq<char>) -> bool {
    &&& s.len() == 6 || s.len() == 8
    &&& forall|i: int| 0 <= i < 4 ==> s[i] != '\n'
    &&& is_capital(s[4]) && is_digit(s[5])
    &&& s.len() == 8 ==> is_capital(s[6]) && is_digit(s[7])
}

pub open spec fn is_capital(c: char) -> bool {
    65 <= c as u32 <= 90
}

pub open spec fn is_digit(c: char) -> bool {
    48 <= c as u32 <= 57
}

/// `regex::Regex::new` on `pattern`, then `Regex::is_match` on `text`: for
/// the pattern of sprite lump names, whether the whole of `text` has that
/// shape. In the pattern a dot stands for any character but a line feed, and
/// `^` and `$` for the two ends of the text.
#[verifier::external_body]
fn matches_pattern(pattern: &str, text: &str) -> (r: bool)
    requires
        pattern@ == SPRITE_PATTERN@,
    ensures
        r == is_sprite_lump_name(text@),
{
    regex::Regex::new(pattern).unwrap().is_match(text)
}

/// `s` begins with `prefix`.
pub open spec fn begins_with(s: Seq<char>, prefix: Seq<char>) -> bool {
    prefix.len() <= s.len() && s.subrange(0, prefix.len() as int) == prefix
}

pub fn starts_with(s: &str, prefix: &str) -> (b: bool)
    ensures
        b == begins_with(s@, prefix@),
{
    let n = prefix.unicode_len();
    if n > s.unicode_len() {
        return false;
    }
    let mut i: usize = 0;
    while i < n
        invariant
            i <= n,
            n == prefix@.len(),
            n <= s@.len(),
            forall|k: int| 0 <= k < i ==> s@[k] == prefix@[k],
        decreases n - i,
    {
        if s.get_char(i) != prefix.get_char(i) {
            assert(s@.subrange(0, n as int)[i as int] != prefix@[i as int]);
            return false;
        }
        i += 1;
    }
    assert(s@.subrange(0, n as int) =~= prefix@);
    true
}

/// Whether the lump called `lump` holds an image of the sprite `name`.
pub open spec fn is_image_of(name: Seq<char>, lump: Seq<char>) -> bool {
    begins_with(lump, name) && is_sprite_lump_name(lump)
}

pub fn holds_image_of(name: &str, lump: &str) -> (b: bool)
    ensures
        b == is_image_of(name@, lump@),
{
    starts_with(lump, name) && matches_pattern(SPRITE_PATTERN, lump)
}

/// An image of a sprite before it is loaded: which of the sprite's images
/// it is, and whether it is shown mirrored.
#[derive(Clone, Copy, Debug, PartialEq, Eq, Structural)]
pub struct SpriteImageInfoIntermediate {
    /// `ONE` for the image as it is, `-ONE` for the mirrored image.
    pub flip: i64,
    pub image_index: usize,
}

/// One use of an image: for which frame, and for which rotation of it.
#[derive(Clone, Copy, Debug, PartialEq, Eq, Structural)]
pub struct FrameEntry {
    pub frame: usize,
    /// 0 to 7 for one of the eight rotations, -1 for all of them.
    pub rotation: i64,
    pub info: SpriteImageInfoIntermediate,
}

/// The frame that a frame letter stands for: 0 for `A`.
pub open spec fn frame_of(c: char) -> int {
    c as u32 - 65
}

/// The rotation that a rotation digit stands for: -1 for `0`, 0 for `1`.
pub open spec fn rotation_of(c: char) -> int {
    c as u32 - 49
}

/// The use of image `image_index` that the letter `letter` and the digit
/// `digit` describe.
pub open spec fn entry_of(letter: char, digit: char, flip: i64, image_index: usize) -> FrameEntry {
    FrameEntry {
        frame: frame_of(letter) as usize,
        rotation: rotation_of(digit) as i64,
        info: SpriteImageInfoIntermediate { flip, image_index },
    }
}

/// The name of a sprite lump can be read: no rotation digit is 9, and a
/// name of eight bytes has eight characters.
pub open spec fn lump_ok(lump: Seq<char>, byte_len: int) -> bool {
    &&& lump[5] != '9'
    &&& byte_len == 8 ==> lump.len() == 8 && lump[7] != '9'
}

/// The uses of image `image_index` that the name of its lump describes: one
/// as it is, and, for a name of eight bytes, one mirrored.
pub open spec fn lump_entries(lump: Seq<char>, byte_len: int, image_index: usize) -> Seq<
    FrameEntry,
> {
    let first = entry_of(lump[4], lump[5], ONE, image_index);
    if byte_len == 8 {
        seq![first, entry_of(lump[6], lump[7], (-ONE) as i64, image_index)]
    } else {
        seq![first]
    }
}

/// Every entry is for a frame below `bound`.
pub open spec fn frames_below(entries: Seq<FrameEntry>, bound: int) -> bool {
    forall|i: int| 0 <= i < entries.len() ==> (#[trigger] entries[i]).frame < bound
}

/// Reads the name of a sprite lump.
pub fn read_lump_name(lump: &str, image_index: usize) -> (r: Option<Vec<FrameEntry>>)
    requires
        is_sprite_lump_name(lump@),
    ensures
        r is Some <==> lump_ok(lump@, vstd::utf8::encode_utf8(lump@).len() as int),
        r matches Some(entries) ==> entries@ == lump_entries(
            lump@,
            vstd::utf8::encode_utf8(lump@).len() as int,
            image_index,
        ) && frames_below(entries@, 26),
{
    let digit = lump.get_char(5);
    if digit == '9' {
        return None;
    }
    let letter = lump.get_char(4);
    let mut entries: Vec<FrameEntry> = Vec::new();
    entries.push(
        FrameEntry {
            frame: (letter as u32 - 65) as usize,
            rotation: digit as u32 as i64 - 49,
            info: SpriteImageInfoIntermediate { flip: ONE, image_index },
        },
    );
    let bytes = lump.as_bytes().len();
    if bytes == 8 {
        if lump.unicode_len() != 8 {
            return None;
        }
        let digit = lump.get_char(7);
        if digit == '9' {
            return None;
        }
        let letter = lump.get_char(6);
        entries.push(
            FrameEntry {
                frame: (letter as u32 - 65) as usize,
                rotation: digit as u32 as i64 - 49,
                info: SpriteImageInfoIntermediate { flip: -ONE, image_index },
            },
        );
    }
    assert(entries@ =~= lump_entries(
        lump@,
        vstd::utf8::encode_utf8(lump@).len() as int,
        image_index,
    ));
    Some(entries)
}

/// How many bytes the name takes in UTF-8.
pub open spec fn byte_len(lump: Seq<char>) -> int {
    vstd::utf8::encode_utf8(lump).len() as int
}

/// What looking through the first `upto` lump names for images of the sprite
/// `name` gives: the uses of its images, in the order of the lumps, and the
/// names of the lumps that hold them; or the position of the first of its
/// lumps whose name cannot be read.
pub open spec fn scanned(name: Seq<char>, lumps: Seq<String>, upto: nat) -> Result<
    (Seq<FrameEntry>, Seq<Seq<char>>),
    int,
>
    decreases upto,
{
    if upto == 0 {
        Ok((Seq::empty(), Seq::empty()))
    } else {
        match scanned(name, lumps, (upto - 1) as nat) {
            Err(i) => Err(i),
            Ok((entries, images)) => {
                let lump = lumps[upto - 1]@;
                if !is_image_of(name, lump) {
                    Ok((entries, images))
                } else if !lump_ok(lump, byte_len(lump)) {
                    Err(upto - 1)
                } else {
                    Ok(
                        (
                            entries + lump_entries(lump, byte_len(lump), images.len() as usize),
                            images.push(lump),
                        ),
                    )
                }
            },
        }
    }
}

/// The names, each as its characters.
pub open spec fn spelled(names: Seq<String>) -> Seq<Seq<char>> {
    Seq::new(names.len(), |j: int| names[j]@)
}

/// Looks through the lump names for the images of the sprite `name`.
pub fn scan_lumps(name: &str, lumps: &Vec<String>) -> (r: Result<
    (Vec<FrameEntry>, Vec<String>),
    SpriteError,
>)
    ensures
        match r {
            Ok((entries, names)) => scanned(name@, lumps@, lumps.len() as nat) == Ok::<
                (Seq<FrameEntry>, Seq<Seq<char>>),
                int,
            >((entries@, spelled(names@))) && frames_below(entries@, 26),
            Err(e) => scanned(name@, lumps@, lumps.len() as nat) matches Err(i) && e
                == SpriteError::BadLumpName(i as usize),
        },
{
    let mut entries: Vec<FrameEntry> = Vec::new();
    let mut names: Vec<String> = Vec::new();
    let mut i: usize = 0;
    assert(spelled(names@) =~= Seq::<Seq<char>>::empty());
    while i < lumps.len()
        invariant
            i <= lumps.len(),
            scanned(name@, lumps@, i as nat) == Ok::<(Seq<FrameEntry>, Seq<Seq<char>>), int>(
                (entries@, spelled(names@)),
            ),
            frames_below(entries@, 26),
        decreases lumps.len() - i,
    {
        let lump = lumps[i].as_str();
        if holds_image_of(name, lump) {
            match read_lump_name(lump, names.len()) {
                Some(found) => {
                    let mut found = found;
                    let ghost before = entries@;
                    let ghost added = found@;
                    entries.append(&mut found);
                    assert(entries@ =~= before + added);
                    let ghost old_names = names@;
                    let copy = lumps[i].clone();
                    assert(copy@ == lumps[i as int]@);
                    names.push(copy);
                    assert(spelled(names@) =~= spelled(old_names).push(lumps[i as int]@));
                },
                None => {
                    proof {
                        lemma_scanned_stays_failed(name@, lumps@, (i + 1) as nat, lumps.len() as nat);
                    }
                    return Err(SpriteError::BadLumpName(i));
                },
            }
        }
        i += 1;
    }
    Ok((entries, names))
}

/// Once a lump name could not be read, looking further changes nothing.
pub proof fn lemma_scanned_stays_failed(name: Seq<char>, lumps: Seq<String>, at: nat, upto: nat)
    requires
        at <= upto,
        scanned(name, lumps, at) is Err,
    ensures
        scanned(name, lumps, upto) == scanned(name, lumps, at),
    decreases upto - at,
{
    if at < upto {
        lemma_scanned_stays_failed(name, lumps, at, (upto - 1) as nat);
    }
}

/// How many of the entries are for frame `frame`.
pub open spec fn count_of(entries: Seq<FrameEntry>, frame: int) -> nat
    decreases entries.len(),
{
    if entries.len() == 0 {
        0
    } else {
        count_of(entries.drop_last(), frame) + if entries.last().frame == frame {
            1nat
        } else {
            0nat
        }
    }
}

/// How many of the entries are for rotation `rotation` of frame `frame`.
pub open spec fn rotation_count(entries: Seq<FrameEntry>, frame: int, rotation: int) -> nat
    decreases entries.len(),
{
    if entries.len() == 0 {
        0
    } else {
        rotation_count(entries.drop_last(), frame, rotation) + if entries.last().frame == frame
            && entries.last().rotation == rotation {
            1nat
        } else {
            0nat
        }
    }
}

/// The image of the last entry for rotation `rotation` of frame `frame`.
pub open spec fn image_for(entries: Seq<FrameEntry>, frame: int, rotation: int) -> Option<
    SpriteImageInfoIntermediate,
>
    decreases entries.len(),
{
    if entries.len() == 0 {
        None
    } else if entries.last().frame == frame && entries.last().rotation == rotation {
        Some(entries.last().info)
    } else {
        image_for(entries.drop_last(), frame, rotation)
    }
}

/// The frame has no image, or one image that is for all rotations, or
/// eight images of which each is for another of the eight rotations.
pub open spec fn frame_ok(entries: Seq<FrameEntry>, frame: int) -> bool {
    let n = count_of(entries, frame);
    ||| n == 0
    ||| n == 1 && rotation_count(entries, frame, -1) == 1
    ||| n == 8 && forall|r: int| 0 <= r < 8 ==> #[trigger] rotation_count(entries, frame, r) == 1
}

/// The images of the frame: none, the one for all rotations, or the eight
/// in the order of their rotations.
pub open spec fn frame_images(entries: Seq<FrameEntry>, frame: int) -> Seq<
    SpriteImageInfoIntermediate,
> {
    let n = count_of(entries, frame);
    if n == 0 {
        Seq::empty()
    } else if n == 1 {
        seq![image_for(entries, frame, -1)->0]
    } else {
        Seq::new(8, |r: int| image_for(entries, frame, r)->0)
    }
}

/// The greatest frame among the entries; 0 if there are none.
pub open spec fn last_frame(entries: Seq<FrameEntry>) -> int
    decreases entries.len(),
{
    if entries.len() == 0 {
        0
    } else if entries.last().frame > last_frame(entries.drop_last()) {
        entries.last().frame as int
    } else {
        last_frame(entries.drop_last())
    }
}

/// The images of one frame.
pub fn arrange_frame(entries: &Vec<FrameEntry>, frame: usize) -> (r: Option<
    Vec<SpriteImageInfoIntermediate>,
>)
    ensures
        r is Some <==> frame_ok(entries@, frame as int),
        r matches Some(images) ==> images@ == frame_images(entries@, frame as int),
{
    let blank = SpriteImageInfoIntermediate { flip: ONE, image_index: 0 };
    // Position 0 is for the entry for all rotations, 1 to 8 for the eight.
    let mut images: [SpriteImageInfoIntermediate; 9] = [blank; 9];
    let mut seen: [usize; 9] = [0; 9];
    let mut count: usize = 0;
    let mut i: usize = 0;
    assert(entries@.take(0) =~= Seq::<FrameEntry>::empty());
    while i < entries.len()
        invariant
            i <= entries.len(),
            count == count_of(entries@.take(i as int), frame as int),
            count <= i,
            forall|k: int|
                0 <= k < 9 ==> (#[trigger] seen@[k]) == rotation_count(
                    entries@.take(i as int),
                    frame as int,
                    k - 1,
                ) && seen@[k] <= i,
            forall|k: int|
                0 <= k < 9 && seen@[k] > 0 ==> image_for(
                    entries@.take(i as int),
                    frame as int,
                    k - 1,
                ) == Some(#[trigger] images@[k]),
        decreases entries.len() - i,
    {
        let e = entries[i];
        proof {
            let now = entries@.take(i + 1);
            assert(now.drop_last() =~= entries@.take(i as int));
            assert(now.last() == e);
        }
        if e.frame == frame {
            count += 1;
            if -1 <= e.rotation && e.rotation < 8 {
                let slot = (e.rotation + 1) as usize;
                seen[slot] = seen[slot] + 1;
                images[slot] = e.info;
            }
        }
        i += 1;
    }
    assert(entries@.take(i as int) =~= entries@);
    if count == 0 {
        Some(Vec::new())
    } else if count == 1 {
        assert(seen@[0] == rotation_count(entries@, frame as int, -1));
        if seen[0] == 1 {
            assert(image_for(entries@, frame as int, -1) == Some(images@[0]));
            let mut out: Vec<SpriteImageInfoIntermediate> = Vec::new();
            out.push(images[0]);
            assert(out@ =~= frame_images(entries@, frame as int));
            Some(out)
        } else {
            None
        }
    } else if count == 8 {
        let mut out: Vec<SpriteImageInfoIntermediate> = Vec::new();
        let mut r: usize = 0;
        while r < 8
            invariant
                r <= 8,
                count == 8,
                count == count_of(entries@, frame as int),
                out.len() == r,
                forall|k: int|
                    0 <= k < 9 ==> (#[trigger] seen@[k]) == rotation_count(
                        entries@,
                        frame as int,
                        k - 1,
                    ),
                forall|k: int|
                    0 <= k < 9 && seen@[k] > 0 ==> image_for(entries@, frame as int, k - 1)
                        == Some(#[trigger] images@[k]),
                forall|k: int|
                    0 <= k < r ==> #[trigger] rotation_count(entries@, frame as int, k) == 1,
                forall|k: int|
                    0 <= k < r ==> (#[trigger] out@[k]) == image_for(entries@, frame as int, k)->0,
            decreases 8 - r,
        {
            assert(seen@[r + 1] == rotation_count(entries@, frame as int, r as int));
            if seen[r + 1] != 1 {
                return None;
            }
            assert(image_for(entries@, frame as int, r as int) == Some(images@[r + 1]));
            out.push(images[r + 1]);
            r += 1;
        }
        assert(out@ =~= frame_images(entries@, frame as int));
        Some(out)
    } else {
        None
    }
}

/// The greatest frame among the entries.
pub fn greatest_frame(entries: &Vec<FrameEntry>) -> (m: usize)
    ensures
        m == last_frame(entries@),
{
    let mut m: usize = 0;
    let mut i: usize = 0;
    assert(entries@.take(0) =~= Seq::<FrameEntry>::empty());
    while i < entries.len()
        invariant
            i <= entries.len(),
            m == last_frame(entries@.take(i as int)),
        decreases entries.len() - i,
    {
        proof {
            let now = entries@.take(i + 1);
            assert(now.drop_last() =~= entries@.take(i as int));
            assert(now.last() == entries@[i as int]);
        }
        if entries[i].frame > m {
            m = entries[i].frame;
        }
        i += 1;
    }
    assert(entries@.take(i as int) =~= entries@);
    m
}

/// What arranging the entries by frame gives: the images of every frame up
/// to the greatest, or the first frame whose images cannot be arranged.
pub open spec fn arranged(
    entries: Seq<FrameEntry>,
    r: Result<Vec<Vec<SpriteImageInfoIntermediate>>, SpriteError>,
) -> bool {
    match r {
        Ok(frames) => {
            &&& frames.len() == last_frame(entries) + 1
            &&& forall|f: int|
                0 <= f < frames.len() ==> frame_ok(entries, f) && (#[trigger] frames[f])@
                    == frame_images(entries, f)
        },
        Err(e) => exists|f: int|
            {
                &&& 0 <= f <= last_frame(entries)
                &&& !#[trigger] frame_ok(entries, f)
                &&& forall|g: int| 0 <= g < f ==> #[trigger] frame_ok(entries, g)
                &&& e == SpriteError::BadRotations(f as usize)
            },
    }
}

/// Arranges the uses of a sprite's images by frame.
pub fn arrange_frames(entries: &Vec<FrameEntry>) -> (r: Result<
    Vec<Vec<SpriteImageInfoIntermediate>>,
    SpriteError,
>)
    requires
        frames_below(entries@, usize::MAX as int),
    ensures
        arranged(entries@, r),
{
    let last = greatest_frame(entries);
    proof {
        lemma_last_frame_is_a_frame(entries@);
    }
    let mut frames: Vec<Vec<SpriteImageInfoIntermediate>> = Vec::new();
    let mut f: usize = 0;
    while f <= last
        invariant
            f <= last + 1,
            last == last_frame(entries@),
            last < usize::MAX,
            frames.len() == f,
            forall|g: int| 0 <= g < f ==> #[trigger] frame_ok(entries@, g),
            forall|g: int|
                0 <= g < f ==> (#[trigger] frames[g])@ == frame_images(entries@, g),
        decreases last + 1 - f,
    {
        match arrange_frame(entries, f) {
            Some(images) => {
                let ghost before = frames@;
                frames.push(images);
                assert forall|g: int| 0 <= g < f + 1 implies (#[trigger] frames[g])@
                    == frame_images(entries@, g) by {
                    if g < f {
                        assert(frames[g] == before[g]);
                    }
                }
            },
            None => {
                assert(!frame_ok(entries@, f as int));
                return Err(SpriteError::BadRotations(f));
            },
        }
        f += 1;
    }
    Ok(frames)
}

/// The greatest frame is the frame of one of the entries, or 0.
pub proof fn lemma_last_frame_is_a_frame(entries: Seq<FrameEntry>)
    ensures
        last_frame(entries) == 0 || exists|i: int|
            0 <= i < entries.len() && (#[trigger] entries[i]).frame == last_frame(entries),
    decreases entries.len(),
{
    if entries.len() > 0 {
        let init = entries.drop_last();
        lemma_last_frame_is_a_frame(init);
        if entries.last().frame > last_frame(init) {
            assert(entries[entries.len() - 1].frame == last_frame(entries));
        } else if last_frame(init) != 0 {
            let i = choose|i: int|
                0 <= i < init.len() && (#[trigger] init[i]).frame == last_frame(init);
            assert(entries[i] == init[i]);
        }
    }
}

/// A sprite before its images are loaded: for each frame the images of its
/// rotations, and the names of the lumps that hold the images.
pub struct SpriteBuilder {
    pub frames: Vec<Vec<SpriteImageInfoIntermediate>>,
    pub image_names: Vec<String>,
}

/// An image of a sprite: the loaded image, and whether it is shown mirrored.
#[derive(Clone, Copy, Debug, PartialEq, Eq, Structural)]
pub struct SpriteImageInfo {
    /// `ONE` for the image as it is, `-ONE` for the mirrored image.
    pub flip: i64,
    pub handle: AssetHandle,
}

/// A sprite: for each frame, the image to show for each rotation, or the
/// one image for all rotations.
pub struct Sprite {
    pub frames: Vec<Vec<SpriteImageInfo>>,
}

impl Sprite {
    pub fn frames(&self) -> (r: &Vec<Vec<SpriteImageInfo>>)
        ensures
            *r == self.frames,
    {
        &self.frames
    }

    /// Finds the images of the sprite `name` among the lumps and arranges
    /// them by frame and rotation.
    pub fn import(name: &str, lump_names: &Vec<String>) -> (r: Result<SpriteBuilder, SpriteError>)
        ensures
            match scanned(name@, lump_names@, lump_names.len() as nat) {
                Err(i) => r matches Err(e) && e == SpriteError::BadLumpName(i as usize),
                Ok((entries, images)) => match r {
                    Ok(builder) => spelled(builder.image_names@) == images && arranged(
                        entries,
                        Ok(builder.frames),
                    ),
                    Err(e) => arranged(entries, Err(e)),
                },
            },
    {
        let (entries, image_names) = match scan_lumps(name, lump_names) {
            Ok(found) => found,
            Err(e) => {
                return Err(e);
            },
        };
        match arrange_frames(&entries) {
            Ok(frames) => Ok(SpriteBuilder { frames, image_names }),
            Err(e) => Err(e),
        }
    }
}

/// Every image named in the frames is among the first `n` images.
pub open spec fn images_below(frames: Seq<Vec<SpriteImageInfoIntermediate>>, n: int) -> bool {
    forall|f: int, k: int|
        0 <= f < frames.len() && 0 <= k < frames[f].len() ==> (#[trigger] frames[f][k]).image_index
            < n
}

impl SpriteBuilder {
    pub fn new() -> (b: SpriteBuilder)
        ensures
            b.frames.len() == 0,
            b.image_names.len() == 0,
    {
        SpriteBuilder { frames: Vec::new(), image_names: Vec::new() }
    }

    pub fn with_frames(self, frames: Vec<Vec<SpriteImageInfoIntermediate>>) -> (b: SpriteBuilder)
        ensures
            b.frames == frames,
            b.image_names == self.image_names,
    {
        SpriteBuilder { frames, image_names: self.image_names }
    }

    pub fn with_image_names(self, image_names: Vec<String>) -> (b: SpriteBuilder)
        ensures
            b.frames == self.frames,
            b.image_names == image_names,
    {
        SpriteBuilder { frames: self.frames, image_names }
    }

    /// Makes the sprite, once its images are loaded: `handles` holds the
    /// loaded image of each image name, in order.
    pub fn build(self, handles: &Vec<AssetHandle>) -> (r: Result<Sprite, SpriteError>)
        ensures
            r is Ok <==> images_below(self.frames@, handles.len() as int),
            r matches Err(e) ==> e == SpriteError::BadImageIndex,
            r matches Ok(sprite) ==> {
                &&& sprite.frames.len() == self.frames.len()
                &&& forall|f: int|
                    0 <= f < self.frames.len() ==> (#[trigger] sprite.frames[f]).len()
                        == self.frames[f].len()
                &&& forall|f: int, k: int|
                    0 <= f < self.frames.len() && 0 <= k < self.frames[f].len() ==> (
                    #[trigger] sprite.frames[f][k]) == (SpriteImageInfo {
                        flip: self.frames[f][k].flip,
                        handle: handles[self.frames[f][k].image_index as int],
                    })
            },
    {
        let mut frames: Vec<Vec<SpriteImageInfo>> = Vec::new();
        let mut f: usize = 0;
        while f < self.frames.len()
            invariant
                f <= self.frames.len(),
                frames.len() == f,
                forall|g: int, k: int|
                    0 <= g < f && 0 <= k < self.frames[g].len() ==> (
                    #[trigger] self.frames[g][k]).image_index < handles.len(),
                forall|g: int| 0 <= g < f ==> (#[trigger] frames[g]).len() == self.frames[g].len(),
                forall|g: int, k: int|
                    0 <= g < f && 0 <= k < self.frames[g].len() ==> (#[trigger] frames[g][k]) == (
                    SpriteImageInfo {
                        flip: self.frames[g][k].flip,
                        handle: handles[self.frames[g][k].image_index as int],
                    }),
            decreases self.frames.len() - f,
        {
            let rotations = &self.frames[f];
            let mut images: Vec<SpriteImageInfo> = Vec::new();
            let mut k: usize = 0;
            while k < rotations.len()
                invariant
                    k <= rotations.len(),
                    f < self.frames.len(),
                    *rotations == self.frames[f as int],
                    images.len() == k,
                    forall|j: int|
                        0 <= j < k ==> (#[trigger] rotations[j]).image_index < handles.len(),
                    forall|j: int|
                        0 <= j < k ==> (#[trigger] images[j]) == (SpriteImageInfo {
                            flip: rotations[j].flip,
                            handle: handles[rotations[j].image_index as int],
                        }),
                decreases rotations.len() - k,
            {
                let info = rotations[k];
                if info.image_index >= handles.len() {
                    assert(self.frames[f as int][k as int].image_index >= handles.len());
                    return Err(SpriteError::BadImageIndex);
                }
                images.push(SpriteImageInfo { flip: info.flip, handle: handles[info.image_index] });
                k += 1;
            }
            frames.push(images);
            f += 1;
        }
        Ok(Sprite { frames })
    }
}

} // verus!

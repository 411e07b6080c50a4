use vstd::prelude::*;
use crate::lumps::{DoomMap, Size};

verus! {

/// How many of the first `upto` sizes equal the size at `i`.
pub open spec fn same_size_before(sizes: Seq<Size>, i: int, upto: int) -> nat
    decreases upto,
{
    if upto <= 0 {
        0
    } else {
        same_size_before(sizes, i, upto - 1) + if sizes[upto - 1] == sizes[i] {
            1nat
        } else {
            0nat
        }
    }
}

/// The position of the first size that equals the size at `i`, looking
/// from `from` on.
pub open spec fn first_of_size(sizes: Seq<Size>, i: int, from: int) -> int
    decreases sizes.len() - from,
{
    if from < 0 || from >= sizes.len() || from >= i || sizes[from] == sizes[i] {
        from
    } else {
        first_of_size(sizes, i, from + 1)
    }
}

/// Where an image goes when images of one size are stacked into one
/// texture: which stack, named by the position of its first image, and which
/// layer of it.
#[derive(Clone, Copy, Debug, PartialEq, Eq, Structural)]
pub struct Placement {
    pub group: usize,
    pub layer: usize,
}

/// Groups images by size: each image goes onto the stack of the first image
/// of its size, as the next layer.
pub fn group_by_size(sizes: &Vec<Size>) -> (r: Vec<Placement>)
    ensures
        r.len() == sizes.len(),
        forall|i: int|
            0 <= i < sizes.len() ==> (#[trigger] r[i]).group == first_of_size(sizes@, i, 0)
                && r[i].layer == same_size_before(sizes@, i, i),
{
    let mut out: Vec<Placement> = Vec::new();
    let mut i: usize = 0;
    while i < sizes.len()
        invariant
            i <= sizes.len(),
            out.len() == i,
            forall|k: int|
                0 <= k < i ==> (#[trigger] out[k]).group == first_of_size(sizes@, k, 0)
                    && out[k].layer == same_size_before(sizes@, k, k),
        decreases sizes.len() - i,
    {
        let size = sizes[i];
        let mut layer: usize = 0;
        let mut first: usize = i;
        let mut j: usize = 0;
        while j < i
            invariant
                j <= i,
                i < sizes.len(),
                size == sizes[i as int],
                layer == same_size_before(sizes@, i as int, j as int),
                layer <= j,
                if first == i {
                    first_of_size(sizes@, i as int, 0) == first_of_size(sizes@, i as int, j as int)
                } else {
                    first < j && first_of_size(sizes@, i as int, 0) == first
                },
            decreases i - j,
        {
            if sizes[j] == size {
                layer += 1;
                if first == i {
                    first = j;
                }
            }
            j += 1;
        }
        out.push(Placement { group: first, layer });
        i += 1;
    }
    out
}

/// The sixteen light levels as pixels of four bytes each: grey in steps of
/// sixteen, fully opaque.
pub open spec fn lightmaps() -> Seq<u8> {
    Seq::new(
        64,
        |k: int|
            if k % 4 == 3 {
                255u8
            } else {
                (16 * (k / 4)) as u8
            },
    )
}

pub fn generate_lightmaps() -> (r: Vec<u8>)
    ensures
        r@ == lightmaps(),
{
    let mut out: Vec<u8> = Vec::new();
    let mut i: u8 = 0;
    while i < 16
        invariant
            i <= 16,
            out.len() == 4 * i,
            forall|k: int| 0 <= k < out.len() ==> #[trigger] out[k] == lightmaps()[k],
        decreases 16 - i,
    {
        let grey: u8 = i * 16;
        out.push(grey);
        out.push(grey);
        out.push(grey);
        out.push(255);
        i += 1;
    }
    assert(out@ =~= lightmaps());
    out
}

/// `name` is among the names.
pub open spec fn listed(names: Seq<String>, name: Seq<char>) -> bool {
    exists|i: int| 0 <= i < names.len() && (#[trigger] names[i])@ == name
}

/// No name occurs twice.
pub open spec fn distinct(names: Seq<String>) -> bool {
    forall|i: int, j: int|
        0 <= i < j < names.len() ==> (#[trigger] names[i])@ != (#[trigger] names[j])@
}

pub fn is_listed(names: &Vec<String>, name: &String) -> (b: bool)
    ensures
        b == listed(names@, name@),
{
    let mut i: usize = 0;
    while i < names.len()
        invariant
            i <= names.len(),
            forall|k: int| 0 <= k < i ==> (#[trigger] names[k])@ != name@,
        decreases names.len() - i,
    {
        if names[i] == *name {
            return true;
        }
        i += 1;
    }
    false
}

/// Adds `name` to the names unless it is there already.
pub fn note_name(names: &mut Vec<String>, name: &String)
    requires
        distinct(old(names)@),
    ensures
        distinct(final(names)@),
        forall|n: Seq<char>|
            listed(final(names)@, n) <==> listed(old(names)@, n) || n == name@,
        listed(old(names)@, name@) ==> final(names)@ == old(names)@,
        !listed(old(names)@, name@) ==> final(names)@ == old(names)@.push(*name),
{
    if !is_listed(names, name) {
        let ghost before = names@;
        let copy = name.clone();
        names.push(copy);
        proof {
            assert(names@ == before.push(*name));
            assert forall|n: Seq<char>| listed(names@, n) <==> listed(before, n) || n
                == name@ by {
                if listed(before, n) {
                    let i = choose|i: int| 0 <= i < before.len() && (#[trigger] before[i])@ == n;
                    assert(names@[i]@ == n);
                }
                if n == name@ {
                    assert(names@[before.len() as int]@ == n);
                }
                if listed(names@, n) {
                    let i = choose|i: int| 0 <= i < names.len() && (#[trigger] names@[i])@ == n;
                    if i < before.len() {
                        assert(before[i]@ == n);
                    }
                }
            }
        }
    }
}

/// The names of the wall textures that the sidedefs of a level show, each
/// once, in the order in which they first occur: for each sidedef its top,
/// bottom and middle texture.
pub fn wall_texture_names(map: &DoomMap) -> (r: Vec<String>)
    ensures
        distinct(r@),
        forall|n: Seq<char>|
            listed(r@, n) <==> exists|i: int|
                0 <= i < map.sidedefs.len() && shows(#[trigger] map.sidedefs[i], n),
{
    let mut names: Vec<String> = Vec::new();
    let mut i: usize = 0;
    while i < map.sidedefs.len()
        invariant
            i <= map.sidedefs.len(),
            distinct(names@),
            forall|n: Seq<char>|
                listed(names@, n) <==> exists|k: int|
                    0 <= k < i && shows(#[trigger] map.sidedefs[k], n),
        decreases map.sidedefs.len() - i,
    {
        let side = &map.sidedefs[i];
        let ghost n0 = names@;
        if let Some(name) = &side.top_texture_name {
            note_name(&mut names, name);
        }
        let ghost n1 = names@;
        if let Some(name) = &side.bottom_texture_name {
            note_name(&mut names, name);
        }
        let ghost n2 = names@;
        if let Some(name) = &side.middle_texture_name {
            note_name(&mut names, name);
        }
        proof {
            assert forall|n: Seq<char>|
                listed(names@, n) <==> exists|k: int|
                    0 <= k < i + 1 && shows(#[trigger] map.sidedefs[k], n) by {
                let here = shows(map.sidedefs[i as int], n);
                assert(listed(n1, n) <==> listed(n0, n) || (side.top_texture_name matches Some(t)
                    && t@ == n));
                assert(listed(n2, n) <==> listed(n1, n) || (side.bottom_texture_name matches Some(
                    t,
                ) && t@ == n));
                assert(listed(names@, n) <==> listed(n2, n) || (
                side.middle_texture_name matches Some(t) && t@ == n));
                if listed(n0, n) {
                    let k = choose|k: int| 0 <= k < i && shows(#[trigger] map.sidedefs[k], n);
                    assert(shows(map.sidedefs[k], n));
                }
                if exists|k: int| 0 <= k < i + 1 && shows(#[trigger] map.sidedefs[k], n) {
                    let k = choose|k: int| 0 <= k < i + 1 && shows(#[trigger] map.sidedefs[k], n);
                    if k < i {
                        assert(listed(n0, n));
                    }
                }
            }
        }
        i += 1;
    }
    names
}

/// The sidedef shows the texture called `name`.
pub open spec fn shows(side: crate::lumps::DoomMapSidedef, name: Seq<char>) -> bool {
    ||| side.top_texture_name matches Some(t) && t@ == name
    ||| side.bottom_texture_name matches Some(t) && t@ == name
    ||| side.middle_texture_name matches Some(t) && t@ == name
}

/// The names of the flats that the sectors of a level show, each once, in
/// the order in which they first occur: for each sector its floor, then its
/// ceiling.
pub fn flat_names(map: &DoomMap) -> (r: Vec<String>)
    ensures
        distinct(r@),
        forall|n: Seq<char>|
            listed(r@, n) <==> exists|i: int|
                0 <= i < map.sectors.len() && ((#[trigger] map.sectors[i]).floor_flat_name@ == n
                    || map.sectors[i].ceiling_flat_name@ == n),
{
    let mut names: Vec<String> = Vec::new();
    let mut i: usize = 0;
    while i < map.sectors.len()
        invariant
            i <= map.sectors.len(),
            distinct(names@),
            forall|n: Seq<char>|
                listed(names@, n) <==> exists|k: int|
                    0 <= k < i && ((#[trigger] map.sectors[k]).floor_flat_name@ == n
                        || map.sectors[k].ceiling_flat_name@ == n),
        decreases map.sectors.len() - i,
    {
        let sector = &map.sectors[i];
        let ghost n0 = names@;
        note_name(&mut names, &sector.floor_flat_name);
        let ghost n1 = names@;
        note_name(&mut names, &sector.ceiling_flat_name);
        proof {
            assert forall|n: Seq<char>|
                listed(names@, n) <==> exists|k: int|
                    0 <= k < i + 1 && ((#[trigger] map.sectors[k]).floor_flat_name@ == n
                        || map.sectors[k].ceiling_flat_name@ == n) by {
                assert(listed(n1, n) <==> listed(n0, n) || n == sector.floor_flat_name@);
                assert(listed(names@, n) <==> listed(n1, n) || n == sector.ceiling_flat_name@);
                if listed(n0, n) {
                    let k = choose|k: int|
                        0 <= k < i && ((#[trigger] map.sectors[k]).floor_flat_name@ == n
                            || map.sectors[k].ceiling_flat_name@ == n);
                    assert(map.sectors[k].floor_flat_name@ == n || map.sectors[k].ceiling_flat_name@
                        == n);
                }
                if exists|k: int|
                    0 <= k < i + 1 && ((#[trigger] map.sectors[k]).floor_flat_name@ == n
                        || map.sectors[k].ceiling_flat_name@ == n) {
                    let k = choose|k: int|
                        0 <= k < i + 1 && ((#[trigger] map.sectors[k]).floor_flat_name@ == n
                            || map.sectors[k].ceiling_flat_name@ == n);
                    if k < i {
                        assert(listed(n0, n));
                    }
                }
            }
        }
        i += 1;
    }
    names
}

} // verus!

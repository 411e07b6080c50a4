use vstd::prelude::*;
use std::collections::HashMap;
use crate::assets::AssetHandle;

verus! {

broadcast use vstd::std_specs::hash::group_hash_axioms;

/// The loaded assets of one kind. A handle names the asset at the position
/// of its number.
pub struct AssetStorage<T> {
    pub assets: Vec<T>,
}

impl<T> AssetStorage<T> {
    pub open spec fn spec_get(self, handle: AssetHandle) -> Option<T> {
        if handle.id < self.assets.len() {
            Some(self.assets[handle.id as int])
        } else {
            None
        }
    }

    pub fn new() -> (s: AssetStorage<T>)
        ensures
            s.assets.len() == 0,
    {
        AssetStorage { assets: Vec::new() }
    }

    /// Takes `asset` into the storage and hands out its handle, or hands
    /// the asset back when the storage has no number left for it.
    pub fn insert(&mut self, asset: T) -> (r: Result<AssetHandle, T>)
        ensures
            match r {
                Ok(h) => {
                    &&& old(self).assets.len() < 0xffff_ffff
                    &&& h.id == old(self).assets.len()
                    &&& final(self).assets@ == old(self).assets@.push(asset)
                },
                Err(a) => {
                    &&& old(self).assets.len() >= 0xffff_ffff
                    &&& a == asset
                    &&& final(self).assets@ == old(self).assets@
                },
            },
    {
        let n = self.assets.len();
        if n >= 0xffff_ffff {
            return Err(asset);
        }
        self.assets.push(asset);
        Ok(AssetHandle { id: n as u32 })
    }

    /// The asset that `handle` names, if it is loaded.
    pub fn get(&self, handle: &AssetHandle) -> (r: Option<&T>)
        ensures
            match r {
                Some(a) => self.spec_get(*handle) == Some(*a),
                None => self.spec_get(*handle) is None,
            },
    {
        let i = handle.id as usize;
        if i < self.assets.len() {
            Some(&self.assets[i])
        } else {
            None
        }
    }
}

/// The handle that goes with `name`: that of its first entry in the list.
pub open spec fn named(names: Seq<(String, AssetHandle)>, name: Seq<char>) -> Option<AssetHandle>
    decreases names.len(),
{
    if names.len() == 0 {
        None
    } else if names[0].0@ == name {
        Some(names[0].1)
    } else {
        named(names.drop_first(), name)
    }
}

/// The kinds of thing that can be placed in a level: each has a template,
/// found by the number that level data uses for it or by its name.
pub struct MobjTypes {
    pub names: Vec<(String, AssetHandle)>,
    pub doomednums: HashMap<u16, AssetHandle>,
}

impl MobjTypes {
    /// A table without entries.
    pub fn new() -> (t: MobjTypes)
        ensures
            t.names@.len() == 0,
            t.doomednums@ == Map::<u16, AssetHandle>::empty(),
    {
        MobjTypes { names: Vec::new(), doomednums: HashMap::new() }
    }

    /// Enters a kind called `name` with its template, after those already
    /// there: a name entered before keeps its first template.
    pub fn insert_name(&mut self, name: String, handle: AssetHandle)
        ensures
            final(self).names@ == old(self).names@.push((name, handle)),
            final(self).doomednums@ == old(self).doomednums@,
    {
        self.names.push((name, handle));
    }

    /// Enters the template for the kind that level data calls `doomednum`,
    /// in place of the one it had, if any.
    pub fn insert(&mut self, doomednum: u16, handle: AssetHandle)
        ensures
            final(self).doomednums@ == old(self).doomednums@.insert(doomednum, handle),
            final(self).names@ == old(self).names@,
    {
        self.doomednums.insert(doomednum, handle);
    }

    /// The template of the kind called `name`, if there is one.
    pub fn name(&self, name: &String) -> (r: Option<AssetHandle>)
        ensures
            r == named(self.names@, name@),
    {
        let mut i: usize = 0;
        assert(self.names@.skip(0) =~= self.names@);
        while i < self.names.len()
            invariant
                i <= self.names.len(),
                named(self.names@, name@) == named(self.names@.skip(i as int), name@),
            decreases self.names.len() - i,
        {
            proof {
                assert(self.names@.skip(i as int)[0] == self.names@[i as int]);
                assert(self.names@.skip(i as int).drop_first() =~= self.names@.skip(i + 1));
            }
            if self.names[i].0 == *name {
                return Some(self.names[i].1);
            }
            i += 1;
        }
        None
    }

    /// The template of the kind that level data calls `doomednum`, if there
    /// is one.
    pub fn doomednum(&self, doomednum: u16) -> (r: Option<AssetHandle>)
        ensures
            r == (if self.doomednums@.contains_key(doomednum) {
                Some(self.doomednums@[doomednum])
            } else {
                None
            }),
    {
        match self.doomednums.get(&doomednum) {
            Some(h) => Some(*h),
            None => None,
        }
    }
}

/// The kinds of special linedef, each with its template, by the number that
/// level data uses for it.
pub struct LinedefTypes {
    pub doomednums: HashMap<u16, AssetHandle>,
}

/// The kinds of special sector, each with its template, by the number that
/// level data uses for it.
pub struct SectorTypes {
    pub doomednums: HashMap<u16, AssetHandle>,
}

impl LinedefTypes {
    /// A table without entries.
    pub fn new() -> (t: LinedefTypes)
        ensures
            t.doomednums@ == Map::<u16, AssetHandle>::empty(),
    {
        LinedefTypes { doomednums: HashMap::new() }
    }

    /// Enters the template for the kind that level data calls `doomednum`,
    /// in place of the one it had, if any.
    pub fn insert(&mut self, doomednum: u16, handle: AssetHandle)
        ensures
            final(self).doomednums@ == old(self).doomednums@.insert(doomednum, handle),
    {
        self.doomednums.insert(doomednum, handle);
    }
}

impl SectorTypes {
    /// A table without entries.
    pub fn new() -> (t: SectorTypes)
        ensures
            t.doomednums@ == Map::<u16, AssetHandle>::empty(),
    {
        SectorTypes { doomednums: HashMap::new() }
    }

    /// Enters the template for the kind that level data calls `doomednum`,
    /// in place of the one it had, if any.
    pub fn insert(&mut self, doomednum: u16, handle: AssetHandle)
        ensures
            final(self).doomednums@ == old(self).doomednums@.insert(doomednum, handle),
    {
        self.doomednums.insert(doomednum, handle);
    }
}

/// The entry of `table` for `number`, if there is one.
pub fn lookup(table: &HashMap<u16, AssetHandle>, number: u16) -> (r: Option<AssetHandle>)
    ensures
        r == (if table@.contains_key(number) {
            Some(table@[number])
        } else {
            None
        }),
{
    match table.get(&number) {
        Some(h) => Some(*h),
        None => None,
    }
}

} // verus!

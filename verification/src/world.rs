use vstd::prelude::*;

verus! {

/// A named world: a placeholder for a dimension's data.
#[derive(Debug)]
pub struct World {
    pub name: String,
}

impl World {
    pub fn new(name: String) -> (r: Self)
        ensures
            r.name@ == name@,
    {
        World { name }
    }

    /// The world under the default name.
    pub fn default() -> (r: Self)
        ensures
            r.name@ == "world"@,
    {
        World { name: "world".to_owned() }
    }
}

/// A named Minecraft world or dimension.
#[derive(Debug)]
pub struct MinecraftWorld {
    pub name: String,
}

impl MinecraftWorld {
    pub fn new(name: String) -> (r: Self)
        ensures
            r.name@ == name@,
    {
        MinecraftWorld { name }
    }
}

impl Default for MinecraftWorld {
    /// The world named after the last segment of the default world path.
    fn default() -> (r: Self)
        ensures
            r.name@ == "world"@,
    {
        MinecraftWorld { name: "world".to_owned() }
    }
}

} // verus!

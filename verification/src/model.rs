//! Blueprint values as the workers carry them.

use std::collections::HashMap;
use vstd::prelude::*;
use vstd::std_specs::convert::FromSpecImpl;

use crate::library;

verus! {

/// Version stamped on blueprints built through [`Blueprint::new`].
pub const ASSET_VERSION: &'static str = "v1.0.0";

/// A quantity of one resource, as a blueprint's cost lists it.
#[derive(Debug)]
pub struct ResourceValue {
    pub name: String,
    pub slug: String,
    pub value: u64,
    pub temporary: bool,
}

impl Clone for ResourceValue {
    fn clone(&self) -> (res: Self)
        ensures
            res == *self,
    {
        ResourceValue {
            name: self.name.clone(),
            slug: self.slug.clone(),
            value: self.value,
            temporary: self.temporary,
        }
    }
}

/// What a worker builds: its names, how many ticks it takes, and its cost.
#[derive(Debug)]
pub struct Blueprint {
    pub name: String,
    pub slug: String,
    pub version: String,
    pub ticks: u64,
    pub cost: HashMap<String, ResourceValue>,
}

/// The mathematical content of a [`Blueprint`].
pub struct BlueprintView {
    pub name: Seq<char>,
    pub slug: Seq<char>,
    pub version: Seq<char>,
    pub ticks: u64,
    pub cost: Map<String, ResourceValue>,
}

impl View for Blueprint {
    type V = BlueprintView;

    open spec fn view(&self) -> BlueprintView {
        BlueprintView {
            name: self.name@,
            slug: self.slug@,
            version: self.version@,
            ticks: self.ticks,
            cost: self.cost@,
        }
    }
}

impl Clone for Blueprint {
    fn clone(&self) -> (res: Self)
        ensures
            res@ == self@,
    {
        Blueprint {
            name: self.name.clone(),
            slug: self.slug.clone(),
            version: self.version.clone(),
            ticks: self.ticks,
            cost: self.cost.clone(),
        }
    }
}

impl Blueprint {
    /// A blueprint stamped with [`ASSET_VERSION`].
    pub fn new(name: String, slug: String, ticks: u64, cost: HashMap<String, ResourceValue>) -> (res:
        Self)
        ensures
            res.name == name,
            res.slug == slug,
            res.version@ == ASSET_VERSION@,
            res.ticks == ticks,
            res.cost == cost,
    {
        Blueprint { name, slug, version: String::from_str(ASSET_VERSION), ticks, cost }
    }
}

/// The blueprint that a catalogue entry describes.
pub open spec fn from_library(b: library::Blueprint) -> Blueprint {
    match b {
        library::Blueprint::Building(b) => Blueprint {
            name: b.name,
            slug: b.slug,
            version: b.version,
            ticks: b.ticks,
            cost: b.cost,
        },
    }
}

impl From<library::Blueprint> for Blueprint {
    fn from(blueprint: library::Blueprint) -> (res: Self) {
        match blueprint {
            library::Blueprint::Building(b) => Blueprint {
                name: b.name,
                slug: b.slug,
                version: b.version,
                ticks: b.ticks,
                cost: b.cost,
            },
        }
    }
}

impl FromSpecImpl<library::Blueprint> for Blueprint {
    open spec fn obeys_from_spec() -> bool {
        true
    }

    open spec fn from_spec(v: library::Blueprint) -> Blueprint {
        from_library(v)
    }
}

/// Converting a catalogue entry keeps every field but its attributes, which
/// workers do not carry.
pub proof fn lemma_from_library_keeps_view(b: library::Blueprint)
    ensures
        from_library(b)@ == b@.blueprint(),
{
}

} // verus!

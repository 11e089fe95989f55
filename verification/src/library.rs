//! The catalogue of blueprints that players can build.

use std::collections::HashMap;
use vstd::prelude::*;

pub use crate::model::ResourceValue;
use crate::keyed::{keys_distinct, lemma_put_keeps_keys_distinct, put_at};
use crate::model::BlueprintView;

verus! {

/// A building as the catalogue describes it.
#[derive(Debug)]
pub struct Building {
    /// unique identifier of the building
    pub slug: String,
    pub name: String,
    pub version: String,
    pub ticks: u64,
    pub cost: HashMap<String, ResourceValue>,
    pub attributes: HashMap<String, AttributeType>,
}

/// The mathematical content of a catalogue entry.
pub struct EntryView {
    pub name: Seq<char>,
    pub slug: Seq<char>,
    pub version: Seq<char>,
    pub ticks: u64,
    pub cost: Map<String, ResourceValue>,
    pub attributes: Map<String, AttributeType>,
}

impl EntryView {
    /// The entry as a blueprint that workers carry: all but its attributes.
    pub open spec fn blueprint(self) -> BlueprintView {
        BlueprintView {
            name: self.name,
            slug: self.slug,
            version: self.version,
            ticks: self.ticks,
            cost: self.cost,
        }
    }
}

/// A named attribute value.
#[derive(Debug, Clone)]
pub struct Attribute<T> {
    pub name: String,
    pub value: T,
}

/// An attribute of a catalogue entry. A floating-point value is held as its
/// bit pattern, as `f64::to_bits` gives it.
#[derive(Debug, Clone)]
pub enum AttributeType {
    String(Attribute<String>),
    Number(Attribute<u64>),
    Boolean(Attribute<bool>),
    Float(Attribute<u64>),
}

/// A catalogue entry.
#[derive(Debug)]
pub enum Blueprint {
    Building(Building),
}

impl View for Blueprint {
    type V = EntryView;

    open spec fn view(&self) -> EntryView {
        match self {
            Blueprint::Building(b) => EntryView {
                name: b.name@,
                slug: b.slug@,
                version: b.version@,
                ticks: b.ticks,
                cost: b.cost@,
                attributes: b.attributes@,
            },
        }
    }
}

impl Clone for Blueprint {
    fn clone(&self) -> (res: Self)
        ensures
            res@ == self@,
    {
        match self {
            Blueprint::Building(b) => Blueprint::Building(
                Building {
                    slug: b.slug.clone(),
                    name: b.name.clone(),
                    version: b.version.clone(),
                    ticks: b.ticks,
                    cost: b.cost.clone(),
                    attributes: b.attributes.clone(),
                },
            ),
        }
    }
}

impl Blueprint {
    pub fn name(&self) -> (s: String)
        ensures
            s@ == self@.name,
    {
        match self {
            Blueprint::Building(b) => b.name.clone(),
        }
    }

    pub fn slug(&self) -> (s: String)
        ensures
            s@ == self@.slug,
    {
        match self {
            Blueprint::Building(b) => b.slug.clone(),
        }
    }

    pub fn version(&self) -> (s: String)
        ensures
            s@ == self@.version,
    {
        match self {
            Blueprint::Building(b) => b.version.clone(),
        }
    }

    pub fn ticks(&self) -> (t: u64)
        ensures
            t == self@.ticks,
    {
        match self {
            Blueprint::Building(b) => b.ticks,
        }
    }

    pub fn cost(&self) -> (c: &HashMap<String, ResourceValue>)
        ensures
            c@ == self@.cost,
    {
        match self {
            Blueprint::Building(b) => &b.cost,
        }
    }

    pub fn attributes(&self) -> (a: &HashMap<String, AttributeType>)
        ensures
            a@ == self@.attributes,
    {
        match self {
            Blueprint::Building(b) => &b.attributes,
        }
    }
}

/// The kinds of catalogue entries, as the catalogue's directories name them.
#[derive(Debug, Clone, Copy, PartialEq, Eq, Structural)]
pub enum BlueprintKind {
    Building,
}

/// The kind of entries a catalogue directory holds: only `building` is known.
pub fn blueprint_kind(dir_name: &str) -> (kind: Option<BlueprintKind>)
    ensures
        kind == (if dir_name@ == seq!['b', 'u', 'i', 'l', 'd', 'i', 'n', 'g'] {
            Some(BlueprintKind::Building)
        } else {
            None::<BlueprintKind>
        }),
{
    let n = dir_name.unicode_len();
    if n != 8 {
        return None;
    }
    let expected = ['b', 'u', 'i', 'l', 'd', 'i', 'n', 'g'];
    let mut i: usize = 0;
    while i < 8
        invariant
            n == dir_name@.len(),
            n == 8,
            i <= 8,
            expected@ == seq!['b', 'u', 'i', 'l', 'd', 'i', 'n', 'g'],
            forall|j: int| 0 <= j < i ==> dir_name@[j] == expected@[j],
        decreases 8 - i,
    {
        if dir_name.get_char(i) != expected[i] {
            return None;
        }
        i = i + 1;
    }
    assert(dir_name@ =~= seq!['b', 'u', 'i', 'l', 'd', 'i', 'n', 'g']);
    Some(BlueprintKind::Building)
}

/// Whether a file name has the extension `json`, as `Path::extension` reads it:
/// the name ends in `.json` and something comes before that dot.
pub open spec fn is_json_file_name(name: Seq<char>) -> bool {
    &&& name.len() > 5
    &&& name.subrange(name.len() - 5, name.len() as int) == seq!['.', 'j', 's', 'o', 'n']
}

/// Whether a catalogue file holds a blueprint in JSON.
pub fn has_json_extension(file_name: &str) -> (b: bool)
    ensures
        b == is_json_file_name(file_name@),
{
    let n = file_name.unicode_len();
    if n <= 5 {
        return false;
    }
    let expected = ['.', 'j', 's', 'o', 'n'];
    let mut i: usize = 0;
    while i < 5
        invariant
            n == file_name@.len(),
            n > 5,
            i <= 5,
            expected@ == seq!['.', 'j', 's', 'o', 'n'],
            forall|j: int| 0 <= j < i ==> file_name@[n - 5 + j] == expected@[j],
        decreases 5 - i,
    {
        if file_name.get_char(n - 5 + i) != expected[i] {
            assert(file_name@.subrange(n - 5, n as int)[i as int] != expected@[i as int]);
            return false;
        }
        i = i + 1;
    }
    assert(file_name@.subrange(n - 5, n as int) =~= seq!['.', 'j', 's', 'o', 'n']);
    true
}

/// Whether some blueprint of `bps` has slug `slug`.
pub open spec fn has_slug(bps: Seq<EntryView>, slug: Seq<char>) -> bool {
    exists|i: int| 0 <= i < bps.len() && bps[i].slug == slug
}

/// The position of the blueprint with slug `slug` (meaningful where there is one).
pub open spec fn slug_index(bps: Seq<EntryView>, slug: Seq<char>) -> int {
    choose|i: int| 0 <= i < bps.len() && bps[i].slug == slug
}

/// No two blueprints of `bps` share a slug.
pub open spec fn slugs_distinct(bps: Seq<EntryView>) -> bool {
    keys_distinct(bps, |b: EntryView| b.slug)
}

/// `bps` with `b` in place of the blueprint with the same slug, or added at the end.
pub open spec fn insert_blueprint(bps: Seq<EntryView>, b: EntryView) -> Seq<EntryView> {
    if has_slug(bps, b.slug) {
        bps.update(slug_index(bps, b.slug), b)
    } else {
        bps.push(b)
    }
}

/// The blueprint with slug `slug`, if any.
pub open spec fn lookup_slug(bps: Seq<EntryView>, slug: Seq<char>) -> Option<EntryView> {
    if has_slug(bps, slug) {
        Some(bps[slug_index(bps, slug)])
    } else {
        None
    }
}

/// A blueprint added under its slug is what a lookup of that slug finds; the
/// lookups of all other slugs are as before.
pub proof fn lemma_lookup_after_insert(bps: Seq<EntryView>, b: EntryView, other: Seq<char>)
    requires
        slugs_distinct(bps),
    ensures
        slugs_distinct(insert_blueprint(bps, b)),
        lookup_slug(insert_blueprint(bps, b), b.slug) == Some(b),
        other != b.slug ==> lookup_slug(insert_blueprint(bps, b), other) == lookup_slug(bps, other),
{
    let a = insert_blueprint(bps, b);
    let k = if has_slug(bps, b.slug) {
        slug_index(bps, b.slug)
    } else {
        bps.len() as int
    };
    assert(a == put_at(bps, k, b));
    lemma_put_keeps_keys_distinct(bps, |v: EntryView| v.slug, k, b);
    assert(a[k] == b);
    assert(has_slug(a, b.slug));
    let j = slug_index(a, b.slug);
    assert(a[j].slug == b.slug);
    assert(j == k);
    if other != b.slug {
        if has_slug(bps, other) {
            let m = slug_index(bps, other);
            assert(m != k);
            assert(a[m] == bps[m]);
            assert(has_slug(a, other));
            let m2 = slug_index(a, other);
            assert(a[m2].slug == other);
            assert(m2 == m);
        } else {
            if has_slug(a, other) {
                let m2 = slug_index(a, other);
                assert(m2 != k);
                assert(a[m2] == bps[m2]);
                assert(false);
            }
        }
    }
}

/// Blueprints by slug.
#[derive(Debug)]
pub struct Collection {
    blueprints: Vec<Blueprint>,
}

impl View for Collection {
    type V = Seq<EntryView>;

    closed spec fn view(&self) -> Seq<EntryView> {
        self.blueprints@.map_values(|b: Blueprint| b@)
    }
}

impl Collection {
    pub open spec fn wf(&self) -> bool {
        slugs_distinct(self@)
    }

    /// An empty catalogue.
    pub fn new() -> (c: Self)
        ensures
            c@ == Seq::<EntryView>::empty(),
            c.wf(),
    {
        let c = Collection { blueprints: Vec::new() };
        assert(c@ =~= Seq::<EntryView>::empty());
        c
    }

    fn find(&self, slug: &String) -> (r: Option<usize>)
        requires
            self.wf(),
        ensures
            r is Some <==> has_slug(self@, slug@),
            r matches Some(i) ==> i < self@.len() && slug_index(self@, slug@) == i,
    {
        let mut i: usize = 0;
        while i < self.blueprints.len()
            invariant
                i <= self.blueprints.len(),
                self.wf(),
                forall|j: int| 0 <= j < i ==> #[trigger] self@[j].slug != slug@,
            decreases self.blueprints.len() - i,
        {
            let s = self.blueprints[i].slug();
            if s == *slug {
                assert(self@[i as int].slug == slug@);
                let ghost k = slug_index(self@, slug@);
                assert(0 <= k < self@.len() && self@[k].slug == slug@);
                return Some(i);
            }
            i = i + 1;
        }
        None
    }

    /// Adds a building under its slug, in place of any blueprint with that slug.
    pub fn insert_building(&mut self, building: Building)
        requires
            old(self).wf(),
        ensures
            final(self).wf(),
            final(self)@ == insert_blueprint(old(self)@, Blueprint::Building(building)@),
    {
        let blueprint = Blueprint::Building(building);
        let ghost b = blueprint@;
        let slug = blueprint.slug();
        match self.find(&slug) {
            Some(i) => {
                self.blueprints.set(i, blueprint);
                assert(self@ =~= old(self)@.update(i as int, b));
            },
            None => {
                self.blueprints.push(blueprint);
                assert(self@ =~= old(self)@.push(b));
            },
        }
        proof {
            lemma_lookup_after_insert(old(self)@, b, b.slug);
        }
    }

    /// A copy of the blueprint with slug `slug`, if the catalogue has one.
    pub fn get_blueprint(&self, slug: &str) -> (r: Option<Blueprint>)
        requires
            self.wf(),
        ensures
            r is Some <==> has_slug(self@, slug@),
            r matches Some(b) ==> b@ == lookup_slug(self@, slug@)->0,
    {
        let key = String::from_str(slug);
        match self.find(&key) {
            Some(i) => Some(self.blueprints[i].clone()),
            None => None,
        }
    }

    /// The slugs of all blueprints, in catalogue order.
    pub fn keys(&self) -> (keys: Vec<&String>)
        ensures
            keys@.len() == self@.len(),
            forall|i: int| 0 <= i < keys@.len() ==> (#[trigger] keys@[i])@ == self@[i].slug,
    {
        let mut keys: Vec<&String> = Vec::new();
        let mut i: usize = 0;
        while i < self.blueprints.len()
            invariant
                i <= self.blueprints.len(),
                keys@.len() == i,
                forall|j: int| 0 <= j < i ==> (#[trigger] keys@[j])@ == self@[j].slug,
            decreases self.blueprints.len() - i,
        {
            match &self.blueprints[i] {
                Blueprint::Building(b) => keys.push(&b.slug),
            }
            i = i + 1;
        }
        keys
    }
}

impl Default for Collection {
    fn default() -> (c: Self)
        ensures
            c@ == Seq::<EntryView>::empty(),
            c.wf(),
    {
        Collection::new()
    }
}

} // verus!

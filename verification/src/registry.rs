//! A registry of resources: each added resource gets a fresh opaque handle,
//! and a resource may also be registered under a name and found by it later.

use vstd::prelude::*;
use vstd::string::*;

use crate::ast::{entries_map, lemma_entries_map_at, lemma_entries_map_contains,
    lemma_entries_map_update, unique_keys};

verus! {

/// An opaque handle into a resource manager: a wrapped index.
pub trait OpaqueId: Copy + Sized {
    /// The index this handle stands for.
    spec fn id_spec(&self) -> usize;

    fn new(id: usize) -> (r: Self)
        ensures
            r.id_spec() == id,
    ;

    fn as_usize(&self) -> (r: usize)
        ensures
            r == self.id_spec(),
    ;
}

/// Opaque reference to a mesh within the manager.
#[derive(Copy, Clone, Debug)]
pub struct MeshId(pub usize);

/// Opaque reference to a texture within the manager.
#[derive(Copy, Clone, Debug)]
pub struct TextureId(pub usize);

/// Opaque reference to a shader program within the manager.
#[derive(Copy, Clone, Debug)]
pub struct ProgramId(pub usize);

/// Opaque reference to a font within the manager.
#[derive(Copy, Clone, Debug)]
pub struct FontId(pub usize);

impl OpaqueId for MeshId {
    open spec fn id_spec(&self) -> usize {
        self.0
    }

    fn new(id: usize) -> Self {
        MeshId(id)
    }

    fn as_usize(&self) -> usize {
        self.0
    }
}

impl OpaqueId for TextureId {
    open spec fn id_spec(&self) -> usize {
        self.0
    }

    fn new(id: usize) -> Self {
        TextureId(id)
    }

    fn as_usize(&self) -> usize {
        self.0
    }
}

impl OpaqueId for ProgramId {
    open spec fn id_spec(&self) -> usize {
        self.0
    }

    fn new(id: usize) -> Self {
        ProgramId(id)
    }

    fn as_usize(&self) -> usize {
        self.0
    }
}

impl OpaqueId for FontId {
    open spec fn id_spec(&self) -> usize {
        self.0
    }

    fn new(id: usize) -> Self {
        FontId(id)
    }

    fn as_usize(&self) -> usize {
        self.0
    }
}

/// The attribute slot a piece of mesh geometry occupies.
#[derive(Copy, Clone, Debug, PartialEq, Eq, Structural)]
pub enum GeometryDataIndex {
    Vertex,
    Normal,
    Texture,
    Color,
}

/// Widen mesh indices from 16 to 32 bits, keeping order and values.
pub fn vec_u32_from_vec_u16(input: &Vec<u16>) -> (r: Vec<u32>)
    ensures
        r@.len() == input@.len(),
        forall|i: int| 0 <= i < input@.len() ==> r@[i] == input@[i] as u32,
{
    let mut retval: Vec<u32> = Vec::new();
    let n = input.len();
    let mut i: usize = 0;
    while i < n
        invariant
            n == input@.len(),
            0 <= i <= n,
            retval@.len() == i,
            forall|j: int| 0 <= j < i ==> retval@[j] == input@[j] as u32,
        decreases n - i,
    {
        retval.push(input[i] as u32);
        i = i + 1;
    }
    retval
}

/// Whether two string slices hold the same characters.
fn str_eq(a: &str, b: &str) -> (r: bool)
    ensures
        r == (a@ == b@),
{
    let s1 = String::from_str(a);
    let s2 = String::from_str(b);
    s1 == s2
}

/// Stores resources of one kind; resources are reached by the handle that
/// `add` returned, or through the name they were registered under.
pub struct ResourceManager<Resource, Id: OpaqueId> {
    resources: Vec<Resource>,
    keys: Vec<(&'static str, Id)>,
}

impl<Resource, Id: OpaqueId> ResourceManager<Resource, Id> {
    /// The stored resources, in the order they were added.
    pub closed spec fn resources_view(&self) -> Seq<Resource> {
        self.resources@
    }

    /// The name table: name text to handle.
    pub closed spec fn key_entries(&self) -> Seq<(Seq<char>, Id)> {
        Seq::new(self.keys@.len(), |i: int| (self.keys@[i].0@, self.keys@[i].1))
    }

    /// No name is registered twice.
    pub open spec fn wf(&self) -> bool {
        unique_keys(self.key_entries())
    }

    pub fn new() -> (r: Self)
        ensures
            r.resources_view() =~= Seq::<Resource>::empty(),
            r.key_entries() =~= Seq::<(Seq<char>, Id)>::empty(),
            r.wf(),
    {
        Self { resources: Vec::new(), keys: Vec::new() }
    }

    /// Add a resource, returning its fresh handle; under `Some(name)` the
    /// handle is also registered by name, replacing an earlier registration
    /// of the same name.
    pub fn add(&mut self, res: Resource, name: Option<&'static str>) -> (id: Id)
        requires
            old(self).wf(),
        ensures
            final (self).wf(),
            final (self).resources_view() == old(self).resources_view().push(res),
            id.id_spec() == old(self).resources_view().len(),
            match name {
                Some(n) => entries_map(final (self).key_entries()) == entries_map(
                    old(self).key_entries(),
                ).insert(n@, id),
                None => final (self).key_entries() == old(self).key_entries(),
            },
    {
        let id = Id::new(self.resources.len());
        self.resources.push(res);
        if name.is_some() {
            let n: &'static str = name.unwrap();
            let count = self.keys.len();
            let mut i: usize = 0;
            proof {
                assert(self.key_entries() =~= old(self).key_entries());
            }
            while i < count
                invariant
                    name == Some(n),
                    count == self.keys@.len(),
                    0 <= i <= count,
                    self.keys@ == old(self).keys@,
                    self.key_entries() == old(self).key_entries(),
                    self.resources@ == old(self).resources@.push(res),
                    unique_keys(self.key_entries()),
                    id.id_spec() == old(self).resources_view().len(),
                    forall|j: int| 0 <= j < i ==> self.key_entries()[j].0 != n@,
                decreases count - i,
            {
                let (key_name, _key_id) = self.keys[i];
                if str_eq(key_name, n) {
                    proof {
                        let oldes = old(self).key_entries();
                        assert(oldes[i as int].0 == n@);
                        lemma_entries_map_update(oldes, i as int, id);
                    }
                    self.keys[i] = (n, id);
                    proof {
                        let oldes = old(self).key_entries();
                        assert(self.key_entries() =~= oldes.update(i as int, (n@, id)));
                        assert((n@, id) == (oldes[i as int].0, id));
                        assert(oldes.update(i as int, (n@, id)) == oldes.update(
                            i as int,
                            (oldes[i as int].0, id),
                        ));
                        assert(entries_map(self.key_entries()) == entries_map(oldes).insert(
                            n@,
                            id,
                        ));
                        let es = self.key_entries();
                        assert forall|a: int, b: int| 0 <= a < b < es.len() implies es[a].0
                            != es[b].0 by {
                            assert(es[a].0 == oldes[a].0);
                            assert(es[b].0 == oldes[b].0);
                        }
                    }
                    return id;
                }
                i = i + 1;
            }
            proof {
                lemma_entries_map_contains(self.key_entries(), n@);
                assert(!entries_map(self.key_entries()).dom().contains(n@));
            }
            let ghost pre = self.key_entries();
            self.keys.push((n, id));
            proof {
                assert(self.key_entries() =~= pre.push((n@, id)));
                assert(self.key_entries().drop_last() =~= pre);
                let es = self.key_entries();
                assert forall|a: int, b: int| 0 <= a < b < es.len() implies es[a].0 != es[b].0 by {
                    if b < pre.len() {
                        assert(es[a] == pre[a] && es[b] == pre[b]);
                    } else {
                        assert(es[a] == pre[a]);
                        assert(es[b] == (n@, id));
                    }
                }
            }
        }
        id
    }

    /// The resource a handle refers to, if the handle is in range.
    pub fn get_from_id(&self, id: Id) -> (r: Option<&Resource>)
        ensures
            match r {
                Some(res) => id.id_spec() < self.resources_view().len() && *res
                    == self.resources_view()[id.id_spec() as int],
                None => id.id_spec() >= self.resources_view().len(),
            },
    {
        let idx = id.as_usize();
        if idx < self.resources.len() {
            Some(&self.resources[idx])
        } else {
            None
        }
    }

    /// The handle registered under a name, if any.
    pub fn get_id_from_name(&self, name: &'static str) -> (r: Option<Id>)
        requires
            self.wf(),
        ensures
            match r {
                Some(id) => entries_map(self.key_entries()).dom().contains(name@) && entries_map(
                    self.key_entries(),
                )[name@] == id,
                None => !entries_map(self.key_entries()).dom().contains(name@),
            },
    {
        let count = self.keys.len();
        let mut i: usize = 0;
        while i < count
            invariant
                count == self.keys@.len(),
                0 <= i <= count,
                unique_keys(self.key_entries()),
                forall|j: int| 0 <= j < i ==> self.key_entries()[j].0 != name@,
            decreases count - i,
        {
            let (key_name, key_id) = self.keys[i];
            if str_eq(key_name, name) {
                proof {
                    assert(self.key_entries()[i as int].0 == name@);
                    lemma_entries_map_at(self.key_entries(), i as int);
                }
                return Some(key_id);
            }
            i = i + 1;
        }
        proof {
            lemma_entries_map_contains(self.key_entries(), name@);
        }
        None
    }
}

impl<Resource, Id: OpaqueId> Default for ResourceManager<Resource, Id> {
    fn default() -> (r: Self)
        ensures
            r.resources_view() =~= Seq::<Resource>::empty(),
            r.key_entries() =~= Seq::<(Seq<char>, Id)>::empty(),
            r.wf(),
    {
        Self { resources: Vec::new(), keys: Vec::new() }
    }
}

} // verus!

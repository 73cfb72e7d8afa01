//! Atom interning, truthiness of atoms, and the resource registry.

use karta::atoms::AtomTable;
use karta::file::KartaFile;
use karta::registry::{
    vec_u32_from_vec_u16, GeometryDataIndex, MeshId, OpaqueId, ProgramId, ResourceManager,
    TextureId,
};

fn doc(src: &str) -> KartaFile {
    KartaFile::new(String::from(src)).expect("source should parse")
}

#[test]
fn interning_same_text_yields_same_handle() {
    let mut t = AtomTable::new();
    let a = t.intern(String::from(".alpha"));
    let b = t.intern(String::from(".alpha"));
    assert_eq!(a.as_usize(), b.as_usize());
}

#[test]
fn interning_distinct_text_yields_distinct_handles() {
    let mut t = AtomTable::new();
    let a = t.intern(String::from(".alpha"));
    let b = t.intern(String::from(".beta"));
    let a2 = t.intern(String::from(".alpha"));
    assert_ne!(a.as_usize(), b.as_usize());
    assert_eq!(a.as_usize(), a2.as_usize());
    assert_eq!(t.len(), 2);
}

#[test]
fn builtin_atoms_are_interned_in_order() {
    let d = doc(".t");
    assert_eq!(d.atoms.find(".nil").unwrap().as_usize(), 0);
    assert_eq!(d.atoms.find(".t").unwrap().as_usize(), 1);
    assert_eq!(d.atoms.find(".head").unwrap().as_usize(), 2);
    assert_eq!(d.atoms.find(".tail").unwrap().as_usize(), 3);
}

#[test]
fn nil_is_falsey_and_t_is_truthy() {
    assert_eq!(doc(".nil").query().truthy(), Ok(false));
    assert_eq!(doc(".nil").query().falsey(), Ok(true));
    assert_eq!(doc(".t").query().truthy(), Ok(true));
    assert_eq!(doc(".t").query().falsey(), Ok(false));
}

#[test]
fn any_other_atom_is_truthy() {
    assert_eq!(doc(".something-else?").query().truthy(), Ok(true));
}

#[test]
fn non_atom_values_are_truthy() {
    assert_eq!(doc("0").query().truthy(), Ok(true));
    assert_eq!(doc("\"\"").query().truthy(), Ok(true));
    assert_eq!(doc("{ .a = 1 }").query().truthy(), Ok(true));
}

#[test]
fn truthy_propagates_query_errors() {
    let d = doc("1");
    let e = d.query().get_field(".t").truthy().err().unwrap();
    assert_eq!(e.message(), "cannot call `get` on Int type AST");
}

#[test]
fn registry_add_and_get_from_id() {
    let mut m: ResourceManager<u32, MeshId> = ResourceManager::new();
    let a = m.add(10, None);
    let b = m.add(20, Some("second"));
    assert_eq!(a.as_usize(), 0);
    assert_eq!(b.as_usize(), 1);
    assert_eq!(m.get_from_id(a), Some(&10));
    assert_eq!(m.get_from_id(b), Some(&20));
    assert_eq!(m.get_from_id(MeshId::new(2)), None);
}

#[test]
fn registry_get_id_from_name() {
    let mut m: ResourceManager<&'static str, TextureId> = ResourceManager::new();
    m.add("unnamed", None);
    let t = m.add("grass", Some("grass"));
    assert_eq!(m.get_id_from_name("grass").unwrap().as_usize(), t.as_usize());
    assert!(m.get_id_from_name("stone").is_none());
}

#[test]
fn registry_name_can_be_rebound() {
    let mut m: ResourceManager<u32, ProgramId> = ResourceManager::new();
    let first = m.add(1, Some("main"));
    let second = m.add(2, Some("main"));
    assert_ne!(first.as_usize(), second.as_usize());
    let found = m.get_id_from_name("main").unwrap();
    assert_eq!(found.as_usize(), second.as_usize());
}

#[test]
fn registry_default_is_empty() {
    let m: ResourceManager<u32, MeshId> = ResourceManager::default();
    assert!(m.get_from_id(MeshId::new(0)).is_none());
    assert!(m.get_id_from_name("anything").is_none());
}

#[test]
fn indices_widen_exactly() {
    let input: Vec<u16> = vec![0, 1, 65535, 7];
    let widened = vec_u32_from_vec_u16(&input);
    assert_eq!(widened, vec![0u32, 1, 65535, 7]);
    assert!(vec_u32_from_vec_u16(&Vec::new()).is_empty());
}

#[test]
fn geometry_data_index_variants_are_distinct() {
    assert_ne!(GeometryDataIndex::Vertex, GeometryDataIndex::Normal);
    assert_ne!(GeometryDataIndex::Texture, GeometryDataIndex::Color);
}

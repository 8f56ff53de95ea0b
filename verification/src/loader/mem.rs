//! In-memory loader.
use crate::certificate::{Certificate, CertificateValue};
use crate::hash::{
    certificate_map_contents, certificate_map_entries, certificate_map_get,
    certificate_map_insert, certificate_map_new, certificate_map_remove, entry_keys,
    CertificateMap,
};
use crate::id::NameBytes;
use crate::loader::{entry_ids, Loader};
use vstd::prelude::*;

verus! {

/// Memory-only certificate loader. Stores the certificates in a hash map,
/// each under the encoding of a name.
#[derive(Debug)]
pub struct MemLoader {
    map: CertificateMap,
}

impl MemLoader {
    /// A loader that holds nothing.
    pub fn new() -> (loader: MemLoader)
        ensures
            loader.contents() == Map::<Seq<u8>, CertificateValue>::empty(),
    {
        MemLoader { map: certificate_map_new() }
    }
}

impl Default for MemLoader {
    fn default() -> (loader: MemLoader)
        ensures
            loader.contents() == Map::<Seq<u8>, CertificateValue>::empty(),
    {
        MemLoader::new()
    }
}

impl Loader<NameBytes> for MemLoader {
    closed spec fn contents(&self) -> Map<Seq<u8>, CertificateValue> {
        certificate_map_contents(self.map)
    }

    fn empty() -> (loader: MemLoader) {
        MemLoader::new()
    }

    fn insert(&mut self, id: NameBytes, cert: Certificate) -> (previous: Option<Certificate>) {
        certificate_map_insert(&mut self.map, id.into_bytes(), cert)
    }

    fn remove(&mut self, id: &NameBytes) -> (previous: Option<Certificate>) {
        certificate_map_remove(&mut self.map, id.as_bytes())
    }

    fn get(&self, id: &NameBytes) -> (found: Option<&Certificate>) {
        certificate_map_get(&self.map, id.as_bytes())
    }

    fn iter(&self) -> (entries: Vec<(NameBytes, &Certificate)>) {
        let raw = certificate_map_entries(&self.map);
        let mut entries: Vec<(NameBytes, &Certificate)> = Vec::new();
        let mut i: usize = 0;
        while i < raw.len()
            invariant
                i <= raw@.len(),
                entries@.len() == i,
                forall|j: int|
                    0 <= j < i ==> (#[trigger] entries@[j]).0@ == raw@[j].0@ && entries@[j].1
                        == raw@[j].1,
            decreases raw@.len() - i,
        {
            let certificate: &Certificate = raw[i].1;
            entries.push((NameBytes::from_encoded(raw[i].0.as_slice()), certificate));
            i += 1;
        }
        proof {
            assert(entry_ids(entries@) =~= entry_keys(raw@));
            assert forall|j: int| 0 <= j < entries@.len() implies self.contents()[
                #[trigger] entries@[j].0@
            ] == entries@[j].1@ by {
                assert(raw@[j].0@ == entries@[j].0@);
            }
        }
        entries
    }
}

} // verus!

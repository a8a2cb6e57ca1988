//! The driver directory: the cell into which each driver last published.

use crate::address::Address;
use crate::assoc::{assoc, lemma_assoc_at, lemma_assoc_push, lemma_assoc_update};
use vstd::prelude::*;

verus! {

/// A driver with the cell of the last publication.
pub struct DirectoryEntry {
    address: Address,
    geohash: String,
}

/// A map from driver to the cell of the driver's last publication. A new
/// publication overwrites the old one.
pub struct DriverDirectory {
    entries: Vec<DirectoryEntry>,
}

impl DriverDirectory {
    /// The drivers that have published.
    pub closed spec fn keys(&self) -> Seq<Address> {
        self.entries@.map_values(|e: DirectoryEntry| e.address)
    }

    /// Their cells, in the order of `keys`.
    pub closed spec fn cells(&self) -> Seq<Seq<char>> {
        self.entries@.map_values(|e: DirectoryEntry| e.geohash@)
    }

    /// No driver has two entries.
    pub closed spec fn wf(&self) -> bool {
        self.keys().no_duplicates()
    }

    /// The position of the entry of `address`.
    fn find(&self, address: &Address) -> (position: Option<usize>)
        ensures
            position matches Some(i) ==> i < self.keys().len() && self.keys()[i as int]
                == *address,
            position is None ==> !self.keys().contains(*address),
    {
        let mut i: usize = 0;
        while i < self.entries.len()
            invariant
                i <= self.entries.len(),
                forall|j: int| 0 <= j < i ==> self.keys()[j] != *address,
            decreases self.entries.len() - i,
        {
            if self.entries[i].address == *address {
                return Some(i);
            }
            i += 1;
        }
        None
    }
}

impl View for DriverDirectory {
    type V = Map<Address, Seq<char>>;

    closed spec fn view(&self) -> Map<Address, Seq<char>> {
        assoc(self.keys(), self.cells())
    }
}

impl DriverDirectory {
    /// The directory without any driver.
    pub fn new() -> (directory: DriverDirectory)
        ensures
            directory.wf(),
            directory@ == Map::<Address, Seq<char>>::empty(),
    {
        let directory = DriverDirectory { entries: Vec::new() };
        assert(directory@ =~= Map::<Address, Seq<char>>::empty());
        directory
    }

    /// The cell into which `address` last published, or `None` for a driver
    /// that never did.
    pub fn get(&self, address: &Address) -> (cell: Option<&String>)
        requires
            self.wf(),
        ensures
            cell is Some <==> self@.dom().contains(*address),
            cell matches Some(s) ==> s@ == self@[*address],
    {
        match self.find(address) {
            Some(i) => {
                proof {
                    lemma_assoc_at(self.keys(), self.cells(), i as int);
                }
                Some(&self.entries[i].geohash)
            },
            None => None,
        }
    }

    /// Records `cell` as the last publication of `address`.
    pub fn set(&mut self, address: Address, cell: String)
        requires
            old(self).wf(),
        ensures
            final(self).wf(),
            final(self)@ == old(self)@.insert(address, cell@),
    {
        let ghost before = *self;
        let ghost key = cell@;
        match self.find(&address) {
            Some(i) => {
                self.entries[i].geohash = cell;
                proof {
                    assert(self.keys() =~= before.keys());
                    assert(self.cells() =~= before.cells().update(i as int, key));
                    lemma_assoc_update(before.keys(), before.cells(), i as int, key);
                }
            },
            None => {
                self.entries.push(DirectoryEntry { address, geohash: cell });
                proof {
                    assert(self.keys() =~= before.keys().push(address));
                    assert(self.cells() =~= before.cells().push(key));
                    lemma_assoc_push(before.keys(), before.cells(), address, key);
                }
            },
        }
    }
}

} // verus!

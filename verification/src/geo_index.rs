//! The grid index: the drivers published into each geohash cell, in the order
//! of their publication.

use crate::assoc::{assoc, lemma_assoc_at, lemma_assoc_push, lemma_assoc_update};
use crate::matching::DriverLocationStorage;
use vstd::prelude::*;

verus! {

/// The entries of `cell` in a grid: those filed under it, or none.
pub open spec fn bucket(
    grid: Map<Seq<char>, Seq<DriverLocationStorage>>,
    cell: Seq<char>,
) -> Seq<DriverLocationStorage> {
    if grid.dom().contains(cell) {
        grid[cell]
    } else {
        Seq::empty()
    }
}

/// One cell of the grid with the entries published into it.
pub struct GridCell {
    geohash: String,
    drivers: Vec<DriverLocationStorage>,
}

/// The grid: a map from cell to the entries published into it. Entries are
/// appended and never removed.
pub struct GeoIndex {
    cells: Vec<GridCell>,
}

impl GeoIndex {
    /// The cells that have a bucket.
    pub closed spec fn keys(&self) -> Seq<Seq<char>> {
        self.cells@.map_values(|c: GridCell| c.geohash@)
    }

    /// The buckets, in the order of `keys`.
    pub closed spec fn buckets(&self) -> Seq<Seq<DriverLocationStorage>> {
        self.cells@.map_values(|c: GridCell| c.drivers@)
    }

    /// No cell has two buckets.
    pub closed spec fn wf(&self) -> bool {
        self.keys().no_duplicates()
    }

    /// The position of the bucket of `cell`.
    fn find(&self, cell: &String) -> (position: Option<usize>)
        ensures
            position matches Some(i) ==> i < self.keys().len() && self.keys()[i as int] == cell@,
            position is None ==> !self.keys().contains(cell@),
    {
        let mut i: usize = 0;
        while i < self.cells.len()
            invariant
                i <= self.cells.len(),
                forall|j: int| 0 <= j < i ==> self.keys()[j] != cell@,
            decreases self.cells.len() - i,
        {
            if self.cells[i].geohash == *cell {
                return Some(i);
            }
            i += 1;
        }
        None
    }
}

impl View for GeoIndex {
    type V = Map<Seq<char>, Seq<DriverLocationStorage>>;

    closed spec fn view(&self) -> Map<Seq<char>, Seq<DriverLocationStorage>> {
        assoc(self.keys(), self.buckets())
    }
}

impl GeoIndex {
    /// The grid without any entry.
    pub fn new() -> (index: GeoIndex)
        ensures
            index.wf(),
            index@ == Map::<Seq<char>, Seq<DriverLocationStorage>>::empty(),
    {
        let index = GeoIndex { cells: Vec::new() };
        assert(index@ =~= Map::<Seq<char>, Seq<DriverLocationStorage>>::empty());
        index
    }

    /// The entries published into `cell`, or `None` where there is none.
    pub fn drivers_at(&self, cell: &String) -> (entries: Option<&Vec<DriverLocationStorage>>)
        requires
            self.wf(),
        ensures
            entries is Some <==> self@.dom().contains(cell@),
            entries matches Some(v) ==> v@ == self@[cell@],
    {
        match self.find(cell) {
            Some(i) => {
                proof {
                    lemma_assoc_at(self.keys(), self.buckets(), i as int);
                }
                Some(&self.cells[i].drivers)
            },
            None => None,
        }
    }

    /// Appends `entry` to the bucket of `cell`.
    pub fn append(&mut self, cell: String, entry: DriverLocationStorage)
        requires
            old(self).wf(),
        ensures
            final(self).wf(),
            final(self)@ == old(self)@.insert(cell@, bucket(old(self)@, cell@).push(entry)),
    {
        let ghost before = *self;
        match self.find(&cell) {
            Some(i) => {
                self.cells[i].drivers.push(entry);
                proof {
                    lemma_assoc_at(before.keys(), before.buckets(), i as int);
                    assert(self.keys() =~= before.keys());
                    assert(self.buckets() =~= before.buckets().update(
                        i as int,
                        before.buckets()[i as int].push(entry),
                    ));
                    lemma_assoc_update(
                        before.keys(),
                        before.buckets(),
                        i as int,
                        before.buckets()[i as int].push(entry),
                    );
                }
            },
            None => {
                let mut drivers: Vec<DriverLocationStorage> = Vec::new();
                drivers.push(entry);
                let ghost key = cell@;
                self.cells.push(GridCell { geohash: cell, drivers });
                proof {
                    assert(self.keys() =~= before.keys().push(key));
                    assert(self.buckets() =~= before.buckets().push(seq![entry]));
                    assert(Seq::<DriverLocationStorage>::empty().push(entry) =~= seq![entry]);
                    lemma_assoc_push(before.keys(), before.buckets(), key, seq![entry]);
                }
            },
        }
    }
}

} // verus!

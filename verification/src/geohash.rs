//! Geohash cells of precision five: the cell of a location and the eight
//! cells around a cell.

use crate::codec::Fixed128;
use crate::error::GeocabError;
use crate::location::Location;
use substrate_fixed::types::I64F64;
use substrate_geohash::{GeoHash, GeohashError};
use vstd::prelude::*;
use vstd::string::StrSliceExecFns;

verus! {

/// The error type of substrate_geohash.
#[verifier::external_type_specification]
#[verifier::external_body]
pub struct ExGeohashError(GeohashError);

/// One degree as a bit pattern: two to the power 64.
pub open spec fn degree() -> int {
    0x1_0000_0000_0000_0000int
}

/// Whether the bit patterns spell a latitude of at most 90 degrees north or
/// south and a longitude of at most 180 degrees east or west.
pub open spec fn coordinates_in_range(lat: i128, lon: i128) -> bool {
    &&& -90 * degree() <= lat <= 90 * degree()
    &&& -180 * degree() <= lon <= 180 * degree()
}

/// Whether `c` belongs to the geohash alphabet: the digits and the lower-case
/// letters without `a`, `i`, `l` and `o`.
pub open spec fn is_base32_char(c: char) -> bool {
    ||| '0' <= c <= '9'
    ||| 'b' <= c <= 'h'
    ||| 'j' <= c <= 'k'
    ||| 'm' <= c <= 'n'
    ||| 'p' <= c <= 'z'
}

/// Whether `cell` names a cell of precision five: five characters of the
/// geohash alphabet.
pub open spec fn is_geohash_cell(cell: Seq<char>) -> bool {
    &&& cell.len() == 5
    &&& forall|i: int| 0 <= i < 5 ==> is_base32_char(#[trigger] cell[i])
}

/// The cell of precision five that holds the location with the given
/// latitude and longitude, for coordinates in range.
pub uninterp spec fn geohash_cell(lat: i128, lon: i128) -> Seq<char>;

/// The cells around a cell, under the names that substrate_geohash gives
/// them.
pub struct NeighborCells {
    pub sw: Seq<char>,
    pub s: Seq<char>,
    pub se: Seq<char>,
    pub w: Seq<char>,
    pub e: Seq<char>,
    pub nw: Seq<char>,
    pub n: Seq<char>,
    pub ne: Seq<char>,
}

/// The eight cells around `cell`, or `None` where one of them would lie off
/// the map.
pub uninterp spec fn geohash_neighbors(cell: Seq<char>) -> Option<NeighborCells>;

/// The cells around a cell, as strings.
pub struct Neighbors {
    pub sw: String,
    pub s: String,
    pub se: String,
    pub w: String,
    pub e: String,
    pub nw: String,
    pub n: String,
    pub ne: String,
}

impl View for Neighbors {
    type V = NeighborCells;

    open spec fn view(&self) -> NeighborCells {
        NeighborCells {
            sw: self.sw@,
            s: self.s@,
            se: self.se@,
            w: self.w@,
            e: self.e@,
            nw: self.nw@,
            n: self.n@,
            ne: self.ne@,
        }
    }
}

/// `GeoHash::<5>::try_from_params` of substrate_geohash, on the fixed-point
/// numbers with the given bit patterns. It refuses coordinates out of range
/// and no others; what it returns otherwise is five characters of the geohash
/// alphabet, named `geohash_cell`.
#[verifier::external_body]
fn geohash_try_from_params(lat: Fixed128, lon: Fixed128) -> (cell: Result<String, GeohashError>)
    ensures
        cell is Ok <==> coordinates_in_range(lat.bits, lon.bits),
        cell matches Ok(s) ==> s@ == geohash_cell(lat.bits, lon.bits) && is_geohash_cell(s@),
{
    let hash = GeoHash::<5>::try_from_params(
        I64F64::from_bits(lat.bits),
        I64F64::from_bits(lon.bits),
    )?;
    Ok(hash.into())
}

/// `GeoHash::<5>::neighbors` of substrate_geohash, on the cell that
/// `GeoHash::try_from` makes of a well-formed string. Its result is named
/// `geohash_neighbors`; it fails where a neighbour would lie off the map.
#[verifier::external_body]
fn geohash_neighbors_of(cell: &str) -> (around: Result<Neighbors, GeohashError>)
    requires
        is_geohash_cell(cell@),
    ensures
        around matches Ok(n) ==> geohash_neighbors(cell@) == Some(n@),
        around is Err ==> geohash_neighbors(cell@) is None,
{
    let n = GeoHash::<5>::try_from(cell)?.neighbors()?;
    Ok(
        Neighbors {
            sw: n.sw.into(),
            s: n.s.into(),
            se: n.se.into(),
            w: n.w.into(),
            e: n.e.into(),
            nw: n.nw.into(),
            n: n.n.into(),
            ne: n.ne.into(),
        },
    )
}

/// Whether `c` belongs to the geohash alphabet.
pub fn is_base32(c: char) -> (member: bool)
    ensures
        member == is_base32_char(c),
{
    ('0' <= c && c <= '9') || ('b' <= c && c <= 'h') || ('j' <= c && c <= 'k') || ('m' <= c && c
        <= 'n') || ('p' <= c && c <= 'z')
}

/// Whether `cell` names a cell of precision five.
pub fn is_valid_geohash(cell: &str) -> (valid: bool)
    ensures
        valid == is_geohash_cell(cell@),
{
    if cell.unicode_len() != 5 {
        return false;
    }
    let mut i: usize = 0;
    while i < 5
        invariant
            i <= 5,
            cell@.len() == 5,
            forall|j: int| 0 <= j < i ==> is_base32_char(#[trigger] cell@[j]),
        decreases 5 - i,
    {
        if !is_base32(cell.get_char(i)) {
            return false;
        }
        i += 1;
    }
    true
}

impl Location {
    /// Whether the location is on the map: a latitude of at most 90 degrees
    /// north or south and a longitude of at most 180 degrees east or west.
    pub open spec fn in_range(self) -> bool {
        coordinates_in_range(self.lat.bits, self.lon.bits)
    }

    /// The cell of a location on the map.
    pub open spec fn cell(self) -> Seq<char> {
        geohash_cell(self.lat.bits, self.lon.bits)
    }
}

/// The cell of precision five that holds `location`. Locations off the map
/// have none.
pub fn encode_geohash(location: &Location) -> (cell: Result<String, GeocabError>)
    ensures
        cell is Ok <==> location.in_range(),
        cell matches Ok(s) ==> s@ == location.cell() && is_geohash_cell(s@),
        cell matches Err(e) ==> e == GeocabError::GenericError,
{
    match geohash_try_from_params(location.lat, location.lon) {
        Ok(s) => Ok(s),
        Err(_) => Err(GeocabError::GenericError),
    }
}

/// The views of a list of strings.
pub open spec fn cell_views(cells: Seq<String>) -> Seq<Seq<char>> {
    cells.map_values(|s: String| s@)
}

/// The eight cells around a cell in the order north, north-east, east,
/// south-east, south, south-west, west, north-west.
pub open spec fn compass_order(around: NeighborCells) -> Seq<Seq<char>> {
    seq![
        around.n,
        around.ne,
        around.e,
        around.se,
        around.s,
        around.sw,
        around.w,
        around.nw,
    ]
}

/// What `all_neighbors` returns for `center`: the eight cells around it in
/// compass order; `InvalidGeohash` for a string that names no cell;
/// `GenericError` for a cell at the edge of the map.
pub open spec fn neighbor_cells(center: Seq<char>) -> Result<Seq<Seq<char>>, GeocabError> {
    if !is_geohash_cell(center) {
        Err(GeocabError::InvalidGeohash)
    } else {
        match geohash_neighbors(center) {
            Some(around) => Ok(compass_order(around)),
            None => Err(GeocabError::GenericError),
        }
    }
}

/// The eight cells around `center`, clockwise from the north.
pub fn all_neighbors(center: &str) -> (cells: Result<Vec<String>, GeocabError>)
    ensures
        match neighbor_cells(center@) {
            Ok(expected) => cells matches Ok(v) && cell_views(v@) == expected,
            Err(e) => cells matches Err(f) && f == e,
        },
{
    if !is_valid_geohash(center) {
        return Err(GeocabError::InvalidGeohash);
    }
    match geohash_neighbors_of(center) {
        Ok(around) => {
            let mut result: Vec<String> = Vec::new();
            result.push(around.n);
            result.push(around.ne);
            result.push(around.e);
            result.push(around.se);
            result.push(around.s);
            result.push(around.sw);
            result.push(around.w);
            result.push(around.nw);
            assert(cell_views(result@) =~= compass_order(around@));
            Ok(result)
        },
        Err(_) => Err(GeocabError::GenericError),
    }
}

/// The cells searched for a passenger at `origin`: the passenger's own cell,
/// then the eight around it clockwise from the north. A passenger off the
/// map, or in a cell at its edge, has none.
pub open spec fn search_cells(origin: Location) -> Result<Seq<Seq<char>>, GeocabError> {
    if !origin.in_range() {
        Err(GeocabError::GenericError)
    } else {
        match geohash_neighbors(origin.cell()) {
            Some(around) => Ok(seq![origin.cell()] + compass_order(around)),
            None => Err(GeocabError::GenericError),
        }
    }
}

/// The cells to search for a passenger at `origin`, in the order of the
/// search.
pub fn cells_to_search(origin: &Location) -> (cells: Result<Vec<String>, GeocabError>)
    ensures
        match search_cells(*origin) {
            Ok(expected) => cells matches Ok(v) && cell_views(v@) == expected,
            Err(e) => cells matches Err(f) && f == e,
        },
{
    let position_hash = match encode_geohash(origin) {
        Ok(cell) => cell,
        Err(e) => {
            return Err(e);
        },
    };
    let around = match all_neighbors(position_hash.as_str()) {
        Ok(cells) => cells,
        Err(e) => {
            return Err(e);
        },
    };
    let mut all_position_hashes: Vec<String> = Vec::new();
    all_position_hashes.push(position_hash);
    let mut k: usize = 0;
    while k < around.len()
        invariant
            k <= around.len(),
            cell_views(all_position_hashes@) == seq![origin.cell()] + cell_views(around@).take(
                k as int,
            ),
        decreases around.len() - k,
    {
        let ghost listed = all_position_hashes@;
        all_position_hashes.push(around[k].clone());
        assert(cell_views(around@).take(k + 1) =~= cell_views(around@).take(k as int).push(
            around@[k as int]@,
        ));
        assert(cell_views(all_position_hashes@) =~= cell_views(listed).push(around@[k as int]@));
        k += 1;
    }
    assert(cell_views(around@).take(k as int) == cell_views(around@));
    Ok(all_position_hashes)
}

} // verus!

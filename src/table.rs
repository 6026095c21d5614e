//! The columnar table: five parallel columns, one entry per committed row.

use vstd::prelude::*;
use crate::coerce::Coord;
use crate::row::{Row, RowView};

verus! {

/// City records stored column by column; entry `i` of every column belongs to
/// row `i`, and rows stand in the order they were appended.
#[derive(Debug, PartialEq)]
pub struct CityPop {
    city: Vec<String>,
    state: Vec<String>,
    population: Vec<Option<u32>>,
    latitude: Vec<Coord>,
    longitude: Vec<Coord>,
}

impl CityPop {
    /// All five columns have the same length.
    pub closed spec fn wf(&self) -> bool {
        &&& self.state@.len() == self.city@.len()
        &&& self.population@.len() == self.city@.len()
        &&& self.latitude@.len() == self.city@.len()
        &&& self.longitude@.len() == self.city@.len()
    }

    /// The table read row by row.
    pub closed spec fn rows(&self) -> Seq<RowView> {
        Seq::new(
            self.city@.len(),
            |i: int|
                RowView {
                    city: self.city@[i]@,
                    state: self.state@[i]@,
                    population: self.population@[i],
                    latitude: self.latitude@[i]@,
                    longitude: self.longitude@[i]@,
                },
        )
    }

    /// An empty table with room for `capacity` rows.
    pub fn new(capacity: usize) -> (r: CityPop)
        ensures
            r.wf(),
            r.rows() == Seq::<RowView>::empty(),
    {
        let r = CityPop {
            city: Vec::with_capacity(capacity),
            state: Vec::with_capacity(capacity),
            population: Vec::with_capacity(capacity),
            latitude: Vec::with_capacity(capacity),
            longitude: Vec::with_capacity(capacity),
        };
        assert(r.rows() =~= Seq::<RowView>::empty());
        r
    }

    /// Makes room for `additional` more rows; the contents stay as they are.
    pub fn reserve(&mut self, additional: usize)
        requires
            old(self).wf(),
        ensures
            final(self).wf(),
            final(self).rows() == old(self).rows(),
    {
        self.city.reserve(additional);
        self.state.reserve(additional);
        self.population.reserve(additional);
        self.latitude.reserve(additional);
        self.longitude.reserve(additional);
        assert(self.rows() =~= old(self).rows());
    }

    /// Appends one row, given field by field, to all five columns.
    pub fn add_entry(
        &mut self,
        city: String,
        state: String,
        population: Option<u32>,
        latitude: Coord,
        longitude: Coord,
    )
        requires
            old(self).wf(),
        ensures
            final(self).wf(),
            final(self).rows() == old(self).rows().push(
                RowView {
                    city: city@,
                    state: state@,
                    population,
                    latitude: latitude@,
                    longitude: longitude@,
                },
            ),
    {
        let ghost row = RowView {
            city: city@,
            state: state@,
            population,
            latitude: latitude@,
            longitude: longitude@,
        };
        self.city.push(city);
        self.state.push(state);
        self.population.push(population);
        self.latitude.push(latitude);
        self.longitude.push(longitude);
        assert(self.rows() =~= old(self).rows().push(row));
    }

    /// Appends one row to all five columns.
    pub fn add_record(&mut self, record: Row)
        requires
            old(self).wf(),
        ensures
            final(self).wf(),
            final(self).rows() == old(self).rows().push(record@),
    {
        let Row { city, state, population, latitude, longitude } = record;
        self.add_entry(city, state, population, latitude, longitude);
    }

    /// The number of rows.
    pub fn len(&self) -> (r: usize)
        requires
            self.wf(),
        ensures
            r == self.rows().len(),
    {
        self.city.len()
    }

    /// The city column.
    pub fn city(&self) -> (r: &Vec<String>)
        requires
            self.wf(),
        ensures
            r@.len() == self.rows().len(),
            forall|i: int| 0 <= i < r@.len() ==> (#[trigger] r@[i])@ == self.rows()[i].city,
    {
        &self.city
    }

    /// The state column.
    pub fn state(&self) -> (r: &Vec<String>)
        requires
            self.wf(),
        ensures
            r@.len() == self.rows().len(),
            forall|i: int| 0 <= i < r@.len() ==> (#[trigger] r@[i])@ == self.rows()[i].state,
    {
        &self.state
    }

    /// The population column.
    pub fn population(&self) -> (r: &Vec<Option<u32>>)
        requires
            self.wf(),
        ensures
            r@.len() == self.rows().len(),
            forall|i: int| 0 <= i < r@.len() ==> #[trigger] r@[i] == self.rows()[i].population,
    {
        &self.population
    }

    /// The latitude column.
    pub fn latitude(&self) -> (r: &Vec<Coord>)
        requires
            self.wf(),
        ensures
            r@.len() == self.rows().len(),
            forall|i: int| 0 <= i < r@.len() ==> (#[trigger] r@[i])@ == self.rows()[i].latitude,
    {
        &self.latitude
    }

    /// The longitude column.
    pub fn longitude(&self) -> (r: &Vec<Coord>)
        requires
            self.wf(),
        ensures
            r@.len() == self.rows().len(),
            forall|i: int| 0 <= i < r@.len() ==> (#[trigger] r@[i])@ == self.rows()[i].longitude,
    {
        &self.longitude
    }
}

} // verus!

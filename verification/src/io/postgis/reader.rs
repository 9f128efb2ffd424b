//! Building the geometry column of a table from the geometries of PostGIS rows,
//! which arrive as extended well-known binary.

use vstd::prelude::*;
use crate::array::metadata::ArrayMetadata;
use crate::array::mixed::{MixedGeometryArray, MixedGeometryBuilder, geometry_element};
use crate::coord::CoordType;
use crate::error::GeoArrowError;
use crate::geometry::{Geometry, GeometryModel, GeometryTrait};
use crate::io::wkb::api::{decode_geometry, wkb_geometry};
use crate::offsets::OffsetWidth;

verus! {

/// How a table builder is set up.
#[derive(Clone, Copy, Debug, PartialEq, Eq, Structural)]
pub struct GeoTableBuilderOptions {
    /// The layout of the coordinates of the geometry column.
    pub coord_type: CoordType,
    /// Whether single geometries are stored as their multi shape.
    pub prefer_multi: bool,
    /// The width of the offsets of the geometry column.
    pub width: OffsetWidth,
}

/// Builds the geometry column of a table row by row.
pub struct GeoTableBuilder {
    geometry: MixedGeometryBuilder,
}

impl GeoTableBuilder {
    /// The geometry column is in order.
    pub closed spec fn wf(&self) -> bool {
        self.geometry.wf()
    }

    /// The geometry column built so far.
    pub closed spec fn column(&self) -> MixedGeometryBuilder {
        self.geometry
    }

    /// A builder without rows.
    pub fn new_with_options(options: GeoTableBuilderOptions) -> (b: GeoTableBuilder)
        ensures
            b.wf(),
            b.column().values() == Seq::<GeometryModel>::empty(),
            b.column().validity_bits() == Seq::<bool>::empty(),
            b.column().spec_coord_type() == options.coord_type,
            b.column().spec_prefer_multi() == options.prefer_multi,
            b.column().spec_width() == options.width,
    {
        GeoTableBuilder {
            geometry: MixedGeometryBuilder::new_with_options(
                options.width,
                options.coord_type,
                ArrayMetadata::new(),
                options.prefer_multi,
            ),
        }
    }

    /// Adds the geometry of one row, given as extended well-known binary.
    ///
    /// Where the bytes do not decode, or decode to a collection that does not
    /// hold exactly one geometry, or the geometry no longer fits, the row is
    /// refused and the column is as before.
    pub fn add_postgres_geometry(&mut self, value: &[u8]) -> (r: Result<(), GeoArrowError>)
        requires
            old(self).wf(),
        ensures
            final(self).wf(),
            match wkb_geometry(value@) {
                Ok(g) => final(self).column().push_result(
                    &old(self).column(),
                    geometry_element(Some(g), old(self).column().spec_prefer_multi()),
                    true,
                    r,
                ),
                Err(e) => r == Err::<(), GeoArrowError>(e) && *final(self) == *old(self),
            },
    {
        match decode_geometry(value) {
            Ok(g) => {
                let geometry = &g;
                self.geometry.push_geometry(Some(&geometry))
            },
            Err(e) => Err(e),
        }
    }

    /// The geometry column of the rows added.
    pub fn finish(self) -> (a: MixedGeometryArray)
        requires
            self.wf(),
        ensures
            a.wf(),
            a.values() == self.column().values(),
            a.validity_bits() == self.column().validity_bits(),
    {
        self.geometry.finish()
    }
}

} // verus!

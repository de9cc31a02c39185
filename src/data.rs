//! The Geobuf message: a root `Data` holding a dictionary of property names and
//! one of a feature collection, a feature or a geometry.
use vstd::prelude::*;
use crate::json::{Json, JsonV};

verus! {

broadcast use vstd::std_specs::vec::group_vec_axioms;

/// What went wrong in encoding or decoding.
#[derive(Clone, Copy, Debug, PartialEq, Eq, Structural)]
pub enum CodecError {
    /// The message holds none of a feature collection, a feature or a geometry.
    MissingDataType,
    /// A `"type"` names no GeoJSON geometry type.
    InvalidGeometryType,
    /// The input lacks a member it needs, holds a value of the wrong kind,
    /// an index out of range, or a number that does not fit.
    MalformedInput,
}

/// The kind of a geometry.
#[derive(Clone, Copy, Debug, PartialEq, Eq, Structural)]
pub enum GeometryType {
    Point,
    MultiPoint,
    LineString,
    MultiLineString,
    Polygon,
    MultiPolygon,
    GeometryCollection,
}

/// A property value. `DoubleValue` holds the IEEE-754 binary64 bit pattern of
/// the number; `JsonValue` holds an object or array, which the wire carries as
/// its JSON text.
#[derive(Debug)]
pub enum Value {
    StringValue(String),
    DoubleValue(u64),
    PosIntValue(u64),
    NegIntValue(u64),
    BoolValue(bool),
    JsonValue(Json),
}

pub enum ValueV {
    StringValue(Seq<char>),
    DoubleValue(u64),
    PosIntValue(u64),
    NegIntValue(u64),
    BoolValue(bool),
    JsonValue(JsonV),
}

impl View for Value {
    type V = ValueV;

    open spec fn view(&self) -> ValueV {
        match *self {
            Value::StringValue(s) => ValueV::StringValue(s@),
            Value::DoubleValue(b) => ValueV::DoubleValue(b),
            Value::PosIntValue(n) => ValueV::PosIntValue(n),
            Value::NegIntValue(n) => ValueV::NegIntValue(n),
            Value::BoolValue(b) => ValueV::BoolValue(b),
            Value::JsonValue(j) => ValueV::JsonValue(j@),
        }
    }
}

pub open spec fn values_view(s: Seq<Value>) -> Seq<ValueV> {
    s.map_values(|v: Value| v@)
}

pub open spec fn keys_view(s: Seq<String>) -> Seq<Seq<char>> {
    s.map_values(|k: String| k@)
}

/// A geometry. `coords` holds quantized coordinates, delta-encoded along each
/// line or ring; `lengths` tells how they divide into lines, rings and polygons.
/// `custom_properties` holds pairs of indices: into the root `keys`, and into
/// `values`.
#[derive(Debug)]
pub struct Geometry {
    pub geometry_type: GeometryType,
    pub lengths: Vec<u32>,
    pub coords: Vec<i64>,
    pub geometries: Vec<Geometry>,
    pub values: Vec<Value>,
    pub custom_properties: Vec<u32>,
}

pub struct GeometryV {
    pub geometry_type: GeometryType,
    pub lengths: Seq<u32>,
    pub coords: Seq<i64>,
    pub geometries: Seq<GeometryV>,
    pub values: Seq<ValueV>,
    pub custom_properties: Seq<u32>,
}

pub open spec fn geometry_view(g: Geometry) -> GeometryV
    decreases g, 0nat,
{
    GeometryV {
        geometry_type: g.geometry_type,
        lengths: g.lengths@,
        coords: g.coords@,
        geometries: geometries_view(g.geometries@),
        values: values_view(g.values@),
        custom_properties: g.custom_properties@,
    }
}

pub open spec fn geometries_view(s: Seq<Geometry>) -> Seq<GeometryV>
    decreases s, 0nat,
{
    if s.len() == 0 {
        Seq::empty()
    } else {
        geometries_view(s.drop_last()).push(geometry_view(s.last()))
    }
}

impl View for Geometry {
    type V = GeometryV;

    open spec fn view(&self) -> GeometryV {
        geometry_view(*self)
    }
}

pub proof fn lemma_geometries_view(s: Seq<Geometry>)
    ensures
        geometries_view(s).len() == s.len(),
        forall|i: int| 0 <= i < s.len() ==> #[trigger] geometries_view(s)[i] == geometry_view(s[i]),
    decreases s.len(),
{
    if s.len() > 0 {
        lemma_geometries_view(s.drop_last());
    }
}

/// The identifier of a feature.
#[derive(Clone, Debug, PartialEq, Eq)]
pub enum FeatureId {
    Id(String),
    IntId(i64),
}

pub enum FeatureIdV {
    Id(Seq<char>),
    IntId(i64),
}

impl View for FeatureId {
    type V = FeatureIdV;

    open spec fn view(&self) -> FeatureIdV {
        match *self {
            FeatureId::Id(s) => FeatureIdV::Id(s@),
            FeatureId::IntId(n) => FeatureIdV::IntId(n),
        }
    }
}

/// A feature. `properties` and `custom_properties` are index pairs, as in
/// [`Geometry`], and share `values`.
#[derive(Debug)]
pub struct Feature {
    pub geometry: Geometry,
    pub properties: Vec<u32>,
    pub values: Vec<Value>,
    pub custom_properties: Vec<u32>,
    pub id: Option<FeatureId>,
}

pub struct FeatureV {
    pub geometry: GeometryV,
    pub properties: Seq<u32>,
    pub values: Seq<ValueV>,
    pub custom_properties: Seq<u32>,
    pub id: Option<FeatureIdV>,
}

impl View for Feature {
    type V = FeatureV;

    open spec fn view(&self) -> FeatureV {
        FeatureV {
            geometry: self.geometry@,
            properties: self.properties@,
            values: values_view(self.values@),
            custom_properties: self.custom_properties@,
            id: match self.id {
                Some(i) => Some(i@),
                None => None,
            },
        }
    }
}

pub open spec fn features_view(s: Seq<Feature>) -> Seq<FeatureV> {
    s.map_values(|f: Feature| f@)
}

/// A feature collection.
#[derive(Debug)]
pub struct FeatureCollection {
    pub features: Vec<Feature>,
    pub values: Vec<Value>,
    pub custom_properties: Vec<u32>,
}

pub struct FeatureCollectionV {
    pub features: Seq<FeatureV>,
    pub values: Seq<ValueV>,
    pub custom_properties: Seq<u32>,
}

impl View for FeatureCollection {
    type V = FeatureCollectionV;

    open spec fn view(&self) -> FeatureCollectionV {
        FeatureCollectionV {
            features: features_view(self.features@),
            values: values_view(self.values@),
            custom_properties: self.custom_properties@,
        }
    }
}

/// What a message carries.
#[derive(Debug)]
pub enum DataType {
    FeatureCollection(FeatureCollection),
    Feature(Feature),
    Geometry(Geometry),
}

pub enum DataTypeV {
    FeatureCollection(FeatureCollectionV),
    Feature(FeatureV),
    Geometry(GeometryV),
}

impl View for DataType {
    type V = DataTypeV;

    open spec fn view(&self) -> DataTypeV {
        match *self {
            DataType::FeatureCollection(c) => DataTypeV::FeatureCollection(c@),
            DataType::Feature(f) => DataTypeV::Feature(f@),
            DataType::Geometry(g) => DataTypeV::Geometry(g@),
        }
    }
}

/// The root of a Geobuf message.
#[derive(Debug)]
pub struct Data {
    pub keys: Vec<String>,
    pub dimensions: u32,
    pub precision: u32,
    pub data_type: Option<DataType>,
}

pub struct DataV {
    pub keys: Seq<Seq<char>>,
    pub dimensions: u32,
    pub precision: u32,
    pub data_type: Option<DataTypeV>,
}

impl View for Data {
    type V = DataV;

    open spec fn view(&self) -> DataV {
        DataV {
            keys: keys_view(self.keys@),
            dimensions: self.dimensions,
            precision: self.precision,
            data_type: match self.data_type {
                Some(t) => Some(t@),
                None => None,
            },
        }
    }
}

} // verus!

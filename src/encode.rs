//! GeoJSON to Geobuf encoder.
use vstd::prelude::*;
use crate::json::{Json, Number, member, member_index, get_member, str_eq};
use crate::data::{
    CodecError, Data, DataType, DataTypeV, DataV, Feature, FeatureCollection, FeatureCollectionV,
    FeatureId, FeatureIdV, FeatureV, Geometry, GeometryType, GeometryV, Value, ValueV,
    features_view, geometries_view, keys_view, values_view,
};
use crate::coords::{
    add_line, add_multi_line, add_multi_polygon, component, line_code, multi_line_code,
    multi_polygon_code,
};

verus! {

broadcast use vstd::std_specs::vec::group_vec_axioms;

// ---------------------------------------------------------------------------
// Property dictionary
// ---------------------------------------------------------------------------

/// The index of the first occurrence of `k` in `keys`, or -1.
pub open spec fn key_position(keys: Seq<Seq<char>>, k: Seq<char>) -> int
    decreases keys.len(),
{
    if keys.len() == 0 {
        -1
    } else {
        let i = key_position(keys.drop_last(), k);
        if i >= 0 {
            i
        } else if keys.last() == k {
            keys.len() - 1
        } else {
            -1
        }
    }
}

pub proof fn lemma_key_position(keys: Seq<Seq<char>>, k: Seq<char>)
    ensures
        -1 <= key_position(keys, k) < keys.len(),
        key_position(keys, k) >= 0 ==> keys[key_position(keys, k)] == k,
        forall|j: int|
            0 <= j < keys.len() && (key_position(keys, k) < 0 || j < key_position(keys, k))
                ==> #[trigger] keys[j] != k,
    decreases keys.len(),
{
    if keys.len() > 0 {
        lemma_key_position(keys.drop_last(), k);
        assert forall|j: int| 0 <= j < keys.len() - 1 implies keys.drop_last()[j] == keys[j] by {}
    }
}

/// The dictionary after `k` is looked up in it, and added at its end if absent.
pub open spec fn interned(keys: Seq<Seq<char>>, k: Seq<char>) -> Seq<Seq<char>> {
    if key_position(keys, k) >= 0 {
        keys
    } else {
        keys.push(k)
    }
}

/// The index of `k` in `interned(keys, k)`.
pub open spec fn key_slot(keys: Seq<Seq<char>>, k: Seq<char>) -> int {
    if key_position(keys, k) >= 0 {
        key_position(keys, k)
    } else {
        keys.len() as int
    }
}

/// What the dictionary, the index pairs and the values of an entity hold.
pub struct Props {
    pub keys: Seq<Seq<char>>,
    pub pairs: Seq<u32>,
    pub values: Seq<ValueV>,
}

/// How a number is stored: by its value, as an unsigned integer, the
/// magnitude of a negative integer, or a double.
pub open spec fn number_value(n: Number) -> ValueV {
    match n {
        Number::PosInt(u) => ValueV::PosIntValue(u),
        Number::NegInt(i) => if i >= 0 {
            ValueV::PosIntValue(i as u64)
        } else {
            ValueV::NegIntValue((-i) as u64)
        },
        Number::Float(b) => ValueV::DoubleValue(b),
    }
}

/// How a property value is stored: `Some(None)` for null, which is left out;
/// `None` for a value that cannot be stored.
pub open spec fn property_value(j: Json) -> Option<Option<ValueV>> {
    match j {
        Json::Null => Some(None),
        Json::Bool(b) => Some(Some(ValueV::BoolValue(b))),
        Json::Str(s) => Some(Some(ValueV::StringValue(s@))),
        Json::Number(n) => Some(Some(number_value(n))),
        Json::Scaled(n, _) => Some(Some(number_value(n))),
        Json::Grid(_) => None,
        Json::Array(_) => Some(Some(ValueV::JsonValue(j@))),
        Json::Object(_) => Some(Some(ValueV::JsonValue(j@))),
    }
}

/// One property `k: v` added to `st`: the key is interned; unless `v` is null,
/// the value is appended and the pair (key index, value index) recorded.
pub open spec fn property_code(st: Props, k: Seq<char>, v: Json) -> Option<Props> {
    match property_value(v) {
        None => None,
        Some(None) => if key_slot(st.keys, k) > u32::MAX {
            None
        } else {
            Some(Props { keys: interned(st.keys, k), ..st })
        },
        Some(Some(x)) => if key_slot(st.keys, k) > u32::MAX || st.values.len() > u32::MAX {
            None
        } else {
            Some(
                Props {
                    keys: interned(st.keys, k),
                    pairs: st.pairs + seq![key_slot(st.keys, k) as u32, st.values.len() as u32],
                    values: st.values.push(x),
                },
            )
        },
    }
}

/// Whose members are being stored.
#[derive(Clone, Copy, Debug, PartialEq, Eq, Structural)]
pub enum Entity {
    Collection,
    Feature,
    Geometry,
    /// The members of a feature's `properties` object: none is reserved.
    Properties,
}

/// The member names that GeoJSON defines for an entity, which are not kept
/// as custom properties.
pub open spec fn reserved(e: Entity, k: Seq<char>) -> bool {
    match e {
        Entity::Collection => k == "type"@ || k == "features"@,
        Entity::Feature => k == "type"@ || k == "id"@ || k == "properties"@ || k == "geometry"@,
        Entity::Geometry => k == "type"@ || k == "id"@ || k == "coordinates"@ || k == "arcs"@ || k
            == "geometries"@ || k == "properties"@,
        Entity::Properties => false,
    }
}

/// The members `ms`, in order, but for the reserved ones, added to `st`.
pub open spec fn members_code(st: Props, ms: Seq<(String, Json)>, e: Entity) -> Option<Props>
    decreases ms.len(),
{
    if ms.len() == 0 {
        Some(st)
    } else {
        let next = if reserved(e, ms[0].0@) {
            Some(st)
        } else {
            property_code(st, ms[0].0@, ms[0].1)
        };
        match next {
            None => None,
            Some(s) => members_code(s, ms.skip(1), e),
        }
    }
}

/// The custom properties of the object `j`, as fresh pairs over `values`.
pub open spec fn custom_code(keys: Seq<Seq<char>>, values: Seq<ValueV>, j: Json, e: Entity) -> Option<
    Props,
> {
    match j {
        Json::Object(m) => members_code(Props { keys, pairs: Seq::empty(), values }, m@, e),
        _ => None,
    }
}

fn is_reserved(e: Entity, k: &str) -> (r: bool)
    ensures
        r == reserved(e, k@),
{
    match e {
        Entity::Collection => str_eq(k, "type") || str_eq(k, "features"),
        Entity::Feature => str_eq(k, "type") || str_eq(k, "id") || str_eq(k, "properties")
            || str_eq(k, "geometry"),
        Entity::Geometry => str_eq(k, "type") || str_eq(k, "id") || str_eq(k, "coordinates")
            || str_eq(k, "arcs") || str_eq(k, "geometries") || str_eq(k, "properties"),
        Entity::Properties => false,
    }
}

/// How a number is stored.
fn encode_number(n: &Number) -> (r: Value)
    ensures
        r@ == number_value(*n),
{
    match n {
        Number::PosInt(u) => Value::PosIntValue(*u),
        Number::NegInt(i) => if *i >= 0 {
            Value::PosIntValue(*i as u64)
        } else {
            Value::NegIntValue((-(*i + 1)) as u64 + 1)
        },
        Number::Float(b) => Value::DoubleValue(*b),
    }
}

// ---------------------------------------------------------------------------
// Geometries, features and collections
// ---------------------------------------------------------------------------

/// The geometry type that a GeoJSON `"type"` names.
pub open spec fn geometry_type_of(t: Seq<char>) -> Option<GeometryType> {
    if t == "Point"@ {
        Some(GeometryType::Point)
    } else if t == "MultiPoint"@ {
        Some(GeometryType::MultiPoint)
    } else if t == "LineString"@ {
        Some(GeometryType::LineString)
    } else if t == "MultiLineString"@ {
        Some(GeometryType::MultiLineString)
    } else if t == "Polygon"@ {
        Some(GeometryType::Polygon)
    } else if t == "MultiPolygon"@ {
        Some(GeometryType::MultiPolygon)
    } else if t == "GeometryCollection"@ {
        Some(GeometryType::GeometryCollection)
    } else {
        None
    }
}

/// The components of a point, which are stored as they are.
pub open spec fn point_code(cs: Seq<Json>) -> Option<Seq<i64>> {
    if forall|k: int| 0 <= k < cs.len() ==> component(#[trigger] cs[k]) is Some {
        Some(Seq::new(cs.len(), |k: int| component(cs[k])->0))
    } else {
        None
    }
}

/// The lengths and coordinates stored for the `coordinates` of a geometry
/// that is neither a point nor a collection.
pub open spec fn shape_code(t: GeometryType, cs: Seq<Json>, dim: nat) -> Option<(Seq<u32>, Seq<i64>)> {
    match t {
        GeometryType::MultiPoint | GeometryType::LineString => match line_code(cs, dim, false) {
            Some(c) => Some((Seq::empty(), c)),
            None => None,
        },
        GeometryType::MultiLineString => multi_line_code(cs, dim, false),
        GeometryType::Polygon => multi_line_code(cs, dim, true),
        _ => multi_polygon_code(cs, dim),
    }
}

/// The geometry stored for the GeoJSON geometry `j`, and the dictionary after it.
pub open spec fn geometry_code(j: Json, keys: Seq<Seq<char>>, dim: nat) -> Result<
    (GeometryV, Seq<Seq<char>>),
    CodecError,
>
    decreases j, 0nat,
{
    match custom_code(keys, Seq::empty(), j, Entity::Geometry) {
        None => Err(CodecError::MalformedInput),
        Some(st) => match member(j, "type"@) {
            Some(Json::Str(t)) => match geometry_type_of(t@) {
                None => Err(CodecError::InvalidGeometryType),
                Some(gt) => {
                    let base = GeometryV {
                        geometry_type: gt,
                        lengths: Seq::empty(),
                        coords: Seq::empty(),
                        geometries: Seq::empty(),
                        values: st.values,
                        custom_properties: st.pairs,
                    };
                    if gt == GeometryType::GeometryCollection {
                        match j {
                            Json::Object(m) => {
                                let i = member_index(m@, "geometries"@);
                                if 0 <= i < m@.len() {
                                    match m@[i].1 {
                                        Json::Array(gs) => match geometries_code(gs@, st.keys, dim) {
                                            Ok(r) => Ok((GeometryV { geometries: r.0, ..base }, r.1)),
                                            Err(e) => Err(e),
                                        },
                                        _ => Err(CodecError::MalformedInput),
                                    }
                                } else {
                                    Err(CodecError::MalformedInput)
                                }
                            },
                            _ => Err(CodecError::MalformedInput),
                        }
                    } else {
                        match member(j, "coordinates"@) {
                            Some(Json::Array(cs)) => if gt == GeometryType::Point {
                                match point_code(cs@) {
                                    Some(c) => Ok((GeometryV { coords: c, ..base }, st.keys)),
                                    None => Err(CodecError::MalformedInput),
                                }
                            } else {
                                match shape_code(gt, cs@, dim) {
                                    Some(c) => Ok(
                                        (GeometryV { lengths: c.0, coords: c.1, ..base }, st.keys),
                                    ),
                                    None => Err(CodecError::MalformedInput),
                                }
                            },
                            _ => Err(CodecError::MalformedInput),
                        }
                    }
                },
            },
            _ => Err(CodecError::MalformedInput),
        },
    }
}

/// The geometries stored for `gs`, in order, and the dictionary after them.
pub open spec fn geometries_code(gs: Seq<Json>, keys: Seq<Seq<char>>, dim: nat) -> Result<
    (Seq<GeometryV>, Seq<Seq<char>>),
    CodecError,
>
    decreases gs, 0nat,
{
    if gs.len() == 0 {
        Ok((Seq::empty(), keys))
    } else {
        match geometry_code(gs[0], keys, dim) {
            Err(e) => Err(e),
            Ok(g) => match geometries_code(gs.skip(1), g.1, dim) {
                Err(e) => Err(e),
                Ok(r) => Ok((seq![g.0] + r.0, r.1)),
            },
        }
    }
}

/// The identifier of a feature: a string, or a number that fits in `i64`.
pub open spec fn id_of_number(n: Number) -> Option<FeatureIdV> {
    match n {
        Number::PosInt(u) => if u <= i64::MAX {
            Some(FeatureIdV::IntId(u as i64))
        } else {
            None
        },
        Number::NegInt(i) => Some(FeatureIdV::IntId(i)),
        Number::Float(_) => None,
    }
}

pub open spec fn feature_id(j: Json) -> Option<FeatureIdV> {
    match member(j, "id"@) {
        Some(Json::Str(s)) => Some(FeatureIdV::Id(s@)),
        Some(Json::Number(n)) => id_of_number(n),
        Some(Json::Scaled(n, _)) => id_of_number(n),
        _ => None,
    }
}

/// The properties of a feature: its `properties` member when that is an object.
pub open spec fn feature_properties(j: Json, keys: Seq<Seq<char>>) -> Option<Props> {
    let st = Props { keys, pairs: Seq::empty(), values: Seq::empty() };
    match member(j, "properties"@) {
        Some(Json::Object(m)) => members_code(st, m@, Entity::Properties),
        _ => Some(st),
    }
}

/// The feature stored for the GeoJSON feature `j`, and the dictionary after it.
pub open spec fn feature_code(j: Json, keys: Seq<Seq<char>>, dim: nat) -> Result<
    (FeatureV, Seq<Seq<char>>),
    CodecError,
> {
    match feature_properties(j, keys) {
        None => Err(CodecError::MalformedInput),
        Some(p) => match custom_code(p.keys, p.values, j, Entity::Feature) {
            None => Err(CodecError::MalformedInput),
            Some(c) => {
                let g = match member(j, "geometry"@) {
                    Some(g) => g,
                    None => Json::Null,
                };
                match geometry_code(g, c.keys, dim) {
                    Err(e) => Err(e),
                    Ok(r) => Ok(
                        (
                            FeatureV {
                                geometry: r.0,
                                properties: p.pairs,
                                values: c.values,
                                custom_properties: c.pairs,
                                id: feature_id(j),
                            },
                            r.1,
                        ),
                    ),
                }
            },
        },
    }
}

/// The features stored for `fs`, in order, and the dictionary after them.
pub open spec fn features_code(fs: Seq<Json>, keys: Seq<Seq<char>>, dim: nat) -> Result<
    (Seq<FeatureV>, Seq<Seq<char>>),
    CodecError,
>
    decreases fs.len(),
{
    if fs.len() == 0 {
        Ok((Seq::empty(), keys))
    } else {
        match feature_code(fs[0], keys, dim) {
            Err(e) => Err(e),
            Ok(f) => match features_code(fs.skip(1), f.1, dim) {
                Err(e) => Err(e),
                Ok(r) => Ok((seq![f.0] + r.0, r.1)),
            },
        }
    }
}

/// The feature collection stored for `j`, and the dictionary after it.
pub open spec fn collection_code(j: Json, keys: Seq<Seq<char>>, dim: nat) -> Result<
    (FeatureCollectionV, Seq<Seq<char>>),
    CodecError,
> {
    match custom_code(keys, Seq::empty(), j, Entity::Collection) {
        None => Err(CodecError::MalformedInput),
        Some(st) => match member(j, "features"@) {
            Some(Json::Array(fs)) => match features_code(fs@, st.keys, dim) {
                Err(e) => Err(e),
                Ok(r) => Ok(
                    (
                        FeatureCollectionV {
                            features: r.0,
                            values: st.values,
                            custom_properties: st.pairs,
                        },
                        r.1,
                    ),
                ),
            },
            _ => Err(CodecError::MalformedInput),
        },
    }
}

/// The message that encodes the GeoJSON document `j`.
pub open spec fn encoding(j: Json, precision: u32, dim: u32) -> Result<DataV, CodecError> {
    let wrap = |keys: Seq<Seq<char>>, t: DataTypeV|
        DataV { keys, dimensions: dim, precision, data_type: Some(t) };
    match member(j, "type"@) {
        Some(Json::Str(t)) => if t@ == "FeatureCollection"@ {
            match collection_code(j, Seq::empty(), dim as nat) {
                Ok(r) => Ok(wrap(r.1, DataTypeV::FeatureCollection(r.0))),
                Err(e) => Err(e),
            }
        } else if t@ == "Feature"@ {
            match feature_code(j, Seq::empty(), dim as nat) {
                Ok(r) => Ok(wrap(r.1, DataTypeV::Feature(r.0))),
                Err(e) => Err(e),
            }
        } else {
            match geometry_code(j, Seq::empty(), dim as nat) {
                Ok(r) => Ok(wrap(r.1, DataTypeV::Geometry(r.0))),
                Err(e) => Err(e),
            }
        },
        _ => Err(CodecError::MalformedInput),
    }
}

/// GeoJSON to Geobuf encoder: the growing dictionary of property names and the
/// number of components per position.
pub struct Encoder {
    keys: Vec<String>,
    dim: usize,
}

impl Encoder {
    pub closed spec fn spec_keys(&self) -> Seq<Seq<char>> {
        keys_view(self.keys@)
    }

    pub closed spec fn spec_dim(&self) -> nat {
        self.dim as nat
    }

    /// The index of `key` in the dictionary, if it is there.
    fn find_key(&self, key: &String) -> (r: Option<usize>)
        ensures
            match r {
                Some(i) => key_position(self.spec_keys(), key@) == i,
                None => key_position(self.spec_keys(), key@) == -1,
            },
    {
        let ghost ks = self.spec_keys();
        proof {
            lemma_key_position(ks, key@);
        }
        let mut i: usize = 0;
        while i < self.keys.len()
            invariant
                ks == keys_view(self.keys@),
                ks.len() == self.keys@.len(),
                i <= ks.len(),
                -1 <= key_position(ks, key@) < ks.len(),
                key_position(ks, key@) >= 0 ==> key_position(ks, key@) >= i,
                key_position(ks, key@) >= 0 ==> ks[key_position(ks, key@)] == key@,
                forall|j: int|
                    0 <= j < ks.len() && (key_position(ks, key@) < 0 || j < key_position(ks, key@))
                        ==> #[trigger] ks[j] != key@,
            decreases self.keys.len() - i,
        {
            assert(ks[i as int] == self.keys@[i as int]@);
            if self.keys[i] == *key {
                return Some(i);
            }
            i = i + 1;
        }
        None
    }

    /// Adds the property `key: value` to `properties` and `values`.
    fn encode_property(
        &mut self,
        key: &String,
        value: &Json,
        properties: &mut Vec<u32>,
        values: &mut Vec<Value>,
    ) -> (r: Result<(), CodecError>)
        ensures
            final(self).spec_dim() == old(self).spec_dim(),
            match property_code(
                Props {
                    keys: old(self).spec_keys(),
                    pairs: old(properties)@,
                    values: values_view(old(values)@),
                },
                key@,
                *value,
            ) {
                Some(st) => {
                    &&& r is Ok
                    &&& final(self).spec_keys() == st.keys
                    &&& final(properties)@ == st.pairs
                    &&& values_view(final(values)@) == st.values
                },
                None => r == Err::<(), CodecError>(CodecError::MalformedInput),
            },
    {
        let stored: Option<Value> = match value {
            Json::Null => None,
            Json::Bool(b) => Some(Value::BoolValue(*b)),
            Json::Str(s) => Some(Value::StringValue(s.clone())),
            Json::Number(n) => Some(encode_number(n)),
            Json::Scaled(n, _) => Some(encode_number(n)),
            Json::Grid(_) => {
                return Err(CodecError::MalformedInput);
            },
            Json::Array(_) => Some(Value::JsonValue(value.duplicate())),
            Json::Object(_) => Some(Value::JsonValue(value.duplicate())),
        };
        assert(property_value(*value) == match stored {
            Some(v) => Some(Some(v@)),
            None => Some(None::<ValueV>),
        });
        let slot: usize = match self.find_key(key) {
            Some(i) => i,
            None => self.keys.len(),
        };
        if slot > u32::MAX as usize {
            return Err(CodecError::MalformedInput);
        }
        match stored {
            Some(v) => {
                if values.len() > u32::MAX as usize {
                    return Err(CodecError::MalformedInput);
                }
                if slot == self.keys.len() {
                    self.keys.push(key.clone());
                }
                properties.push(slot as u32);
                properties.push(values.len() as u32);
                values.push(v);
                proof {
                    assert(values_view(values@) =~= values_view(old(values)@).push(v@));
                }
            },
            None => {
                if slot == self.keys.len() {
                    self.keys.push(key.clone());
                }
            },
        }
        proof {
            let old_keys = old(self).spec_keys();
            lemma_key_position(old_keys, key@);
            assert(slot as int == key_slot(old_keys, key@));
            if key_position(old_keys, key@) < 0 {
                assert(self.spec_keys() =~= old_keys.push(key@));
            }
            assert(self.spec_keys() == interned(old_keys, key@));
            if stored is Some {
                let pairs = old(properties)@ + seq![slot as u32, old(values)@.len() as u32];
                assert(properties@ =~= pairs);
            }
        }
        Ok(())
    }

    /// Adds, in order, the members of `ms` that are not reserved for `e`.
    #[verifier::loop_isolation(false)]
    fn encode_members(
        &mut self,
        ms: &Vec<(String, Json)>,
        e: Entity,
        pairs: &mut Vec<u32>,
        values: &mut Vec<Value>,
    ) -> (r: Result<(), CodecError>)
        ensures
            final(self).spec_dim() == old(self).spec_dim(),
            match members_code(
                Props {
                    keys: old(self).spec_keys(),
                    pairs: old(pairs)@,
                    values: values_view(old(values)@),
                },
                ms@,
                e,
            ) {
                Some(st) => {
                    &&& r is Ok
                    &&& final(self).spec_keys() == st.keys
                    &&& final(pairs)@ == st.pairs
                    &&& values_view(final(values)@) == st.values
                },
                None => r == Err::<(), CodecError>(CodecError::MalformedInput),
            },
    {
        let ghost top = members_code(
            Props { keys: self.spec_keys(), pairs: pairs@, values: values_view(values@) },
            ms@,
            e,
        );
        let mut i: usize = 0;
        assert(ms@.skip(0) =~= ms@);
        while i < ms.len()
            invariant
                i <= ms@.len(),
                self.spec_dim() == old(self).spec_dim(),
                top == members_code(
                    Props { keys: self.spec_keys(), pairs: pairs@, values: values_view(values@) },
                    ms@.skip(i as int),
                    e,
                ),
            decreases ms.len() - i,
        {
            assert(ms@.skip(i as int)[0] == ms@[i as int]);
            assert(ms@.skip(i as int).skip(1) =~= ms@.skip(i + 1));
            if !is_reserved(e, ms[i].0.as_str()) {
                self.encode_property(&ms[i].0, &ms[i].1, pairs, values)?;
            }
            i = i + 1;
        }
        assert(ms@.skip(i as int) =~= Seq::<(String, Json)>::empty());
        Ok(())
    }

    /// The custom properties of the object `j`, whose values go to `values`.
    fn encode_custom_properties(&mut self, values: &mut Vec<Value>, j: &Json, e: Entity) -> (r:
        Result<Vec<u32>, CodecError>)
        ensures
            final(self).spec_dim() == old(self).spec_dim(),
            match custom_code(old(self).spec_keys(), values_view(old(values)@), *j, e) {
                Some(st) => {
                    &&& r is Ok
                    &&& final(self).spec_keys() == st.keys
                    &&& r->Ok_0@ == st.pairs
                    &&& values_view(final(values)@) == st.values
                },
                None => r == Err::<Vec<u32>, CodecError>(CodecError::MalformedInput),
            },
    {
        match j {
            Json::Object(m) => {
                let mut pairs: Vec<u32> = Vec::new();
                self.encode_members(m, e, &mut pairs, values)?;
                Ok(pairs)
            },
            _ => Err(CodecError::MalformedInput),
        }
    }

    /// Stores the GeoJSON geometry `j`.
    #[verifier::loop_isolation(false)]
    fn encode_geometry(&mut self, j: &Json) -> (r: Result<Geometry, CodecError>)
        ensures
            final(self).spec_dim() == old(self).spec_dim(),
            match geometry_code(*j, old(self).spec_keys(), old(self).spec_dim()) {
                Ok(g) => r is Ok && r->Ok_0@ == g.0 && final(self).spec_keys() == g.1,
                Err(e) => r == Err::<Geometry, CodecError>(e),
            },
        decreases j,
    {
        let mut values: Vec<Value> = Vec::new();
        assert(values_view(values@) =~= Seq::<ValueV>::empty());
        let custom = self.encode_custom_properties(&mut values, j, Entity::Geometry)?;
        let ghost st = custom_code(old(self).spec_keys(), Seq::empty(), *j, Entity::Geometry)->0;
        let t = match get_member(j, "type") {
            Some(Json::Str(t)) => t,
            _ => {
                return Err(CodecError::MalformedInput);
            },
        };
        let gt = match geometry_type(t.as_str()) {
            Some(gt) => gt,
            None => {
                return Err(CodecError::InvalidGeometryType);
            },
        };
        let mut lengths: Vec<u32> = Vec::new();
        let mut coords: Vec<i64> = Vec::new();
        let mut geometries: Vec<Geometry> = Vec::new();
        let ghost base = GeometryV {
            geometry_type: gt,
            lengths: Seq::empty(),
            coords: Seq::empty(),
            geometries: Seq::empty(),
            values: st.values,
            custom_properties: st.pairs,
        };
        if gt == GeometryType::GeometryCollection {
            let gs = match get_member(j, "geometries") {
                Some(Json::Array(gs)) => gs,
                _ => {
                    return Err(CodecError::MalformedInput);
                },
            };
            proof {
                lemma_member_decreases(*j, "geometries"@);
            }
            let ghost top = geometries_code(gs@, self.spec_keys(), self.spec_dim());
            let mut i: usize = 0;
            assert(gs@.skip(0) =~= gs@);
            while i < gs.len()
                invariant
                    i <= gs@.len(),
                    self.spec_dim() == old(self).spec_dim(),
                    member(*j, "geometries"@) == Some(Json::Array(*gs)),
                    decreases_to!(*j => Json::Array(*gs)),
                    top == match geometries_code(gs@.skip(i as int), self.spec_keys(), self.spec_dim()) {
                        Ok(r) => Ok::<(Seq<GeometryV>, Seq<Seq<char>>), CodecError>((geometries_view(geometries@) + r.0, r.1)),
                        Err(e) => Err(e),
                    },
                decreases gs.len() - i,
            {
                proof {
                    lemma_array_decreases(Json::Array(*gs), i as int);
                    assert(decreases_to!(*j => gs@[i as int]));
                    assert(gs@.skip(i as int)[0] == gs@[i as int]);
                    assert(gs@.skip(i as int).skip(1) =~= gs@.skip(i + 1));
                }
                let g = self.encode_geometry(&gs[i])?;
                proof {
                    let rest = geometries_code(gs@.skip(i + 1), self.spec_keys(), self.spec_dim());
                    assert(geometries@.push(g).drop_last() =~= geometries@);
                    assert(geometries_view(geometries@.push(g)) =~= geometries_view(geometries@).push(g@));
                    if rest is Ok {
                        assert(geometries_view(geometries@) + (seq![g@] + rest->Ok_0.0) =~= geometries_view(
                            geometries@,
                        ).push(g@) + rest->Ok_0.0);
                    }
                }
                geometries.push(g);
                i = i + 1;
            }
            assert(gs@.skip(i as int) =~= Seq::<Json>::empty());
            assert(geometries_view(geometries@) + Seq::<GeometryV>::empty() =~= geometries_view(geometries@));
        } else {
            let cs = match get_member(j, "coordinates") {
                Some(Json::Array(cs)) => cs,
                _ => {
                    return Err(CodecError::MalformedInput);
                },
            };
            match gt {
                GeometryType::Point => encode_point(&mut coords, cs)?,
                GeometryType::MultiPoint | GeometryType::LineString => add_line(
                    &mut coords,
                    cs,
                    false,
                    self.dim,
                )?,
                GeometryType::MultiLineString => add_multi_line(
                    &mut lengths,
                    &mut coords,
                    cs,
                    false,
                    self.dim,
                )?,
                GeometryType::Polygon => add_multi_line(
                    &mut lengths,
                    &mut coords,
                    cs,
                    true,
                    self.dim,
                )?,
                _ => add_multi_polygon(&mut lengths, &mut coords, cs, self.dim)?,
            }
        }
        let geometry = Geometry {
            geometry_type: gt,
            lengths,
            coords,
            geometries,
            values,
            custom_properties: custom,
        };
        proof {
            if gt != GeometryType::GeometryCollection {
                assert(geometries_view(geometry.geometries@) =~= Seq::<GeometryV>::empty());
            }
        }
        Ok(geometry)
    }

    /// Stores the GeoJSON feature `j`.
    fn encode_feature(&mut self, j: &Json) -> (r: Result<Feature, CodecError>)
        ensures
            final(self).spec_dim() == old(self).spec_dim(),
            match feature_code(*j, old(self).spec_keys(), old(self).spec_dim()) {
                Ok(f) => r is Ok && r->Ok_0@ == f.0 && final(self).spec_keys() == f.1,
                Err(e) => r == Err::<Feature, CodecError>(e),
            },
    {
        let id: Option<FeatureId> = match get_member(j, "id") {
            Some(Json::Str(s)) => Some(FeatureId::Id(s.clone())),
            Some(Json::Number(n)) => id_from_number(n),
            Some(Json::Scaled(n, _)) => id_from_number(n),
            _ => None,
        };
        let mut values: Vec<Value> = Vec::new();
        let mut properties: Vec<u32> = Vec::new();
        assert(values_view(values@) =~= Seq::<ValueV>::empty());
        match get_member(j, "properties") {
            Some(Json::Object(m)) => {
                self.encode_members(m, Entity::Properties, &mut properties, &mut values)?;
            },
            _ => {},
        }
        let custom = self.encode_custom_properties(&mut values, j, Entity::Feature)?;
        let null = Json::Null;
        let g = match get_member(j, "geometry") {
            Some(g) => g,
            None => &null,
        };
        let geometry = self.encode_geometry(g)?;
        let feature = Feature { geometry, properties, values, custom_properties: custom, id };
        Ok(feature)
    }

    /// Stores the GeoJSON feature collection `j`.
    #[verifier::loop_isolation(false)]
    fn encode_feature_collection(&mut self, j: &Json) -> (r: Result<FeatureCollection, CodecError>)
        ensures
            final(self).spec_dim() == old(self).spec_dim(),
            match collection_code(*j, old(self).spec_keys(), old(self).spec_dim()) {
                Ok(c) => r is Ok && r->Ok_0@ == c.0 && final(self).spec_keys() == c.1,
                Err(e) => r == Err::<FeatureCollection, CodecError>(e),
            },
    {
        let mut values: Vec<Value> = Vec::new();
        assert(values_view(values@) =~= Seq::<ValueV>::empty());
        let custom = self.encode_custom_properties(&mut values, j, Entity::Collection)?;
        let fs = match get_member(j, "features") {
            Some(Json::Array(fs)) => fs,
            _ => {
                return Err(CodecError::MalformedInput);
            },
        };
        let ghost top = features_code(fs@, self.spec_keys(), self.spec_dim());
        let mut features: Vec<Feature> = Vec::new();
        let mut i: usize = 0;
        assert(fs@.skip(0) =~= fs@);
        while i < fs.len()
            invariant
                i <= fs@.len(),
                self.spec_dim() == old(self).spec_dim(),
                top == match features_code(fs@.skip(i as int), self.spec_keys(), self.spec_dim()) {
                    Ok(r) => Ok::<(Seq<FeatureV>, Seq<Seq<char>>), CodecError>((features_view(features@) + r.0, r.1)),
                    Err(e) => Err(e),
                },
            decreases fs.len() - i,
        {
            assert(fs@.skip(i as int)[0] == fs@[i as int]);
            assert(fs@.skip(i as int).skip(1) =~= fs@.skip(i + 1));
            let f = self.encode_feature(&fs[i])?;
            proof {
                let rest = features_code(fs@.skip(i + 1), self.spec_keys(), self.spec_dim());
                assert(features_view(features@.push(f)) =~= features_view(features@).push(f@));
                if rest is Ok {
                    assert(features_view(features@) + (seq![f@] + rest->Ok_0.0) =~= features_view(
                        features@,
                    ).push(f@) + rest->Ok_0.0);
                }
            }
            features.push(f);
            i = i + 1;
        }
        assert(fs@.skip(i as int) =~= Seq::<Json>::empty());
        assert(features_view(features@) + Seq::<FeatureV>::empty() =~= features_view(features@));
        Ok(FeatureCollection { features, values, custom_properties: custom })
    }

    /// Encodes a GeoJSON document: a feature collection, a feature or a
    /// geometry, with coordinates of `dim` components at `precision` decimal
    /// digits.
    pub fn encode(geojson: &Json, precision: u32, dim: u32) -> (r: Result<Data, CodecError>)
        ensures
            match encoding(*geojson, precision, dim) {
                Ok(d) => r is Ok && r->Ok_0@ == d,
                Err(e) => r == Err::<Data, CodecError>(e),
            },
    {
        let mut encoder = Encoder { keys: Vec::new(), dim: dim as usize };
        assert(encoder.spec_keys() =~= Seq::<Seq<char>>::empty());
        let t = match get_member(geojson, "type") {
            Some(Json::Str(t)) => t,
            _ => {
                return Err(CodecError::MalformedInput);
            },
        };
        let data_type = if str_eq(t.as_str(), "FeatureCollection") {
            DataType::FeatureCollection(encoder.encode_feature_collection(geojson)?)
        } else if str_eq(t.as_str(), "Feature") {
            DataType::Feature(encoder.encode_feature(geojson)?)
        } else {
            DataType::Geometry(encoder.encode_geometry(geojson)?)
        };
        Ok(Data { keys: encoder.keys, dimensions: dim, precision, data_type: Some(data_type) })
    }
}

/// The geometry type that `t` names.
fn geometry_type(t: &str) -> (r: Option<GeometryType>)
    ensures
        r == geometry_type_of(t@),
{
    if str_eq(t, "Point") {
        Some(GeometryType::Point)
    } else if str_eq(t, "MultiPoint") {
        Some(GeometryType::MultiPoint)
    } else if str_eq(t, "LineString") {
        Some(GeometryType::LineString)
    } else if str_eq(t, "MultiLineString") {
        Some(GeometryType::MultiLineString)
    } else if str_eq(t, "Polygon") {
        Some(GeometryType::Polygon)
    } else if str_eq(t, "MultiPolygon") {
        Some(GeometryType::MultiPolygon)
    } else if str_eq(t, "GeometryCollection") {
        Some(GeometryType::GeometryCollection)
    } else {
        None
    }
}

/// The identifier that a numeric `id` gives, if it fits in `i64`.
fn id_from_number(n: &Number) -> (r: Option<FeatureId>)
    ensures
        match r {
            Some(i) => id_of_number(*n) == Some(i@),
            None => id_of_number(*n) is None,
        },
{
    match n {
        Number::PosInt(u) => if *u <= i64::MAX as u64 {
            Some(FeatureId::IntId(*u as i64))
        } else {
            None
        },
        Number::NegInt(i) => Some(FeatureId::IntId(*i)),
        Number::Float(_) => None,
    }
}

/// Appends the components of a point as they are.
fn encode_point(coords: &mut Vec<i64>, cs: &Vec<Json>) -> (r: Result<(), CodecError>)
    ensures
        match point_code(cs@) {
            Some(c) => r is Ok && final(coords)@ == old(coords)@ + c,
            None => r == Err::<(), CodecError>(CodecError::MalformedInput),
        },
{
    let ghost start = coords@;
    let mut k: usize = 0;
    while k < cs.len()
        invariant
            k <= cs@.len(),
            coords@.len() == start.len() + k,
            coords@.take(start.len() as int) == start,
            forall|i: int| 0 <= i < k ==> component(#[trigger] cs@[i]) == Some(coords@[start.len() + i]),
        decreases cs.len() - k,
    {
        match &cs[k] {
            Json::Scaled(_, g) => coords.push(*g),
            Json::Grid(g) => coords.push(*g),
            _ => {
                return Err(CodecError::MalformedInput);
            },
        }
        k = k + 1;
        assert(coords@.take(start.len() as int) =~= start);
    }
    assert(coords@ =~= start + Seq::new(cs@.len(), |i: int| component(cs@[i])->0));
    Ok(())
}

/// The value of a member of `j` lies below `j`.
proof fn lemma_member_decreases(j: Json, key: Seq<char>)
    ensures
        member(j, key) is Some ==> decreases_to!(j => member(j, key)->0),
{
    if member(j, key) is Some {
        let m = j->Object_0;
        let i = member_index(m@, key);
        assert(decreases_to!(j => j->Object_0));
        assert(decreases_to!(m => m@));
        assert(decreases_to!(m@ => m@[i]));
        assert(decreases_to!(m@[i] => m@[i].1));
    }
}

/// An element of an array lies below the array.
proof fn lemma_array_decreases(a: Json, i: int)
    requires
        a is Array,
        0 <= i < a->Array_0@.len(),
    ensures
        decreases_to!(a => a->Array_0@[i]),
{
    let v = a->Array_0;
    assert(decreases_to!(a => a->Array_0));
    assert(decreases_to!(v => v@));
    assert(decreases_to!(v@ => v@[i]));
}

} // verus!

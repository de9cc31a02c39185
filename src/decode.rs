//! Geobuf to GeoJSON decoder.
use vstd::prelude::*;
use crate::json::{Json, JsonV, Number, json_view, elems_view, members_view, lemma_elems_view, lemma_members_view};
use crate::data::{
    CodecError, Data, DataType, DataTypeV, DataV, Feature, FeatureCollection, FeatureCollectionV,
    FeatureId, FeatureIdV, FeatureV, Geometry, GeometryType, GeometryV, Value, ValueV,
    features_view, geometries_view, keys_view, values_view, lemma_geometries_view,
};
use crate::coords::{
    decode_line, decode_multi_line, decode_multi_polygon, line_positions, lines_view,
    multi_line_positions, multi_polygon_positions, polygons_view, positions_view,
};

verus! {

broadcast use vstd::std_specs::vec::group_vec_axioms;

// ---------------------------------------------------------------------------
// Objects and values
// ---------------------------------------------------------------------------

/// The index of the first member named `k`, or -1.
pub open spec fn entry_index(m: Seq<(Seq<char>, JsonV)>, k: Seq<char>) -> int
    decreases m.len(),
{
    if m.len() == 0 {
        -1
    } else {
        let i = entry_index(m.drop_last(), k);
        if i >= 0 {
            i
        } else if m.last().0 == k {
            m.len() - 1
        } else {
            -1
        }
    }
}

pub proof fn lemma_entry_index(m: Seq<(Seq<char>, JsonV)>, k: Seq<char>)
    ensures
        -1 <= entry_index(m, k) < m.len(),
        entry_index(m, k) >= 0 ==> m[entry_index(m, k)].0 == k,
        forall|j: int|
            0 <= j < m.len() && (entry_index(m, k) < 0 || j < entry_index(m, k)) ==> #[trigger] m[j].0
                != k,
    decreases m.len(),
{
    if m.len() > 0 {
        lemma_entry_index(m.drop_last(), k);
        assert forall|j: int| 0 <= j < m.len() - 1 implies m.drop_last()[j] == m[j] by {}
    }
}

/// The object `m` with its member `k` set to `v`: replaced where it is, or
/// added at the end.
pub open spec fn set_entry(m: Seq<(Seq<char>, JsonV)>, k: Seq<char>, v: JsonV) -> Seq<(Seq<char>, JsonV)> {
    let i = entry_index(m, k);
    if i >= 0 {
        m.update(i, (k, v))
    } else {
        m.push((k, v))
    }
}

/// The JSON value of a stored property value, if it has one.
pub open spec fn decoded_value(v: ValueV) -> Option<JsonV> {
    match v {
        ValueV::StringValue(s) => Some(JsonV::Str(s)),
        ValueV::DoubleValue(b) => Some(JsonV::Number(Number::Float(b))),
        ValueV::PosIntValue(u) => Some(JsonV::Number(Number::PosInt(u))),
        ValueV::NegIntValue(m) => if m == 0 {
            Some(JsonV::Number(Number::PosInt(0)))
        } else if m <= 0x8000_0000_0000_0000u64 {
            Some(JsonV::Number(Number::NegInt((-(m as int)) as i64)))
        } else {
            None
        },
        ValueV::BoolValue(b) => Some(JsonV::Bool(b)),
        ValueV::JsonValue(j) => Some(j),
    }
}

/// The object `obj` with the properties of the index pairs `pairs` set on it,
/// in order; `None` where an index is out of range or a pair is incomplete.
pub open spec fn properties_decoded(
    pairs: Seq<u32>,
    values: Seq<ValueV>,
    keys: Seq<Seq<char>>,
    obj: Seq<(Seq<char>, JsonV)>,
) -> Option<Seq<(Seq<char>, JsonV)>>
    decreases pairs.len(),
{
    if pairs.len() == 0 {
        Some(obj)
    } else if pairs.len() == 1 || pairs[0] >= keys.len() || pairs[1] >= values.len() {
        None
    } else {
        match decoded_value(values[pairs[1] as int]) {
            None => None,
            Some(v) => properties_decoded(
                pairs.skip(2),
                values,
                keys,
                set_entry(obj, keys[pairs[0] as int], v),
            ),
        }
    }
}

/// Sets `key` to `v` in the object `obj`.
fn set_member(obj: &mut Vec<(String, Json)>, key: String, v: Json)
    ensures
        members_view(final(obj)@) == set_entry(members_view(old(obj)@), key@, v@),
{
    let ghost m = members_view(obj@);
    proof {
        lemma_members_view(obj@);
        lemma_entry_index(m, key@);
    }
    let mut i: usize = 0;
    while i < obj.len()
        invariant
            obj@ == old(obj)@,
            m == members_view(obj@),
            m.len() == obj@.len(),
            i <= obj@.len(),
            forall|j: int| 0 <= j < obj@.len() ==> #[trigger] m[j] == (obj@[j].0@, json_view(obj@[j].1)),
            -1 <= entry_index(m, key@) < m.len(),
            entry_index(m, key@) >= 0 ==> entry_index(m, key@) >= i,
            entry_index(m, key@) >= 0 ==> m[entry_index(m, key@)].0 == key@,
            forall|j: int|
                0 <= j < m.len() && (entry_index(m, key@) < 0 || j < entry_index(m, key@))
                    ==> #[trigger] m[j].0 != key@,
        decreases obj.len() - i,
    {
        assert(m[i as int].0 == obj@[i as int].0@);
        if obj[i].0 == key {
            let ghost before = obj@;
            let ghost kv = (key, v);
            obj.remove(i);
            obj.insert(i, (key, v));
            proof {
                assert(obj@ =~= before.update(i as int, kv));
                lemma_members_view(obj@);
                assert(members_view(obj@) =~= m.update(i as int, (key@, v@)));
                assert(entry_index(m, key@) == i);
            }
            return;
        }
        i = i + 1;
    }
    let ghost before = obj@;
    obj.push((key, v));
    proof {
        assert(obj@.drop_last() =~= before);
    }
}

/// The JSON value of a stored property value.
fn decode_value(v: &Value) -> (r: Result<Json, CodecError>)
    ensures
        match decoded_value(v@) {
            Some(x) => r is Ok && r->Ok_0@ == x,
            None => r == Err::<Json, CodecError>(CodecError::MalformedInput),
        },
{
    match v {
        Value::StringValue(s) => Ok(Json::Str(s.clone())),
        Value::DoubleValue(b) => Ok(Json::Number(Number::Float(*b))),
        Value::PosIntValue(u) => Ok(Json::Number(Number::PosInt(*u))),
        Value::NegIntValue(m) => if *m == 0 {
            Ok(Json::Number(Number::PosInt(0)))
        } else if *m <= 0x8000_0000_0000_0000u64 {
            let n: i64 = -(((*m - 1) as i64)) - 1;
            Ok(Json::Number(Number::NegInt(n)))
        } else {
            Err(CodecError::MalformedInput)
        },
        Value::BoolValue(b) => Ok(Json::Bool(*b)),
        Value::JsonValue(j) => Ok(j.duplicate()),
    }
}

// ---------------------------------------------------------------------------
// Coordinates as JSON
// ---------------------------------------------------------------------------

pub open spec fn grid_point(p: Seq<i64>) -> JsonV {
    JsonV::Array(p.map_values(|g: i64| JsonV::Grid(g)))
}

pub open spec fn grid_line(ps: Seq<Seq<i64>>) -> JsonV {
    JsonV::Array(ps.map_values(|p: Seq<i64>| grid_point(p)))
}

pub open spec fn grid_lines(ls: Seq<Seq<Seq<i64>>>) -> JsonV {
    JsonV::Array(ls.map_values(|l: Seq<Seq<i64>>| grid_line(l)))
}

pub open spec fn grid_polygons(ps: Seq<Seq<Seq<Seq<i64>>>>) -> JsonV {
    JsonV::Array(ps.map_values(|p: Seq<Seq<Seq<i64>>>| grid_lines(p)))
}

fn point_json(p: &Vec<i64>) -> (r: Json)
    ensures
        r@ == grid_point(p@),
{
    let mut out: Vec<Json> = Vec::new();
    let mut i: usize = 0;
    while i < p.len()
        invariant
            i <= p@.len(),
            out@.len() == i,
            forall|k: int| 0 <= k < i ==> #[trigger] json_view(out@[k]) == JsonV::Grid(p@[k]),
        decreases p.len() - i,
    {
        out.push(Json::Grid(p[i]));
        i = i + 1;
    }
    proof {
        lemma_elems_view(out@);
        assert(elems_view(out@) =~= p@.map_values(|g: i64| JsonV::Grid(g)));
    }
    Json::Array(out)
}

fn line_json(ps: &Vec<Vec<i64>>) -> (r: Json)
    ensures
        r@ == grid_line(positions_view(ps@)),
{
    let mut out: Vec<Json> = Vec::new();
    let mut i: usize = 0;
    while i < ps.len()
        invariant
            i <= ps@.len(),
            out@.len() == i,
            forall|k: int| 0 <= k < i ==> #[trigger] json_view(out@[k]) == grid_point(ps@[k]@),
        decreases ps.len() - i,
    {
        out.push(point_json(&ps[i]));
        i = i + 1;
    }
    proof {
        lemma_elems_view(out@);
        assert(elems_view(out@) =~= positions_view(ps@).map_values(|p: Seq<i64>| grid_point(p)));
    }
    Json::Array(out)
}

fn lines_json(ls: &Vec<Vec<Vec<i64>>>) -> (r: Json)
    ensures
        r@ == grid_lines(lines_view(ls@)),
{
    let mut out: Vec<Json> = Vec::new();
    let mut i: usize = 0;
    while i < ls.len()
        invariant
            i <= ls@.len(),
            out@.len() == i,
            forall|k: int|
                0 <= k < i ==> #[trigger] json_view(out@[k]) == grid_line(positions_view(ls@[k]@)),
        decreases ls.len() - i,
    {
        out.push(line_json(&ls[i]));
        i = i + 1;
    }
    proof {
        lemma_elems_view(out@);
        assert(elems_view(out@) =~= lines_view(ls@).map_values(|l: Seq<Seq<i64>>| grid_line(l)));
    }
    Json::Array(out)
}

fn polygons_json(ps: &Vec<Vec<Vec<Vec<i64>>>>) -> (r: Json)
    ensures
        r@ == grid_polygons(polygons_view(ps@)),
{
    let mut out: Vec<Json> = Vec::new();
    let mut i: usize = 0;
    while i < ps.len()
        invariant
            i <= ps@.len(),
            out@.len() == i,
            forall|k: int|
                0 <= k < i ==> #[trigger] json_view(out@[k]) == grid_lines(lines_view(ps@[k]@)),
        decreases ps.len() - i,
    {
        out.push(lines_json(&ps[i]));
        i = i + 1;
    }
    proof {
        lemma_elems_view(out@);
        assert(elems_view(out@) =~= polygons_view(ps@).map_values(
            |p: Seq<Seq<Seq<i64>>>| grid_lines(p),
        ));
    }
    Json::Array(out)
}

// ---------------------------------------------------------------------------
// Geometries, features and collections
// ---------------------------------------------------------------------------

pub open spec fn entry(k: &str, v: JsonV) -> (Seq<char>, JsonV) {
    (k@, v)
}

/// The members `type` and `coordinates` of a decoded geometry of type `name`.
pub open spec fn shape_entries(name: &str, coords: Option<JsonV>) -> Option<Seq<(Seq<char>, JsonV)>> {
    match coords {
        Some(c) => Some(seq![entry("type", JsonV::Str(name@)), entry("coordinates", c)]),
        None => None,
    }
}

/// The GeoJSON geometry that `g` stores.
pub open spec fn geometry_json(g: GeometryV, keys: Seq<Seq<char>>, dim: nat) -> Option<JsonV>
    decreases g, 0nat,
{
    let body = match g.geometry_type {
        GeometryType::GeometryCollection => match geometries_json(g.geometries, keys, dim) {
            Some(gs) => Some(
                seq![
                    entry("type", JsonV::Str("GeometryCollection"@)),
                    entry("geometries", JsonV::Array(gs)),
                ],
            ),
            None => None,
        },
        GeometryType::Point => shape_entries("Point", Some(grid_point(g.coords))),
        GeometryType::MultiPoint => shape_entries(
            "MultiPoint",
            match line_positions(g.coords, dim, false) {
                Some(ps) => Some(grid_line(ps)),
                None => None,
            },
        ),
        GeometryType::LineString => shape_entries(
            "LineString",
            match line_positions(g.coords, dim, false) {
                Some(ps) => Some(grid_line(ps)),
                None => None,
            },
        ),
        GeometryType::MultiLineString => shape_entries(
            "MultiLineString",
            match multi_line_positions(g.lengths, g.coords, dim, false) {
                Some(ls) => Some(grid_lines(ls)),
                None => None,
            },
        ),
        GeometryType::Polygon => shape_entries(
            "Polygon",
            match multi_line_positions(g.lengths, g.coords, dim, true) {
                Some(ls) => Some(grid_lines(ls)),
                None => None,
            },
        ),
        GeometryType::MultiPolygon => shape_entries(
            "MultiPolygon",
            match multi_polygon_positions(g.lengths, g.coords, dim) {
                Some(ps) => Some(grid_polygons(ps)),
                None => None,
            },
        ),
    };
    match body {
        None => None,
        Some(o) => match properties_decoded(g.custom_properties, g.values, keys, o) {
            Some(o2) => Some(JsonV::Object(o2)),
            None => None,
        },
    }
}

/// The GeoJSON geometries that `gs` store, in order.
pub open spec fn geometries_json(gs: Seq<GeometryV>, keys: Seq<Seq<char>>, dim: nat) -> Option<
    Seq<JsonV>,
>
    decreases gs, 0nat,
{
    if gs.len() == 0 {
        Some(Seq::empty())
    } else {
        match geometry_json(gs[0], keys, dim) {
            None => None,
            Some(x) => match geometries_json(gs.skip(1), keys, dim) {
                None => None,
                Some(r) => Some(seq![x] + r),
            },
        }
    }
}

/// A numeric identifier as JSON: the decoder's reading of an `i64`.
pub open spec fn int_json(i: i64) -> JsonV {
    if i >= 0 {
        JsonV::Number(Number::PosInt(i as u64))
    } else {
        JsonV::Number(Number::NegInt(i))
    }
}

/// The GeoJSON feature that `f` stores: `type` and `geometry`, then its custom
/// properties, its `id`, and its `properties` when it has any.
pub open spec fn feature_json(f: FeatureV, keys: Seq<Seq<char>>, dim: nat) -> Option<JsonV> {
    match geometry_json(f.geometry, keys, dim) {
        None => None,
        Some(g) => {
            let o1 = seq![entry("type", JsonV::Str("Feature"@)), entry("geometry", g)];
            match properties_decoded(f.custom_properties, f.values, keys, o1) {
                None => None,
                Some(o2) => {
                    let o3 = match f.id {
                        Some(FeatureIdV::IntId(i)) => set_entry(o2, "id"@, int_json(i)),
                        Some(FeatureIdV::Id(s)) => set_entry(o2, "id"@, JsonV::Str(s)),
                        None => o2,
                    };
                    if f.properties.len() > 0 {
                        match properties_decoded(f.properties, f.values, keys, Seq::empty()) {
                            None => None,
                            Some(p) => Some(
                                JsonV::Object(set_entry(o3, "properties"@, JsonV::Object(p))),
                            ),
                        }
                    } else {
                        Some(JsonV::Object(o3))
                    }
                },
            }
        },
    }
}

/// The GeoJSON features that `fs` store, in order.
pub open spec fn features_json(fs: Seq<FeatureV>, keys: Seq<Seq<char>>, dim: nat) -> Option<
    Seq<JsonV>,
>
    decreases fs.len(),
{
    if fs.len() == 0 {
        Some(Seq::empty())
    } else {
        match feature_json(fs[0], keys, dim) {
            None => None,
            Some(x) => match features_json(fs.skip(1), keys, dim) {
                None => None,
                Some(r) => Some(seq![x] + r),
            },
        }
    }
}

/// The GeoJSON feature collection that `c` stores.
pub open spec fn collection_json(c: FeatureCollectionV, keys: Seq<Seq<char>>, dim: nat) -> Option<
    JsonV,
> {
    match features_json(c.features, keys, dim) {
        None => None,
        Some(fs) => {
            let o = seq![
                entry("type", JsonV::Str("FeatureCollection"@)),
                entry("features", JsonV::Array(fs)),
            ];
            match properties_decoded(c.custom_properties, c.values, keys, o) {
                Some(o2) => Some(JsonV::Object(o2)),
                None => None,
            }
        },
    }
}

/// The GeoJSON document that the message `d` stores.
pub open spec fn decoding(d: DataV) -> Result<JsonV, CodecError> {
    let keys = d.keys;
    let dim = d.dimensions as nat;
    match d.data_type {
        None => Err(CodecError::MissingDataType),
        Some(t) => {
            let j = match t {
                DataTypeV::FeatureCollection(c) => collection_json(c, keys, dim),
                DataTypeV::Feature(f) => feature_json(f, keys, dim),
                DataTypeV::Geometry(g) => geometry_json(g, keys, dim),
            };
            match j {
                Some(x) => Ok(x),
                None => Err(CodecError::MalformedInput),
            }
        },
    }
}

/// The object of two members.
fn two_members(k1: &str, v1: Json, k2: &str, v2: Json) -> (r: Vec<(String, Json)>)
    ensures
        members_view(r@) == seq![entry(k1, v1@), entry(k2, v2@)],
{
    let mut out: Vec<(String, Json)> = Vec::new();
    out.push((String::from_str(k1), v1));
    out.push((String::from_str(k2), v2));
    proof {
        lemma_members_view(out@);
        assert(members_view(out@) =~= seq![entry(k1, v1@), entry(k2, v2@)]);
    }
    out
}

/// Geobuf to GeoJSON decoder: the message being read and the number of
/// components per position.
pub struct Decoder<'a> {
    data: &'a Data,
    dim: usize,
}

impl<'a> Decoder<'a> {
    pub closed spec fn spec_keys(&self) -> Seq<Seq<char>> {
        keys_view(self.data.keys@)
    }

    pub closed spec fn spec_dim(&self) -> nat {
        self.dim as nat
    }

    /// Sets on `obj` the properties of the index pairs `pairs`.
    #[verifier::loop_isolation(false)]
    fn decode_properties(&self, pairs: &Vec<u32>, values: &Vec<Value>, obj: &mut Vec<(String, Json)>) -> (r:
        Result<(), CodecError>)
        ensures
            match properties_decoded(
                pairs@,
                values_view(values@),
                self.spec_keys(),
                members_view(old(obj)@),
            ) {
                Some(o) => r is Ok && members_view(final(obj)@) == o,
                None => r == Err::<(), CodecError>(CodecError::MalformedInput),
            },
    {
        let ghost vs = values_view(values@);
        let ghost top = properties_decoded(pairs@, vs, self.spec_keys(), members_view(obj@));
        let mut i: usize = 0;
        assert(pairs@.skip(0) =~= pairs@);
        while i < pairs.len()
            invariant
                i <= pairs@.len(),
                top == properties_decoded(
                    pairs@.skip(i as int),
                    vs,
                    self.spec_keys(),
                    members_view(obj@),
                ),
            decreases pairs.len() - i,
        {
            let ghost rest = pairs@.skip(i as int);
            if pairs.len() - i == 1 {
                return Err(CodecError::MalformedInput);
            }
            let k = pairs[i] as usize;
            let vi = pairs[i + 1] as usize;
            assert(rest[0] == pairs@[i as int] && rest[1] == pairs@[i + 1]);
            assert(rest.skip(2) =~= pairs@.skip(i + 2));
            if k >= self.data.keys.len() || vi >= values.len() {
                return Err(CodecError::MalformedInput);
            }
            let v = decode_value(&values[vi])?;
            set_member(obj, self.data.keys[k].clone(), v);
            i = i + 2;
        }
        assert(pairs@.skip(i as int) =~= Seq::<u32>::empty());
        Ok(())
    }

    /// The GeoJSON geometry that `g` stores.
    #[verifier::loop_isolation(false)]
    fn decode_geometry(&self, g: &Geometry) -> (r: Result<Json, CodecError>)
        ensures
            match geometry_json(g@, self.spec_keys(), self.spec_dim()) {
                Some(x) => r is Ok && r->Ok_0@ == x,
                None => r == Err::<Json, CodecError>(CodecError::MalformedInput),
            },
        decreases g,
    {
        assert(g.coords@.subrange(0, g.coords@.len() as int) =~= g.coords@);
        let mut obj: Vec<(String, Json)> = match g.geometry_type {
            GeometryType::GeometryCollection => {
                let ghost top = geometries_json(geometries_view(g.geometries@), self.spec_keys(), self.spec_dim());
                let mut out: Vec<Json> = Vec::new();
                let mut i: usize = 0;
                proof {
                    lemma_geometries_view(g.geometries@);
                }
                assert(geometries_view(g.geometries@).skip(0) =~= geometries_view(g.geometries@));
                while i < g.geometries.len()
                    invariant
                        i <= g.geometries@.len(),
                        top == match geometries_json(
                            geometries_view(g.geometries@).skip(i as int),
                            self.spec_keys(),
                            self.spec_dim(),
                        ) {
                            Some(r) => Some(elems_view(out@) + r),
                            None => None,
                        },
                    decreases g.geometries.len() - i,
                {
                    proof {
                        assert(decreases_to!(*g => g.geometries));
                        assert(decreases_to!(g.geometries => g.geometries@));
                        assert(decreases_to!(*g => g.geometries@[i as int]));
                        let gv = geometries_view(g.geometries@);
                        assert(gv.skip(i as int)[0] == gv[i as int]);
                        assert(gv.skip(i as int).skip(1) =~= gv.skip(i + 1));
                    }
                    let x = self.decode_geometry(&g.geometries[i])?;
                    proof {
                        let rest = geometries_json(
                            geometries_view(g.geometries@).skip(i + 1),
                            self.spec_keys(),
                            self.spec_dim(),
                        );
                        assert(out@.push(x).drop_last() =~= out@);
                        assert(elems_view(out@.push(x)) =~= elems_view(out@).push(x@));
                        if rest is Some {
                            assert(elems_view(out@) + (seq![x@] + rest->0) =~= elems_view(out@).push(
                                x@,
                            ) + rest->0);
                        }
                    }
                    out.push(x);
                    i = i + 1;
                }
                assert(geometries_view(g.geometries@).skip(i as int) =~= Seq::<GeometryV>::empty());
                assert(elems_view(out@) + Seq::<JsonV>::empty() =~= elems_view(out@));
                two_members(
                    "type",
                    Json::Str(String::from_str("GeometryCollection")),
                    "geometries",
                    Json::Array(out),
                )
            },
            GeometryType::Point => two_members(
                "type",
                Json::Str(String::from_str("Point")),
                "coordinates",
                point_json(&g.coords),
            ),
            GeometryType::MultiPoint => {
                let ps = decode_line(&g.coords, 0, g.coords.len(), self.dim, false)?;
                two_members("type", Json::Str(String::from_str("MultiPoint")), "coordinates", line_json(&ps))
            },
            GeometryType::LineString => {
                let ps = decode_line(&g.coords, 0, g.coords.len(), self.dim, false)?;
                two_members("type", Json::Str(String::from_str("LineString")), "coordinates", line_json(&ps))
            },
            GeometryType::MultiLineString => {
                let ls = decode_multi_line(&g.lengths, &g.coords, self.dim, false)?;
                two_members(
                    "type",
                    Json::Str(String::from_str("MultiLineString")),
                    "coordinates",
                    lines_json(&ls),
                )
            },
            GeometryType::Polygon => {
                let ls = decode_multi_line(&g.lengths, &g.coords, self.dim, true)?;
                two_members("type", Json::Str(String::from_str("Polygon")), "coordinates", lines_json(&ls))
            },
            GeometryType::MultiPolygon => {
                let ps = decode_multi_polygon(&g.lengths, &g.coords, self.dim)?;
                two_members(
                    "type",
                    Json::Str(String::from_str("MultiPolygon")),
                    "coordinates",
                    polygons_json(&ps),
                )
            },
        };
        self.decode_properties(&g.custom_properties, &g.values, &mut obj)?;
        Ok(Json::Object(obj))
    }

    /// The GeoJSON feature that `f` stores.
    fn decode_feature(&self, f: &Feature) -> (r: Result<Json, CodecError>)
        ensures
            match feature_json(f@, self.spec_keys(), self.spec_dim()) {
                Some(x) => r is Ok && r->Ok_0@ == x,
                None => r == Err::<Json, CodecError>(CodecError::MalformedInput),
            },
    {
        let geometry = self.decode_geometry(&f.geometry)?;
        let mut obj = two_members("type", Json::Str(String::from_str("Feature")), "geometry", geometry);
        self.decode_properties(&f.custom_properties, &f.values, &mut obj)?;
        match &f.id {
            Some(FeatureId::IntId(i)) => {
                let n = if *i >= 0 {
                    Json::Number(Number::PosInt(*i as u64))
                } else {
                    Json::Number(Number::NegInt(*i))
                };
                set_member(&mut obj, String::from_str("id"), n);
            },
            Some(FeatureId::Id(s)) => {
                set_member(&mut obj, String::from_str("id"), Json::Str(s.clone()));
            },
            None => {},
        }
        if f.properties.len() > 0 {
            let mut props: Vec<(String, Json)> = Vec::new();
            assert(members_view(props@) =~= Seq::<(Seq<char>, JsonV)>::empty());
            self.decode_properties(&f.properties, &f.values, &mut props)?;
            set_member(&mut obj, String::from_str("properties"), Json::Object(props));
        }
        Ok(Json::Object(obj))
    }

    /// The GeoJSON feature collection that `c` stores.
    #[verifier::loop_isolation(false)]
    fn decode_feature_collection(&self, c: &FeatureCollection) -> (r: Result<Json, CodecError>)
        ensures
            match collection_json(c@, self.spec_keys(), self.spec_dim()) {
                Some(x) => r is Ok && r->Ok_0@ == x,
                None => r == Err::<Json, CodecError>(CodecError::MalformedInput),
            },
    {
        let ghost fv = features_view(c.features@);
        let ghost top = features_json(fv, self.spec_keys(), self.spec_dim());
        let mut out: Vec<Json> = Vec::new();
        let mut i: usize = 0;
        assert(fv.skip(0) =~= fv);
        while i < c.features.len()
            invariant
                i <= c.features@.len(),
                fv.len() == c.features@.len(),
                top == match features_json(fv.skip(i as int), self.spec_keys(), self.spec_dim()) {
                    Some(r) => Some(elems_view(out@) + r),
                    None => None,
                },
            decreases c.features.len() - i,
        {
            assert(fv.skip(i as int)[0] == fv[i as int]);
            assert(fv.skip(i as int).skip(1) =~= fv.skip(i + 1));
            let x = self.decode_feature(&c.features[i])?;
            proof {
                let rest = features_json(fv.skip(i + 1), self.spec_keys(), self.spec_dim());
                assert(out@.push(x).drop_last() =~= out@);
                assert(elems_view(out@.push(x)) =~= elems_view(out@).push(x@));
                if rest is Some {
                    assert(elems_view(out@) + (seq![x@] + rest->0) =~= elems_view(out@).push(x@)
                        + rest->0);
                }
            }
            out.push(x);
            i = i + 1;
        }
        assert(fv.skip(i as int) =~= Seq::<FeatureV>::empty());
        assert(elems_view(out@) + Seq::<JsonV>::empty() =~= elems_view(out@));
        let mut obj = two_members(
            "type",
            Json::Str(String::from_str("FeatureCollection")),
            "features",
            Json::Array(out),
        );
        self.decode_properties(&c.custom_properties, &c.values, &mut obj)?;
        Ok(Json::Object(obj))
    }

    /// Decodes a Geobuf message into the GeoJSON document it stores.
    pub fn decode(data: &Data) -> (r: Result<Json, CodecError>)
        ensures
            match decoding(data@) {
                Ok(j) => r is Ok && r->Ok_0@ == j,
                Err(e) => r == Err::<Json, CodecError>(e),
            },
    {
        let decoder = Decoder { data, dim: data.dimensions as usize };
        match &data.data_type {
            None => Err(CodecError::MissingDataType),
            Some(DataType::FeatureCollection(c)) => decoder.decode_feature_collection(c),
            Some(DataType::Feature(f)) => decoder.decode_feature(f),
            Some(DataType::Geometry(g)) => decoder.decode_geometry(g),
        }
    }
}

} // verus!

//! Laws that relate what the encoder stores to what the decoder restores.
use vstd::prelude::*;
use crate::json::{Json, JsonV, Number, member};
use crate::data::{DataTypeV, GeometryType};
use crate::encode::{
    Entity, Props, encoding, geometry_code, geometry_type_of, interned, key_slot,
    lemma_key_position, members_code, point_code, property_code, property_value, reserved,
};
use crate::decode::{
    decoded_value, decoding, geometry_json, grid_line, grid_lines, grid_point, grid_polygons,
    properties_decoded, set_entry,
};
use crate::coords::{
    line_round_trip, lines_of, multi_line_round_trip, multi_polygon_round_trip, polygons_closed,
    polygons_of, positions_of, rings_closed,
};

verus! {

/// A number as the decoder restores it: by its value.
pub open spec fn restored_number(n: Number) -> Number {
    match n {
        Number::NegInt(i) => if i >= 0 {
            Number::PosInt(i as u64)
        } else {
            Number::NegInt(i)
        },
        _ => n,
    }
}

/// A property value as the decoder restores it: numbers by their value, any
/// other value as it was.
pub open spec fn restored(v: Json) -> JsonV {
    match v {
        Json::Number(n) => JsonV::Number(restored_number(n)),
        Json::Scaled(n, _) => JsonV::Number(restored_number(n)),
        _ => v@,
    }
}

/// A property survives encoding. A null one adds no index pair and no value.
/// Any other adds one pair, which decodes, against the dictionary and values
/// the encoder leaves, to the same key set to the same value (numbers by
/// value), on whatever object the decoder builds.
pub proof fn property_round_trip(st: Props, k: Seq<char>, v: Json, obj: Seq<(Seq<char>, JsonV)>)
    requires
        property_code(st, k, v) is Some,
    ensures
        v is Null ==> property_code(st, k, v).unwrap().pairs == st.pairs && property_code(
            st,
            k,
            v,
        ).unwrap().values == st.values,
        !(v is Null) ==> {
            let st2 = property_code(st, k, v).unwrap();
            &&& st2.pairs.take(st.pairs.len() as int) == st.pairs
            &&& properties_decoded(st2.pairs.skip(st.pairs.len() as int), st2.values, st2.keys, obj)
                == Some(set_entry(obj, k, restored(v)))
        },
{
    if !(v is Null) {
        let st2 = property_code(st, k, v).unwrap();
        let x = property_value(v).unwrap().unwrap();
        let added = st2.pairs.skip(st.pairs.len() as int);
        let slot = key_slot(st.keys, k);
        lemma_key_position(st.keys, k);
        assert(st2.pairs.take(st.pairs.len() as int) =~= st.pairs);
        assert(added =~= seq![slot as u32, st.values.len() as u32]);
        assert(st2.keys == interned(st.keys, k));
        assert(st2.keys[slot] == k);
        assert(st2.values[st.values.len() as int] == x);
        assert(decoded_value(x) == Some(restored(v)));
        assert(added.skip(2) =~= Seq::<u32>::empty());
        assert(added[0] as int == slot && added[1] as int == st.values.len());
        let after = set_entry(obj, k, restored(v));
        assert(properties_decoded(added.skip(2), st2.values, st2.keys, after) == Some(after));
    }
}

proof fn lemma_all_reserved(st: Props, ms: Seq<(String, Json)>, e: Entity)
    requires
        forall|i: int| 0 <= i < ms.len() ==> reserved(e, #[trigger] ms[i].0@),
    ensures
        members_code(st, ms, e) == Some(st),
    decreases ms.len(),
{
    if ms.len() > 0 {
        let tail = ms.skip(1);
        assert forall|i: int| 0 <= i < tail.len() implies reserved(e, #[trigger] tail[i].0@) by {
            assert(tail[i] == ms[i + 1]);
        }
        assert(reserved(e, ms[0].0@));
        lemma_all_reserved(st, tail, e);
    }
}

/// The `coordinates` that a geometry of type `t` decodes to, when its
/// `coordinates` member holds `cs`: every position cut to `dim` components, on
/// the coordinate grid.
pub open spec fn restored_coordinates(t: GeometryType, cs: Seq<Json>, dim: nat) -> JsonV {
    match t {
        GeometryType::Point => grid_point(point_code(cs).unwrap()),
        GeometryType::MultiPoint | GeometryType::LineString => grid_line(positions_of(cs, dim)),
        GeometryType::MultiLineString | GeometryType::Polygon => grid_lines(lines_of(cs, dim)),
        _ => grid_polygons(polygons_of(cs, dim)),
    }
}

/// Whether the `coordinates` `cs` of a geometry of type `t` have the shape
/// that decoding restores: every ring closed, and at least one line where
/// lines are listed.
pub open spec fn restorable(t: GeometryType, cs: Seq<Json>, dim: nat) -> bool {
    match t {
        GeometryType::MultiLineString => cs.len() >= 1,
        GeometryType::Polygon => cs.len() >= 1 && rings_closed(cs, dim, true),
        GeometryType::MultiPolygon => polygons_closed(cs, dim),
        _ => true,
    }
}

/// The `"type"` string of a document.
pub open spec fn declared_type(j: Json) -> Seq<char> {
    member(j, "type"@).unwrap()->Str_0@
}

/// The `coordinates` array of a geometry.
pub open spec fn coordinates(j: Json) -> Seq<Json> {
    member(j, "coordinates"@).unwrap()->Array_0@
}

/// Whether `j` is a geometry (other than a collection) whose coordinates
/// decoding restores, with no member but those GeoJSON reserves for it.
pub open spec fn plain_geometry(j: Json, dim: nat) -> bool {
    &&& dim > 0
    &&& j is Object
    &&& forall|i: int|
        0 <= i < j->Object_0@.len() ==> reserved(Entity::Geometry, #[trigger] j->Object_0@[i].0@)
    &&& member(j, "type"@) is Some
    &&& member(j, "type"@).unwrap() is Str
    &&& geometry_type_of(declared_type(j)) is Some
    &&& geometry_type_of(declared_type(j)) != Some(GeometryType::GeometryCollection)
    &&& member(j, "coordinates"@) is Some
    &&& member(j, "coordinates"@).unwrap() is Array
    &&& restorable(geometry_type_of(declared_type(j)).unwrap(), coordinates(j), dim)
}

/// The GeoJSON geometry that decoding restores for a plain geometry `j`.
pub open spec fn restored_geometry(j: Json, dim: nat) -> JsonV {
    JsonV::Object(
        seq![
            ("type"@, JsonV::Str(declared_type(j))),
            (
                "coordinates"@,
                restored_coordinates(geometry_type_of(declared_type(j)).unwrap(), coordinates(j), dim),
            ),
        ],
    )
}

proof fn lemma_geometry_restored(j: Json, keys: Seq<Seq<char>>, other: Seq<Seq<char>>, d: nat)
    requires
        plain_geometry(j, d),
        geometry_code(j, keys, d) is Ok,
    ensures
        geometry_code(j, keys, d)->Ok_0.1 == keys,
        geometry_json(geometry_code(j, keys, d)->Ok_0.0, other, d) == Some(restored_geometry(j, d)),
{
    let t = declared_type(j);
    let gt = geometry_type_of(t).unwrap();
    let cs = coordinates(j);
    reveal_strlit("Point");
    reveal_strlit("MultiPoint");
    reveal_strlit("LineString");
    reveal_strlit("MultiLineString");
    reveal_strlit("Polygon");
    reveal_strlit("MultiPolygon");
    reveal_strlit("GeometryCollection");
    let none = Props { keys, pairs: Seq::empty(), values: Seq::empty() };
    lemma_all_reserved(none, j->Object_0@, Entity::Geometry);
    let gv = geometry_code(j, keys, d)->Ok_0.0;
    assert(gv.geometry_type == gt);
    assert(gv.custom_properties.len() == 0);
    match gt {
        GeometryType::Point => {},
        GeometryType::MultiPoint | GeometryType::LineString => {
            line_round_trip(cs, d, false);
        },
        GeometryType::MultiLineString => {
            multi_line_round_trip(cs, d, false);
        },
        GeometryType::Polygon => {
            multi_line_round_trip(cs, d, true);
        },
        GeometryType::MultiPolygon => {
            multi_polygon_round_trip(cs, d);
        },
        GeometryType::GeometryCollection => {},
    }
    let body = restored_geometry(j, d)->Object_0;
    assert(properties_decoded(gv.custom_properties, gv.values, other, body) == Some(body));
}

/// The names of the geometry types, and no other, differ from the names of
/// the two GeoJSON objects that are not geometries.
proof fn lemma_not_feature(t: Seq<char>)
    requires
        geometry_type_of(t) is Some,
    ensures
        t != "FeatureCollection"@ && t != "Feature"@,
{
    reveal_strlit("Point");
    reveal_strlit("MultiPoint");
    reveal_strlit("LineString");
    reveal_strlit("MultiLineString");
    reveal_strlit("Polygon");
    reveal_strlit("MultiPolygon");
    reveal_strlit("GeometryCollection");
    reveal_strlit("Feature");
    reveal_strlit("FeatureCollection");
    assert("Feature"@[0] == 'F' && "FeatureCollection"@[0] == 'F');
    assert(t.len() > 0 && t[0] != 'F') by {
        if t == "Point"@ || t == "Polygon"@ {
            assert(t[0] == 'P');
        } else if t == "MultiPoint"@ || t == "MultiLineString"@ || t == "MultiPolygon"@ {
            assert(t[0] == 'M');
        } else if t == "LineString"@ {
            assert(t[0] == 'L');
        } else {
            assert(t[0] == 'G');
        }
    }
}

/// Round trip of a geometry: decoding what a geometry (other than a
/// collection) encodes to gives its type and its coordinates, each position
/// cut to `dim` components on the coordinate grid, provided its rings are
/// closed. Members that GeoJSON reserves for a geometry are not kept.
pub proof fn geometry_round_trip(j: Json, precision: u32, dim: u32)
    requires
        plain_geometry(j, dim as nat),
        encoding(j, precision, dim) is Ok,
    ensures
        decoding(encoding(j, precision, dim)->Ok_0) == Ok::<JsonV, crate::data::CodecError>(
            restored_geometry(j, dim as nat),
        ),
{
    lemma_not_feature(declared_type(j));
    lemma_geometry_restored(j, Seq::empty(), Seq::empty(), dim as nat);
}

/// Whether `j` is a feature with no identifier and no member but `type`,
/// `properties` and `geometry`, whose `properties` object holds the single
/// member `k: v`, and whose geometry is plain.
pub open spec fn single_property_feature(j: Json, k: Seq<char>, v: Json, dim: nat) -> bool {
    &&& j is Object
    &&& forall|i: int|
        0 <= i < j->Object_0@.len() ==> reserved(Entity::Feature, #[trigger] j->Object_0@[i].0@)
    &&& member(j, "type"@) is Some
    &&& member(j, "type"@).unwrap() is Str
    &&& declared_type(j) == "Feature"@
    &&& member(j, "id"@) is None
    &&& member(j, "properties"@) is Some
    &&& member(j, "properties"@).unwrap() is Object
    &&& member(j, "properties"@).unwrap()->Object_0@.len() == 1
    &&& member(j, "properties"@).unwrap()->Object_0@[0].0@ == k
    &&& member(j, "properties"@).unwrap()->Object_0@[0].1 == v
    &&& member(j, "geometry"@) is Some
    &&& plain_geometry(member(j, "geometry"@).unwrap(), dim)
}

/// Property preservation: a feature whose only property is `k: v` decodes
/// with `properties` holding `k` set to `v` (numbers by value); when `v` is
/// null, the decoded feature has no `properties` at all.
pub proof fn single_property_round_trip(j: Json, k: Seq<char>, v: Json, precision: u32, dim: u32)
    requires
        single_property_feature(j, k, v, dim as nat),
        encoding(j, precision, dim) is Ok,
    ensures
        ({
            let g = restored_geometry(member(j, "geometry"@).unwrap(), dim as nat);
            let base = seq![("type"@, JsonV::Str("Feature"@)), ("geometry"@, g)];
            decoding(encoding(j, precision, dim)->Ok_0) == Ok::<JsonV, crate::data::CodecError>(
                if v is Null {
                    JsonV::Object(base)
                } else {
                    JsonV::Object(
                        base.push(("properties"@, JsonV::Object(seq![(k, restored(v))]))),
                    )
                },
            )
        }),
{
    let d = dim as nat;
    reveal_strlit("Feature");
    reveal_strlit("FeatureCollection");
    reveal_strlit("type");
    reveal_strlit("geometry");
    reveal_strlit("properties");
    assert("Feature"@.len() == 7 && "FeatureCollection"@.len() == 17);
    assert(declared_type(j) != "FeatureCollection"@);
    let gj = member(j, "geometry"@).unwrap();
    let pm = member(j, "properties"@).unwrap()->Object_0@;
    let st0 = Props { keys: Seq::empty(), pairs: Seq::empty(), values: Seq::empty() };
    assert(crate::encode::feature_code(j, Seq::empty(), d) is Ok);
    assert(crate::encode::feature_properties(j, Seq::empty()) is Some);
    assert(crate::encode::feature_properties(j, Seq::empty()) == members_code(
        st0,
        pm,
        Entity::Properties,
    ));
    assert(pm.skip(1) =~= Seq::<(String, Json)>::empty());
    assert(property_code(st0, k, v) is Some);
    let st1 = property_code(st0, k, v).unwrap();
    assert(members_code(st1, pm.skip(1), Entity::Properties) == Some(st1));
    assert(crate::encode::feature_properties(j, Seq::empty()) == Some(st1));
    let none = Props { keys: st1.keys, pairs: Seq::empty(), values: st1.values };
    lemma_all_reserved(none, j->Object_0@, Entity::Feature);
    lemma_geometry_restored(gj, st1.keys, st1.keys, d);
    let g = restored_geometry(gj, d);
    let base = seq![("type"@, JsonV::Str("Feature"@)), ("geometry"@, g)];
    assert(properties_decoded(Seq::empty(), st1.values, st1.keys, base) == Some(base));
    property_round_trip(st0, k, v, Seq::empty());
    assert(st1.pairs.skip(0) =~= st1.pairs);
    if !(v is Null) {
        let props = seq![(k, restored(v))];
        assert(set_entry(Seq::empty(), k, restored(v)) =~= props);
        assert(crate::decode::entry_index(base, "properties"@) == -1) by {
            assert("type"@.len() == 4 && "geometry"@.len() == 8 && "properties"@.len() == 10);
            let one = base.drop_last();
            assert(one =~= seq![("type"@, JsonV::Str("Feature"@))]);
            assert(one.drop_last() =~= Seq::<(Seq<char>, JsonV)>::empty());
            assert(crate::decode::entry_index(one.drop_last(), "properties"@) == -1);
            assert(crate::decode::entry_index(one, "properties"@) == -1);
        }
    }
}

} // verus!

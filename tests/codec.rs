use geobuf::data::{CodecError, DataType, FeatureId, Geometry, GeometryType, Value};
use geobuf::decode::Decoder;
use geobuf::encode::Encoder;
use geobuf::json::{Json, Number};

const E: f64 = 1000000.0;

/// A number as a reader hands it to the encoder at precision 6.
fn fl(v: f64) -> Json {
    Json::Scaled(Number::Float(v.to_bits()), (v * E).round() as i64)
}

fn whole(v: i64) -> Json {
    let class = if v >= 0 { Number::PosInt(v as u64) } else { Number::NegInt(v) };
    Json::Scaled(class, v * 1000000)
}

fn s(v: &str) -> Json {
    Json::Str(v.to_string())
}

fn arr(items: Vec<Json>) -> Json {
    Json::Array(items)
}

fn obj(members: Vec<(&str, Json)>) -> Json {
    Json::Object(members.into_iter().map(|(k, v)| (k.to_string(), v)).collect())
}

fn pt(x: f64, y: f64) -> Json {
    arr(vec![fl(x), fl(y)])
}

fn geometry(t: &str, coordinates: Json) -> Json {
    obj(vec![("type", s(t)), ("coordinates", coordinates)])
}

fn get<'a>(j: &'a Json, key: &str) -> Option<&'a Json> {
    match j {
        Json::Object(m) => m.iter().find(|(k, _)| k == key).map(|(_, v)| v),
        _ => None,
    }
}

fn keys_of(j: &Json) -> Vec<String> {
    match j {
        Json::Object(m) => m.iter().map(|(k, _)| k.clone()).collect(),
        _ => panic!("not an object"),
    }
}

fn str_of(j: &Json) -> &str {
    match j {
        Json::Str(v) => v.as_str(),
        _ => panic!("not a string: {:?}", j),
    }
}

fn grid(j: &Json) -> i64 {
    match j {
        Json::Grid(g) => *g,
        _ => panic!("not a coordinate: {:?}", j),
    }
}

fn items(j: &Json) -> &Vec<Json> {
    match j {
        Json::Array(v) => v,
        _ => panic!("not an array: {:?}", j),
    }
}

fn position(j: &Json) -> Vec<i64> {
    items(j).iter().map(grid).collect()
}

fn positions(j: &Json) -> Vec<Vec<i64>> {
    items(j).iter().map(position).collect()
}

fn geometry_of(data: &geobuf::data::Data) -> &Geometry {
    match &data.data_type {
        Some(DataType::Geometry(g)) => g,
        _ => panic!("no geometry"),
    }
}

#[test]
fn point_at_precision_six() {
    let input = geometry("Point", pt(100.0, 0.0));
    let data = Encoder::encode(&input, 6, 2).unwrap();
    assert_eq!(data.dimensions, 2);
    assert_eq!(data.precision, 6);
    let g = geometry_of(&data);
    assert_eq!(g.geometry_type, GeometryType::Point);
    assert_eq!(g.coords, vec![100000000, 0]);
    assert!(g.lengths.is_empty());
    let out = Decoder::decode(&data).unwrap();
    assert_eq!(str_of(get(&out, "type").unwrap()), "Point");
    assert_eq!(position(get(&out, "coordinates").unwrap()), vec![100000000, 0]);
}

#[test]
fn line_string_deltas() {
    let input = geometry("LineString", arr(vec![pt(0.0, 0.0), pt(1.0, 1.0), pt(2.0, 1.0)]));
    let data = Encoder::encode(&input, 6, 2).unwrap();
    let g = geometry_of(&data);
    assert_eq!(g.geometry_type, GeometryType::LineString);
    assert_eq!(g.coords, vec![0, 0, 1000000, 1000000, 1000000, 0]);
    let out = Decoder::decode(&data).unwrap();
    assert_eq!(
        positions(get(&out, "coordinates").unwrap()),
        vec![vec![0, 0], vec![1000000, 1000000], vec![2000000, 1000000]]
    );
}

#[test]
fn polygon_ring_is_closed_again() {
    let ring = arr(vec![pt(0.0, 0.0), pt(1.0, 0.0), pt(1.0, 1.0), pt(0.0, 1.0), pt(0.0, 0.0)]);
    let input = geometry("Polygon", arr(vec![ring]));
    let data = Encoder::encode(&input, 6, 2).unwrap();
    let g = geometry_of(&data);
    assert_eq!(g.coords.len(), 8);
    assert!(g.lengths.is_empty());
    let out = Decoder::decode(&data).unwrap();
    let rings = items(get(&out, "coordinates").unwrap());
    assert_eq!(rings.len(), 1);
    let ring = positions(&rings[0]);
    assert_eq!(ring.len(), 5);
    assert_eq!(ring[4], ring[0]);
    assert_eq!(ring[2], vec![1000000, 1000000]);
}

#[test]
fn feature_with_id_and_null_property() {
    let input = obj(vec![
        ("type", s("Feature")),
        ("id", whole(42)),
        ("properties", obj(vec![("name", s("x")), ("note", Json::Null)])),
        ("geometry", geometry("Point", arr(vec![whole(0), whole(0)]))),
    ]);
    let data = Encoder::encode(&input, 6, 2).unwrap();
    match &data.data_type {
        Some(DataType::Feature(f)) => {
            assert_eq!(f.id, Some(FeatureId::IntId(42)));
            assert_eq!(f.properties.len(), 2);
        }
        _ => panic!("no feature"),
    }
    let out = Decoder::decode(&data).unwrap();
    assert_eq!(str_of(get(&out, "type").unwrap()), "Feature");
    assert!(matches!(get(&out, "id"), Some(Json::Number(Number::PosInt(42)))));
    let props = get(&out, "properties").unwrap();
    assert_eq!(keys_of(props), vec!["name".to_string()]);
    assert_eq!(str_of(get(props, "name").unwrap()), "x");
    assert!(get(props, "note").is_none());
    let geom = get(&out, "geometry").unwrap();
    assert_eq!(position(get(geom, "coordinates").unwrap()), vec![0, 0]);
}

#[test]
fn negative_integer_property() {
    let input = obj(vec![
        ("type", s("Feature")),
        ("properties", obj(vec![("k", whole(-7))])),
        ("geometry", geometry("Point", pt(1.5, 2.5))),
    ]);
    let data = Encoder::encode(&input, 6, 2).unwrap();
    match &data.data_type {
        Some(DataType::Feature(f)) => {
            assert_eq!(f.values.len(), 1);
            assert!(matches!(f.values[0], Value::NegIntValue(7)));
        }
        _ => panic!("no feature"),
    }
    let out = Decoder::decode(&data).unwrap();
    let props = get(&out, "properties").unwrap();
    assert!(matches!(get(props, "k"), Some(Json::Number(Number::NegInt(-7)))));
}

#[test]
fn empty_feature_collection() {
    let input = obj(vec![("type", s("FeatureCollection")), ("features", arr(vec![]))]);
    let data = Encoder::encode(&input, 6, 2).unwrap();
    assert!(data.keys.is_empty());
    match &data.data_type {
        Some(DataType::FeatureCollection(c)) => {
            assert!(c.custom_properties.is_empty());
            assert!(c.features.is_empty());
        }
        _ => panic!("no feature collection"),
    }
    let out = Decoder::decode(&data).unwrap();
    assert_eq!(keys_of(&out), vec!["type".to_string(), "features".to_string()]);
    assert_eq!(str_of(get(&out, "type").unwrap()), "FeatureCollection");
    assert!(items(get(&out, "features").unwrap()).is_empty());
}

#[test]
fn unknown_geometry_type_is_rejected() {
    let input = geometry("Circle", pt(0.0, 0.0));
    assert_eq!(Encoder::encode(&input, 6, 2).unwrap_err(), CodecError::InvalidGeometryType);
}

#[test]
fn missing_type_is_malformed() {
    let input = obj(vec![("coordinates", pt(0.0, 0.0))]);
    assert_eq!(Encoder::encode(&input, 6, 2).unwrap_err(), CodecError::MalformedInput);
}

#[test]
fn non_numeric_coordinate_is_malformed() {
    let input = geometry("LineString", arr(vec![pt(0.0, 0.0), arr(vec![fl(1.0), s("a")])]));
    assert_eq!(Encoder::encode(&input, 6, 2).unwrap_err(), CodecError::MalformedInput);
}

#[test]
fn message_without_payload_is_rejected() {
    let data = geobuf::data::Data { keys: vec![], dimensions: 2, precision: 6, data_type: None };
    assert_eq!(Decoder::decode(&data).unwrap_err(), CodecError::MissingDataType);
}

#[test]
fn out_of_range_key_index_is_malformed() {
    let g = Geometry {
        geometry_type: GeometryType::Point,
        lengths: vec![],
        coords: vec![1, 2],
        geometries: vec![],
        values: vec![Value::BoolValue(true)],
        custom_properties: vec![3, 0],
    };
    let data = geobuf::data::Data {
        keys: vec!["a".to_string()],
        dimensions: 2,
        precision: 6,
        data_type: Some(DataType::Geometry(g)),
    };
    assert_eq!(Decoder::decode(&data).unwrap_err(), CodecError::MalformedInput);
}

#[test]
fn coordinates_not_a_multiple_of_dimension_are_malformed() {
    let g = Geometry {
        geometry_type: GeometryType::LineString,
        lengths: vec![],
        coords: vec![1, 2, 3],
        geometries: vec![],
        values: vec![],
        custom_properties: vec![],
    };
    let data = geobuf::data::Data {
        keys: vec![],
        dimensions: 2,
        precision: 6,
        data_type: Some(DataType::Geometry(g)),
    };
    assert_eq!(Decoder::decode(&data).unwrap_err(), CodecError::MalformedInput);
}

#[test]
fn multi_line_string_lengths() {
    let input = geometry(
        "MultiLineString",
        arr(vec![arr(vec![pt(0.0, 0.0), pt(1.0, 0.0)]), arr(vec![pt(5.0, 5.0), pt(5.0, 6.0), pt(6.0, 6.0)])]),
    );
    let data = Encoder::encode(&input, 6, 2).unwrap();
    let g = geometry_of(&data);
    assert_eq!(g.lengths, vec![2, 3]);
    assert_eq!(g.coords, vec![0, 0, 1000000, 0, 5000000, 5000000, 0, 1000000, 1000000, 0]);
    let out = Decoder::decode(&data).unwrap();
    let lines = items(get(&out, "coordinates").unwrap());
    assert_eq!(positions(&lines[0]), vec![vec![0, 0], vec![1000000, 0]]);
    assert_eq!(
        positions(&lines[1]),
        vec![vec![5000000, 5000000], vec![5000000, 6000000], vec![6000000, 6000000]]
    );
}

#[test]
fn polygon_with_hole_lengths() {
    let outer = arr(vec![pt(0.0, 0.0), pt(4.0, 0.0), pt(4.0, 4.0), pt(0.0, 0.0)]);
    let inner = arr(vec![pt(1.0, 1.0), pt(2.0, 1.0), pt(2.0, 2.0), pt(1.0, 2.0), pt(1.0, 1.0)]);
    let data = Encoder::encode(&geometry("Polygon", arr(vec![outer, inner])), 6, 2).unwrap();
    let g = geometry_of(&data);
    assert_eq!(g.lengths, vec![3, 4]);
    assert_eq!(g.coords.len(), 14);
    let out = Decoder::decode(&data).unwrap();
    let rings = items(get(&out, "coordinates").unwrap());
    assert_eq!(positions(&rings[0]).len(), 4);
    assert_eq!(positions(&rings[1]).len(), 5);
    assert_eq!(positions(&rings[1])[4], vec![1000000, 1000000]);
}

#[test]
fn single_ring_multi_polygon_has_no_lengths() {
    let ring = arr(vec![pt(0.0, 0.0), pt(1.0, 0.0), pt(1.0, 1.0), pt(0.0, 0.0)]);
    let data = Encoder::encode(&geometry("MultiPolygon", arr(vec![arr(vec![ring])])), 6, 2).unwrap();
    let g = geometry_of(&data);
    assert!(g.lengths.is_empty());
    assert_eq!(g.coords, vec![0, 0, 1000000, 0, 0, 1000000]);
    let out = Decoder::decode(&data).unwrap();
    let polys = items(get(&out, "coordinates").unwrap());
    assert_eq!(polys.len(), 1);
    let rings = items(&polys[0]);
    assert_eq!(rings.len(), 1);
    assert_eq!(
        positions(&rings[0]),
        vec![vec![0, 0], vec![1000000, 0], vec![1000000, 1000000], vec![0, 0]]
    );
}

#[test]
fn multi_polygon_lengths_header() {
    let a = arr(vec![pt(0.0, 0.0), pt(1.0, 0.0), pt(1.0, 1.0), pt(0.0, 0.0)]);
    let b = arr(vec![pt(2.0, 2.0), pt(3.0, 2.0), pt(3.0, 3.0), pt(2.0, 3.0), pt(2.0, 2.0)]);
    let c = arr(vec![pt(5.0, 5.0), pt(6.0, 5.0), pt(5.0, 5.0)]);
    let input = geometry("MultiPolygon", arr(vec![arr(vec![a]), arr(vec![b, c])]));
    let data = Encoder::encode(&input, 6, 2).unwrap();
    let g = geometry_of(&data);
    assert_eq!(g.lengths, vec![2, 1, 3, 2, 4, 2]);
    assert_eq!(g.coords.len(), 18);
    let out = Decoder::decode(&data).unwrap();
    let polys = items(get(&out, "coordinates").unwrap());
    assert_eq!(polys.len(), 2);
    assert_eq!(items(&polys[0]).len(), 1);
    assert_eq!(items(&polys[1]).len(), 2);
    assert_eq!(positions(&items(&polys[1])[1]), vec![vec![5000000, 5000000], vec![6000000, 5000000], vec![5000000, 5000000]]);
}

#[test]
fn geometry_collection_and_custom_members() {
    let input = obj(vec![
        ("type", s("GeometryCollection")),
        ("name", s("pair")),
        ("geometries", arr(vec![geometry("Point", pt(1.0, 2.0)), geometry("MultiPoint", arr(vec![pt(1.0, 1.0), pt(3.0, 1.0)]))])),
    ]);
    let data = Encoder::encode(&input, 6, 2).unwrap();
    assert_eq!(data.keys, vec!["name".to_string()]);
    let g = geometry_of(&data);
    assert_eq!(g.geometry_type, GeometryType::GeometryCollection);
    assert_eq!(g.custom_properties, vec![0, 0]);
    assert_eq!(g.geometries.len(), 2);
    assert_eq!(g.geometries[1].coords, vec![1000000, 1000000, 2000000, 0]);
    let out = Decoder::decode(&data).unwrap();
    assert_eq!(str_of(get(&out, "name").unwrap()), "pair");
    let gs = items(get(&out, "geometries").unwrap());
    assert_eq!(str_of(get(&gs[1], "type").unwrap()), "MultiPoint");
    assert_eq!(positions(get(&gs[1], "coordinates").unwrap()), vec![vec![1000000, 1000000], vec![3000000, 1000000]]);
}

#[test]
fn keys_are_interned_once() {
    let feature = |v: i64| {
        obj(vec![
            ("type", s("Feature")),
            ("properties", obj(vec![("a", whole(v)), ("b", Json::Bool(true))])),
            ("geometry", geometry("Point", pt(0.0, 0.0))),
        ])
    };
    let input = obj(vec![("type", s("FeatureCollection")), ("features", arr(vec![feature(1), feature(2)]))]);
    let data = Encoder::encode(&input, 6, 2).unwrap();
    assert_eq!(data.keys, vec!["a".to_string(), "b".to_string()]);
    match &data.data_type {
        Some(DataType::FeatureCollection(c)) => {
            assert_eq!(c.features[1].properties, vec![0, 0, 1, 1]);
        }
        _ => panic!("no feature collection"),
    }
}

#[test]
fn nested_property_values_round_trip() {
    let nested = obj(vec![("x", whole(1)), ("y", arr(vec![s("u"), Json::Null]))]);
    let input = obj(vec![
        ("type", s("Feature")),
        ("id", s("f1")),
        ("properties", obj(vec![("n", nested), ("d", fl(0.25))])),
        ("geometry", geometry("Point", pt(0.0, 0.0))),
    ]);
    let data = Encoder::encode(&input, 6, 2).unwrap();
    match &data.data_type {
        Some(DataType::Feature(f)) => {
            assert_eq!(f.id, Some(FeatureId::Id("f1".to_string())));
            assert!(matches!(f.values[0], Value::JsonValue(Json::Object(_))));
            assert!(matches!(f.values[1], Value::DoubleValue(b) if b == 0.25f64.to_bits()));
        }
        _ => panic!("no feature"),
    }
    let out = Decoder::decode(&data).unwrap();
    assert_eq!(str_of(get(&out, "id").unwrap()), "f1");
    let props = get(&out, "properties").unwrap();
    let n = get(props, "n").unwrap();
    assert_eq!(keys_of(n), vec!["x".to_string(), "y".to_string()]);
    assert!(matches!(get(props, "d"), Some(Json::Number(Number::Float(b))) if *b == 0.25f64.to_bits()));
}

#[test]
fn three_dimensional_line() {
    let p = |x: f64, y: f64, z: f64| arr(vec![fl(x), fl(y), fl(z)]);
    let input = geometry("LineString", arr(vec![p(1.0, 2.0, 3.0), p(1.0, 2.0, 5.0)]));
    let data = Encoder::encode(&input, 6, 3).unwrap();
    let g = geometry_of(&data);
    assert_eq!(g.coords, vec![1000000, 2000000, 3000000, 0, 0, 2000000]);
    let out = Decoder::decode(&data).unwrap();
    assert_eq!(
        positions(get(&out, "coordinates").unwrap()),
        vec![vec![1000000, 2000000, 3000000], vec![1000000, 2000000, 5000000]]
    );
}

#[test]
fn delta_overflow_is_malformed() {
    let far = |g: i64| Json::Scaled(Number::Float(0), g);
    let input = geometry("LineString", arr(vec![arr(vec![far(i64::MIN), far(0)]), arr(vec![far(i64::MAX), far(0)])]));
    assert_eq!(Encoder::encode(&input, 6, 2).unwrap_err(), CodecError::MalformedInput);
}

#[test]
fn property_values_keep_their_kind() {
    let props = obj(vec![
        ("s", s("text")),
        ("b", Json::Bool(false)),
        ("big", Json::Scaled(Number::PosInt(u64::MAX), 0)),
        ("low", Json::Scaled(Number::NegInt(i64::MIN), 0)),
        ("zero", whole(0)),
    ]);
    let input = obj(vec![
        ("type", s("Feature")),
        ("properties", props),
        ("geometry", geometry("Point", pt(0.0, 0.0))),
    ]);
    let data = Encoder::encode(&input, 6, 2).unwrap();
    match &data.data_type {
        Some(DataType::Feature(f)) => {
            assert!(matches!(f.values[2], Value::PosIntValue(u64::MAX)));
            assert!(matches!(f.values[3], Value::NegIntValue(9223372036854775808)));
            assert!(matches!(f.values[4], Value::PosIntValue(0)));
        }
        _ => panic!("no feature"),
    }
    let out = Decoder::decode(&data).unwrap();
    let p = get(&out, "properties").unwrap();
    assert_eq!(str_of(get(p, "s").unwrap()), "text");
    assert!(matches!(get(p, "b"), Some(Json::Bool(false))));
    assert!(matches!(get(p, "big"), Some(Json::Number(Number::PosInt(u64::MAX)))));
    assert!(matches!(get(p, "low"), Some(Json::Number(Number::NegInt(i64::MIN)))));
    assert!(matches!(get(p, "zero"), Some(Json::Number(Number::PosInt(0)))));
}

#[test]
fn float_id_is_ignored() {
    let input = obj(vec![
        ("type", s("Feature")),
        ("id", fl(1.5)),
        ("geometry", geometry("Point", pt(0.0, 0.0))),
    ]);
    let data = Encoder::encode(&input, 6, 2).unwrap();
    match &data.data_type {
        Some(DataType::Feature(f)) => assert_eq!(f.id, None),
        _ => panic!("no feature"),
    }
    let out = Decoder::decode(&data).unwrap();
    assert!(get(&out, "id").is_none());
    assert!(get(&out, "properties").is_none());
}

#[test]
fn feature_without_geometry_is_malformed() {
    let input = obj(vec![("type", s("Feature")), ("properties", obj(vec![]))]);
    assert_eq!(Encoder::encode(&input, 6, 2).unwrap_err(), CodecError::MalformedInput);
}

#[test]
fn custom_members_of_a_feature_are_kept() {
    let input = obj(vec![
        ("type", s("Feature")),
        ("title", s("t")),
        ("geometry", geometry("Point", pt(0.0, 0.0))),
        ("properties", obj(vec![("title", s("p"))])),
    ]);
    let data = Encoder::encode(&input, 6, 2).unwrap();
    assert_eq!(data.keys, vec!["title".to_string()]);
    match &data.data_type {
        Some(DataType::Feature(f)) => {
            assert_eq!(f.properties, vec![0, 0]);
            assert_eq!(f.custom_properties, vec![0, 1]);
        }
        _ => panic!("no feature"),
    }
    let out = Decoder::decode(&data).unwrap();
    assert_eq!(str_of(get(&out, "title").unwrap()), "t");
    assert_eq!(str_of(get(get(&out, "properties").unwrap(), "title").unwrap()), "p");
}

use std::collections::BTreeMap;

use endpoint_spec::endpoint_spec::EndpointSpec;
use endpoint_spec::formats::{DeserializerFormat, JsonDeserializer};
use endpoint_spec::parameter_spec::{ParameterQuantifier, PathBuilder, PathError};
use endpoint_spec::parameters_spec::{
    ParamSerializer, ParamValidator, Parameters, ParametersSpec, SerializationError, SpecError,
    ValidationError,
};

fn strings(items: &[&str]) -> Vec<String> {
    items.iter().map(|s| s.to_string()).collect()
}

fn pairs(items: &[(&str, &str)]) -> Vec<(String, String)> {
    items.iter().map(|(k, v)| (k.to_string(), v.to_string())).collect()
}

/// No-op hooks for specs that install none.
#[derive(Clone, Copy, Debug)]
struct NoHooks;

impl ParamValidator for NoHooks {
    fn validate(
        &self,
        _keys: &Vec<String>,
        values: Vec<(String, String)>,
    ) -> Result<Vec<(String, String)>, ValidationError> {
        Ok(values)
    }
}

impl ParamSerializer for NoHooks {
    fn serialize_params(
        &self,
        _entries: &Vec<(String, String)>,
    ) -> Result<String, SerializationError> {
        Err(SerializationError::MissingSerializer)
    }
}

/// Joins entries as `k=v` pairs with `&` separators.
#[derive(Clone, Copy)]
struct AmpersandSerializer;

impl ParamSerializer for AmpersandSerializer {
    fn serialize_params(
        &self,
        entries: &Vec<(String, String)>,
    ) -> Result<String, SerializationError> {
        let rendered: Vec<String> =
            entries.iter().map(|(k, v)| format!("{}={}", k, v)).collect();
        Ok(rendered.join("&"))
    }
}

/// A serializer that always fails with its own cause.
#[derive(Clone, Copy)]
struct FailingSerializer;

impl ParamSerializer for FailingSerializer {
    fn serialize_params(
        &self,
        _entries: &Vec<(String, String)>,
    ) -> Result<String, SerializationError> {
        Err(SerializationError::Custom { message: "boom".to_string() })
    }
}

/// Rejects any empty value; uppercases the rest.
struct UppercaseValidator;

impl ParamValidator for UppercaseValidator {
    fn validate(
        &self,
        _keys: &Vec<String>,
        values: Vec<(String, String)>,
    ) -> Result<Vec<(String, String)>, ValidationError> {
        if values.iter().any(|(_, v)| v.is_empty()) {
            return Err(ValidationError::Custom {
                message: "empty value".to_string(),
                values,
            });
        }
        Ok(values.into_iter().map(|(k, v)| (k, v.to_uppercase())).collect())
    }
}

#[test]
fn some_fn_is_42() {
    assert_eq!(42, 42);
}

#[test]
fn accepted_parameters_pairing_is_segment_count() {
    let pb = PathBuilder::new(strings(&["/a/", "/b/", "/c/"]), ParameterQuantifier::PairingSegments);
    assert_eq!(pb.accepted_parameters(), 3);
    let pb = PathBuilder::new(Vec::new(), ParameterQuantifier::PairingSegments);
    assert_eq!(pb.accepted_parameters(), 0);
}

#[test]
fn accepted_parameters_joining_is_one_fewer() {
    let pb = PathBuilder::new(strings(&["/a/", "/b/", "/c"]), ParameterQuantifier::JoiningSegments);
    assert_eq!(pb.accepted_parameters(), 2);
}

#[test]
fn build_joining_interleaves_and_closes() {
    let pb = PathBuilder::new(strings(&["/a/", "/b/", "/c"]), ParameterQuantifier::JoiningSegments);
    let built = pb.build(&strings(&["X", "Y"])).unwrap();
    assert_eq!(built, "/a/X/b/Y/c");
}

#[test]
fn build_pairing_appends_after_each_segment() {
    let pb = PathBuilder::new(strings(&["/items/", "/sub/"]), ParameterQuantifier::PairingSegments);
    let built = pb.build(&strings(&["42", "99"])).unwrap();
    assert_eq!(built, "/items/42/sub/99");
}

#[test]
fn build_rejects_wrong_arity_and_mutates_nothing() {
    let pb = PathBuilder::new(strings(&["/a/", "/b/"]), ParameterQuantifier::PairingSegments);
    let err = pb.build(&strings(&["only"])).unwrap_err();
    assert_eq!(err, PathError::ArityMismatch { expected: 2, actual: 1 });
    let err = pb.build(&strings(&["1", "2", "3"])).unwrap_err();
    assert_eq!(err, PathError::ArityMismatch { expected: 2, actual: 3 });
    // The builder is untouched: the correct arity still succeeds.
    assert_eq!(pb.build(&strings(&["1", "2"])).unwrap(), "/a/1/b/2");
}

#[test]
fn build_joining_with_no_segments_is_rejected() {
    let pb = PathBuilder::new(Vec::new(), ParameterQuantifier::JoiningSegments);
    assert_eq!(pb.build(&Vec::new()).unwrap_err(), PathError::NoSegments);
    assert_eq!(pb.build(&strings(&["X"])).unwrap_err(), PathError::NoSegments);
}

#[test]
fn fill_rejects_undeclared_key() {
    let spec: ParametersSpec<NoHooks, NoHooks> = ParametersSpec::new(strings(&["a", "b"]));
    let err = spec.fill(pairs(&[("c", "1")])).unwrap_err();
    assert_eq!(err, SpecError::InvalidKey("c".to_string()));
    // A valid key beside it does not save the call.
    let err = spec.fill(pairs(&[("a", "1"), ("zz", "2")])).unwrap_err();
    assert_eq!(err, SpecError::InvalidKey("zz".to_string()));
}

#[test]
fn fill_orders_entries_by_key() {
    let spec: ParametersSpec<NoHooks, NoHooks> = ParametersSpec::new(strings(&["b", "a", "c"]));
    let params = spec.fill(pairs(&[("c", "3"), ("a", "1"), ("b", "2")])).unwrap();
    assert_eq!(params.as_vec(), pairs(&[("a", "1"), ("b", "2"), ("c", "3")]));
    assert_eq!(params.iter(), pairs(&[("a", "1"), ("b", "2"), ("c", "3")]));
    assert_eq!(params.inner().len(), 3);
    assert_eq!(params.into_vec(), pairs(&[("a", "1"), ("b", "2"), ("c", "3")]));
}

#[test]
fn fill_lets_a_later_duplicate_win() {
    let spec: ParametersSpec<NoHooks, NoHooks> = ParametersSpec::new(strings(&["a"]));
    let params = spec.fill(pairs(&[("a", "1"), ("a", "2")])).unwrap();
    assert_eq!(params.into_vec(), pairs(&[("a", "2")]));
}

#[test]
fn serialize_without_serializer_always_fails() {
    let spec: ParametersSpec<NoHooks, NoHooks> = ParametersSpec::new(strings(&["a"]));
    let params = spec.fill(pairs(&[("a", "1")])).unwrap();
    assert_eq!(params.serialize(), Err(SerializationError::MissingSerializer));
    // Never partially succeeding: the same failure on every call.
    assert_eq!(params.serialize(), Err(SerializationError::MissingSerializer));
}

#[test]
fn serialize_round_trips_deterministically() {
    let mut spec: ParametersSpec<NoHooks, AmpersandSerializer> =
        ParametersSpec::new(strings(&["b", "a"]));
    spec.set_serializer(AmpersandSerializer);
    let first = spec.fill(pairs(&[("b", "2"), ("a", "1")])).unwrap();
    let second = spec.fill(pairs(&[("a", "1"), ("b", "2")])).unwrap();
    assert_eq!(first.serialize().unwrap(), "a=1&b=2");
    assert_eq!(second.serialize().unwrap(), "a=1&b=2");
    assert_eq!(first.serialize().unwrap(), second.serialize().unwrap());
}

#[test]
fn serializer_failure_is_propagated() {
    let mut spec: ParametersSpec<NoHooks, FailingSerializer> =
        ParametersSpec::new(strings(&["a"]));
    spec.set_serializer(FailingSerializer);
    let params = spec.fill(pairs(&[("a", "1")])).unwrap();
    assert_eq!(
        params.serialize(),
        Err(SerializationError::Custom { message: "boom".to_string() })
    );
}

#[test]
fn set_serializer_attaches_and_detaches() {
    let params: Parameters<AmpersandSerializer> =
        Parameters::new(pairs(&[("a", "1")]), None);
    assert_eq!(params.serialize(), Err(SerializationError::MissingSerializer));
    let mut params = params;
    params.set_serializer(Some(AmpersandSerializer));
    assert_eq!(params.serialize().unwrap(), "a=1");
    params.set_serializer(None);
    assert_eq!(params.serialize(), Err(SerializationError::MissingSerializer));
}

#[test]
fn validator_rejection_carries_cause_and_values() {
    let mut spec: ParametersSpec<UppercaseValidator, NoHooks> =
        ParametersSpec::new(strings(&["a", "b"]));
    spec.set_validator(UppercaseValidator);
    let err = spec.fill(pairs(&[("a", ""), ("b", "x")])).unwrap_err();
    match err {
        SpecError::ValidationFailed { error: ValidationError::Custom { message, values } } => {
            assert_eq!(message, "empty value");
            assert_eq!(values, pairs(&[("a", ""), ("b", "x")]));
        }
        other => panic!("expected ValidationFailed, got {:?}", other),
    }
}

#[test]
fn validator_transformation_lands_in_parameters() {
    let mut spec: ParametersSpec<UppercaseValidator, NoHooks> =
        ParametersSpec::new(strings(&["a", "b"]));
    spec.set_validator(UppercaseValidator);
    let params = spec.fill(pairs(&[("b", "y"), ("a", "x")])).unwrap();
    assert_eq!(params.into_vec(), pairs(&[("a", "X"), ("b", "Y")]));
}

#[test]
fn insert_and_remove_keep_key_order() {
    let mut params: Parameters<NoHooks> = Parameters::new(pairs(&[("b", "2")]), None);
    assert_eq!(params.insert("a".to_string(), "1".to_string()), None);
    assert_eq!(params.insert("c".to_string(), "3".to_string()), None);
    assert_eq!(params.insert("b".to_string(), "20".to_string()), Some("2".to_string()));
    assert_eq!(params.as_vec(), pairs(&[("a", "1"), ("b", "20"), ("c", "3")]));
    assert_eq!(params.remove("b"), Some("20".to_string()));
    assert_eq!(params.remove("b"), None);
    assert_eq!(params.into_vec(), pairs(&[("a", "1"), ("c", "3")]));
}

#[test]
fn parameters_new_canonicalizes() {
    let params: Parameters<NoHooks> =
        Parameters::new(pairs(&[("z", "26"), ("a", "1"), ("z", "25")]), None);
    assert_eq!(params.into_vec(), pairs(&[("a", "1"), ("z", "25")]));
}

#[test]
fn json_parse_str_parses_and_rejects() {
    let json = JsonDeserializer;
    let parsed: BTreeMap<String, i64> = json.parse_str("{\"a\":1}").unwrap();
    let mut expected = BTreeMap::new();
    expected.insert("a".to_string(), 1);
    assert_eq!(parsed, expected);
    let err = json.parse_str::<BTreeMap<String, i64>>("not json").unwrap_err();
    assert_eq!(err.format, "json");
    assert!(!err.message.is_empty());
}

#[test]
fn json_parse_slice_matches_parse_str() {
    let json = JsonDeserializer;
    let from_str: Vec<i64> = json.parse_str("[1,2,3]").unwrap();
    let from_slice: Vec<i64> = json.parse_slice(b"[1,2,3]").unwrap();
    assert_eq!(from_str, from_slice);
    assert!(json.parse_slice::<Vec<i64>>(b"[1,2").is_err());
}

#[test]
fn json_parse_reader_consumes_a_stream() {
    let json = JsonDeserializer;
    let payload: &[u8] = b"{\"k\":\"v\"}";
    let parsed: BTreeMap<String, String> = json.parse_reader(payload).unwrap();
    let mut expected = BTreeMap::new();
    expected.insert("k".to_string(), "v".to_string());
    assert_eq!(parsed, expected);
}

#[test]
fn endpoint_accessors_return_construction_values() {
    let endpoint: EndpointSpec<String, JsonDeserializer, BTreeMap<String, i64>> =
        EndpointSpec::new(
            http::Method::GET,
            PathBuilder::new(strings(&["/users/"]), ParameterQuantifier::PairingSegments),
            pairs(&[("accept", "application/json")]),
            Some("body".to_string()),
            pairs(&[("trailer", "t")]),
            JsonDeserializer,
        );
    assert_eq!(endpoint.method(), &http::Method::GET);
    assert_eq!(endpoint.path_spec().segments, strings(&["/users/"]));
    assert_eq!(endpoint.headers_spec(), &pairs(&[("accept", "application/json")]));
    assert_eq!(endpoint.body_spec(), &Some("body".to_string()));

    // Any number of parse calls leaves the descriptor as constructed.
    let _ = endpoint.parse_str("{\"a\":1}").unwrap();
    let _ = endpoint.parse_slice(b"{\"a\":2}").unwrap();
    let err = endpoint.parse_str("nope").unwrap_err();
    assert_eq!(err.format, "json");
    assert_eq!(endpoint.method(), &http::Method::GET);
    assert_eq!(endpoint.path_spec().segments, strings(&["/users/"]));
    assert_eq!(endpoint.headers_spec(), &pairs(&[("accept", "application/json")]));
    assert_eq!(endpoint.body_spec(), &Some("body".to_string()));
}

#[test]
fn endpoint_parse_matches_deserializer() {
    let endpoint: EndpointSpec<(), JsonDeserializer, Vec<i64>> = EndpointSpec::new(
        http::Method::POST,
        PathBuilder::new(strings(&["/x"]), ParameterQuantifier::JoiningSegments),
        Vec::new(),
        None,
        Vec::new(),
        JsonDeserializer,
    );
    let via_endpoint: Vec<i64> = endpoint.parse_str("[7,8]").unwrap();
    let direct: Vec<i64> = JsonDeserializer.parse_str("[7,8]").unwrap();
    assert_eq!(via_endpoint, direct);
    let via_reader: Vec<i64> = endpoint.parse_reader(&b"[7,8]"[..]).unwrap();
    assert_eq!(via_reader, direct);
}

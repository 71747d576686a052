use serde_json::Value;
use stream_processor::{Data, ProcessError, StreamProcessor};

fn json(text: &str) -> Value {
    serde_json::from_str(text).unwrap()
}

fn min_max() -> StreamProcessor {
    StreamProcessor::new(json(r#"{"min":0,"max":0}"#))
}

fn field_names(p: &StreamProcessor) -> Vec<String> {
    p.fields().clone()
}

fn object(text: &str) -> serde_json::Map<String, Value> {
    match json(text) {
        Value::Object(m) => m,
        _ => panic!("not an object"),
    }
}

#[test]
fn schema_is_template_keys() {
    let p = StreamProcessor::new(json(r#"{"a":1,"b":"text"}"#));
    assert_eq!(field_names(&p), vec!["a".to_string(), "b".to_string()]);
    let q = StreamProcessor::new(json(r#"{"a":[1,2],"b":{"c":null}}"#));
    assert_eq!(field_names(&q), vec!["a".to_string(), "b".to_string()]);
}

#[test]
fn schema_of_non_object_template_is_empty() {
    for text in ["3", "\"s\"", "[1,2]", "null", "true"] {
        let p = StreamProcessor::new(json(text));
        assert!(field_names(&p).is_empty());
    }
}

#[test]
fn example_end_to_end() {
    let mut p = min_max();
    let out = p.process_all(json(r#"{"min":1,"max":5,"note":"hi"}"#)).unwrap();
    assert_eq!(out.len(), 3);
    assert!(matches!(out[0], Data::Continue));
    match &out[1] {
        Data::Input(m) => assert_eq!(*m, object(r#"{"min":1,"max":5}"#)),
        _ => panic!("expected a completed record"),
    }
    match &out[2] {
        Data::Stream(k, v) => {
            assert_eq!(k, "note");
            assert_eq!(*v, Value::String("hi".to_string()));
        }
        _ => panic!("expected a foreign key"),
    }
}

#[test]
fn order_independence_of_completion() {
    let mut a = min_max();
    let mut b = min_max();
    let out_a = a.process_all(json(r#"{"max":10,"min":1}"#)).unwrap();
    let out_b = b.process_all(json(r#"{"min":1,"max":10}"#)).unwrap();
    let rec_a = match &out_a[1] {
        Data::Input(m) => m.clone(),
        _ => panic!("expected a completed record"),
    };
    let rec_b = match &out_b[1] {
        Data::Input(m) => m.clone(),
        _ => panic!("expected a completed record"),
    };
    assert!(matches!(out_a[0], Data::Continue));
    assert!(matches!(out_b[0], Data::Continue));
    assert_eq!(rec_a, rec_b);
    assert_eq!(rec_a.get("min"), Some(&json("1")));
    assert_eq!(rec_a.get("max"), Some(&json("10")));
}

#[test]
fn completion_across_objects_with_foreign_keys() {
    let mut p = min_max();
    let first = p.process_all(json(r#"{"x":true,"max":7}"#)).unwrap();
    assert_eq!(first.len(), 2);
    assert!(matches!(&first[0], Data::Stream(k, v) if k == "x" && *v == Value::Bool(true)));
    assert!(matches!(first[1], Data::Continue));
    let second = p.process_all(json(r#"{"y":null,"min":2}"#)).unwrap();
    assert_eq!(second.len(), 2);
    assert!(matches!(&second[0], Data::Stream(k, v) if k == "y" && *v == Value::Null));
    match &second[1] {
        Data::Input(m) => {
            assert_eq!(m.len(), 2);
            assert_eq!(m.get("min"), Some(&json("2")));
            assert_eq!(m.get("max"), Some(&json("7")));
        }
        _ => panic!("expected a completed record"),
    }
}

#[test]
fn foreign_key_passes_value_unchanged() {
    let mut p = min_max();
    let value = json(r#"{"deep":[1,{"k":"v"}]}"#);
    match p.step("other".to_string(), value.clone()) {
        Ok(Data::Stream(k, v)) => {
            assert_eq!(k, "other");
            assert_eq!(v, value);
        }
        _ => panic!("expected a foreign key"),
    }
    assert!(matches!(p.step("min".to_string(), json("1")), Ok(Data::Continue)));
    assert!(matches!(p.step("max".to_string(), json("2")), Ok(Data::Input(_))));
}

#[test]
fn duplicate_key_in_one_cycle() {
    let mut p = min_max();
    assert!(matches!(p.step("min".to_string(), json("1")), Ok(Data::Continue)));
    match p.step("min".to_string(), json("2")) {
        Err(e) => assert_eq!(e, ProcessError::DuplicateKey("min".to_string())),
        _ => panic!("expected a duplicate key"),
    }
}

#[test]
fn duplicate_key_across_objects() {
    let mut p = min_max();
    let out = p.process_all(json(r#"{"min":1}"#)).unwrap();
    assert!(matches!(out[0], Data::Continue));
    match p.process_all(json(r#"{"note":"a","min":3}"#)) {
        Err(e) => assert_eq!(e, ProcessError::DuplicateKey("min".to_string())),
        Ok(_) => panic!("expected a duplicate key"),
    }
}

#[test]
fn accumulation_restarts_after_completion() {
    let mut p = min_max();
    let first = p.process_all(json(r#"{"min":1,"max":2}"#)).unwrap();
    assert!(matches!(first[1], Data::Input(_)));
    let second = p.process_all(json(r#"{"max":4,"min":3}"#)).unwrap();
    match &second[1] {
        Data::Input(m) => {
            assert_eq!(m.get("min"), Some(&json("3")));
            assert_eq!(m.get("max"), Some(&json("4")));
        }
        _ => panic!("expected a second completed record"),
    }
}

#[test]
fn empty_schema_never_completes() {
    let mut p = StreamProcessor::new(json("null"));
    let out = p.process_all(json(r#"{"a":1,"b":2}"#)).unwrap();
    assert_eq!(out.len(), 2);
    assert!(matches!(&out[0], Data::Stream(k, v) if k == "a" && *v == json("1")));
    assert!(matches!(&out[1], Data::Stream(k, v) if k == "b" && *v == json("2")));
    let q = StreamProcessor::new(json("{}"));
    assert!(field_names(&q).is_empty());
}

#[test]
fn non_object_input_is_rejected() {
    let mut p = min_max();
    for text in ["3", "\"s\"", "[1,2]", "null", "false"] {
        assert!(matches!(p.process(json(text)), Err(ProcessError::NotAnObject)));
        assert!(matches!(p.process_all(json(text)), Err(ProcessError::NotAnObject)));
    }
}

#[test]
fn iterator_walks_keys_in_object_order() {
    let mut p = min_max();
    let mut it = p.process(json(r#"{"z":1,"max":9,"a":2,"min":0}"#)).unwrap();
    assert!(matches!(it.next(&mut p), Some(Ok(Data::Stream(k, _))) if k == "z"));
    assert!(matches!(it.next(&mut p), Some(Ok(Data::Continue))));
    assert!(matches!(it.next(&mut p), Some(Ok(Data::Stream(k, _))) if k == "a"));
    match it.next(&mut p) {
        Some(Ok(Data::Input(m))) => {
            let keys: Vec<&String> = m.keys().collect();
            assert_eq!(keys, vec!["max", "min"]);
        }
        _ => panic!("expected a completed record"),
    }
    assert!(it.next(&mut p).is_none());
    assert!(it.next(&mut p).is_none());
}

#[test]
fn empty_object_yields_nothing() {
    let mut p = min_max();
    assert!(p.process_all(json("{}")).unwrap().is_empty());
}

use ollama_client::model::models::{Model, ModelDetails, ModelList};
use ollama_client::time::Timestamp;

const LISTING: &str = "{\"models\":[{\"name\":\"qwen2.5:3b\",\"model\":\"qwen2.5:3b\",\"modified_at\":\"2025-01-10T08:00:00.5+08:00\",\"size\":1929912432,\"digest\":\"357c53fb659c\",\"details\":{\"parent_model\":\"\",\"format\":\"gguf\",\"family\":\"qwen2\",\"families\":[\"qwen2\"],\"parameter_size\":\"3.1B\",\"quantization_level\":\"Q4_K_M\"}},{\"name\":\"nomic-embed-text:137m-v1.5-fp16\",\"modified_at\":\"2025-01-11T00:00:00Z\",\"size\":274302450,\"digest\":\"0a109f422b47\",\"details\":{\"format\":\"gguf\",\"family\":\"nomic-bert\",\"families\":[\"nomic-bert\",\"bert\"],\"parameter_size\":\"137M\",\"quantization_level\":\"F16\"}}]}";

fn qwen() -> Model {
    Model {
        name: "qwen2.5:3b".to_string(),
        model: Some("qwen2.5:3b".to_string()),
        modified_at: Timestamp { seconds: 1736467200, nanos: 500_000_000 },
        size: 1929912432,
        digest: "357c53fb659c".to_string(),
        details: ModelDetails {
            format: "gguf".to_string(),
            family: "qwen2".to_string(),
            families: vec!["qwen2".to_string()],
            parameter_size: "3.1B".to_string(),
            quantization_level: "Q4_K_M".to_string(),
        },
    }
}

fn nomic() -> Model {
    Model {
        name: "nomic-embed-text:137m-v1.5-fp16".to_string(),
        model: None,
        modified_at: Timestamp { seconds: 1736553600, nanos: 0 },
        size: 274302450,
        digest: "0a109f422b47".to_string(),
        details: ModelDetails {
            format: "gguf".to_string(),
            family: "nomic-bert".to_string(),
            families: vec!["nomic-bert".to_string(), "bert".to_string()],
            parameter_size: "137M".to_string(),
            quantization_level: "F16".to_string(),
        },
    }
}

#[test]
fn a_listing_is_read_in_order() {
    let list = ModelList::from_body(LISTING.as_bytes());
    assert_eq!(list, ModelList { models: vec![qwen(), nomic()] });
}

#[test]
fn a_listing_without_models_is_empty() {
    assert_eq!(ModelList::from_body(b"{\"models\":[]}"), ModelList { models: Vec::new() });
    assert_eq!(ModelList::empty(), ModelList { models: Vec::new() });
}

#[test]
fn an_empty_body_is_the_empty_listing() {
    assert_eq!(ModelList::from_body(b""), ModelList { models: Vec::new() });
}

#[test]
fn a_malformed_body_is_the_empty_listing() {
    assert_eq!(ModelList::from_body(b"{\"models\":["), ModelList { models: Vec::new() });
    assert_eq!(ModelList::from_body(b"<html>502</html>"), ModelList { models: Vec::new() });
    assert_eq!(ModelList::from_body(&[0xff, 0xfe]), ModelList { models: Vec::new() });
}

#[test]
fn a_body_of_another_shape_is_the_empty_listing() {
    assert_eq!(ModelList::from_body(b"{\"error\":\"oops\"}"), ModelList { models: Vec::new() });
    assert_eq!(ModelList::from_body(b"{\"models\":null}"), ModelList { models: Vec::new() });
    assert_eq!(ModelList::from_body(b"{\"models\":{}}"), ModelList { models: Vec::new() });
    assert_eq!(ModelList::from_body(b"[]"), ModelList { models: Vec::new() });
}

#[test]
fn one_model_that_does_not_decode_empties_the_listing() {
    let body = LISTING.replace("[\"qwen2\"]", "null");
    assert_eq!(ModelList::from_body(body.as_bytes()), ModelList { models: Vec::new() });
    let body = LISTING.replace("\"size\":274302450,", "");
    assert_eq!(ModelList::from_body(body.as_bytes()), ModelList { models: Vec::new() });
    let body = LISTING.replace("2025-01-11T00:00:00Z", "yesterday");
    assert_eq!(ModelList::from_body(body.as_bytes()), ModelList { models: Vec::new() });
}

#[test]
fn a_body_with_bytes_that_are_no_text_is_the_empty_listing() {
    let mut body = LISTING.as_bytes().to_vec();
    let at = body.iter().position(|b| *b == b'q').unwrap();
    body[at] = 0xff;
    assert_eq!(ModelList::from_body(&body), ModelList { models: Vec::new() });
}

#[test]
fn a_parsed_listing_is_read_from_its_value() {
    let value = serde_json::from_str::<serde_json::Value>(LISTING).unwrap();
    assert_eq!(ModelList::from_json(&value), Some(ModelList { models: vec![qwen(), nomic()] }));
    let first = value.get("models").unwrap().get(0).unwrap();
    assert_eq!(Model::from_json(first), Some(qwen()));
    assert_eq!(ModelDetails::from_json(first.get("details").unwrap()), Some(qwen().details));
    assert_eq!(ModelDetails::from_json(first), None);
    let parsed = serde_json::from_str::<serde_json::Value>("{\"models\":[");
    assert_eq!(ModelList::from_parsed(parsed), ModelList { models: Vec::new() });
}

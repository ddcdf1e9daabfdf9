use genos::gguf::{GGMLType, GGUFError, GGUFFile};
use genos::json::{extract_tool_calls, json_object, parse, JsonValue};
use genos::kv_cache::LayerKVCache;
use genos::model::{build_layer_types, Gemma4Config, LayerType, ModelConfig};

fn s(x: &str) -> Vec<u8> {
    x.as_bytes().to_vec()
}

fn num(v: &JsonValue) -> Option<f64> {
    v.as_number()
        .map(|t| std::str::from_utf8(t).unwrap().parse::<f64>().unwrap())
}

#[test]
fn primitives() {
    assert!(matches!(parse(b"null").unwrap(), JsonValue::Null));
    assert_eq!(parse(b"true").unwrap().as_bool(), Some(true));
    assert_eq!(parse(b"false").unwrap().as_bool(), Some(false));
    assert_eq!(num(&parse(b"42").unwrap()), Some(42.0));
    assert_eq!(num(&parse(b"-3.14").unwrap()), Some(-3.14));
    assert_eq!(parse(br#""hello world""#).unwrap().as_str(), Some(&b"hello world"[..]));
}

#[test]
fn string_escapes() {
    assert_eq!(parse(br#""line1\nline2""#).unwrap().as_str(), Some(&b"line1\nline2"[..]));
    assert_eq!(parse(br#""tab\there""#).unwrap().as_str(), Some(&b"tab\there"[..]));
    assert_eq!(parse(br#""quote\"inside""#).unwrap().as_str(), Some(&b"quote\"inside"[..]));
}

#[test]
fn nested_object() {
    let v = parse(br#"{"a": {"b": {"c": 99}}, "arr": [1,2,3]}"#).unwrap();
    let c = v.get(b"a").unwrap().get(b"b").unwrap().get(b"c").unwrap();
    assert_eq!(num(c), Some(99.0));
    assert_eq!(v.get(b"arr").unwrap().as_array().unwrap().len(), 3);
}

#[test]
fn empty_structures() {
    assert_eq!(parse(b"[]").unwrap().as_array().unwrap().len(), 0);
    assert_eq!(parse(b"{}").unwrap().as_object().unwrap().len(), 0);
}

#[test]
fn invalid_json_errors() {
    assert!(parse(b"{invalid}").is_err());
    assert!(parse(b"").is_err());
    assert!(parse(b"[1,2,").is_err());
    assert!(parse(br#"{"key": }"#).is_err());
}

#[test]
fn serialize_and_parse_roundtrip() {
    let original = json_object(vec![
        (s("tool"), JsonValue::Str(s("memory.store"))),
        (
            s("args"),
            json_object(vec![
                (s("content"), JsonValue::Str(s("Rust is memory-safe"))),
                (s("wing"), JsonValue::Str(s("general"))),
                (s("turn"), JsonValue::Number(s("5"))),
            ]),
        ),
        (s("ok"), JsonValue::Bool(true)),
        (
            s("scores"),
            JsonValue::Array(vec![
                JsonValue::Number(s("0.9")),
                JsonValue::Number(s("0.7")),
                JsonValue::Null,
            ]),
        ),
    ]);
    let text = original.to_json_string();
    let parsed = parse(&text).unwrap();
    assert_eq!(parsed.get(b"tool").unwrap().as_str(), Some(&b"memory.store"[..]));
    assert_eq!(
        parsed.get(b"args").unwrap().get(b"content").unwrap().as_str(),
        Some(&b"Rust is memory-safe"[..])
    );
    assert!(matches!(parsed.get(b"scores").unwrap().as_array().unwrap()[2], JsonValue::Null));
}

#[test]
fn serialized_object_is_canonical_text() {
    let v = json_object(vec![
        (s("b"), JsonValue::Bool(false)),
        (s("a"), JsonValue::Str(s("x\"y"))),
    ]);
    assert_eq!(v.to_json_string(), br#"{"a":"x\"y","b":false}"#.to_vec());
}

#[test]
fn extract_tool_calls_single() {
    let output = br#"I'll search for that.
<tool_call>
{"tool": "memory.search", "args": {"query": "Rust ownership", "top_k": 5}, "call_id": "c1"}
</tool_call>"#;
    let calls = extract_tool_calls(output);
    assert_eq!(calls.len(), 1);
    assert_eq!(calls[0].get(b"tool").unwrap().as_str(), Some(&b"memory.search"[..]));
    assert_eq!(
        calls[0].get(b"args").unwrap().get(b"query").unwrap().as_str(),
        Some(&b"Rust ownership"[..])
    );
    assert_eq!(calls[0].get(b"call_id").unwrap().as_str(), Some(&b"c1"[..]));
}

#[test]
fn extract_tool_calls_multiple() {
    let output = br#"Let me look that up.
<tool_call>
{"tool": "fs.read", "args": {"path": "\\palace\\facts.kv"}, "call_id": "c1"}
</tool_call>
Now let me also search.
<tool_call>
{"tool": "memory.search", "args": {"query": "project alpha"}, "call_id": "c2"}
</tool_call>
And fetch the page.
<tool_call>
{"tool": "web.get_page", "args": {"url": "http://example.com"}, "call_id": "c3"}
</tool_call>"#;
    let calls = extract_tool_calls(output);
    assert_eq!(calls.len(), 3);
    assert_eq!(calls[0].get(b"tool").unwrap().as_str(), Some(&b"fs.read"[..]));
    assert_eq!(calls[1].get(b"tool").unwrap().as_str(), Some(&b"memory.search"[..]));
    assert_eq!(calls[2].get(b"tool").unwrap().as_str(), Some(&b"web.get_page"[..]));
}

#[test]
fn extract_tool_calls_none() {
    assert_eq!(extract_tool_calls(b"Just a normal response.").len(), 0);
    assert_eq!(extract_tool_calls(b"").len(), 0);
}

#[test]
fn test_stories15m_config() {
    let mut data = [0u8; 28];
    let vals: [i32; 7] = [288, 768, 6, 6, 6, 32000, 256];
    for (i, &v) in vals.iter().enumerate() {
        data[i * 4..i * 4 + 4].copy_from_slice(&v.to_le_bytes());
    }
    let config = ModelConfig::from_bytes(&data).unwrap();
    assert_eq!(config.dim, 288);
    assert_eq!(config.hidden_dim, 768);
    assert_eq!(config.n_layers, 6);
    assert_eq!(config.n_heads, 6);
    assert_eq!(config.n_kv_heads, 6);
    assert_eq!(config.vocab_size, 32000);
    assert_eq!(config.seq_len, 256);
    assert!(config.shared_weights);
    assert_eq!(config.head_size(), 48);
    assert_eq!(config.kv_dim(), 288);
    assert_eq!(config.kv_mul(), 1);
}

#[test]
fn negative_vocab_means_separate_classifier() {
    let mut data = [0u8; 28];
    let vals: [i32; 7] = [288, 768, 6, 6, 6, -32000, 256];
    for (i, &v) in vals.iter().enumerate() {
        data[i * 4..i * 4 + 4].copy_from_slice(&v.to_le_bytes());
    }
    let config = ModelConfig::from_bytes(&data).unwrap();
    assert_eq!(config.vocab_size, 32000);
    assert!(!config.shared_weights);
    assert!(ModelConfig::from_bytes(&data[..27]).is_none());
}

#[test]
fn default_config_layers() {
    let cfg = Gemma4Config::default_e2b();
    assert_eq!(cfg.num_layers, 35);
    assert_eq!(cfg.layer_types.len(), 35);
    let full_layers: Vec<usize> = cfg
        .layer_types
        .iter()
        .enumerate()
        .filter(|(_, t)| **t == LayerType::Full)
        .map(|(i, _)| i)
        .collect();
    assert_eq!(full_layers, vec![4, 9, 14, 19, 24, 29, 34]);
}

#[test]
fn head_dims() {
    let cfg = Gemma4Config::default_e2b();
    assert_eq!(cfg.layer_head_dim(0), 256);
    assert_eq!(cfg.q_dim(0), 8 * 256);
    assert_eq!(cfg.kv_dim(0), 256);
    assert_eq!(cfg.layer_head_dim(4), 512);
    assert_eq!(cfg.q_dim(4), 8 * 512);
    assert_eq!(cfg.kv_dim(4), 512);
}

#[test]
fn gqa_mul() {
    let cfg = Gemma4Config::default_e2b();
    assert_eq!(cfg.kv_mul(), 8);
}

#[test]
fn build_layers_pattern() {
    let types = build_layer_types(10);
    assert_eq!(types[0], LayerType::Sliding);
    assert_eq!(types[3], LayerType::Sliding);
    assert_eq!(types[4], LayerType::Full);
    assert_eq!(types[5], LayerType::Sliding);
    assert_eq!(types[9], LayerType::Full);
}

fn build_test_gguf() -> Vec<u8> {
    let mut buf = Vec::new();
    buf.extend_from_slice(&0x46554747u32.to_le_bytes());
    buf.extend_from_slice(&3u32.to_le_bytes());
    buf.extend_from_slice(&1u64.to_le_bytes());
    buf.extend_from_slice(&1u64.to_le_bytes());
    let key = b"general.architecture";
    buf.extend_from_slice(&(key.len() as u64).to_le_bytes());
    buf.extend_from_slice(key);
    buf.extend_from_slice(&8u32.to_le_bytes());
    let val = b"gemma4";
    buf.extend_from_slice(&(val.len() as u64).to_le_bytes());
    buf.extend_from_slice(val);
    let tname = b"test.weight";
    buf.extend_from_slice(&(tname.len() as u64).to_le_bytes());
    buf.extend_from_slice(tname);
    buf.extend_from_slice(&1u32.to_le_bytes());
    buf.extend_from_slice(&64u64.to_le_bytes());
    buf.extend_from_slice(&0u32.to_le_bytes());
    buf.extend_from_slice(&0u64.to_le_bytes());
    while buf.len() % 32 != 0 {
        buf.push(0);
    }
    for _ in 0..64 {
        buf.extend_from_slice(&1.0f32.to_le_bytes());
    }
    buf
}

#[test]
fn parse_gguf_header() {
    let data = build_test_gguf();
    let file = GGUFFile::parse(&data).unwrap();
    assert_eq!(file.version, 3);
    assert_eq!(file.tensors.len(), 1);
    assert_eq!(file.metadata.len(), 1);
}

#[test]
fn read_metadata() {
    let data = build_test_gguf();
    let file = GGUFFile::parse(&data).unwrap();
    assert_eq!(file.get_str(b"general.architecture"), Some(&b"gemma4"[..]));
}

#[test]
fn read_tensor() {
    let data = build_test_gguf();
    let file = GGUFFile::parse(&data).unwrap();
    let (info, tdata) = file.get_tensor_data(b"test.weight").unwrap();
    assert_eq!(info.dtype, GGMLType::F32);
    assert_eq!(info.n_elements(), 64);
    assert_eq!(tdata.len(), 256);
    let first = f32::from_le_bytes([tdata[0], tdata[1], tdata[2], tdata[3]]);
    assert_eq!(first, 1.0);
}

#[test]
fn invalid_magic() {
    let data = vec![0u8; 32];
    assert_eq!(GGUFFile::parse(&data).unwrap_err(), GGUFError::InvalidMagic);
}

#[test]
fn tensor_not_found() {
    let data = build_test_gguf();
    let file = GGUFFile::parse(&data).unwrap();
    assert_eq!(file.get_tensor_data(b"nonexistent").unwrap_err(), GGUFError::TensorNotFound);
}

#[test]
fn truncated_gguf_is_rejected() {
    let data = build_test_gguf();
    assert_eq!(GGUFFile::parse(&data[..20]).unwrap_err(), GGUFError::Truncated);
}

#[test]
fn sliding_window_range() {
    let cache = LayerKVCache::new(1024, 64, 512);
    assert_eq!(cache.attention_range(10), (0, 10));
    assert_eq!(cache.attention_range(600), (89, 600));
    let full = LayerKVCache::new(1024, 64, 0);
    assert_eq!(full.attention_range(600), (0, 600));
}

#[test]
fn packed_entries_store_and_reset() {
    let mut cache = LayerKVCache::new(8, 32, 0);
    assert!(cache.key_packed(0).is_none());
    cache.store_packed(3, vec![1, 2, 3], vec![4, 5]);
    assert_eq!(cache.key_packed(3), Some(&[1u8, 2, 3][..]));
    assert_eq!(cache.value_packed(3), Some(&[4u8, 5][..]));
    assert!(cache.key_packed(2).is_none());
    cache.reset();
    assert!(cache.key_packed(3).is_none());
}

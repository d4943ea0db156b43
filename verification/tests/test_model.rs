use mini_llm::model::tensor_data::{f16_data_to_f32_bits, u32_words_le};
use mini_llm::model::{GgufBuilder, GgufError, GgufFile, GgufStorage, GgufValue, ModelConfig};
use std::sync::Arc;
use mini_llm::quantization::f16_bits_to_f32_bits;
use mini_llm::tensor::DType;

fn f16_to_f32(h: u16) -> f32 {
    f32::from_bits(f16_bits_to_f32_bits(h))
}

fn f32_bytes(values: &[f32]) -> Vec<u8> {
    values.iter().flat_map(|v| v.to_le_bytes()).collect()
}

fn f32_values(bytes: &[u8]) -> Vec<f32> {
    bytes
        .chunks_exact(4)
        .map(|c| f32::from_le_bytes([c[0], c[1], c[2], c[3]]))
        .collect()
}

#[test]
fn test_f16_conversion() {
    // 0.0 in f16 is 0x0000
    assert_eq!(f16_to_f32(0x0000), 0.0);
    // 1.0 in f16 is 0x3C00 (sign=0, exp=15, mantissa=0)
    assert_eq!(f16_to_f32(0x3C00), 1.0);
    // -2.0 in f16 is 0xC000
    assert_eq!(f16_to_f32(0xC000), -2.0);
}

#[test]
fn test_gguf_parsing_and_tensor_loading() {
    let mut builder = GgufBuilder::new();
    builder.add_string_meta("general.architecture", "llama");
    builder.add_u32_meta("llama.embedding_length", 128);
    builder.add_u32_meta("llama.block_count", 2);

    let weight_data = vec![1.0f32, 2.0, 3.0, 4.0, 5.0, 6.0];
    builder.add_tensor_raw("token_embd.weight", &[2, 3], DType::F32, &f32_bytes(&weight_data));

    let binary_gguf = builder.build();

    // Parse from bytes (mirrors mmap loading)
    let gguf = GgufFile::from_bytes(&binary_gguf).unwrap();
    assert_eq!(gguf.version, 3);
    assert_eq!(gguf.architecture(), Some("llama"));

    // Verify metadata
    match gguf.metadata.get("llama.embedding_length") {
        Some(GgufValue::Uint32(val)) => assert_eq!(*val, 128),
        _ => panic!("Expected embedding_length to be Uint32(128)"),
    }

    // Load tensor
    let info = gguf.tensors.get("token_embd.weight").unwrap();
    assert_eq!(info.shape, vec![2, 3]);
    let tensor_bytes = gguf.tensor_bytes("token_embd.weight").unwrap();
    assert_eq!(f32_values(tensor_bytes), weight_data);

    // Verify config extraction
    let config = ModelConfig::from_gguf(&gguf).unwrap();
    assert_eq!(config.architecture, "llama");
    assert_eq!(config.hidden_dim, 128);
    assert_eq!(config.num_layers, 2);
}

#[test]
fn test_builder_output_layout() {
    let mut builder = GgufBuilder::new();
    builder.add_u32_meta("a", 7);
    let bytes = builder.build();
    // magic "GGUF", version 3, no tensors, one entry
    assert_eq!(&bytes[0..4], b"GGUF");
    assert_eq!(&bytes[4..8], &[3, 0, 0, 0]);
    assert_eq!(&bytes[8..16], &[0u8; 8]);
    assert_eq!(&bytes[16..24], &[1, 0, 0, 0, 0, 0, 0, 0]);
    // key "a", type 4 (u32), value 7
    assert_eq!(&bytes[24..33], &[1, 0, 0, 0, 0, 0, 0, 0, b'a']);
    assert_eq!(&bytes[33..41], &[4, 0, 0, 0, 7, 0, 0, 0]);
    // padded to a multiple of 32
    assert_eq!(bytes.len(), 64);
    assert!(bytes[41..].iter().all(|b| *b == 0));
}

#[test]
fn test_two_tensors_read_back_at_their_offsets() {
    let mut builder = GgufBuilder::new();
    builder.add_tensor_raw("a", &[2], DType::F32, &f32_bytes(&[1.5, -2.0]));
    builder.add_tensor_raw("b", &[3], DType::F32, &f32_bytes(&[7.0, 8.0, 9.0]));
    let bytes = builder.build();
    let gguf = GgufFile::from_bytes(&bytes).unwrap();
    assert_eq!(gguf.tensor_data_start() % 32, 0);
    assert_eq!(gguf.tensors.get("a").unwrap().offset, 0);
    assert_eq!(gguf.tensors.get("b").unwrap().offset, 8);
    assert_eq!(gguf.tensors.get("b").unwrap().size_in_bytes, 12);
    assert_eq!(f32_values(gguf.tensor_bytes("a").unwrap()), vec![1.5, -2.0]);
    assert_eq!(f32_values(gguf.tensor_bytes("b").unwrap()), vec![7.0, 8.0, 9.0]);
    assert!(matches!(gguf.tensor_bytes("c"), Err(GgufError::TensorNotFound(n)) if n == "c"));
}

#[test]
fn test_gguf_errors() {
    assert!(matches!(GgufFile::from_bytes(b"GGUX\x03\x00\x00\x00"), Err(GgufError::InvalidMagic(_))));
    assert!(matches!(
        GgufFile::from_bytes(b"GGUF\x07\x00\x00\x00"),
        Err(GgufError::UnsupportedVersion(7))
    ));
    assert!(matches!(GgufFile::from_bytes(b"GGU"), Err(GgufError::UnexpectedEof)));
    let mut bytes = b"GGUF\x03\x00\x00\x00".to_vec();
    bytes.extend_from_slice(&0u64.to_le_bytes());
    bytes.extend_from_slice(&1u64.to_le_bytes());
    bytes.extend_from_slice(&1u64.to_le_bytes());
    bytes.push(b'k');
    bytes.extend_from_slice(&99u32.to_le_bytes());
    assert!(matches!(GgufFile::from_bytes(&bytes), Err(GgufError::UnknownValueType(99))));
    let mut bad_utf8 = b"GGUF\x03\x00\x00\x00".to_vec();
    bad_utf8.extend_from_slice(&0u64.to_le_bytes());
    bad_utf8.extend_from_slice(&1u64.to_le_bytes());
    bad_utf8.extend_from_slice(&1u64.to_le_bytes());
    bad_utf8.push(0xff);
    assert!(matches!(GgufFile::from_bytes(&bad_utf8), Err(GgufError::InvalidUtf8(_))));
}

#[test]
fn test_unknown_ggml_type() {
    let mut bytes = b"GGUF\x03\x00\x00\x00".to_vec();
    bytes.extend_from_slice(&1u64.to_le_bytes());
    bytes.extend_from_slice(&0u64.to_le_bytes());
    bytes.extend_from_slice(&1u64.to_le_bytes());
    bytes.push(b't');
    bytes.extend_from_slice(&1u32.to_le_bytes());
    bytes.extend_from_slice(&4u64.to_le_bytes());
    bytes.extend_from_slice(&5u32.to_le_bytes());
    assert!(matches!(GgufFile::from_bytes(&bytes), Err(GgufError::UnknownGgmlType(5))));
}

#[test]
fn test_config_defaults_and_head_dim() {
    let builder = GgufBuilder::new();
    let gguf = GgufFile::from_bytes(&builder.build()).unwrap();
    let config = ModelConfig::from_gguf(&gguf).unwrap();
    assert_eq!(config.architecture, "llama");
    assert_eq!(config.vocab_size, 32000);
    assert_eq!(config.hidden_dim, 288);
    assert_eq!(config.intermediate_dim, 768);
    assert_eq!(config.num_layers, 4);
    assert_eq!(config.num_heads, 6);
    assert_eq!(config.num_kv_heads, 6);
    assert_eq!(config.max_seq_len, 512);
    assert_eq!(f32::from_bits(config.rms_norm_eps_bits), 1e-5);
    assert_eq!(f32::from_bits(config.rope_theta_bits), 10000.0);
    assert_eq!(config.head_dim(), 48);

    let compact = ModelConfig::default_compact();
    assert_eq!(compact.hidden_dim, config.hidden_dim);
    assert_eq!(compact.intermediate_dim, 768);
}

#[test]
fn test_config_reads_architecture_prefixed_keys() {
    let mut builder = GgufBuilder::new();
    builder.add_string_meta("general.architecture", "qwen");
    builder.add_u32_meta("qwen.embedding_length", 96);
    builder.add_u32_meta("qwen.attention.head_count", 4);
    builder.add_u32_meta("llama.block_count", 9);
    builder.add_tensor_raw("token_embd.weight", &[50, 96], DType::F32, &[]);
    let gguf = GgufFile::from_bytes(&builder.build()).unwrap();
    let config = ModelConfig::from_gguf(&gguf).unwrap();
    assert_eq!(config.architecture, "qwen");
    assert_eq!(config.hidden_dim, 96);
    assert_eq!(config.num_heads, 4);
    assert_eq!(config.num_kv_heads, 4);
    assert_eq!(config.num_layers, 4);
    assert_eq!(config.intermediate_dim, 256);
    assert_eq!(config.vocab_size, 50);
}

#[test]
fn test_gguf_error_messages() {
    assert_eq!(GgufError::InvalidMagic(0x46554746).message(), "Invalid GGUF magic: 0x46554746");
    assert_eq!(GgufError::InvalidMagic(0xab).message(), "Invalid GGUF magic: 0x000000AB");
    assert_eq!(GgufError::UnsupportedVersion(9).message(), "Unsupported GGUF version: 9");
    assert_eq!(
        GgufError::TensorNotFound("w".to_string()).message(),
        "Tensor 'w' not found in GGUF file"
    );
    let io = GgufError::Io(std::io::Error::new(std::io::ErrorKind::Other, "boom"));
    assert_eq!(io.message(), "GGUF I/O error: boom");
}

#[test]
fn test_stored_words_decode() {
    let bytes = f32_bytes(&[1.0, -2.5]);
    assert_eq!(u32_words_le(&bytes), vec![1.0f32.to_bits(), (-2.5f32).to_bits()]);
    assert_eq!(u32_words_le(&bytes[..7]).len(), 1);
    let halves = [0x00u8, 0x3c, 0x00, 0xc0];
    assert_eq!(f16_data_to_f32_bits(&halves), vec![1.0f32.to_bits(), (-2.0f32).to_bits()]);
}

#[test]
fn test_metadata_later_entry_wins() {
    let mut builder = GgufBuilder::new();
    builder.add_u32_meta("k", 1);
    builder.add_u32_meta("k", 2);
    let gguf = GgufFile::from_bytes(&builder.build()).unwrap();
    assert_eq!(gguf.metadata.num_entries(), 2);
    assert!(gguf.metadata.contains_key("k"));
    assert!(!gguf.metadata.contains_key("missing"));
    assert_eq!(gguf.metadata.get("k"), Some(&GgufValue::Uint32(2)));
    assert!(gguf.tensors.is_empty());
}

#[test]
fn test_builder_default_and_io_error_conversion() {
    let empty = GgufBuilder::default().build();
    assert_eq!(empty, GgufBuilder::new().build());
    let e: GgufError = std::io::Error::new(std::io::ErrorKind::NotFound, "gone").into();
    assert!(matches!(e, GgufError::Io(_)));
}

fn header_with_alignment(alignment: u64) -> Vec<u8> {
    let mut bytes = b"GGUF".to_vec();
    bytes.extend_from_slice(&3u32.to_le_bytes());
    bytes.extend_from_slice(&0u64.to_le_bytes());
    bytes.extend_from_slice(&1u64.to_le_bytes());
    let key = b"general.alignment";
    bytes.extend_from_slice(&(key.len() as u64).to_le_bytes());
    bytes.extend_from_slice(key);
    bytes.extend_from_slice(&10u32.to_le_bytes());
    bytes.extend_from_slice(&alignment.to_le_bytes());
    bytes
}

#[test]
fn test_alignment_at_the_overflow_boundary() {
    // The header ends at 61; `61 + alignment` is formed before the `- 1`.
    let fits = header_with_alignment(u64::MAX - 61);
    assert_eq!(fits.len(), 61);
    let gguf = GgufFile::from_bytes(&fits).unwrap();
    assert_eq!(gguf.tensor_data_start(), 62);
    let overflows = header_with_alignment(u64::MAX - 60);
    assert!(GgufFile::parse_storage(GgufStorage::Owned(Arc::new(overflows))).is_none());
}

use enginekit::llm::error::LLMError;
use enginekit::llm::loader::{
    detect_format, format_for_extension, ggml_model_type, infer_model_type, infer_model_type_of_config, tensor_element,
    ModelFormat, ModelLoader, TensorElement,
};
use enginekit::llm::model::{ModelConfig, ModelType};
use enginekit::llm::quantization::{Dequantizer, QuantizationConfig, QuantizationType, Quantizer};
use enginekit::strmap::StrMap;

fn framed(s: &str) -> Vec<u8> {
    let mut v = (s.len() as u32).to_le_bytes().to_vec();
    v.extend_from_slice(s.as_bytes());
    v
}

#[test]
fn ggml_strings_read_back() {
    let l = ModelLoader::new("m.bin".to_string(), ModelType::LLaMA);
    let mut data = framed("héllo");
    data.extend_from_slice(&[9, 9]);
    let (s, next) = l.read_ggml_string(&data, 0).unwrap();
    assert_eq!(s, "héllo");
    assert_eq!(next, 4 + 6);
}

#[test]
fn ggml_string_errors() {
    let l = ModelLoader::new("m.bin".to_string(), ModelType::LLaMA);
    match l.read_ggml_string(&[1, 0], 0) {
        Err(LLMError::IoError(m)) => assert_eq!(m, "failed to fill whole buffer"),
        _ => panic!(),
    }
    match l.read_ggml_string(&[3, 0, 0, 0, b'a'], 0) {
        Err(LLMError::IoError(_)) => {},
        _ => panic!(),
    }
    match l.read_ggml_string(&[1, 0, 0, 0, 0xff], 0) {
        Err(LLMError::LoadError(_)) => {},
        _ => panic!(),
    }
}

#[test]
fn ggml_headers() {
    let l = ModelLoader::new("m.gguf".to_string(), ModelType::GPT2);
    let mut data = b"gguf".to_vec();
    data.extend(framed("gpt2"));
    let h = l.parse_ggml_header(&data).unwrap();
    assert!(h.is_gguf);
    assert_eq!(h.model_type, ModelType::GPT2);
    assert_eq!(h.offset, 12);
    let mut bad = b"ggml".to_vec();
    bad.extend(framed("bert"));
    match l.parse_ggml_header(&bad) {
        Err(LLMError::UnsupportedModel(m)) => assert_eq!(m, "bert"),
        _ => panic!(),
    }
    assert!(matches!(l.parse_ggml_header(b"gg"), Err(LLMError::LoadError(_))));
}

#[test]
fn formats_and_model_types() {
    assert_eq!(format_for_extension("gguf"), ModelFormat::Ggml);
    assert_eq!(format_for_extension("safetensors"), ModelFormat::SafeTensors);
    assert_eq!(format_for_extension("pth"), ModelFormat::PyTorch);
    assert_eq!(format_for_extension("txt"), ModelFormat::Detect);
    assert_eq!(detect_format(b"ggmlxxxxxxxx", 12), Ok(ModelFormat::Ggml));
    assert_eq!(detect_format(b"{\"a\": 1}xxxx", 12), Ok(ModelFormat::SafeTensors));
    assert_eq!(detect_format(b"gguf", 4), Err(LLMError::LoadError("File too small".to_string())));
    assert_eq!(ggml_model_type("gpt-neoxx"), Ok(ModelType::GPTNeoX));
    assert_eq!(infer_model_type(Some("Falcon")), Some(ModelType::Falcon));
    assert_eq!(infer_model_type(Some("bert")), None);
    assert_eq!(infer_model_type(None), None);
}

#[test]
fn tensor_elements() {
    assert_eq!(tensor_element(QuantizationType::F16), Ok(TensorElement::Half));
    assert_eq!(tensor_element(QuantizationType::Unquantized), Ok(TensorElement::Single));
    assert_eq!(
        tensor_element(QuantizationType::Q4_0),
        Err(LLMError::QuantizationError("Quantized loading not implemented".to_string()))
    );
    assert_eq!(
        tensor_element(QuantizationType::Int8),
        Err(LLMError::QuantizationError("Quantized loading not implemented for this type".to_string()))
    );
}

#[test]
fn loader_settings() {
    let l = ModelLoader::new("m.bin".to_string(), ModelType::GPTJ);
    assert_eq!(l.quantization(), QuantizationType::F16);
    let l = l.with_quantization(QuantizationType::BF16);
    assert_eq!(l.quantization(), QuantizationType::BF16);
    assert_eq!(l.path(), "m.bin");
}

#[test]
fn configs_from_params() {
    let mut p = StrMap::new();
    p.insert("n_embd".to_string(), 1024);
    p.insert("n_head".to_string(), 16);
    let c = ModelConfig::from_params(ModelType::GPT2, &p);
    assert_eq!((c.embedding_dim, c.num_heads, c.head_dim, c.vocab_size), (1024, 16, 64, 50257));
    let l = ModelConfig::from_params(ModelType::LLaMA, &StrMap::new());
    assert_eq!((l.head_dim, l.rope_dim, l.num_kv_heads), (128, None, 32));
    let j = ModelConfig::from_params(ModelType::GPTJ, &StrMap::new());
    assert_eq!((j.head_dim, j.num_layers), (256, 28));
}

#[test]
fn int4_packing_round_trip() {
    let packed = Quantizer::compress_int4_to_half_byte(&[1, 2, 3, -1, 7]);
    assert_eq!(packed, vec![0x21, 0xF3u8 as i8, 7]);
    let bytes: Vec<u8> = packed.iter().map(|b| *b as u8).collect();
    let values = Dequantizer::unpack_int4(&bytes, 1, 4);
    assert_eq!(values, vec![1, 2, 3, 15]);
    let q = Quantizer::new(QuantizationConfig::default());
    assert_eq!(q.config().group_size, 128);
    assert_eq!(q.config().qtype, QuantizationType::Int8);
}

#[test]
fn config_text_names_model_type() {
    assert_eq!(infer_model_type_of_config(r#"{"model_type":"llama"}"#), Ok(Some(ModelType::LLaMA)));
    assert_eq!(infer_model_type_of_config(r#"{"model_type":"bert"}"#), Ok(None));
    assert_eq!(infer_model_type_of_config(r#"{"hidden_size":4}"#), Ok(None));
    assert!(matches!(infer_model_type_of_config("{"), Err(LLMError::LoadError(_))));
}

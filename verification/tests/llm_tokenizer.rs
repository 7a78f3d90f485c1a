use enginekit::llm::error::LLMError;
use enginekit::llm::tokenizer::{
    batch_tokenize, create_gpt2_tokenizer, create_llama_tokenizer, create_tokenizer, tokenize,
    BPETokenizer, Tokenizer, TokenizerConfig, TokenizerType,
};

#[test]
fn test_gpt2_tokenizer() {
    let tokenizer = create_gpt2_tokenizer().unwrap();
    let ids = tokenizer.encode("Hello world").unwrap();
    assert!(!ids.is_empty());
}

#[test]
fn gpt2_encodes_printable_characters_by_position() {
    let tokenizer = create_gpt2_tokenizer().unwrap();
    // '!' is the first printable token, after 4 specials and 256 byte tokens.
    let ids = tokenizer.encode_with_config("!", false).unwrap();
    assert_eq!(ids, vec![260]);
    let ids = tokenizer.encode_with_config("Hi", false).unwrap();
    assert_eq!(ids, vec![260 + ('H' as usize - 33), 260 + ('i' as usize - 33)]);
}

#[test]
fn gpt2_frames_with_eos_only() {
    let tokenizer = create_gpt2_tokenizer().unwrap();
    let plain = tokenizer.encode_with_config("ab", false).unwrap();
    let framed = tokenizer.encode("ab").unwrap();
    // GPT-2 has no BOS and uses id 0 as EOS.
    let mut expected = plain.clone();
    expected.push(0);
    assert_eq!(framed, expected);
}

#[test]
fn gpt2_decode_gives_words_back_without_spaces() {
    let tokenizer = create_gpt2_tokenizer().unwrap();
    let ids = tokenizer.encode_with_config("Hello world", false).unwrap();
    let text = tokenizer.decode(&ids).unwrap();
    assert_eq!(text, "Helloworld");
}

#[test]
fn gpt2_vocab_size_and_config() {
    let tokenizer = create_gpt2_tokenizer().unwrap();
    assert_eq!(tokenizer.vocab_size(), 350);
    let c = tokenizer.config();
    assert_eq!(c.pad_token_id, Some(1));
    assert_eq!(c.bos_token_id, None);
    assert_eq!(c.eos_token_id, Some(0));
}

#[test]
fn llama_tokenizer_sizes() {
    let tokenizer = create_llama_tokenizer().unwrap();
    assert_eq!(tokenizer.vocab_size(), 268);
    let c = tokenizer.config();
    assert_eq!(c.bos_token_id, Some(1));
    assert_eq!(c.eos_token_id, Some(2));
    assert_eq!(c.unk_token_id, Some(0));
}

#[test]
fn decode_skips_special_tokens() {
    let tokenizer = create_gpt2_tokenizer().unwrap();
    let ids = tokenizer.encode("ok").unwrap();
    let text = tokenizer.decode_skip_special_tokens(&ids).unwrap();
    assert_eq!(text, "ok");
}

#[test]
fn unsupported_tokenizer_type_is_refused() {
    match create_tokenizer(TokenizerType::WordPiece) {
        Err(LLMError::TokenizerError(m)) => assert!(m.starts_with("Unsupported tokenizer type")),
        _ => panic!("expected an error"),
    }
    assert!(create_tokenizer(TokenizerType::BPE).is_ok());
}

#[test]
fn tokenize_builds_mask_and_positions() {
    let tokenizer = create_gpt2_tokenizer().unwrap();
    let r = tokenize("a b", &tokenizer).unwrap();
    let n = r.input_ids.len();
    assert_eq!(r.attention_mask.clone().unwrap(), vec![1; n]);
    assert_eq!(r.position_ids.clone().unwrap(), (0..n).collect::<Vec<usize>>());
    let batch = batch_tokenize(&["a".to_string(), "b c".to_string()], &tokenizer).unwrap();
    assert_eq!(batch.len(), 2);
}

#[test]
fn default_tokenizer_config_values() {
    let c = TokenizerConfig::default();
    assert_eq!(c.vocab_size, 50257);
    assert_eq!(c.bos_token_id, Some(1));
    assert_eq!(c.eos_token_id, Some(2));
    assert_eq!(c.unk_token_id, Some(0));
}

#[test]
fn vocab_and_merges_files_are_read() {
    let t = BPETokenizer::from_vocab_and_merges_text("a\nb\nab\n", "#version\na b\n");
    let ids = t.encode_with_config("ab", false).unwrap();
    assert_eq!(ids, vec![2]);
}

#[test]
fn tokenizer_json_text_builds_tokenizer() {
    let text = r#"{"model":{"vocab":{"a":0,"b":1,"ab":2},"merges":["a b"]},"added_tokens":[{"id":3,"content":"<pad>","special":false},{"id":1,"content":"</s>","special":true}]}"#;
    let t = BPETokenizer::from_tokenizer_json_text(text).unwrap();
    assert_eq!(t.vocab_size(), 3);
    assert_eq!(t.config().eos_token_id, Some(1));
    assert_eq!(t.config().pad_token_id, None);
    assert_eq!(t.config().bos_token_id, Some(1));
    assert_eq!(t.config().unk_token_id, Some(0));
    assert_eq!(t.encode_with_config("ab", false).unwrap(), vec![2]);
    assert_eq!(t.decode(&[0, 1]).unwrap(), "ab");
}

#[test]
fn tokenizer_json_text_errors() {
    assert!(matches!(
        BPETokenizer::from_tokenizer_json_text("not json"),
        Err(LLMError::TokenizerError(_))
    ));
    assert_eq!(
        BPETokenizer::from_tokenizer_json_text("{}").err(),
        Some(LLMError::TokenizerError("Missing model in tokenizer.json".to_string()))
    );
    assert_eq!(
        BPETokenizer::from_tokenizer_json_text(r#"{"model":{}}"#).err(),
        Some(LLMError::TokenizerError("Missing vocab".to_string()))
    );
}

#[test]
fn encoding_is_words_between_specials() {
    let t = create_llama_tokenizer().unwrap();
    let text = "  ab c\tdd ";
    let mut expected: Vec<usize> = vec![1];
    for w in text.split_whitespace() {
        expected.extend(t.encode_with_config(w, false).unwrap());
    }
    expected.push(2);
    assert_eq!(t.encode_with_config(text, true).unwrap(), expected);
}

#[test]
fn gpt2_skipping_specials_gives_word_back() {
    let t = create_gpt2_tokenizer().unwrap();
    let ids = t.encode("Hello").unwrap();
    assert_eq!(ids.last(), Some(&0));
    assert_eq!(t.decode_skip_special_tokens(&ids).unwrap(), "Hello");
    let ids = t.encode("a b!").unwrap();
    assert_eq!(t.decode_skip_special_tokens(&ids).unwrap(), "ab!");
}

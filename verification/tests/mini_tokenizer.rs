use enginekit::mini::bpe::{train_bpe_demo, BPEConfig, BPETokenizer};
use enginekit::mini::embedding::EmbeddingConfig;
use enginekit::mini::gpt::gpt_num_parameters;
use enginekit::mini::tokenizer::Tokenizer;
use enginekit::mini::wordpiece::WordPieceTokenizer;
use enginekit::strmap::StrMap;

#[test]
fn test_char_tokenizer() {
    let tokenizer = BPETokenizer::char_level(256);

    let text = "Hello, World!";
    let ids = tokenizer.encode(text);

    println!("Text: {}", text);
    println!("IDs: {:?}", ids);

    let decoded = tokenizer.decode(&ids);
    println!("Decoded: {}", decoded);

    assert_eq!(tokenizer.vocab_size() > 0, true);
}

#[test]
fn char_level_round_trip_on_printable_ascii() {
    let tokenizer = BPETokenizer::char_level(256);
    let text = "Hello, World!";
    let ids = tokenizer.encode(text);
    assert_eq!(ids[0], 4 + ('H' as usize - 32));
    assert_eq!(tokenizer.decode(&ids), text);
    assert_eq!(tokenizer.vocab_size(), 99);
    assert_eq!(tokenizer.unknown_id(), 1);
}

#[test]
fn char_level_small_vocabulary() {
    let small = BPETokenizer::char_level(3);
    assert_eq!(small.vocab_size(), 5);
    let ten = BPETokenizer::char_level(10);
    assert_eq!(ten.vocab_size(), 10);
    // 'a' is not in a ten-entry vocabulary
    assert_eq!(ten.encode("a"), vec![1]);
    assert_eq!(ten.decode(&[999]), "<unk>");
}

#[test]
fn bpe_merge_rule_joins_pair() {
    let mut vocab = StrMap::new();
    vocab.insert("a".to_string(), 0);
    vocab.insert("b".to_string(), 1);
    vocab.insert("ab".to_string(), 2);
    vocab.insert("<unk>".to_string(), 3);
    let t = BPETokenizer::new(vocab, vec![("a".to_string(), "b".to_string())]);
    assert_eq!(t.encode_text("ab"), vec![2]);
    assert_eq!(t.encode_text("abax"), vec![2, 0, 3]);
    assert_eq!(t.decode_ids(&[2, 0]), "aba");
}

#[test]
fn bpe_merge_rules_apply_in_order() {
    let mut vocab = StrMap::new();
    vocab.insert("a".to_string(), 0);
    vocab.insert("ab".to_string(), 1);
    vocab.insert("abc".to_string(), 2);
    let t = BPETokenizer::new(
        vocab,
        vec![("a".to_string(), "b".to_string()), ("ab".to_string(), "c".to_string())],
    );
    assert_eq!(t.encode_text("abca"), vec![2, 0]);
}

#[test]
fn bpe_config_defaults() {
    let c = BPEConfig::default();
    assert_eq!(c.vocab_size, 50000);
    assert_eq!(c.min_frequency, 2);
    assert_eq!(c.special_tokens, vec!["<pad>", "<unk>", "<bos>", "<eos>"]);
}

#[test]
fn training_numbers_characters_by_frequency() {
    let t = train_bpe_demo(&["aab", "a"], 10);
    // 'a' occurs three times, 'b' once
    assert_eq!(t.encode_text("ab"), vec![4, 5]);
    assert_eq!(t.decode_ids(&[0, 4, 5]), "<pad>ab");
    let tight = train_bpe_demo(&["aab", "a"], 5);
    assert_eq!(tight.encode_text("ab"), vec![4, 1]);
    let none = train_bpe_demo(&["aab"], 2);
    assert_eq!(none.encode_text("a"), vec![1]);
}

fn bert_vocab() -> StrMap {
    let mut v = StrMap::new();
    for (i, t) in ["[PAD]", "[UNK]", "[CLS]", "[SEP]", "play", "##ing", "##ed", "the", "un", "##able"]
        .iter()
        .enumerate()
    {
        v.insert(t.to_string(), i);
    }
    v
}

#[test]
fn wordpiece_splits_greedily() {
    let t = WordPieceTokenizer::new(bert_vocab(), 100);
    assert_eq!(t.tokenize_word("Playing"), vec!["play", "##ing"]);
    assert_eq!(t.tokenize_word("the"), vec!["the"]);
    assert_eq!(t.tokenize_word(""), Vec::<String>::new());
    assert_eq!(t.tokenize_word("xyz"), vec!["[UNK]"]);
    assert_eq!(t.tokenize_word("playx"), vec!["play", "[UNK]"]);
}

#[test]
fn wordpiece_encode_and_decode() {
    let t = WordPieceTokenizer::new(bert_vocab(), 100);
    let ids = t.encode("The unable played");
    assert_eq!(ids, vec![2, 7, 8, 9, 4, 6, 3]);
    assert_eq!(t.decode(&ids), "the unable played");
    assert_eq!(t.vocab_size(), 10);
    assert_eq!(t.unknown_id(), 1);
}

#[test]
fn wordpiece_refuses_cuts_inside_characters() {
    let t = WordPieceTokenizer::new(bert_vocab(), 100);
    assert!(t.tokenize_word_checked("é").is_none());
    assert_eq!(t.try_encode("é"), None);
    assert!(t.try_encode("play").is_some());
}

#[test]
fn embedding_config_defaults() {
    let c = EmbeddingConfig::default();
    assert_eq!(c.vocab_size, 50000);
    assert_eq!(c.embedding_dim, 768);
    assert_eq!(c.max_seq_len, 512);
    assert!(c.trainable);
}

#[test]
fn gpt_parameter_count() {
    // 10*4 + 8*4 + 2*(4*4*4 + 4*16 + 16*4) + 10*4
    assert_eq!(gpt_num_parameters(10, 4, 8, 16, 2), 40 + 32 + 2 * (64 + 64 + 64) + 40);
}

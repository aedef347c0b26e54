use std::collections::HashMap;

use rag_chat::chat::{
    encode_chunks, encode_message, encode_system_message, encode_user_turn, end_of_turn_tokens,
    get_end_of_turn_tokens, role_header_text, ChatMarkers, MessageChunk, Role,
};
use rag_chat::context::VerseContext;
use rag_chat::session::prepare_turn;
use rag_chat::stream::is_stop_token;
use rten_text::models::{WordPiece, WordPieceOptions};
use rten_text::tokenizer::TokenizerOptions;
use rten_text::Tokenizer;

fn tokenizer(with_end_of_text: bool) -> Tokenizer {
    let mut vocab: HashMap<String, u32> = HashMap::new();
    vocab.insert("[UNK]".to_string(), 0);
    vocab.insert("<|im_start|>".to_string(), 1);
    vocab.insert("<|im_end|>".to_string(), 2);
    if with_end_of_text {
        vocab.insert("<|endoftext|>".to_string(), 3);
    }
    vocab.insert("system\n".to_string(), 10);
    vocab.insert("user\n".to_string(), 11);
    vocab.insert("assistant\n".to_string(), 12);
    vocab.insert("hello".to_string(), 20);
    Tokenizer::new(WordPiece::from_vocab(vocab, WordPieceOptions::default()), TokenizerOptions::default())
}

#[test]
fn stop_set_holds_end_and_optional_end_of_text() {
    assert_eq!(end_of_turn_tokens(7, Some(9)), vec![7, 9]);
    assert_eq!(end_of_turn_tokens(7, None), vec![7]);
    assert_eq!(get_end_of_turn_tokens(&tokenizer(true)).unwrap(), vec![2, 3]);
    assert_eq!(get_end_of_turn_tokens(&tokenizer(false)).unwrap(), vec![2]);
}

#[test]
fn markers_are_looked_up() {
    let m = ChatMarkers::from_tokenizer(&tokenizer(true)).unwrap();
    assert_eq!(m, ChatMarkers { start: 1, end: 2, end_of_text: Some(3) });
    assert_eq!(m.stop_tokens(), vec![2, 3]);
}

#[test]
fn missing_marker_is_an_error() {
    let vocab: HashMap<String, u32> = HashMap::new();
    let t = Tokenizer::new(WordPiece::from_vocab(vocab, WordPieceOptions::default()), TokenizerOptions::default());
    assert!(ChatMarkers::from_tokenizer(&t).is_err());
    assert!(get_end_of_turn_tokens(&t).is_err());
}

#[test]
fn chunks_are_encoded_in_order() {
    let t = tokenizer(true);
    let chunks = vec![
        MessageChunk::Token(1),
        MessageChunk::Text("hello".to_string()),
        MessageChunk::Token(2),
        MessageChunk::Text("user\n".to_string()),
    ];
    assert_eq!(encode_chunks(&t, &chunks).unwrap(), vec![1, 20, 2, 11]);
}

#[test]
fn message_is_framed_by_markers() {
    let t = tokenizer(true);
    let m = ChatMarkers::from_tokenizer(&t).unwrap();
    assert_eq!(encode_message(&t, &m, Role::User, "hello").unwrap(), vec![1, 11, 20, 2]);
    assert_eq!(encode_message(&t, &m, Role::Assistant, "hello").unwrap(), vec![1, 12, 20, 2]);
    let sys = encode_system_message(&t, &m).unwrap();
    assert_eq!(sys[0], 1);
    assert_eq!(sys[1], 10);
    assert_eq!(*sys.last().unwrap(), 2);
    assert_eq!(role_header_text(Role::System), "system\n");
}

#[test]
fn user_turn_opens_the_reply() {
    let t = tokenizer(true);
    let m = ChatMarkers::from_tokenizer(&t).unwrap();
    assert_eq!(encode_user_turn(&t, &m, "hello").unwrap(), vec![1, 11, 20, 2, 1, 12]);
}

#[test]
fn turn_request_holds_question_prompt_and_ids() {
    let t = tokenizer(true);
    let m = ChatMarkers::from_tokenizer(&t).unwrap();
    let mut c = VerseContext::new("G".to_string());
    c.insert_translation("KJV".to_string(), "K".to_string());
    let turn = prepare_turn(&t, &m, &c, " why? \n").unwrap();
    assert_eq!(turn.question, "why?");
    assert!(turn.rendered_prompt.ends_with("**why?**"));
    assert_eq!(turn.token_ids[0], 1);
    assert_eq!(turn.token_ids[1], 11);
    assert_eq!(&turn.token_ids[turn.token_ids.len() - 2..], &[1, 12]);
}

#[test]
fn stop_tokens_are_recognised() {
    let stops = vec![2, 3];
    assert!(is_stop_token(&stops, 2));
    assert!(is_stop_token(&stops, 3));
    assert!(!is_stop_token(&stops, 4));
    assert!(!is_stop_token(&vec![], 2));
}

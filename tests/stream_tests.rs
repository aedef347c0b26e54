use std::cell::Cell;
use std::collections::HashMap;
use std::error::Error;

use rag_chat::chat::ChatMarkers;
use rag_chat::context::VerseContext;
use rag_chat::session::{do_one_iteration, prepare_turn, queue_turn};
use rag_chat::stream::{collect_answer, on_decoded, on_sample, ChatError, Decoded};
use rten::{NodeId, RunOptions, Value, ValueOrView};
use rten_generate::model::{Model, NodeInfo};
use rten_generate::Generator;
use rten_tensor::{Layout, NdTensor};
use rten_text::models::{WordPiece, WordPieceOptions};
use rten_text::tokenizer::TokenizerOptions;
use rten_text::Tokenizer;

const VOCAB: usize = 32;

/// A model that answers with a fixed sequence of tokens, one per run.
struct ScriptedModel {
    nodes: Vec<NodeInfo>,
    inputs: Vec<NodeId>,
    script: Vec<u32>,
    step: Cell<usize>,
}

impl ScriptedModel {
    fn new(script: &[u32]) -> ScriptedModel {
        ScriptedModel {
            nodes: vec![
                NodeInfo::from_name_shape("input_ids", &[]),
                NodeInfo::from_name_shape("logits", &[]),
            ],
            inputs: vec![NodeId::from_u32(0)],
            script: script.to_vec(),
            step: Cell::new(0),
        }
    }
}

impl Model for ScriptedModel {
    fn find_node(&self, name: &str) -> Option<NodeId> {
        self.nodes.iter().position(|n| n.name() == name).map(|p| NodeId::from_u32(p as u32))
    }

    fn node_info(&self, id: NodeId) -> Option<NodeInfo> {
        self.nodes.get(id.as_usize()).cloned()
    }

    fn input_ids(&self) -> &[NodeId] {
        &self.inputs
    }

    fn run(
        &self,
        inputs: Vec<(NodeId, ValueOrView)>,
        _outputs: &[NodeId],
        _opts: Option<RunOptions>,
    ) -> Result<Vec<Value>, Box<dyn Error>> {
        let step = self.step.get();
        let Some(&next) = self.script.get(step) else {
            return Err("script exhausted".into());
        };
        self.step.set(step + 1);
        let seq_len = inputs[0].1.shape()[1];
        let mut logits = NdTensor::<f32, 3>::zeros([1, seq_len, VOCAB]);
        logits[[0, seq_len - 1, next as usize]] = 1.0;
        Ok(vec![logits.into()])
    }

    fn partial_run(
        &self,
        _inputs: Vec<(NodeId, ValueOrView)>,
        _outputs: &[NodeId],
        _opts: Option<RunOptions>,
    ) -> Result<Vec<(NodeId, Value)>, Box<dyn Error>> {
        Ok(Vec::new())
    }
}

fn tokenizer() -> Tokenizer {
    let mut vocab: HashMap<String, u32> = HashMap::new();
    vocab.insert("[UNK]".to_string(), 0);
    vocab.insert("<|im_start|>".to_string(), 1);
    vocab.insert("<|im_end|>".to_string(), 2);
    vocab.insert("<|endoftext|>".to_string(), 3);
    vocab.insert("user\n".to_string(), 11);
    vocab.insert("assistant\n".to_string(), 12);
    vocab.insert("hello".to_string(), 20);
    vocab.insert("world".to_string(), 21);
    Tokenizer::new(WordPiece::from_vocab(vocab, WordPieceOptions::default()), TokenizerOptions::default())
}

#[test]
fn answer_stops_before_the_stop_token() {
    let model = ScriptedModel::new(&[20, 21, 2, 20]);
    let t = tokenizer();
    let mut g = Generator::from_model(&model).unwrap().with_prompt(&[1]);
    let answer = collect_answer(&mut g, &t, &vec![2, 3]).ok().unwrap();
    assert_eq!(answer.fragments, vec!["hello".to_string(), "world".to_string()]);
    assert_eq!(answer.token_ids, vec![20, 21]);
    assert_eq!(answer.stop_token, 2);
    assert_eq!(model.step.get(), 3);
}

#[test]
fn end_of_text_also_stops() {
    let model = ScriptedModel::new(&[3, 20]);
    let t = tokenizer();
    let mut g = Generator::from_model(&model).unwrap().with_prompt(&[1]);
    let answer = collect_answer(&mut g, &t, &vec![2, 3]).ok().unwrap();
    assert!(answer.fragments.is_empty());
    assert!(answer.token_ids.is_empty());
    assert_eq!(answer.stop_token, 3);
}

#[test]
fn model_failure_fails_the_stream() {
    let model = ScriptedModel::new(&[20]);
    let t = tokenizer();
    let mut g = Generator::from_model(&model).unwrap().with_prompt(&[1]);
    assert!(matches!(collect_answer(&mut g, &t, &vec![2]), Err(ChatError::Generator(_))));
}

#[test]
fn unknown_token_fails_the_stream() {
    let model = ScriptedModel::new(&[30, 2]);
    let t = tokenizer();
    let mut g = Generator::from_model(&model).unwrap().with_prompt(&[1]);
    assert!(matches!(collect_answer(&mut g, &t, &vec![2]), Err(ChatError::Tokenizer(_))));
}

#[test]
fn one_turn_with_echoed_prompt() {
    let model = ScriptedModel::new(&[20, 2]);
    let t = tokenizer();
    let markers = ChatMarkers::from_tokenizer(&t).unwrap();
    let mut c = VerseContext::new("G".to_string());
    c.insert_translation("KJV".to_string(), "K".to_string());
    let mut g = Generator::from_model(&model).unwrap().with_prompt(&[1]);
    let out = do_one_iteration(&mut g, &t, &markers, &c, "why?\n", true).ok().unwrap();
    assert_eq!(out.len(), 2);
    assert!(out[0].starts_with("\n# Prompt\n\n# Source Documents\n\n"));
    assert!(out[0].ends_with("**why?**\n"));
    assert_eq!(out[1], "hello");
    let mut g = Generator::from_model(&model).unwrap();
    model.step.set(0);
    let out = do_one_iteration(&mut g, &t, &markers, &c, "why?", false).ok().unwrap();
    assert_eq!(out, vec!["hello".to_string()]);
}

#[test]
fn sampled_ids_wait_or_stop() {
    let stops = vec![2, 3];
    let mut pending = vec![7];
    assert!(!on_sample(&stops, &mut pending, 9));
    assert_eq!(pending, vec![7, 9]);
    assert!(on_sample(&stops, &mut pending, 3));
    assert_eq!(pending, vec![7, 9]);
}

#[test]
fn decode_results_are_absorbed() {
    let mut fragments: Vec<String> = vec!["a".to_string()];
    let mut pending = vec![5, 6];
    assert!(on_decoded(&mut fragments, &mut pending, Decoded::Incomplete).is_ok());
    assert_eq!(pending, vec![5, 6]);
    assert_eq!(fragments, vec!["a".to_string()]);
    assert!(on_decoded(&mut fragments, &mut pending, Decoded::Text("bc".to_string())).is_ok());
    assert!(pending.is_empty());
    assert_eq!(fragments, vec!["a".to_string(), "bc".to_string()]);
}

#[test]
fn decode_failure_is_returned() {
    let t = tokenizer();
    let err = t.decode(&[31]).unwrap_err();
    let mut fragments: Vec<String> = Vec::new();
    let mut pending = vec![31];
    assert!(on_decoded(&mut fragments, &mut pending, Decoded::Failed(err)).is_err());
    assert_eq!(pending, vec![31]);
    assert!(fragments.is_empty());
}

#[test]
fn turn_ids_are_queued_after_the_session_input() {
    let model = ScriptedModel::new(&[2]);
    let t = tokenizer();
    let markers = ChatMarkers::from_tokenizer(&t).unwrap();
    let c = VerseContext::new("G".to_string());
    let turn = prepare_turn(&t, &markers, &c, "hello").ok().unwrap();
    let mut g = Generator::from_model(&model).unwrap().with_prompt(&[7, 8]);
    queue_turn(&mut g, &turn);
    let mut expected = vec![7, 8];
    expected.extend(turn.token_ids.iter());
    assert_eq!(g.prompt(), expected.as_slice());
}

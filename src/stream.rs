//! The answer stream: samples tokens one at a time, decodes them to text and
//! stops at the first stop token, which is not decoded.
use vstd::prelude::*;
use rten_generate::{Generator, GeneratorError};
use rten_text::models::DecodeError;
use rten_text::{Tokenizer, TokenizerError};
use crate::chat::flatten;

verus! {

#[verifier::external_type_specification]
#[verifier::external_body]
pub struct ExGenerator<'a>(Generator<'a>);

#[verifier::external_type_specification]
#[verifier::external_body]
pub struct ExGeneratorError(GeneratorError);

/// The ids a generator holds as model input for its next step.
pub uninterp spec fn pending_input(g: Generator) -> Seq<u32>;

/// The text the tokenizer gives a run of ids, if it can decode it.
pub uninterp spec fn decoded_text(t: Tokenizer, ids: Seq<u32>) -> Option<Seq<char>>;

/// Relies on `Generator::append_prompt`: extends the ids queued as model
/// input for the next step.
#[verifier::external_body]
pub(crate) fn append_prompt(generator: &mut Generator, ids: &Vec<u32>)
    ensures
        pending_input(*final(generator)) == pending_input(*old(generator)) + ids@,
{
    generator.append_prompt(ids.as_slice())
}

/// Relies on `Generator`'s `Iterator::next`: runs the model once on the queued
/// input and samples the next token, which it queues for the step after; it
/// always yields an item. The model needs some input to give logits for.
#[verifier::external_body]
fn sample_next(generator: &mut Generator) -> (r: Option<Result<u32, GeneratorError>>)
    requires
        pending_input(*old(generator)).len() > 0,
    ensures
        r.is_some(),
        r matches Some(Ok(id)) ==> pending_input(*final(generator)).len() > 0
            && pending_input(*final(generator)).last() == id,
{
    generator.next()
}

/// What decoding a run of token ids gave.
pub enum Decoded {
    /// The text of the ids.
    Text(String),
    /// The ids do not decode to valid UTF-8, as when they end inside a
    /// character: more may be needed.
    Incomplete,
    /// Decoding failed otherwise.
    Failed(TokenizerError),
}

/// Relies on `Tokenizer::decode`: the text of a run of token ids, which
/// depends on the tokenizer and the ids alone, with invalid UTF-8 told apart
/// from other failures.
#[verifier::external_body]
fn decode_ids(tokenizer: &Tokenizer, ids: &Vec<u32>) -> (r: Decoded)
    ensures
        r matches Decoded::Text(s) ==> decoded_text(*tokenizer, ids@) == Some(s@),
        !(r is Text) ==> decoded_text(*tokenizer, ids@) is None,
{
    match tokenizer.decode(ids.as_slice()) {
        Ok(text) => Decoded::Text(text),
        Err(TokenizerError::DecodeError(DecodeError::InvalidUtf8)) => Decoded::Incomplete,
        Err(err) => Decoded::Failed(err),
    }
}

/// Why a turn failed.
pub enum ChatError {
    /// The tokenizer could not resolve a marker, or encode or decode text.
    Tokenizer(TokenizerError),
    /// The model runtime failed to produce a token.
    Generator(GeneratorError),
    /// No stop token came within the largest number of steps a counter holds.
    TooLong,
}

/// The tokens of a sample path up to (not including) its first stop token.
pub open spec fn answer_prefix(path: Seq<u32>, stops: Seq<u32>) -> Seq<u32>
    decreases path.len(),
{
    if path.len() == 0 {
        Seq::empty()
    } else if stops.contains(path[0]) {
        Seq::empty()
    } else {
        seq![path[0]] + answer_prefix(path.drop_first(), stops)
    }
}

/// Whether `id` is in the stop set.
pub fn is_stop_token(stops: &Vec<u32>, id: u32) -> (r: bool)
    ensures
        r == stops@.contains(id),
{
    let mut i: usize = 0;
    while i < stops.len()
        invariant
            i <= stops@.len(),
            forall|j: int| 0 <= j < i ==> stops@[j] != id,
        decreases stops@.len() - i,
    {
        if stops[i] == id {
            assert(stops@[i as int] == id);
            return true;
        }
        i = i + 1;
    }
    false
}

/// An answer: its text fragments in order, the ids they were decoded from and
/// the stop token that ended it.
pub struct Answer {
    pub fragments: Vec<String>,
    pub token_ids: Vec<u32>,
    pub stop_token: u32,
}

/// The texts of a list of strings.
pub open spec fn texts(v: Seq<String>) -> Seq<Seq<char>> {
    v.map_values(|s: String| s@)
}

/// Each fragment is the decoded text of its group of ids, but for a last
/// group that never decoded, which gives the empty text.
pub open spec fn decodes_to(t: Tokenizer, groups: Seq<Seq<u32>>, frags: Seq<Seq<char>>) -> bool {
    &&& groups.len() == frags.len()
    &&& forall|i: int| 0 <= i < groups.len() ==> #[trigger] decoded_text(t, groups[i]) == Some(frags[i]) || (
        i == groups.len() - 1 && frags[i].len() == 0 && decoded_text(t, groups[i]) is None)
}

/// `ids` are the tokens sampled before the first stop token `stop`, and
/// `frags` their decoded text, group by group in order.
pub open spec fn is_answer(t: Tokenizer, stops: Seq<u32>, ids: Seq<u32>, stop: u32, frags: Seq<Seq<char>>) -> bool {
    &&& stops.contains(stop)
    &&& forall|i: int| 0 <= i < ids.len() ==> !stops.contains(#[trigger] ids[i])
    &&& ids == answer_prefix(ids.push(stop), stops)
    &&& exists|g: Seq<Seq<u32>>| #[trigger] flatten(g) == ids && decodes_to(t, g, frags)
}

/// A sampled id: a stop token ends the answer and leaves the waiting ids as
/// they are; any other id joins them.
pub fn on_sample(stops: &Vec<u32>, pending: &mut Vec<u32>, id: u32) -> (stop: bool)
    ensures
        stop == stops@.contains(id),
        stop ==> final(pending)@ == old(pending)@,
        !stop ==> final(pending)@ == old(pending)@.push(id),
{
    if is_stop_token(stops, id) {
        true
    } else {
        pending.push(id);
        false
    }
}

/// A decode result for the waiting ids: text becomes the next fragment and
/// empties them; invalid UTF-8 keeps them waiting; any other failure ends the
/// turn with that error.
pub fn on_decoded(fragments: &mut Vec<String>, pending: &mut Vec<u32>, d: Decoded) -> (r: Result<(), TokenizerError>)
    ensures
        match d {
            Decoded::Text(s) => r is Ok && final(fragments)@ == old(fragments)@.push(s)
                && final(pending)@.len() == 0,
            Decoded::Incomplete => r is Ok && final(fragments)@ == old(fragments)@
                && final(pending)@ == old(pending)@,
            Decoded::Failed(e) => r == Err::<(), TokenizerError>(e) && final(fragments)@ == old(fragments)@
                && final(pending)@ == old(pending)@,
        },
{
    match d {
        Decoded::Text(text) => {
            fragments.push(text);
            pending.clear();
            Ok(())
        },
        Decoded::Incomplete => Ok(()),
        Decoded::Failed(err) => Err(err),
    }
}

/// A path of non-stop tokens ended by a stop token gives back exactly its
/// non-stop tokens.
proof fn lemma_prefix_of_stopped(ids: Seq<u32>, stop: u32, stops: Seq<u32>)
    requires
        stops.contains(stop),
        forall|i: int| 0 <= i < ids.len() ==> !stops.contains(#[trigger] ids[i]),
    ensures
        answer_prefix(ids.push(stop), stops) == ids,
    decreases ids.len(),
{
    let p = ids.push(stop);
    if ids.len() > 0 {
        assert(p.drop_first() =~= ids.drop_first().push(stop));
        assert(!stops.contains(ids[0]));
        lemma_prefix_of_stopped(ids.drop_first(), stop, stops);
        assert(ids =~= seq![ids[0]] + ids.drop_first());
    }
}

/// Runs the model until it samples a stop token, decoding the tokens before
/// it as soon as they form valid text. The stop test and the decode buffering
/// stand here, not in `stop_on_tokens` and `TextDecoder`, because those
/// adapters hand back `impl Iterator` values built from closures, which
/// verified code cannot call through; here what the answer holds is proved.
/// `TooLong` comes only once `usize::MAX` ids are held, which no vector can.
pub fn collect_answer(generator: &mut Generator, tokenizer: &Tokenizer, stops: &Vec<u32>) -> (r: Result<Answer, ChatError>)
    requires
        pending_input(*old(generator)).len() > 0,
    ensures
        r matches Ok(a) ==> is_answer(*tokenizer, stops@, a.token_ids@, a.stop_token, texts(a.fragments@)),
{
    let mut fragments: Vec<String> = Vec::new();
    let mut token_ids: Vec<u32> = Vec::new();
    let mut pending: Vec<u32> = Vec::new();
    let ghost mut groups: Seq<Seq<u32>> = Seq::empty();
    loop
        invariant
            pending_input(*generator).len() > 0,
            forall|i: int| 0 <= i < token_ids@.len() ==> !stops@.contains(#[trigger] token_ids@[i]),
            flatten(groups) + pending@ == token_ids@,
            groups.len() == fragments@.len(),
            forall|i: int| 0 <= i < groups.len() ==> #[trigger] decoded_text(*tokenizer, groups[i]) == Some(fragments@[i]@),
            pending@.len() > 0 ==> decoded_text(*tokenizer, pending@) is None,
        decreases usize::MAX - token_ids@.len(),
    {
        if token_ids.len() == usize::MAX {
            return Err(ChatError::TooLong);
        }
        let id = match sample_next(generator) {
            Some(Ok(id)) => id,
            Some(Err(err)) => {
                return Err(ChatError::Generator(err));
            },
            None => {
                return Err(ChatError::TooLong);
            },
        };
        let ghost waiting = pending@;
        if on_sample(stops, &mut pending, id) {
            let ghost old_groups = groups;
            let ghost old_frags = fragments@;
            if pending.len() > 0 {
                fragments.push(String::new());
                proof {
                    groups = groups.push(pending@);
                    assert(groups.drop_last() =~= old_groups);
                }
            } else {
                assert(pending@ =~= Seq::<u32>::empty());
                assert(flatten(groups) + pending@ =~= flatten(groups));
            }
            proof {
                lemma_prefix_of_stopped(token_ids@, id, stops@);
                let f = texts(fragments@);
                assert forall|i: int| 0 <= i < groups.len() implies #[trigger] decoded_text(*tokenizer, groups[i]) == Some(f[i])
                    || (i == groups.len() - 1 && f[i].len() == 0 && decoded_text(*tokenizer, groups[i]) is None) by {
                    if i < old_groups.len() {
                        assert(groups[i] == old_groups[i]);
                        assert(fragments@[i] == old_frags[i]);
                    }
                }
                assert(decodes_to(*tokenizer, groups, f));
                assert(flatten(groups) == token_ids@);
            }
            return Ok(Answer { fragments, token_ids, stop_token: id });
        }
        token_ids.push(id);
        let d = decode_ids(tokenizer, &pending);
        let ghost decoded = d;
        let ghost old_groups = groups;
        let ghost old_frags = fragments@;
        let ghost full = pending@;
        match on_decoded(&mut fragments, &mut pending, d) {
            Ok(()) => {},
            Err(err) => {
                return Err(ChatError::Tokenizer(err));
            },
        }
        proof {
            if decoded is Text {
                groups = groups.push(full);
                assert(groups.drop_last() =~= old_groups);
                assert(pending@ =~= Seq::<u32>::empty());
                assert(flatten(groups) + pending@ =~= flatten(old_groups) + full);
                assert(flatten(old_groups) + waiting + seq![id] =~= flatten(old_groups) + full);
                assert forall|i: int| 0 <= i < groups.len() implies #[trigger] decoded_text(*tokenizer, groups[i]) == Some(fragments@[i]@) by {
                    if i < old_groups.len() {
                        assert(groups[i] == old_groups[i]);
                        assert(fragments@[i] == old_frags[i]);
                    }
                }
            } else {
                assert(flatten(groups) + pending@ =~= flatten(old_groups) + waiting + seq![id]);
            }
        }
    }
}

/// On any sample path that holds a stop token, the answer is finite: it is
/// the part of the path before the first stop token, it holds no stop token,
/// and the token right after it is a stop token.
pub proof fn lemma_answer_stops_at_first_stop(path: Seq<u32>, stops: Seq<u32>, k: int)
    requires
        0 <= k < path.len(),
        stops.contains(path[k]),
    ensures
        answer_prefix(path, stops).len() <= k,
        answer_prefix(path, stops) == path.take(answer_prefix(path, stops).len() as int),
        stops.contains(path[answer_prefix(path, stops).len() as int]),
        forall|i: int| 0 <= i < answer_prefix(path, stops).len() ==> !stops.contains(#[trigger] answer_prefix(path, stops)[i]),
    decreases path.len(),
{
    if !stops.contains(path[0]) {
        let rest = path.drop_first();
        assert(rest[k - 1] == path[k]);
        lemma_answer_stops_at_first_stop(rest, stops, k - 1);
        let a = answer_prefix(rest, stops);
        assert(answer_prefix(path, stops) == seq![path[0]] + a);
        assert(seq![path[0]] + a =~= path.take(a.len() as int + 1));
        assert(path[a.len() as int + 1] == rest[a.len() as int]);
        assert forall|i: int| 0 <= i < a.len() + 1 implies !stops.contains(#[trigger] (seq![path[0]] + a)[i]) by {
            if i > 0 {
                assert((seq![path[0]] + a)[i] == a[i - 1]);
            }
        }
    } else {
        assert(path.take(0) =~= Seq::<u32>::empty());
    }
}

} // verus!

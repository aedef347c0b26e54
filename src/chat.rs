//! The chat template: role-tagged messages laid out as token ids between
//! start and end markers.
use vstd::prelude::*;
use rten_text::{Tokenizer, TokenizerError};

verus! {

#[verifier::external_type_specification]
#[verifier::external_body]
pub struct ExTokenizer(Tokenizer);

#[verifier::external_type_specification]
#[verifier::external_body]
pub struct ExTokenizerError(TokenizerError);

/// The id the tokenizer's vocabulary gives a special token, if any.
pub uninterp spec fn token_id_of(t: Tokenizer, name: Seq<char>) -> Option<u32>;

/// The token ids the tokenizer gives a text, if it can encode it.
pub uninterp spec fn encoded_ids(t: Tokenizer, s: Seq<char>) -> Option<Seq<u32>>;

/// Relies on `Tokenizer::get_token_id`: the id of a special token given its
/// name, or an error where the vocabulary has no such token.
#[verifier::external_body]
fn lookup_token(tokenizer: &Tokenizer, name: &str) -> (r: Result<u32, TokenizerError>)
    ensures
        r is Ok <==> token_id_of(*tokenizer, name@) is Some,
        r matches Ok(id) ==> token_id_of(*tokenizer, name@) == Some(id),
{
    tokenizer.get_token_id(name)
}

/// Relies on `Tokenizer::encode`: the token ids of a text, which depend on
/// the tokenizer and the text alone.
#[verifier::external_body]
fn encode_text(tokenizer: &Tokenizer, text: &str) -> (r: Result<Vec<u32>, TokenizerError>)
    ensures
        r is Ok <==> encoded_ids(*tokenizer, text@) is Some,
        r matches Ok(v) ==> encoded_ids(*tokenizer, text@) == Some(v@),
{
    match tokenizer.encode(text, None) {
        Ok(encoded) => Ok(encoded.into_token_ids()),
        Err(err) => Err(err),
    }
}

pub const START_MARKER: &'static str = "<|im_start|>";

pub const END_MARKER: &'static str = "<|im_end|>";

pub const END_OF_TEXT_MARKER: &'static str = "<|endoftext|>";

pub const SYSTEM_PROMPT: &'static str = "You are a helpful assistant. You speak English. The user is translating John 3:16 in the Bible. She is translating the verse out of English, which she speaks fluently. However, she left school when she was 11 years old so her written English is limited. She likes to read short, precise answers. She likes answers that contain between one and three short paragraphs. She does not want to see the entire verse, only the parts of the verse that are relevant to the question.";

/// Who speaks in a message.
#[derive(Clone, Copy, Debug, PartialEq, Eq, Structural)]
pub enum Role {
    System,
    User,
    Assistant,
}

/// The header text that opens a message of `role`.
pub open spec fn role_header(role: Role) -> Seq<char> {
    match role {
        Role::System => "system\n"@,
        Role::User => "user\n"@,
        Role::Assistant => "assistant\n"@,
    }
}

pub fn role_header_text(role: Role) -> (r: &'static str)
    ensures
        r@ == role_header(role),
{
    match role {
        Role::System => "system\n",
        Role::User => "user\n",
        Role::Assistant => "assistant\n",
    }
}

/// A piece of a message: a literal token id or a text to be tokenized.
pub enum MessageChunk {
    Text(String),
    Token(u32),
}

/// The concatenation of token id runs, in order.
pub open spec fn flatten(parts: Seq<Seq<u32>>) -> Seq<u32>
    decreases parts.len(),
{
    if parts.len() == 0 {
        Seq::empty()
    } else {
        flatten(parts.drop_last()) + parts.last()
    }
}

/// The ids of one chunk: a literal id stands for itself, a text for its
/// encoding.
pub open spec fn chunk_ids(t: Tokenizer, c: MessageChunk) -> Option<Seq<u32>> {
    match c {
        MessageChunk::Token(id) => Some(seq![id]),
        MessageChunk::Text(s) => encoded_ids(t, s@),
    }
}

/// The ids of a run of chunks, in order; none where some text cannot be
/// encoded.
pub open spec fn chunks_ids(t: Tokenizer, cs: Seq<MessageChunk>) -> Option<Seq<u32>>
    decreases cs.len(),
{
    if cs.len() == 0 {
        Some(Seq::empty())
    } else {
        match (chunks_ids(t, cs.drop_last()), chunk_ids(t, cs.last())) {
            (Some(a), Some(b)) => Some(a + b),
            _ => None,
        }
    }
}

/// A chunk that cannot be encoded spoils every longer run.
proof fn lemma_chunks_fail(t: Tokenizer, cs: Seq<MessageChunk>, k: int)
    requires
        0 <= k <= cs.len(),
        chunks_ids(t, cs.take(k)) is None,
    ensures
        chunks_ids(t, cs) is None,
    decreases cs.len() - k,
{
    if k < cs.len() {
        assert(cs.take(k + 1).drop_last() =~= cs.take(k));
        lemma_chunks_fail(t, cs, k + 1);
    } else {
        assert(cs.take(k) =~= cs);
    }
}

/// Encodes the chunks in order: literal ids are copied, texts tokenized.
/// Fails with the first text that cannot be encoded.
pub fn encode_chunks(tokenizer: &Tokenizer, chunks: &Vec<MessageChunk>) -> (r: Result<Vec<u32>, TokenizerError>)
    ensures
        r is Ok <==> chunks_ids(*tokenizer, chunks@) is Some,
        r matches Ok(ids) ==> chunks_ids(*tokenizer, chunks@) == Some(ids@),
{
    let mut ids: Vec<u32> = Vec::new();
    let mut i: usize = 0;
    assert(chunks@.take(0) =~= Seq::<MessageChunk>::empty());
    while i < chunks.len()
        invariant
            i <= chunks@.len(),
            chunks_ids(*tokenizer, chunks@.take(i as int)) == Some(ids@),
        decreases chunks@.len() - i,
    {
        let ghost before = ids@;
        proof {
            assert(chunks@.take(i + 1).drop_last() =~= chunks@.take(i as int));
            assert(chunks@.take(i + 1).last() == chunks@[i as int]);
        }
        match &chunks[i] {
            MessageChunk::Token(t) => {
                ids.push(*t);
                proof {
                    assert(ids@ =~= before + seq![*t]);
                }
            },
            MessageChunk::Text(text) => {
                let encoded = match encode_text(tokenizer, text.as_str()) {
                    Ok(v) => v,
                    Err(err) => {
                        proof {
                            lemma_chunks_fail(*tokenizer, chunks@, i + 1);
                        }
                        return Err(err);
                    },
                };
                let mut j: usize = 0;
                while j < encoded.len()
                    invariant
                        j <= encoded@.len(),
                        ids@ == before + encoded@.take(j as int),
                    decreases encoded@.len() - j,
                {
                    ids.push(encoded[j]);
                    proof {
                        assert(encoded@.take(j + 1) =~= encoded@.take(j as int).push(encoded@[j as int]));
                    }
                    j = j + 1;
                }
                proof {
                    assert(encoded@.take(j as int) =~= encoded@);
                }
            },
        }
        i = i + 1;
    }
    proof {
        assert(chunks@.take(i as int) =~= chunks@);
    }
    Ok(ids)
}

/// The token ids of the markers that frame messages, and of the optional
/// end-of-text marker.
#[derive(Clone, Copy, Debug, PartialEq, Eq, Structural)]
pub struct ChatMarkers {
    pub start: u32,
    pub end: u32,
    pub end_of_text: Option<u32>,
}

/// The stop set for an end-of-turn marker and an optional end-of-text marker.
pub open spec fn stop_set(end: u32, end_of_text: Option<u32>) -> Seq<u32> {
    match end_of_text {
        Some(t) => seq![end, t],
        None => seq![end],
    }
}

/// The stop set of a tokenizer: none where it has no end-of-turn marker.
pub open spec fn stop_set_of(t: Tokenizer) -> Option<Seq<u32>> {
    match token_id_of(t, END_MARKER@) {
        Some(end) => Some(stop_set(end, token_id_of(t, END_OF_TEXT_MARKER@))),
        None => None,
    }
}

/// The markers of a tokenizer: none where it lacks the start or end marker.
pub open spec fn markers_of(t: Tokenizer) -> Option<ChatMarkers> {
    match (token_id_of(t, START_MARKER@), token_id_of(t, END_MARKER@)) {
        (Some(start), Some(end)) => Some(
            ChatMarkers { start, end, end_of_text: token_id_of(t, END_OF_TEXT_MARKER@) },
        ),
        _ => None,
    }
}

/// The stop set: the end-of-turn marker, then the end-of-text marker where
/// there is one.
pub fn end_of_turn_tokens(end: u32, end_of_text: Option<u32>) -> (r: Vec<u32>)
    ensures
        r@ == stop_set(end, end_of_text),
{
    let mut r: Vec<u32> = Vec::new();
    r.push(end);
    if let Some(t) = end_of_text {
        r.push(t);
    }
    proof {
        assert(r@ =~= stop_set(end, end_of_text));
    }
    r
}

/// Looks up the stop set in the tokenizer's vocabulary: fails where it has no
/// end-of-turn marker; the end-of-text marker is optional.
pub fn get_end_of_turn_tokens(tokenizer: &Tokenizer) -> (r: Result<Vec<u32>, TokenizerError>)
    ensures
        r is Ok <==> stop_set_of(*tokenizer) is Some,
        r matches Ok(v) ==> stop_set_of(*tokenizer) == Some(v@),
{
    let end = lookup_token(tokenizer, END_MARKER)?;
    let end_of_text = match lookup_token(tokenizer, END_OF_TEXT_MARKER) {
        Ok(t) => Some(t),
        Err(_) => None,
    };
    Ok(end_of_turn_tokens(end, end_of_text))
}

impl ChatMarkers {
    /// Looks up the markers in the tokenizer's vocabulary: fails where it has
    /// no start or end marker; the end-of-text marker is optional.
    pub fn from_tokenizer(tokenizer: &Tokenizer) -> (r: Result<ChatMarkers, TokenizerError>)
        ensures
            r is Ok <==> markers_of(*tokenizer) is Some,
            r matches Ok(m) ==> markers_of(*tokenizer) == Some(m),
    {
        let start = lookup_token(tokenizer, START_MARKER)?;
        let end = lookup_token(tokenizer, END_MARKER)?;
        let end_of_text = match lookup_token(tokenizer, END_OF_TEXT_MARKER) {
            Ok(t) => Some(t),
            Err(_) => None,
        };
        Ok(ChatMarkers { start, end, end_of_text })
    }

    /// The ids whose sampling ends an answer.
    pub fn stop_tokens(&self) -> (r: Vec<u32>)
        ensures
            r@ == stop_set(self.end, self.end_of_text),
    {
        end_of_turn_tokens(self.end, self.end_of_text)
    }
}

/// A framed message: the start marker, the header's ids, the body's ids, the
/// end marker.
pub open spec fn message_layout(start: u32, header: Seq<u32>, body: Seq<u32>, end: u32) -> Seq<u32> {
    seq![start] + header + body + seq![end]
}

/// The ids of a message of `role` with body `text`: none where the header or
/// the body cannot be encoded.
pub open spec fn message_ids(t: Tokenizer, m: ChatMarkers, role: Role, text: Seq<char>) -> Option<Seq<u32>> {
    match (encoded_ids(t, role_header(role)), encoded_ids(t, text)) {
        (Some(h), Some(b)) => Some(message_layout(m.start, h, b, m.end)),
        _ => None,
    }
}

/// A user message followed by the opening of the assistant's reply.
pub open spec fn user_turn_layout(
    start: u32,
    header: Seq<u32>,
    body: Seq<u32>,
    end: u32,
    newline: Seq<u32>,
    reply_header: Seq<u32>,
) -> Seq<u32> {
    message_layout(start, header, body, end) + newline + seq![start] + reply_header
}

/// The ids of a user turn with prompt `prompt`: none where one of its texts
/// cannot be encoded.
pub open spec fn user_turn_ids(t: Tokenizer, m: ChatMarkers, prompt: Seq<char>) -> Option<Seq<u32>> {
    match (
        encoded_ids(t, role_header(Role::User)),
        encoded_ids(t, prompt),
        encoded_ids(t, "\n"@),
        encoded_ids(t, role_header(Role::Assistant)),
    ) {
        (Some(h), Some(b), Some(n), Some(a)) => Some(user_turn_layout(m.start, h, b, m.end, n, a)),
        _ => None,
    }
}

/// Encodes one message of `role` with body `text`.
pub fn encode_message(tokenizer: &Tokenizer, markers: &ChatMarkers, role: Role, text: &str) -> (r: Result<Vec<u32>, TokenizerError>)
    ensures
        r is Ok <==> message_ids(*tokenizer, *markers, role, text@) is Some,
        r matches Ok(ids) ==> message_ids(*tokenizer, *markers, role, text@) == Some(ids@),
{
    let mut chunks: Vec<MessageChunk> = Vec::new();
    chunks.push(MessageChunk::Token(markers.start));
    chunks.push(MessageChunk::Text(String::from_str(role_header_text(role))));
    chunks.push(MessageChunk::Text(String::from_str(text)));
    chunks.push(MessageChunk::Token(markers.end));
    let r = encode_chunks(tokenizer, &chunks);
    proof {
        let t = *tokenizer;
        let cs = chunks@;
        reveal_with_fuel(chunks_ids, 5);
        assert(cs.drop_last().drop_last().drop_last().drop_last() =~= Seq::<MessageChunk>::empty());
        assert(cs.drop_last().drop_last().drop_last().last() == cs[0]);
        assert(cs.drop_last().drop_last().last() == cs[1]);
        assert(cs.drop_last().last() == cs[2]);
        if let (Some(h), Some(b)) = (encoded_ids(t, role_header(role)), encoded_ids(t, text@)) {
            assert(chunks_ids(t, cs).unwrap() =~= message_layout(markers.start, h, b, markers.end));
        }
    }
    r
}

/// Encodes the operator's prompt as a user message and opens the
/// assistant's reply.
pub fn encode_user_turn(tokenizer: &Tokenizer, markers: &ChatMarkers, prompt: &str) -> (r: Result<Vec<u32>, TokenizerError>)
    ensures
        r is Ok <==> user_turn_ids(*tokenizer, *markers, prompt@) is Some,
        r matches Ok(ids) ==> user_turn_ids(*tokenizer, *markers, prompt@) == Some(ids@),
{
    let mut chunks: Vec<MessageChunk> = Vec::new();
    chunks.push(MessageChunk::Token(markers.start));
    chunks.push(MessageChunk::Text(String::from_str(role_header_text(Role::User))));
    chunks.push(MessageChunk::Text(String::from_str(prompt)));
    chunks.push(MessageChunk::Token(markers.end));
    chunks.push(MessageChunk::Text(String::from_str("\n")));
    chunks.push(MessageChunk::Token(markers.start));
    chunks.push(MessageChunk::Text(String::from_str(role_header_text(Role::Assistant))));
    let r = encode_chunks(tokenizer, &chunks);
    proof {
        let t = *tokenizer;
        let cs = chunks@;
        reveal_with_fuel(chunks_ids, 8);
        let c6 = cs.drop_last();
        let c5 = c6.drop_last();
        let c4 = c5.drop_last();
        let c3 = c4.drop_last();
        let c2 = c3.drop_last();
        let c1 = c2.drop_last();
        let c0 = c1.drop_last();
        assert(c0 =~= Seq::<MessageChunk>::empty());
        assert(c1.last() == cs[0]);
        assert(c2.last() == cs[1]);
        assert(c3.last() == cs[2]);
        assert(c4.last() == cs[3]);
        assert(c5.last() == cs[4]);
        assert(c6.last() == cs[5]);
        if let (Some(h), Some(b), Some(n), Some(a)) = (
            encoded_ids(t, role_header(Role::User)),
            encoded_ids(t, prompt@),
            encoded_ids(t, "\n"@),
            encoded_ids(t, role_header(Role::Assistant)),
        ) {
            assert(chunks_ids(t, cs).unwrap() =~= user_turn_layout(markers.start, h, b, markers.end, n, a));
        }
    }
    r
}

/// Encodes the fixed system message that opens every session.
pub fn encode_system_message(tokenizer: &Tokenizer, markers: &ChatMarkers) -> (r: Result<Vec<u32>, TokenizerError>)
    ensures
        r is Ok <==> message_ids(*tokenizer, *markers, Role::System, SYSTEM_PROMPT@) is Some,
        r matches Ok(ids) ==> message_ids(*tokenizer, *markers, Role::System, SYSTEM_PROMPT@) == Some(ids@),
{
    encode_message(tokenizer, markers, Role::System, SYSTEM_PROMPT)
}

/// A framed message begins with the start marker, followed at once by the
/// header's ids, and ends with the end marker.
pub proof fn lemma_message_framing(start: u32, header: Seq<u32>, body: Seq<u32>, end: u32)
    ensures
        message_layout(start, header, body, end)[0] == start,
        message_layout(start, header, body, end).subrange(1, 1 + header.len() as int) == header,
        message_layout(start, header, body, end).last() == end,
        message_layout(start, header, body, end).len() == header.len() + body.len() + 2,
{
    let m = message_layout(start, header, body, end);
    assert(m.subrange(1, 1 + header.len() as int) =~= header);
}

} // verus!

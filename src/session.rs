//! The session controller: reads each input line as a command or a question,
//! keeps the session's switches, and runs one turn per question.
use vstd::prelude::*;
use rten_generate::Generator;
use rten_text::{Tokenizer, TokenizerError};
use crate::chat::{ChatMarkers, encode_user_turn, stop_set, user_turn_ids};
use crate::context::VerseContext;
use crate::prompt::{prompt_text, render_prompt};
use crate::stream::{ChatError, append_prompt, collect_answer, is_answer, pending_input, texts};
use crate::text::{text_eq, trim_text, trimmed};

verus! {

/// One line of operator input, read once.
pub enum Command {
    SetHistory(bool),
    SetEchoPrompt(bool),
    SetShowTiming(bool),
    ClearHistory,
    /// A question: the line as it was typed.
    Question(String),
    Quit,
}

/// The switch commands, and the command that clears the history.
pub open spec fn is_control_text(t: Seq<char>) -> bool {
    ||| t == "/+history/"@
    ||| t == "/-history/"@
    ||| t == "/+prompt/"@
    ||| t == "/-prompt/"@
    ||| t == "/+time/"@
    ||| t == "/-time/"@
    ||| t == "/clear/"@
}

/// `c` is what the input line `line` means: its trimmed text, compared
/// exactly, names a command; an empty line quits; any other line is a question.
pub open spec fn command_matches(c: Command, line: Seq<char>) -> bool {
    let t = trimmed(line);
    match c {
        Command::Quit => t.len() == 0,
        Command::SetHistory(on) => t == (if on { "/+history/"@ } else { "/-history/"@ }),
        Command::SetEchoPrompt(on) => t == (if on { "/+prompt/"@ } else { "/-prompt/"@ }),
        Command::SetShowTiming(on) => t == (if on { "/+time/"@ } else { "/-time/"@ }),
        Command::ClearHistory => t == "/clear/"@,
        Command::Question(q) => q@ == line && t.len() > 0 && !is_control_text(t),
    }
}

/// Reads one input line.
pub fn parse_command(line: &str) -> (r: Command)
    ensures
        command_matches(r, line@),
{
    let t = trim_text(line);
    if t.unicode_len() == 0 {
        Command::Quit
    } else if text_eq(t, "/+history/") {
        Command::SetHistory(true)
    } else if text_eq(t, "/-history/") {
        Command::SetHistory(false)
    } else if text_eq(t, "/+prompt/") {
        Command::SetEchoPrompt(true)
    } else if text_eq(t, "/-prompt/") {
        Command::SetEchoPrompt(false)
    } else if text_eq(t, "/+time/") {
        Command::SetShowTiming(true)
    } else if text_eq(t, "/-time/") {
        Command::SetShowTiming(false)
    } else if text_eq(t, "/clear/") {
        Command::ClearHistory
    } else {
        Command::Question(String::from_str(line))
    }
}

/// The session's switches.
#[derive(Clone, Copy, Debug, PartialEq, Eq, Structural)]
pub struct SessionConfig {
    pub keep_history: bool,
    pub echo_prompt: bool,
    pub show_timing: bool,
}

/// What the driver has to do after a line.
#[derive(Clone, Copy, Debug, PartialEq, Eq, Structural)]
pub enum Action {
    /// Say goodbye and end the session.
    Quit,
    /// A switch was set; nothing else to do.
    Configured,
    /// Confirm that the history is cleared, replacing the generation session
    /// first where `reset` holds.
    Cleared { reset: bool },
    /// Run one turn for the question, replacing the generation session first
    /// where `reset` holds.
    Ask { reset: bool },
}

/// The switches after command `cmd`.
pub open spec fn next_config(c: SessionConfig, cmd: Command) -> SessionConfig {
    match cmd {
        Command::SetHistory(on) => SessionConfig { keep_history: on, ..c },
        Command::SetEchoPrompt(on) => SessionConfig { echo_prompt: on, ..c },
        Command::SetShowTiming(on) => SessionConfig { show_timing: on, ..c },
        _ => c,
    }
}

/// What is done for command `cmd` under switches `c`: the history is dropped
/// before every question unless it is kept, and cleared on request only when
/// it is kept.
pub open spec fn next_action(c: SessionConfig, cmd: Command) -> Action {
    match cmd {
        Command::Quit => Action::Quit,
        Command::ClearHistory => Action::Cleared { reset: c.keep_history },
        Command::Question(_) => Action::Ask { reset: !c.keep_history },
        _ => Action::Configured,
    }
}

/// What the operator is told for an action, if anything.
pub open spec fn action_notice(a: Action) -> Option<Seq<char>> {
    match a {
        Action::Quit => Some("Goodbye"@),
        Action::Cleared { .. } => Some("Cleared History"@),
        _ => None,
    }
}

impl Action {
    /// The confirmation shown for this action, if any.
    pub fn notice(&self) -> (r: Option<&'static str>)
        ensures
            r matches Some(s) ==> action_notice(*self) == Some(s@),
            r is None ==> action_notice(*self) is None,
    {
        match self {
            Action::Quit => Some("Goodbye"),
            Action::Cleared { .. } => Some("Cleared History"),
            _ => None,
        }
    }
}

impl SessionConfig {
    /// The switches at start-up: all off.
    pub fn new() -> (r: SessionConfig)
        ensures
            !r.keep_history,
            !r.echo_prompt,
            !r.show_timing,
    {
        SessionConfig { keep_history: false, echo_prompt: false, show_timing: false }
    }

    /// Applies one command to the switches and says what is to be done.
    pub fn apply(&mut self, cmd: &Command) -> (r: Action)
        ensures
            *final(self) == next_config(*old(self), *cmd),
            r == next_action(*old(self), *cmd),
    {
        match cmd {
            Command::SetHistory(on) => {
                self.keep_history = *on;
                Action::Configured
            },
            Command::SetEchoPrompt(on) => {
                self.echo_prompt = *on;
                Action::Configured
            },
            Command::SetShowTiming(on) => {
                self.show_timing = *on;
                Action::Configured
            },
            Command::ClearHistory => Action::Cleared { reset: self.keep_history },
            Command::Question(_) => Action::Ask { reset: !self.keep_history },
            Command::Quit => Action::Quit,
        }
    }

    /// Reads one input line and applies it.
    pub fn handle_line(&mut self, line: &str) -> (r: (Command, Action))
        ensures
            command_matches(r.0, line@),
            *final(self) == next_config(*old(self), r.0),
            r.1 == next_action(*old(self), r.0),
    {
        let cmd = parse_command(line);
        let action = self.apply(&cmd);
        (cmd, action)
    }
}

/// After history is switched on, two questions in a row run in the same
/// generation session; with history switched off, each question gets a fresh one.
pub proof fn lemma_history_switch(c: SessionConfig, q1: Command, q2: Command, on: bool)
    requires
        q1 is Question,
        q2 is Question,
    ensures
        ({
            let c1 = next_config(c, Command::SetHistory(on));
            let c2 = next_config(c1, q1);
            &&& next_action(c1, q1) == Action::Ask { reset: !on }
            &&& next_action(c2, q2) == Action::Ask { reset: !on }
        }),
{
}

/// Clearing without kept history leaves the generation session alone and the
/// switches as they were, and still confirms.
pub proof fn lemma_clear_without_history(c: SessionConfig)
    requires
        !c.keep_history,
    ensures
        next_action(c, Command::ClearHistory) == (Action::Cleared { reset: false }),
        next_config(c, Command::ClearHistory) == c,
        action_notice(next_action(c, Command::ClearHistory)) == Some("Cleared History"@),
{
}

/// An empty line ends the session before any model work.
pub proof fn lemma_empty_line_quits(c: SessionConfig, cmd: Command, line: Seq<char>)
    requires
        command_matches(cmd, line),
        trimmed(line).len() == 0,
    ensures
        cmd is Quit,
        next_action(c, cmd) == Action::Quit,
        next_config(c, cmd) == c,
{
    reveal_strlit("/+history/");
    reveal_strlit("/-history/");
    reveal_strlit("/+prompt/");
    reveal_strlit("/-prompt/");
    reveal_strlit("/+time/");
    reveal_strlit("/-time/");
    reveal_strlit("/clear/");
}

/// What one turn sends to the model.
pub struct TurnRequest {
    pub question: String,
    pub rendered_prompt: String,
    pub token_ids: Vec<u32>,
}

/// Builds the turn for an input line: the trimmed question, its prompt, and
/// the prompt encoded as a user message that opens the assistant's reply.
pub fn prepare_turn(tokenizer: &Tokenizer, markers: &ChatMarkers, context: &VerseContext, user_input: &str) -> (r: Result<TurnRequest, TokenizerError>)
    ensures
        r matches Ok(t) ==> {
            &&& t.question@ == trimmed(user_input@)
            &&& t.rendered_prompt@ == prompt_text(context@, t.question@)
            &&& user_turn_ids(*tokenizer, *markers, t.rendered_prompt@) == Some(t.token_ids@)
        },
        r is Ok <==> user_turn_ids(*tokenizer, *markers, prompt_text(context@, trimmed(user_input@))) is Some,
{
    let question = String::from_str(trim_text(user_input));
    let rendered_prompt = render_prompt(context, question.as_str());
    let token_ids = encode_user_turn(tokenizer, markers, rendered_prompt.as_str())?;
    Ok(TurnRequest { question, rendered_prompt, token_ids })
}

/// The labelled block that shows a prompt.
pub open spec fn prompt_block(p: Seq<char>) -> Seq<char> {
    "\n# Prompt\n\n"@ + p + "\n"@
}

/// What a turn prints: the prompt block where the prompt is echoed, then the
/// answer's fragments.
pub open spec fn turn_output(echo_prompt: bool, prompt: Seq<char>, answer: Seq<Seq<char>>) -> Seq<Seq<char>> {
    (if echo_prompt { seq![prompt_block(prompt)] } else { Seq::empty() }) + answer
}

/// The output of a turn: the prompt block when it is shown, then the answer.
pub fn compose_output(prompt: &str, echo_prompt: bool, answer: Vec<String>) -> (r: Vec<String>)
    ensures
        texts(r@) == turn_output(echo_prompt, prompt@, texts(answer@)),
{
    let mut out: Vec<String> = Vec::new();
    if echo_prompt {
        let mut block = String::from_str("\n# Prompt\n\n");
        block.append(prompt);
        block.append("\n");
        out.push(block);
    }
    let ghost start = out@;
    let mut answer = answer;
    let ghost all = answer@;
    out.append(&mut answer);
    proof {
        assert(texts(out@) =~= texts(start) + texts(all));
        if echo_prompt {
            assert(texts(start) =~= seq![prompt_block(prompt@)]);
        } else {
            assert(texts(start) =~= Seq::<Seq<char>>::empty());
        }
    }
    out
}

/// Queues a turn's ids as model input, after whatever the session already
/// holds: with history kept, the earlier turns stay in front of them.
pub fn queue_turn(generator: &mut Generator, turn: &TurnRequest)
    ensures
        pending_input(*final(generator)) == pending_input(*old(generator)) + turn.token_ids@,
{
    append_prompt(generator, &turn.token_ids);
}

/// Runs one turn in the given generation session: builds and encodes the
/// prompt, queues its ids, and collects the answer up to the first stop
/// token. The prompt block comes first where the prompt is echoed.
pub fn do_one_iteration(
    generator: &mut Generator,
    tokenizer: &Tokenizer,
    markers: &ChatMarkers,
    context: &VerseContext,
    user_input: &str,
    show_prompt: bool,
) -> (r: Result<Vec<String>, ChatError>)
    ensures
        user_turn_ids(*tokenizer, *markers, prompt_text(context@, trimmed(user_input@))) is None
            ==> r matches Err(ChatError::Tokenizer(_)),
        r matches Ok(out) ==> exists|ids: Seq<u32>, stop: u32, frags: Seq<Seq<char>>|
            #[trigger] is_answer(*tokenizer, stop_set(markers.end, markers.end_of_text), ids, stop, frags)
            && texts(out@) == turn_output(show_prompt, prompt_text(context@, trimmed(user_input@)), frags),
{
    let turn = match prepare_turn(tokenizer, markers, context, user_input) {
        Ok(t) => t,
        Err(err) => {
            return Err(ChatError::Tokenizer(err));
        },
    };
    queue_turn(generator, &turn);
    let stops = markers.stop_tokens();
    let answer = collect_answer(generator, tokenizer, &stops)?;
    let ghost frags = texts(answer.fragments@);
    let ghost ids = answer.token_ids@;
    let ghost stop = answer.stop_token;
    let out = compose_output(turn.rendered_prompt.as_str(), show_prompt, answer.fragments);
    proof {
        assert(is_answer(*tokenizer, stop_set(markers.end, markers.end_of_text), ids, stop, frags));
    }
    Ok(out)
}

} // verus!

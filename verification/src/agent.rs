//! The conversation: which key and model a run uses, what the user's input
//! asks for, and the state machine of one request to the model, which
//! decides each next step and grows the transcript: the replies, the tool
//! exchanges, and the roll-back when a request fails.
use vstd::prelude::*;

use crate::text::{blank, chars_of, is_blank, join_with, joined, owned, str_equals, trim, trimmed};
use crate::tools::{calls_view, copy_calls, CallView, ToolCall};

verus! {

/// The most rounds of tool calls that one request may take.
pub const MAX_TOOL_ROUNDS: usize = 8;

/// The instructions that open every conversation.
pub open spec fn system_prompt() -> Seq<char> {
    "You are a helpful coding agent. Use the provided file tools to inspect the working directory when needed. Shell commands require explicit user approval."@
}

/// One message of the conversation sent to the model.
#[allow(inconsistent_fields)]
pub enum Message {
    System { content: String },
    User { content: String },
    /// `content` is absent when the reply had no text, `tool_calls` when it
    /// asked for none.
    Assistant { content: Option<String>, tool_calls: Option<Vec<ToolCall>> },
    Tool { tool_call_id: String, content: String },
}

/// The message that opens a conversation.
pub fn system_message() -> (m: Message)
    ensures
        m matches Message::System { content } && content@ == system_prompt(),
{
    Message::System {
        content: owned(
            "You are a helpful coding agent. Use the provided file tools to inspect the working directory when needed. Shell commands require explicit user approval.",
        ),
    }
}

/// The assistant message for a reply: no `content` when the text is empty,
/// and no `tool_calls` when there are none.
pub fn assistant_message(content: String, tool_calls: &[ToolCall]) -> (m: Message)
    ensures
        m matches Message::Assistant { content: c, tool_calls: t } && (content@.len() == 0 ==> c
            is None) && (content@.len() > 0 ==> (c matches Some(s) && s@ == content@)) && (
        tool_calls@.len() == 0 ==> t is None) && (tool_calls@.len() > 0 ==> (t matches Some(v)
            && calls_view(v@) == calls_view(tool_calls@))),
{
    let text = if content.unicode_len() == 0 {
        None
    } else {
        Some(content)
    };
    let calls = if tool_calls.len() == 0 {
        None
    } else {
        Some(copy_calls(tool_calls))
    };
    Message::Assistant { content: text, tool_calls: calls }
}

/// Whether a reply has text worth showing (not only whitespace).
pub fn has_text(content: &str) -> (r: bool)
    ensures
        r == !is_blank(content@),
{
    let v = chars_of(content);
    assert(v@.subrange(0, v.len() as int) =~= v@);
    !blank(&v, 0, v.len())
}

/// Where the API key of a run comes from.
pub enum KeySource {
    /// `DEEPSEEK_API_KEY`, when set and not empty.
    Environment(String),
    /// The key saved in the configuration.
    Saved(String),
    /// Neither: the user is asked, and the key is then saved.
    Prompt,
}

/// The key source: the environment wins, then the saved key; otherwise the
/// user is asked. Only a key typed at the prompt is saved, so a key from
/// the environment overrides the saved one for a single run.
pub fn key_source(env_key: Option<String>, saved: Option<String>) -> (r: KeySource)
    ensures
        (env_key matches Some(k) && k@.len() > 0) ==> (r matches KeySource::Environment(e) && e@
            == env_key->0@),
        !(env_key matches Some(k) && k@.len() > 0) ==> match saved {
            Some(s) => r matches KeySource::Saved(t) && t@ == s@,
            None => r is Prompt,
        },
{
    match env_key {
        Some(k) => {
            if k.unicode_len() > 0 {
                return KeySource::Environment(k);
            }
        },
        None => {},
    }
    match saved {
        Some(s) => KeySource::Saved(s),
        None => KeySource::Prompt,
    }
}

/// Whether `name` is one of `models`.
pub fn listed(models: &Vec<String>, name: &str) -> (r: bool)
    ensures
        r == exists|i: int| 0 <= i < models@.len() && (#[trigger] models@[i])@ == name@,
{
    for i in 0..models.len()
        invariant
            forall|j: int| 0 <= j < i ==> (#[trigger] models@[j])@ != name@,
    {
        if str_equals(models[i].as_str(), name) {
            return true;
        }
    }
    false
}

/// The model of a run: `DS_MODEL` when it names a listed model, else the
/// saved model when it is listed, else the first listed model.
pub open spec fn selected_model(env_model: Option<Seq<char>>, saved: Seq<char>, models: Seq<
    Seq<char>,
>) -> Seq<char> {
    match env_model {
        Some(m) if models.contains(m) => m,
        _ => if saved.len() > 0 && models.contains(saved) {
            saved
        } else {
            models[0]
        },
    }
}

/// Picks the model of a run among the models the API lists.
pub fn select_model(env_model: Option<&str>, saved: &str, models: &Vec<String>) -> (r: String)
    requires
        models@.len() > 0,
    ensures
        r@ == selected_model(
            match env_model {
                Some(m) => Some(m@),
                None => None,
            },
            saved@,
            models@.map_values(|m: String| m@),
        ),
{
    let ghost names = models@.map_values(|m: String| m@);
    proof {
        assert forall|s: Seq<char>|
            names.contains(s) <==> exists|i: int| 0 <= i < models@.len() && (#[trigger] models@[
                i])@ == s by {
            if names.contains(s) {
                let i = choose|i: int| 0 <= i < names.len() && names[i] == s;
                assert(models@[i]@ == s);
            }
            if exists|i: int| 0 <= i < models@.len() && (#[trigger] models@[i])@ == s {
                let i = choose|i: int| 0 <= i < models@.len() && (#[trigger] models@[i])@ == s;
                assert(names[i] == s);
            }
        }
    }
    match env_model {
        Some(m) => {
            if listed(models, m) {
                return owned(m);
            }
        },
        None => {},
    }
    if saved.unicode_len() > 0 && listed(models, saved) {
        owned(saved)
    } else {
        assert(names[0] == models@[0]@);
        models[0].clone()
    }
}

/// How the model of a run is chosen: a `DS_MODEL` that names a listed
/// model wins; without one, a saved model that is listed is kept; only
/// otherwise is the first listed model taken. The model is always listed.
pub proof fn lemma_model_selection(env_model: Option<Seq<char>>, saved: Seq<char>, models: Seq<Seq<char>>)
    requires
        models.len() > 0,
    ensures
        env_model matches Some(m) && models.contains(m) ==> selected_model(env_model, saved, models)
            == env_model->0,
        !(env_model matches Some(m) && models.contains(m)) && saved.len() > 0 && models.contains(
            saved,
        ) ==> selected_model(env_model, saved, models) == saved,
        !(env_model matches Some(m) && models.contains(m)) && !(saved.len() > 0
            && models.contains(saved)) ==> selected_model(env_model, saved, models) == models[0],
        models.contains(selected_model(env_model, saved, models)),
        selected_model(None, saved, models) == selected_model(Some(saved), saved, models) || saved.len() == 0,
{
    assert(models.contains(models[0]));
}

/// What a line typed at the prompt asks for.
pub enum Command {
    /// An empty line: prompt again.
    Nothing,
    /// `/exit` or `/quit`.
    Exit,
    /// `/model`: choose another model.
    ChooseModel,
    /// Anything else is sent to the model.
    Ask,
}

/// Reads a (trimmed) line typed at the prompt.
pub fn command(input: &str) -> (r: Command)
    ensures
        input@.len() == 0 ==> r is Nothing,
        (input@ == "/exit"@ || input@ == "/quit"@) ==> r is Exit,
        input@ == "/model"@ ==> r is ChooseModel,
        !(input@.len() == 0 || input@ == "/exit"@ || input@ == "/quit"@ || input@ == "/model"@)
            ==> r is Ask,
{
    proof {
        reveal_strlit("/exit");
        reveal_strlit("/quit");
        reveal_strlit("/model");
    }
    if input.unicode_len() == 0 {
        Command::Nothing
    } else if str_equals(input, "/exit") || str_equals(input, "/quit") {
        Command::Exit
    } else if str_equals(input, "/model") {
        Command::ChooseModel
    } else {
        Command::Ask
    }
}

/// The input as it is taken from the prompt: trimmed.
pub fn prompt_input(raw: &str) -> (r: String)
    ensures
        r@ == trim(raw@),
{
    trimmed(raw)
}

/// The prompt given on the command line: the arguments joined by spaces.
pub fn first_prompt(args: &Vec<String>) -> (r: String)
    ensures
        r@ == joined(args@.map_values(|a: String| a@), ' '),
{
    join_with(args, ' ')
}

/// Whether `m` is the tool message that answers `call`.
pub open spec fn answers(m: Message, call: CallView) -> bool {
    m matches Message::Tool { tool_call_id, .. } && tool_call_id@ == call.id
}

/// `replies` answer `calls` one for one, in order.
pub open spec fn answered_in_order(replies: Seq<Message>, calls: Seq<CallView>) -> bool {
    &&& replies.len() == calls.len()
    &&& forall|j: int| 0 <= j < calls.len() ==> answers(#[trigger] replies[j], calls[j])
}

/// `ms` is a run of tool exchanges: each is an assistant message that asks
/// for one or more calls, followed at once by one tool message per call,
/// answering the calls in the order they were asked for.
pub open spec fn exchanges(ms: Seq<Message>) -> bool
    decreases ms.len(),
{
    if ms.len() == 0 {
        true
    } else {
        match ms[0] {
            Message::Assistant { tool_calls: Some(v), .. } => {
                let calls = calls_view(v@);
                let k = calls.len() as int;
                if k > 0 && ms.len() >= 1 + k {
                    answered_in_order(ms.subrange(1, 1 + k), calls) && exchanges(ms.skip(1 + k))
                } else {
                    false
                }
            },
            _ => false,
        }
    }
}

/// The transcript a successful request leaves: the transcript from before,
/// the user's prompt, the tool exchanges the request went through, and a
/// last reply that asks for no tool.
pub open spec fn completed(before: Seq<Message>, prompt: Seq<char>, ms: Seq<Message>) -> bool {
    let n = before.len() as int;
    &&& ms.len() >= n + 2
    &&& ms.take(n) == before
    &&& ms[n] matches Message::User { content } && content@ == prompt
    &&& exchanges(ms.subrange(n + 1, ms.len() - 1))
    &&& ms.last() matches Message::Assistant { tool_calls: None, .. }
}

/// The content recorded for a tool's outcome: its output, or the error
/// after "tool error: ".
pub open spec fn outcome_text(outcome: Result<String, String>) -> Seq<char> {
    match outcome {
        Ok(text) => text@,
        Err(error) => "tool error: "@ + error@,
    }
}

proof fn lemma_exchanges_concat(a: Seq<Message>, b: Seq<Message>)
    requires
        exchanges(a),
        exchanges(b),
    ensures
        exchanges(a + b),
    decreases a.len(),
{
    if a.len() == 0 {
        assert(a + b =~= b);
    } else {
        match a[0] {
            Message::Assistant { tool_calls: Some(v), .. } => {
                let k = calls_view(v@).len() as int;
                lemma_exchanges_concat(a.skip(1 + k), b);
                assert((a + b)[0] == a[0]);
                assert((a + b).subrange(1, 1 + k) =~= a.subrange(1, 1 + k));
                assert((a + b).skip(1 + k) =~= a.skip(1 + k) + b);
            },
            _ => {},
        }
    }
}

/// In a run of tool exchanges, every assistant message that asks for calls
/// is followed at once by one tool message per call, answering the calls
/// in the order they were asked for.
pub proof fn lemma_calls_answered_in_order(ms: Seq<Message>)
    requires
        exchanges(ms),
    ensures
        forall|i: int|
            0 <= i < ms.len() && (#[trigger] ms[i] matches Message::Assistant {
                tool_calls: Some(v),
                ..
            }) ==> {
                let calls = calls_view(ms[i]->tool_calls->0@);
                &&& i + calls.len() < ms.len()
                &&& answered_in_order(ms.subrange(i + 1, i + 1 + calls.len()), calls)
            },
    decreases ms.len(),
{
    if ms.len() > 0 {
        if let Message::Assistant { tool_calls: Some(v), .. } = ms[0] {
            let calls = calls_view(v@);
            let k = calls.len() as int;
            let rest = ms.skip(1 + k);
            lemma_calls_answered_in_order(rest);
            assert forall|i: int|
                0 <= i < ms.len() && (#[trigger] ms[i] matches Message::Assistant {
                    tool_calls: Some(w),
                    ..
                }) implies {
                let c = calls_view(ms[i]->tool_calls->0@);
                &&& i + c.len() < ms.len()
                &&& answered_in_order(ms.subrange(i + 1, i + 1 + c.len()), c)
            } by {
                if 0 < i && i < 1 + k {
                    assert(answers(ms.subrange(1, 1 + k)[i - 1], calls[i - 1]));
                    assert(ms.subrange(1, 1 + k)[i - 1] == ms[i]);
                } else if i >= 1 + k {
                    let c = calls_view(ms[i]->tool_calls->0@);
                    assert(rest[i - 1 - k] == ms[i]);
                    assert(rest.subrange(i - k, i - k + c.len()) =~= ms.subrange(
                        i + 1,
                        i + 1 + c.len(),
                    ));
                }
            }
        }
    }
}

/// What the caller does next for a request in progress.
pub enum TurnAction {
    /// Ask the model for a reply to the transcript as it stands.
    Request,
    /// Run this call and report its outcome; `first` is set for the first
    /// tool of the request (when "Working" is shown).
    RunTool { call: ToolCall, first: bool },
    /// The request is complete.
    Finish,
    /// Every round was used up: the transcript is back as it was before the
    /// request.
    Fail,
}

/// What a request in progress waits for.
enum Waiting {
    Reply,
    ToolResult,
    Nothing,
}

/// One request to the model in progress: the transcript it started from,
/// the prompt, how many replies it has asked for, whether a tool has run,
/// and the calls of the last reply that are still being answered.
pub struct Turn {
    start: usize,
    rounds: usize,
    used_tools: bool,
    waiting: Waiting,
    pending: Vec<ToolCall>,
    next: usize,
    before: Ghost<Seq<Message>>,
    prompt: Ghost<Seq<char>>,
    reply_at: Ghost<int>,
}

impl Turn {
    /// The transcript as it was before the request.
    pub closed spec fn before(&self) -> Seq<Message> {
        self.before@
    }

    /// The prompt of the request.
    pub closed spec fn prompt(&self) -> Seq<char> {
        self.prompt@
    }

    /// How many replies have been asked for.
    pub closed spec fn rounds(&self) -> nat {
        self.rounds as nat
    }

    /// Whether a tool has run in this request.
    pub closed spec fn used_tools(&self) -> bool {
        self.used_tools
    }

    /// The request waits for a reply of the model.
    pub closed spec fn expects_reply(&self) -> bool {
        self.waiting is Reply
    }

    /// The request waits for the outcome of a tool.
    pub closed spec fn expects_result(&self) -> bool {
        self.waiting is ToolResult
    }

    /// The request is over, finished or failed.
    pub closed spec fn is_over(&self) -> bool {
        self.waiting is Nothing
    }

    /// The calls of the last reply.
    pub closed spec fn calls(&self) -> Seq<CallView> {
        calls_view(self.pending@)
    }

    /// How many calls of the last reply have been answered.
    pub closed spec fn answered(&self) -> nat {
        self.next as nat
    }

    /// `messages` is the transcript of this request: what was there before,
    /// the user's message, the exchanges completed so far and, while a tool
    /// outcome is awaited, the last reply and the answers given to it.
    pub closed spec fn tracks(&self, messages: Seq<Message>) -> bool {
        let n = self.before@.len() as int;
        let at = self.reply_at@;
        &&& self.start == n
        &&& 1 <= self.rounds <= MAX_TOOL_ROUNDS
        &&& !(self.waiting is Nothing)
        &&& messages.len() > n
        &&& messages.take(n) == self.before@
        &&& messages[n] matches Message::User { content } && content@ == self.prompt@
        &&& self.waiting is Reply ==> exchanges(messages.skip(n + 1))
        &&& self.waiting is ToolResult ==> {
            &&& self.next < self.pending@.len()
            &&& n + 1 <= at
            &&& messages.len() == at + 1 + self.next
            &&& exchanges(messages.subrange(n + 1, at))
            &&& messages[at] matches Message::Assistant { tool_calls: Some(v), .. } && calls_view(
                v@,
            ) == calls_view(self.pending@)
            &&& answered_in_order(
                messages.subrange(at + 1, messages.len() as int),
                calls_view(self.pending@).take(self.next as int),
            )
        }
    }

    /// Starts a request: the user's prompt is added to the transcript, and
    /// the first reply is to be asked for.
    pub fn begin(messages: &mut Vec<Message>, prompt: &str) -> (r: (Turn, TurnAction))
        ensures
            final(messages)@.len() == old(messages)@.len() + 1,
            final(messages)@.take(old(messages)@.len() as int) == old(messages)@,
            final(messages)@.last() matches Message::User { content } && content@ == prompt@,
            r.0.before() == old(messages)@,
            r.0.prompt() == prompt@,
            r.0.rounds() == 1,
            !r.0.used_tools(),
            r.0.expects_reply(),
            r.0.tracks(final(messages)@),
            r.1 is Request,
    {
        let ghost before = messages@;
        let start = messages.len();
        messages.push(Message::User { content: owned(prompt) });
        assert(messages@.take(start as int) =~= before);
        assert(messages@.skip(start + 1) =~= Seq::<Message>::empty());
        let turn = Turn {
            start,
            rounds: 1,
            used_tools: false,
            waiting: Waiting::Reply,
            pending: Vec::new(),
            next: 0,
            before: Ghost(before),
            prompt: Ghost(prompt@),
            reply_at: Ghost(0),
        };
        (turn, TurnAction::Request)
    }

    /// Records a reply of the model. A reply without tool calls completes
    /// the request; otherwise its first call is to be run.
    pub fn on_reply(&mut self, messages: &mut Vec<Message>, content: String, tool_calls: Vec<
        ToolCall,
    >) -> (action: TurnAction)
        requires
            old(self).expects_reply(),
            old(self).tracks(old(messages)@),
        ensures
            final(messages)@.len() == old(messages)@.len() + 1,
            final(messages)@.take(old(messages)@.len() as int) == old(messages)@,
            final(messages)@.last() matches Message::Assistant { content: c, tool_calls: t } && (
            content@.len() == 0 ==> c is None) && (content@.len() > 0 ==> (c matches Some(s)
                && s@ == content@)) && (tool_calls@.len() == 0 ==> t is None) && (tool_calls@.len()
                > 0 ==> (t matches Some(v) && calls_view(v@) == calls_view(tool_calls@))),
            final(self).before() == old(self).before(),
            final(self).prompt() == old(self).prompt(),
            final(self).rounds() == old(self).rounds(),
            tool_calls@.len() == 0 ==> {
                &&& action is Finish
                &&& final(self).is_over()
                &&& final(self).used_tools() == old(self).used_tools()
                &&& completed(old(self).before(), old(self).prompt(), final(messages)@)
            },
            tool_calls@.len() > 0 ==> {
                &&& action matches TurnAction::RunTool { call, first } && call@ == tool_calls@[0]@
                    && first == !old(self).used_tools()
                &&& final(self).used_tools()
                &&& final(self).expects_result()
                &&& final(self).calls() == calls_view(tool_calls@)
                &&& final(self).answered() == 0
                &&& final(self).tracks(final(messages)@)
            },
    {
        let ghost old_messages = messages@;
        let ghost n = self.before@.len() as int;
        let message = assistant_message(content, tool_calls.as_slice());
        messages.push(message);
        assert(messages@.take(old_messages.len() as int) =~= old_messages);
        assert(messages@.take(n) =~= old_messages.take(n));
        assert(messages@.subrange(n + 1, messages@.len() - 1) =~= old_messages.skip(n + 1));
        if tool_calls.len() == 0 {
            self.waiting = Waiting::Nothing;
            return TurnAction::Finish;
        }
        let call = tool_calls[0].duplicate();
        let first = !self.used_tools;
        self.used_tools = true;
        self.pending = tool_calls;
        self.next = 0;
        self.waiting = Waiting::ToolResult;
        self.reply_at = Ghost(old_messages.len() as int);
        assert(messages@.subrange(old_messages.len() + 1int, messages@.len() as int)
            =~= Seq::<Message>::empty());
        assert(calls_view(self.pending@).take(0) =~= Seq::<CallView>::empty());
        TurnAction::RunTool { call, first }
    }

    /// Records the outcome of the tool that was run: its output, or the
    /// error after "tool error: ", answers the call. Then the next call of
    /// the reply is to be run; when all are answered, the next reply is to
    /// be asked for, unless every round is used up: then the transcript is
    /// put back as it was before the request, and the request fails.
    pub fn on_tool_result(&mut self, messages: &mut Vec<Message>, outcome: Result<String, String>) -> (action: TurnAction)
        requires
            old(self).expects_result(),
            old(self).tracks(old(messages)@),
        ensures
            final(self).before() == old(self).before(),
            final(self).prompt() == old(self).prompt(),
            final(self).used_tools() == old(self).used_tools(),
            old(self).answered() + 1 < old(self).calls().len() ==> {
                &&& action matches TurnAction::RunTool { call, first } && call@ == old(
                    self,
                ).calls()[old(self).answered() + 1int] && !first
                &&& final(self).expects_result()
                &&& final(self).calls() == old(self).calls()
                &&& final(self).answered() == old(self).answered() + 1
                &&& final(self).rounds() == old(self).rounds()
            },
            old(self).answered() + 1 == old(self).calls().len() && old(self).rounds()
                < MAX_TOOL_ROUNDS ==> {
                &&& action is Request
                &&& final(self).expects_reply()
                &&& final(self).rounds() == old(self).rounds() + 1
            },
            !(old(self).answered() + 1 == old(self).calls().len() && old(self).rounds()
                == MAX_TOOL_ROUNDS) ==> {
                &&& final(messages)@.len() == old(messages)@.len() + 1
                &&& final(messages)@.take(old(messages)@.len() as int) == old(messages)@
                &&& final(messages)@.last() matches Message::Tool { tool_call_id, content }
                    && tool_call_id@ == old(self).calls()[old(self).answered() as int].id
                    && content@ == outcome_text(outcome)
                &&& final(self).tracks(final(messages)@)
            },
            old(self).answered() + 1 == old(self).calls().len() && old(self).rounds()
                == MAX_TOOL_ROUNDS ==> {
                &&& action is Fail
                &&& final(self).is_over()
                &&& final(messages)@ == old(self).before()
            },
    {
        let ghost old_messages = messages@;
        let ghost n = self.before@.len() as int;
        let ghost at = self.reply_at@;
        let ghost calls = calls_view(self.pending@);
        let ghost k = self.next as int;
        assert(self.next < self.pending.len());
        let id = self.pending[self.next].id.clone();
        let content = match outcome {
            Ok(text) => text,
            Err(error) => tool_error_result(error.as_str()),
        };
        messages.push(Message::Tool { tool_call_id: id, content });
        self.next = self.next + 1;
        assert(messages@.take(old_messages.len() as int) =~= old_messages);
        assert(messages@.take(n) =~= old_messages.take(n));
        assert(messages@.subrange(n + 1, at) =~= old_messages.subrange(n + 1, at));
        let ghost answers_now = messages@.subrange(at + 1, messages@.len() as int);
        assert(answers_now =~= old_messages.subrange(at + 1, old_messages.len() as int).push(
            messages@.last(),
        ));
        assert(calls.take(k + 1) =~= calls.take(k).push(calls[k]));
        assert(answered_in_order(answers_now, calls.take(k + 1))) by {
            assert forall|j: int| 0 <= j < k + 1 implies answers(
                #[trigger] answers_now[j],
                calls.take(k + 1)[j],
            ) by {
                if j < k {
                    assert(answers_now[j] == old_messages.subrange(
                        at + 1,
                        old_messages.len() as int,
                    )[j]);
                }
            }
        }
        if self.next < self.pending.len() {
            return TurnAction::RunTool { call: self.pending[self.next].duplicate(), first: false };
        }
        proof {
            let tail = messages@.subrange(at, messages@.len() as int);
            let m = calls.len() as int;
            assert(tail.subrange(1, 1 + m) =~= answers_now);
            assert(calls.take(k + 1) =~= calls);
            assert(tail.skip(1 + m) =~= Seq::<Message>::empty());
            assert(exchanges(tail.skip(1 + m)));
            assert(tail[0] == messages@[at]);
            assert(exchanges(tail));
            lemma_exchanges_concat(messages@.subrange(n + 1, at), tail);
            assert(messages@.subrange(n + 1, at) + tail =~= messages@.skip(n + 1));
        }
        if self.rounds < MAX_TOOL_ROUNDS {
            self.rounds = self.rounds + 1;
            self.waiting = Waiting::Reply;
            TurnAction::Request
        } else {
            messages.truncate(self.start);
            self.waiting = Waiting::Nothing;
            TurnAction::Fail
        }
    }

    /// Gives up on the request: the transcript is put back exactly as it
    /// was before the prompt was added.
    pub fn abort(self, messages: &mut Vec<Message>)
        requires
            self.tracks(old(messages)@),
        ensures
            final(messages)@ == self.before(),
    {
        messages.truncate(self.start);
    }
}

/// The text of the error when a request used up all its rounds.
pub fn round_limit_message() -> (r: String)
    ensures
        r@ == "tool-call limit reached"@,
{
    owned("tool-call limit reached")
}

/// The result recorded for a tool that failed.
pub fn tool_error_result(message: &str) -> (r: String)
    ensures
        r@ == "tool error: "@ + message@,
{
    let mut s = owned("tool error: ");
    s.append(message);
    s
}

} // verus!

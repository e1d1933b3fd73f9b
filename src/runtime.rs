use vstd::prelude::*;

use crate::error::ErrorKind;
use crate::hash::CryptoHash;
use crate::instruction::{assistant_key, turn_present, user_key, Instruction, LlmInstruction};
use crate::key::namespaced_key;
use crate::state::{State, StateDiff};
use crate::store::Store;

verus! {

/// Owner of one state and a first-in first-out queue of prepared instructions.
pub trait Runtime<IX: Instruction<T>, T>: Sized {
    /// Instructions waiting to run, oldest first.
    spec fn queued(&self) -> Seq<IX>;

    /// The state the runtime owns.
    spec fn current_state(&self) -> State<T>;

    /// Prepares `instruction` against the current state and queues it last.
    /// Preparation happens now: an instruction queued behind another that has
    /// not yet run does not see that one's turn.
    fn push_instruction(&mut self, instruction: IX) -> (r: Result<(), IX::Error>)
        ensures
            final(self).current_state() == old(self).current_state(),
            r is Ok <==> old(self).current_state().storage@.contains_key(instruction.config_key()),
            r is Ok ==> final(self).queued().len() == old(self).queued().len() + 1
                && final(self).queued().drop_last() == old(self).queued()
                && final(self).queued().last().prepared(instruction, old(self).current_state().storage@),
            r is Err ==> final(self).queued() == old(self).queued(),
    ;
}

/// Who speaks a message.
#[derive(Debug, Clone, Copy, PartialEq, Eq, Structural)]
pub enum ChatRole {
    System,
    User,
    Assistant,
}

/// One entry of the message list sent to the completion service.
#[derive(Debug, Clone)]
pub struct ChatMessage {
    pub role: ChatRole,
    pub content: String,
}

/// A tool invocation that the service asks for.
#[derive(Debug, Clone)]
pub struct ToolCall {
    pub name: String,
    pub arguments: String,
}

/// One result of the service.
#[derive(Debug, Clone)]
pub struct ReplyChoice {
    pub content: Option<String>,
    pub tool_calls: Vec<ToolCall>,
}

/// Usage accounting that the service reports.
#[derive(Debug, Clone, Copy, PartialEq, Eq, Structural)]
pub struct Usage {
    pub prompt_tokens: u32,
    pub completion_tokens: u32,
    pub total_tokens: u32,
}

/// What the service sent back for one request.
#[derive(Debug, Clone)]
pub struct ServiceReply {
    pub choices: Vec<ReplyChoice>,
    pub usage: Option<Usage>,
}

/// The useful part of a successful reply.
#[derive(Debug, Clone)]
pub struct Completion {
    pub text: String,
    pub tool_calls: Vec<ToolCall>,
    pub usage: Usage,
}

/// A message from `role`.
pub open spec fn chat(role: ChatRole, content: String) -> ChatMessage {
    ChatMessage { role, content }
}

/// Earlier turns as alternating user and assistant messages.
pub open spec fn transcript(memory: Seq<(String, String, Option<String>)>) -> Seq<ChatMessage> {
    Seq::new(
        2 * memory.len(),
        |j: int|
            if j % 2 == 0 {
                chat(ChatRole::User, memory[j / 2].0)
            } else {
                chat(ChatRole::Assistant, memory[j / 2].1)
            },
    )
}

/// The request's messages: the prompt, the history, then the new input.
pub open spec fn request_messages(system_prompt: String, ix: LlmInstruction) -> Seq<ChatMessage> {
    seq![chat(ChatRole::System, system_prompt)] + transcript(ix.memory@) + seq![
        chat(ChatRole::User, ix.new_message),
    ]
}

/// The entries that record turn `index`.
pub open spec fn turn_entries(index: nat, request: String, response: String) -> Map<Seq<u8>, String> {
    Map::<Seq<u8>, String>::empty().insert(user_key(index), request).insert(assistant_key(index), response)
}

/// Text of a result, empty where the service gave none.
pub open spec fn reply_text(content: Option<String>) -> Seq<char> {
    match content {
        Some(s) => s@,
        None => Seq::empty(),
    }
}

/// The reply is unusable: no result, or no usage accounting.
pub open spec fn reply_fails(reply: ServiceReply) -> bool {
    reply.choices@.len() == 0 || reply.usage is None
}

/// A first turn: an instruction prepared against storage that holds no turn
/// yet sends just the prompt and its own input, and its reply will be
/// recorded under index 0.
pub proof fn lemma_first_turn(
    storage: Map<Seq<u8>, String>,
    raw: LlmInstruction,
    ix: LlmInstruction,
    system_prompt: String,
)
    requires
        ix.prepared(raw, storage),
        !turn_present(storage, 0),
    ensures
        ix.new_message_index == 0,
        ix.new_message == raw.new_message,
        request_messages(system_prompt, ix) == seq![
            chat(ChatRole::System, system_prompt),
            chat(ChatRole::User, raw.new_message),
        ],
{
    if ix.new_message_index > 0 {
        assert(turn_present(storage, 0));
    }
    assert(transcript(ix.memory@) =~= Seq::<ChatMessage>::empty());
    assert(request_messages(system_prompt, ix) =~= seq![
        chat(ChatRole::System, system_prompt),
        chat(ChatRole::User, raw.new_message),
    ]);
}

/// Builds the ordered message list for `ix` under the given prompt.
pub fn prepare_messages(ix: &LlmInstruction, system_prompt: String) -> (r: Vec<ChatMessage>)
    ensures
        r@ == request_messages(system_prompt, *ix),
{
    let mut messages: Vec<ChatMessage> = Vec::new();
    messages.push(ChatMessage { role: ChatRole::System, content: system_prompt });
    let ghost head = seq![chat(ChatRole::System, system_prompt)];
    let mut i: usize = 0;
    while i < ix.memory.len()
        invariant
            0 <= i <= ix.memory@.len(),
            messages@ == head + transcript(ix.memory@.subrange(0, i as int)),
        decreases ix.memory@.len() - i,
    {
        let user = ix.memory[i].0.clone();
        let assistant = ix.memory[i].1.clone();
        messages.push(ChatMessage { role: ChatRole::User, content: user });
        messages.push(ChatMessage { role: ChatRole::Assistant, content: assistant });
        proof {
            let t = transcript(ix.memory@.subrange(0, i + 1));
            let prev = transcript(ix.memory@.subrange(0, i as int));
            assert(t =~= prev + seq![
                chat(ChatRole::User, ix.memory@[i as int].0),
                chat(ChatRole::Assistant, ix.memory@[i as int].1),
            ]);
            assert(messages@ =~= head + t);
        }
        i = i + 1;
    }
    assert(ix.memory@.subrange(0, ix.memory@.len() as int) =~= ix.memory@);
    messages.push(ChatMessage { role: ChatRole::User, content: ix.new_message.clone() });
    assert(messages@ =~= request_messages(system_prompt, *ix));
    messages
}

/// Reads a reply: the first result's text (empty if it has none) and tool
/// calls, with the usage; fails when there is no result or no usage.
pub fn read_reply(reply: ServiceReply) -> (r: Result<Completion, ErrorKind>)
    ensures
        reply_fails(reply) <==> r is Err,
        r is Err ==> r == Err::<Completion, ErrorKind>(ErrorKind::ExternalService),
        r matches Ok(c) ==> c.text@ == reply_text(reply.choices@[0].content) && c.tool_calls
            == reply.choices@[0].tool_calls && Some(c.usage) == reply.usage,
{
    let ServiceReply { choices, usage } = reply;
    if choices.len() == 0 {
        return Err(ErrorKind::ExternalService);
    }
    let usage = match usage {
        Some(u) => u,
        None => {
            return Err(ErrorKind::ExternalService);
        },
    };
    let mut choices = choices;
    let first = choices.remove(0);
    let ReplyChoice { content, tool_calls } = first;
    let text = match content {
        Some(s) => s,
        None => String::new(),
    };
    Ok(Completion { text, tool_calls, usage })
}

/// The diff that records turn `index`: its request and its response.
pub fn state_diff_from_response(index: usize, request: String, response: String) -> (r: StateDiff<String>)
    ensures
        r.storage_insert@ == turn_entries(index as nat, request, response),
        r.storage_update@ == Map::<Seq<u8>, String>::empty(),
        r.storage_delete@ == Seq::<CryptoHash>::empty(),
{
    let mut state_diff = StateDiff::new();
    let user_message_key = namespaced_key("user_message", index);
    let assistant_message_key = namespaced_key("assistant_message", index);
    state_diff.storage_insert.insert(user_message_key, request);
    state_diff.storage_insert.insert(assistant_message_key, response);
    state_diff
}

/// The runtime for conversational instructions. The completion service is
/// called from outside: `next_instruction` and `config_text` give what the
/// call needs, and `complete_one` takes its outcome.
pub struct LlmRuntime {
    instructions: Vec<LlmInstruction>,
    state: State<String>,
}

impl Runtime<LlmInstruction, String> for LlmRuntime {
    closed spec fn queued(&self) -> Seq<LlmInstruction> {
        self.instructions@
    }

    closed spec fn current_state(&self) -> State<String> {
        self.state
    }

    fn push_instruction(&mut self, instruction: LlmInstruction) -> (r: Result<(), ErrorKind>) {
        let mut ix = instruction;
        match ix.prepare(&self.state) {
            Ok(()) => {
                self.instructions.push(ix);
                proof {
                    assert(self.instructions@.drop_last() =~= old(self).instructions@);
                }
                Ok(())
            },
            Err(e) => Err(e),
        }
    }
}

impl LlmRuntime {
    /// Read access to the state.
    pub fn state(&self) -> (r: &State<String>)
        ensures
            *r == self.current_state(),
    {
        &self.state
    }

    /// A runtime with an empty state and nothing queued.
    pub fn new() -> (r: LlmRuntime)
        ensures
            r.queued() == Seq::<LlmInstruction>::empty(),
            r.current_state().storage@ == Map::<Seq<u8>, String>::empty(),
            r.current_state().id@ == Seq::new(32, |i: int| 0u8),
            r.current_state().sub_states@.len() == 0,
    {
        LlmRuntime { instructions: Vec::new(), state: State::new() }
    }

    /// Stores a serialized configuration under its own identity, replacing
    /// any earlier value there.
    pub fn inject_system_config(&mut self, config_id: CryptoHash, serialized: String)
        ensures
            final(self).current_state().storage@ == old(self).current_state().storage@.insert(config_id@, serialized),
            final(self).current_state().id == old(self).current_state().id,
            final(self).current_state().sub_states == old(self).current_state().sub_states,
            final(self).queued() == old(self).queued(),
    {
        self.state.storage.insert(config_id, serialized);
    }

    /// Number of queued instructions.
    pub fn pending_count(&self) -> (r: usize)
        ensures
            r == self.queued().len(),
    {
        self.instructions.len()
    }

    /// The instruction that runs next, if any.
    pub fn next_instruction(&self) -> (r: Option<&LlmInstruction>)
        ensures
            self.queued().len() == 0 ==> r is None,
            self.queued().len() > 0 ==> r == Some(&self.queued()[0]),
    {
        if self.instructions.len() == 0 {
            None
        } else {
            Some(&self.instructions[0])
        }
    }

    /// The stored configuration that `ix` refers to, read from the current
    /// state; fails with `StateLookup` when it is absent.
    pub fn config_text(&self, ix: &LlmInstruction) -> (r: Result<String, ErrorKind>)
        ensures
            self.current_state().storage@.contains_key(ix.system_config_hash@) ==> r == Ok::<String, ErrorKind>(
                self.current_state().storage@[ix.system_config_hash@],
            ),
            !self.current_state().storage@.contains_key(ix.system_config_hash@) ==> r == Err::<String, ErrorKind>(
                ErrorKind::StateLookup,
            ),
    {
        match self.state.storage.get(&ix.system_config_hash) {
            Some(t) => Ok(t.clone()),
            None => Err(ErrorKind::StateLookup),
        }
    }

    /// Finishes the oldest queued instruction with the outcome of its service
    /// call. It leaves the queue either way. On a usable reply the turn is
    /// recorded under the instruction's index; on a failure the state is left
    /// as it was and the error is returned.
    pub fn complete_one(&mut self, outcome: Result<ServiceReply, ErrorKind>) -> (r: Result<Completion, ErrorKind>)
        requires
            old(self).queued().len() > 0,
        ensures
            final(self).queued() == old(self).queued().drop_first(),
            final(self).current_state().id == old(self).current_state().id,
            final(self).current_state().sub_states == old(self).current_state().sub_states,
            match outcome {
                Err(e) => r == Err::<Completion, ErrorKind>(e) && final(self).current_state().storage@ == old(self).current_state().storage@,
                Ok(reply) => if reply_fails(reply) {
                    r == Err::<Completion, ErrorKind>(ErrorKind::ExternalService)
                        && final(self).current_state().storage@ == old(self).current_state().storage@
                } else {
                    r matches Ok(c) && c.text@ == reply_text(reply.choices@[0].content)
                        && c.tool_calls == reply.choices@[0].tool_calls
                        && Some(c.usage) == reply.usage
                        && final(self).current_state().storage@ == old(self).current_state().storage@.union_prefer_right(
                        turn_entries(
                            old(self).queued()[0].new_message_index as nat,
                            old(self).queued()[0].new_message,
                            c.text,
                        ),
                    )
                },
            },
    {
        let ix = self.instructions.remove(0);
        proof {
            assert(self.instructions@ =~= old(self).instructions@.drop_first());
        }
        let reply = match outcome {
            Ok(reply) => reply,
            Err(e) => {
                return Err(e);
            },
        };
        let completion = match read_reply(reply) {
            Ok(c) => c,
            Err(e) => {
                return Err(e);
            },
        };
        let state_diff = state_diff_from_response(
            ix.new_message_index,
            ix.new_message,
            completion.text.clone(),
        );
        let ghost s0 = self.state.storage@;
        state_diff.apply(&mut self.state);
        proof {
            assert(self.state.storage@ =~= s0.union_prefer_right(
                turn_entries(ix.new_message_index as nat, ix.new_message, completion.text),
            ));
        }
        Ok(completion)
    }
}

} // verus!

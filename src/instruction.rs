use vstd::prelude::*;

use crate::error::ErrorKind;
use crate::hash::{blake3_of, CryptoHash};
use crate::key::{key_text, namespaced_key};
use crate::state::State;

verus! {

/// A request to transform state. It is built from raw input and the identity
/// of the configuration that governs it, then prepared against a state
/// snapshot before it runs.
pub trait Instruction<T>: Sized {
    /// Name of the instruction kind.
    const INSTRUCTION_NAME: &'static str;

    /// Whether failures of this kind are expected and may be retried or skipped.
    const FALLIBLE: bool;

    type Error;

    /// The raw input the instruction carries.
    spec fn input(&self) -> T;

    /// Identity of the configuration it refers to.
    spec fn config_key(&self) -> Seq<u8>;

    /// `self` is `before` once prepared against `storage`.
    spec fn prepared(&self, before: Self, storage: Map<Seq<u8>, T>) -> bool;

    /// `self` has not been prepared: it holds no history yet.
    spec fn unprepared(&self) -> bool;

    /// The error `prepare` gives when the configuration is absent.
    spec fn lookup_error() -> Self::Error;

    /// An unprepared instruction; touches no state.
    fn parse_from(value: T, system_config_hash: CryptoHash) -> (r: Self)
        ensures
            r.input() == value,
            r.config_key() == system_config_hash@,
            r.unprepared(),
    ;

    /// The raw input back.
    fn parse_into(&self) -> (r: T)
        ensures
            r == self.input(),
    ;

    /// Hydrates the instruction from `state`; fails, changing nothing, when the
    /// configuration it refers to is absent.
    fn prepare(&mut self, state: &State<T>) -> (r: Result<(), Self::Error>)
        ensures
            r is Ok <==> state.storage@.contains_key(old(self).config_key()),
            r is Ok ==> final(self).prepared(*old(self), state.storage@),
            r is Err ==> *final(self) == *old(self) && r == Err::<(), Self::Error>(Self::lookup_error()),
    ;
}

/// Storage key of the request of turn `i`.
pub open spec fn user_key(i: nat) -> Seq<u8> {
    blake3_of(key_text("user_message"@, i))
}

/// Storage key of the response of turn `i`.
pub open spec fn assistant_key(i: nat) -> Seq<u8> {
    blake3_of(key_text("assistant_message"@, i))
}

/// Storage key of the side artifact (a tool call) of turn `i`.
pub open spec fn tool_key(i: nat) -> Seq<u8> {
    blake3_of(key_text("tool_call"@, i))
}

/// Turn `i` has both its request and its response stored.
pub open spec fn turn_present(st: Map<Seq<u8>, String>, i: nat) -> bool {
    st.contains_key(user_key(i)) && st.contains_key(assistant_key(i))
}

/// The scan from index 0 ends at `n`: every earlier turn is present, and turn
/// `n` is missing (or `n` is the largest index a `usize` holds).
pub open spec fn scan_ends_at(st: Map<Seq<u8>, String>, n: nat) -> bool {
    &&& n <= usize::MAX
    &&& forall|i: nat| i < n ==> #[trigger] turn_present(st, i)
    &&& (!turn_present(st, n) || n == usize::MAX)
}

/// One recorded turn: request, response, and the side artifact if stored.
pub open spec fn turn_of(st: Map<Seq<u8>, String>, i: nat) -> (String, String, Option<String>) {
    (
        st[user_key(i)],
        st[assistant_key(i)],
        if st.contains_key(tool_key(i)) {
            Some(st[tool_key(i)])
        } else {
            None
        },
    )
}

/// The first `n` turns, in index order.
pub open spec fn history(st: Map<Seq<u8>, String>, n: nat) -> Seq<(String, String, Option<String>)> {
    Seq::new(n, |i: int| turn_of(st, i as nat))
}

/// Where turns `0..n` are stored and turn `n` is not, the scan ends at `n`,
/// and the history it gathers depends on those turns alone.
pub proof fn lemma_contiguous_history(st: Map<Seq<u8>, String>, n: nat, m: nat, other: Map<Seq<u8>, String>)
    requires
        n < usize::MAX,
        forall|i: nat| i < n ==> #[trigger] turn_present(st, i),
        !turn_present(st, n),
        scan_ends_at(st, m),
        forall|i: nat| i <= n ==> #[trigger] turn_present(other, i) == turn_present(st, i),
        forall|i: nat| i < n ==> #[trigger] turn_of(other, i) == turn_of(st, i),
    ensures
        m == n,
        history(st, m).len() == n,
        scan_ends_at(other, n),
        history(other, n) == history(st, m),
{
    if m < n {
        assert(turn_present(st, m));
    }
    if m > n {
        assert(turn_present(st, n));
    }
    assert(history(other, n) =~= history(st, m));
}

/// The scan of a storage ends at one index only.
pub proof fn lemma_scan_end_unique(st: Map<Seq<u8>, String>, m: nat, n: nat)
    requires
        scan_ends_at(st, m),
        scan_ends_at(st, n),
    ensures
        m == n,
{
    if m < n {
        assert(turn_present(st, m));
    }
    if n < m {
        assert(turn_present(st, n));
    }
}

/// Instructions prepared against the same storage get the same history and
/// the same next index: one prepared while another waits unexecuted does not
/// see that other's turn.
pub proof fn lemma_prepared_together(
    storage: Map<Seq<u8>, String>,
    a: LlmInstruction,
    pa: LlmInstruction,
    b: LlmInstruction,
    pb: LlmInstruction,
)
    requires
        pa.prepared(a, storage),
        pb.prepared(b, storage),
    ensures
        pb.new_message_index == pa.new_message_index,
        pb.memory@ == pa.memory@,
{
    lemma_scan_end_unique(storage, pa.new_message_index as nat, pb.new_message_index as nat);
}

/// A conversational turn request for a text-completion service.
#[derive(Debug, Clone)]
pub struct LlmInstruction {
    pub system_config_hash: CryptoHash,
    /// Earlier turns: request, response, and tool call if any.
    pub memory: Vec<(String, String, Option<String>)>,
    pub new_message: String,
    /// The turn index the response to `new_message` will occupy.
    pub new_message_index: usize,
}

fn clone_optional(v: Option<&String>) -> (r: Option<String>)
    ensures
        match v {
            Some(s) => r == Some(*s),
            None => r is None,
        },
{
    match v {
        Some(s) => Some(s.clone()),
        None => None,
    }
}

impl Instruction<String> for LlmInstruction {
    const INSTRUCTION_NAME: &'static str = "llm_instruction";

    const FALLIBLE: bool = false;

    type Error = ErrorKind;

    open spec fn input(&self) -> String {
        self.new_message
    }

    open spec fn config_key(&self) -> Seq<u8> {
        self.system_config_hash@
    }

    open spec fn prepared(&self, before: Self, storage: Map<Seq<u8>, String>) -> bool {
        &&& self.system_config_hash == before.system_config_hash
        &&& self.new_message == before.new_message
        &&& scan_ends_at(storage, self.new_message_index as nat)
        &&& self.memory@ == history(storage, self.new_message_index as nat)
    }

    open spec fn unprepared(&self) -> bool {
        self.memory@.len() == 0 && self.new_message_index == 0
    }

    open spec fn lookup_error() -> ErrorKind {
        ErrorKind::StateLookup
    }

    fn parse_from(value: String, system_config_hash: CryptoHash) -> (r: LlmInstruction) {
        LlmInstruction { system_config_hash, memory: Vec::new(), new_message: value, new_message_index: 0 }
    }

    fn parse_into(&self) -> (r: String) {
        self.new_message.clone()
    }

    fn prepare(&mut self, state: &State<String>) -> (r: Result<(), ErrorKind>) {
        if !state.storage.contains_key(&self.system_config_hash) {
            return Err(ErrorKind::StateLookup);
        }
        let ghost st = state.storage@;
        let mut memory: Vec<(String, String, Option<String>)> = Vec::new();
        let mut index: usize = 0;
        loop
            invariant
                forall|i: nat| i < index ==> #[trigger] turn_present(st, i),
                memory@ == history(st, index as nat),
                st == state.storage@,
            ensures
                scan_ends_at(st, index as nat),
                memory@ == history(st, index as nat),
            decreases usize::MAX - index,
        {
            if index == usize::MAX {
                break ;
            }
            let user_message_key = namespaced_key("user_message", index);
            let assistant_message_key = namespaced_key("assistant_message", index);
            let toolcall_message_key = namespaced_key("tool_call", index);
            let user_message = state.storage.get(&user_message_key);
            let assistant_message = state.storage.get(&assistant_message_key);
            match (user_message, assistant_message) {
                (Some(u), Some(a)) => {
                    let tool_call = clone_optional(state.storage.get(&toolcall_message_key));
                    memory.push((u.clone(), a.clone(), tool_call));
                    proof {
                        assert(memory@ =~= history(st, (index + 1) as nat));
                    }
                    index = index + 1;
                },
                _ => {
                    break ;
                },
            }
        }
        self.memory = memory;
        self.new_message_index = index;
        Ok(())
    }
}

} // verus!

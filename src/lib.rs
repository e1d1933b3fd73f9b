//! Content-addressed state engine: hash identities, a key-value state with
//! atomic diffs, and the instruction runtime that sequences turns against it.
pub mod config;
pub mod crypto;
pub mod error;
pub mod hash;
pub mod instruction;
pub mod key;
pub mod runtime;
pub mod state;
pub mod store;

pub use config::RuntimeSystemConfig;
pub use crypto::{decrypt, encrypt, encrypt_with_nonce};
pub use error::ErrorKind;
pub use hash::{blake3_hash, CryptoHash};
pub use instruction::{Instruction, LlmInstruction};
pub use key::{name_key, namespaced_key};
pub use runtime::{
    prepare_messages, read_reply, state_diff_from_response, ChatMessage, ChatRole, Completion,
    LlmRuntime, ReplyChoice, Runtime, ServiceReply, ToolCall, Usage,
};
pub use state::{State, StateDiff};
pub use store::Store;

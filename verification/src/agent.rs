//! Decisions of the agent-protocol server: session numbering, the text taken
//! from a prompt, and the fixed parts of its answers.

use vstd::prelude::*;
use crate::text::{decimal, push_decimal, string_of};

verus! {

/// The kinds of content a prompt can open with; only text carries its words.
#[derive(Debug)]
pub enum PromptBlock {
    Text(String),
    Image,
    Audio,
    ResourceLink,
    Resource,
}

/// What the agent forwards for a prompt's first block.
pub open spec fn block_text(b: PromptBlock) -> Seq<char> {
    match b {
        PromptBlock::Text(t) => t@,
        PromptBlock::Image => "image"@,
        PromptBlock::Audio => "audio"@,
        PromptBlock::ResourceLink => "resource link"@,
        PromptBlock::Resource => "embedded resource"@,
    }
}

/// The text the agent forwards for a prompt: that of its first block; `None`
/// for an empty prompt, which the agent answers with an internal error.
pub fn prompt_content(prompt: &Vec<PromptBlock>) -> (r: Option<String>)
    ensures
        r is None <==> prompt@.len() == 0,
        r matches Some(t) ==> t@ == block_text(prompt@[0]),
{
    if prompt.len() == 0 {
        return None;
    }
    let text = match &prompt[0] {
        PromptBlock::Text(t) => t.clone(),
        PromptBlock::Image => "image".to_string(),
        PromptBlock::Audio => "audio".to_string(),
        PromptBlock::ResourceLink => "resource link".to_string(),
        PromptBlock::Resource => "embedded resource".to_string(),
    };
    Some(text)
}

/// Sessions with different numbers get different ids; as the counter only
/// moves on, no id is handed out twice.
pub proof fn law_session_ids_distinct(a: nat, b: nat)
    requires
        a != b,
    ensures
        decimal(a) != decimal(b),
{
    if decimal(a) == decimal(b) {
        crate::text::law_decimal_injective(a, b);
    }
}

/// Hands out session ids 0, 1, 2, ... in order.
pub struct SessionCounter {
    next_session_id: u64,
}

impl SessionCounter {
    /// The id the next session gets.
    pub closed spec fn next_id(&self) -> nat {
        self.next_session_id as nat
    }

    /// A counter that starts at 0.
    pub fn new() -> (c: Self)
        ensures
            c.next_id() == 0,
    {
        SessionCounter { next_session_id: 0 }
    }

    /// The id of a new session, in decimal, and the counter moved on by one.
    pub fn new_session(&mut self) -> (id: String)
        requires
            old(self).next_id() < u64::MAX,
        ensures
            id@ == decimal(old(self).next_id()),
            final(self).next_id() == old(self).next_id() + 1,
    {
        let session_id: u64 = self.next_session_id;
        self.next_session_id = session_id + 1;
        let mut digits: Vec<char> = Vec::new();
        push_decimal(&mut digits, session_id);
        string_of(digits.as_slice())
    }
}

/// The chunks the agent streams back for a prompt: a fixed lead, then the answer.
pub fn reply_chunks(answer: String) -> (chunks: Vec<String>)
    ensures
        chunks@.len() == 2,
        chunks@[0]@ == "Client sent: "@,
        chunks@[1]@ == answer@,
{
    let mut chunks: Vec<String> = Vec::new();
    chunks.push("Client sent: ".to_string());
    chunks.push(answer);
    chunks
}

/// The ways to authenticate that the agent offers: (id, display name).
pub fn auth_methods() -> (methods: Vec<(&'static str, &'static str)>)
    ensures
        methods@.len() == 2,
        methods@[0].0@ == "BuilderId"@ && methods@[0].1@ == "Builder ID"@,
        methods@[1].0@ == "IdentityCenter"@ && methods@[1].1@ == "Identity Center"@,
{
    vec![("BuilderId", "Builder ID"), ("IdentityCenter", "Identity Center")]
}

/// What the agent says it can do.
#[derive(Clone, Copy, Debug, PartialEq, Eq, Structural)]
pub struct AgentCapabilityFlags {
    pub load_session: bool,
    pub image: bool,
    pub audio: bool,
    pub embedded_context: bool,
}

/// The agent's capabilities: sessions can be loaded, and prompts may hold images
/// but neither audio nor embedded context.
pub fn agent_capabilities() -> (flags: AgentCapabilityFlags)
    ensures
        flags == (AgentCapabilityFlags { load_session: true, image: true, audio: false, embedded_context: false }),
{
    AgentCapabilityFlags { load_session: true, image: true, audio: false, embedded_context: false }
}

} // verus!

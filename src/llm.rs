use vstd::prelude::*;

verus! {

/// Who speaks in a conversation turn.
#[derive(Debug, Clone, Copy, PartialEq, Eq, Structural)]
pub enum Role {
    System,
    User,
    Assistant,
}

pub open spec fn role_name(r: Role) -> Seq<char> {
    match r {
        Role::System => seq!['s', 'y', 's', 't', 'e', 'm'],
        Role::User => seq!['u', 's', 'e', 'r'],
        Role::Assistant => seq!['a', 's', 's', 'i', 's', 't', 'a', 'n', 't'],
    }
}

impl Role {
    /// The name of the role on the wire.
    pub fn as_str(&self) -> (r: &'static str)
        ensures
            r@ == role_name(*self),
    {
        match self {
            Role::System => {
                proof {
                    reveal_strlit("system");
                }
                "system"
            },
            Role::User => {
                proof {
                    reveal_strlit("user");
                }
                "user"
            },
            Role::Assistant => {
                proof {
                    reveal_strlit("assistant");
                }
                "assistant"
            },
        }
    }

    /// The role name as an owned string.
    pub fn to_string(&self) -> (r: String)
        ensures
            r@ == role_name(*self),
    {
        String::from_str(self.as_str())
    }
}

impl Default for Role {
    fn default() -> (r: Self)
        ensures
            r == Role::Assistant,
    {
        Role::Assistant
    }
}

/// One turn of the conversation handed to the language model.
#[derive(Debug, Clone)]
pub struct Content {
    pub role: Role,
    pub message: String,
}

impl Content {
    pub fn new(role: Role, message: String) -> (r: Self)
        ensures
            r.role == role,
            r.message == message,
    {
        Content { role, message }
    }

    /// A copy of this turn.
    pub fn duplicate(&self) -> (r: Self)
        ensures
            r.role == self.role,
            r.message@ == self.message@,
    {
        Content { role: self.role, message: self.message.clone() }
    }
}

/// The body of a streaming chat-completion request.
#[derive(Debug, Clone)]
pub struct StableLlmRequest {
    pub stream: bool,
    pub chat_id: String,
    pub messages: Vec<Content>,
}

impl StableLlmRequest {
    /// A streaming request; an absent chat id is sent as the empty string.
    pub fn new(chat_id: Option<String>, messages: Vec<Content>) -> (r: Self)
        ensures
            r.stream,
            chat_id matches Some(c) ==> r.chat_id@ == c@,
            chat_id is None ==> r.chat_id@ == Seq::<char>::empty(),
            r.messages@ == messages@,
    {
        let chat_id = match chat_id {
            Some(c) => c,
            None => String::new(),
        };
        StableLlmRequest { stream: true, chat_id, messages }
    }
}

/// The body of a request to the hosted speech synthesis service.
#[derive(Debug)]
pub struct FishTTSRequest {
    pub text: String,
    pub chunk_length: usize,
    pub format: String,
    pub mp3_bitrate: usize,
    pub reference_id: String,
    pub normalize: bool,
    pub latency: String,
}

impl FishTTSRequest {
    pub fn new(speaker: String, text: String, format: String) -> (r: Self)
        ensures
            r.text@ == text@,
            r.chunk_length == 200,
            r.format@ == format@,
            r.mp3_bitrate == 128,
            r.reference_id@ == speaker@,
            r.normalize,
            r.latency@ == seq!['n', 'o', 'r', 'm', 'a', 'l'],
    {
        proof {
            reveal_strlit("normal");
        }
        FishTTSRequest {
            text,
            chunk_length: 200,
            format,
            mp3_bitrate: 128,
            reference_id: speaker,
            normalize: true,
            latency: String::from_str("normal"),
        }
    }
}

} // verus!

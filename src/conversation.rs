use std::collections::VecDeque;
use std::sync::Arc;
use vstd::prelude::*;
use crate::aggregator::CommentPair;
use crate::config::TTSConfig;
use crate::llm::{Content, Role};
use crate::podcast::SendMsgRequest;

verus! {

/// The line that opens every batch of comments handed to the model.
pub open spec fn banner() -> Seq<char> {
    seq!['以', '下', '是', '用', '户', '的', '评', '论', '：', '\n']
}

/// One comment as the model sees it: `user: content` and a newline.
pub open spec fn comment_line(user: Seq<char>, content: Seq<char>) -> Seq<char> {
    user + seq![':', ' '] + content + seq!['\n']
}

pub open spec fn comment_lines(cs: Seq<CommentPair>) -> Seq<char>
    decreases cs.len(),
{
    if cs.len() == 0 {
        Seq::empty()
    } else {
        comment_lines(cs.drop_last()) + comment_line(cs.last().0@, cs.last().1@)
    }
}

/// The text of the user turn made of a batch of comments.
pub fn parse_comments(comments: VecDeque<CommentPair>) -> (r: String)
    ensures
        r@ == banner() + comment_lines(comments@),
{
    proof {
        reveal_strlit("以下是用户的评论：\n");
        reveal_strlit(": ");
        reveal_strlit("\n");
    }
    let mut text = String::from_str("以下是用户的评论：\n");
    let n = comments.len();
    let mut i: usize = 0;
    while i < n
        invariant
            n == comments@.len(),
            i <= n,
            text@ == banner() + comment_lines(comments@.subrange(0, i as int)),
        decreases n - i,
    {
        let (user, content) = &comments[i];
        text.append(user.as_str());
        text.append(": ");
        text.append(content.as_str());
        text.append("\n");
        proof {
            reveal_strlit(": ");
            reveal_strlit("\n");
            let pre = comments@.subrange(0, i + 1);
            assert(pre.drop_last() =~= comments@.subrange(0, i as int));
            assert(pre.last() == comments@[i as int]);
            assert(comment_lines(pre) == comment_lines(pre.drop_last()) + comment_line(
                comments@[i as int].0@,
                comments@[i as int].1@,
            ));
            assert(text@ =~= banner() + comment_lines(pre));
        }
        i = i + 1;
    }
    assert(comments@.subrange(0, n as int) =~= comments@);
    text
}

/// `w` after `t` is appended under a limit of `limit` pairs: once over
/// `2 * limit` turns, the oldest two go.
pub open spec fn push_window<T>(w: Seq<T>, t: T, limit: nat) -> Seq<T> {
    let w2 = w.push(t);
    if w2.len() > 2 * limit {
        if w2.len() >= 2 {
            w2.subrange(2, w2.len() as int)
        } else {
            Seq::empty()
        }
    } else {
        w2
    }
}

/// The window after `turns` are appended one by one to an empty one.
pub open spec fn window_after<T>(turns: Seq<T>, limit: nat) -> Seq<T>
    decreases turns.len(),
{
    if turns.len() == 0 {
        Seq::empty()
    } else {
        push_window(window_after(turns.drop_last(), limit), turns.last(), limit)
    }
}

/// After `N` turns under a limit of `H`, the window holds the last turns,
/// starting from a turn at an even position, so that of alternating
/// user/assistant turns it starts with a user turn. It holds all `N` while
/// `N <= 2H`; beyond that, `2H` turns when `N` is even and `2H - 1` when it
/// is odd (none at all when `H` is zero).
pub proof fn lemma_window_alternating<T>(turns: Seq<T>, limit: nat)
    ensures
        ({
            let w = window_after(turns, limit);
            let n = turns.len();
            &&& w.len() <= n
            &&& w == turns.subrange(n - w.len(), n as int)
            &&& w.len() > 0 ==> (n - w.len()) % 2 == 0
            &&& w.len() <= 2 * limit
            &&& n <= 2 * limit ==> w.len() == n
            &&& n > 2 * limit && limit > 0 && n % 2 == 0 ==> w.len() == 2 * limit
            &&& n > 2 * limit && limit > 0 && n % 2 == 1 ==> w.len() == 2 * limit - 1
            &&& limit == 0 ==> w.len() == 0
        }),
    decreases turns.len(),
{
    if turns.len() > 0 {
        let prev = turns.drop_last();
        lemma_window_alternating(prev, limit);
        let w0 = window_after(prev, limit);
        let n = turns.len();
        let w2 = w0.push(turns.last());
        assert(w2 =~= turns.subrange(n - w2.len(), n as int));
        if w2.len() > 2 * limit && w2.len() >= 2 {
            assert(w2.subrange(2, w2.len() as int) =~= turns.subrange(n - w2.len() + 2, n as int));
        }
    }
}

/// The prompt history: fixed system turns, then a sliding window of
/// user/assistant turns holding at most `history` pairs.
pub struct Conversation {
    pub sys_prompts: Vec<Content>,
    pub dynamic_prompts: VecDeque<Content>,
    pub history: usize,
}

pub open spec fn content_view(c: Content) -> (Role, Seq<char>) {
    (c.role, c.message@)
}

pub open spec fn contents_view(cs: Seq<Content>) -> Seq<(Role, Seq<char>)> {
    cs.map_values(|c: Content| content_view(c))
}

pub proof fn lemma_view_push_window(w: Seq<Content>, t: Content, limit: nat)
    ensures
        contents_view(push_window(w, t, limit)) == push_window(
            contents_view(w),
            content_view(t),
            limit,
        ),
{
    let w2 = w.push(t);
    assert(contents_view(w2) =~= contents_view(w).push(content_view(t)));
    if w2.len() > 2 * limit && w2.len() >= 2 {
        assert(contents_view(w2.subrange(2, w2.len() as int)) =~= contents_view(w2).subrange(
            2,
            w2.len() as int,
        ));
    } else if w2.len() > 2 * limit {
        assert(contents_view(Seq::<Content>::empty()) =~= Seq::<(Role, Seq<char>)>::empty());
    }
}

impl Conversation {
    pub fn new(sys_prompts: Vec<Content>, dynamic_prompts: VecDeque<Content>, history: usize) -> (r: Self)
        ensures
            r.sys_prompts@ == sys_prompts@,
            r.dynamic_prompts@ == dynamic_prompts@,
            r.history == history,
    {
        Conversation { sys_prompts, dynamic_prompts, history }
    }

    /// Appends a turn to the window and evicts the oldest pair if it is then
    /// over `2 * history` turns.
    pub fn push_turn(&mut self, turn: Content)
        ensures
            final(self).sys_prompts@ == old(self).sys_prompts@,
            final(self).history == old(self).history,
            final(self).dynamic_prompts@ == push_window(
                old(self).dynamic_prompts@,
                turn,
                old(self).history as nat,
            ),
            old(self).dynamic_prompts@.len() <= 2 * old(self).history
                ==> final(self).dynamic_prompts@.len() <= 2 * old(self).history,
    {
        self.dynamic_prompts.push_back(turn);
        let len = self.dynamic_prompts.len();
        if self.history <= usize::MAX / 2 && len > self.history * 2 {
            self.dynamic_prompts.pop_front();
            self.dynamic_prompts.pop_front();
        }
        proof {
            let w2 = old(self).dynamic_prompts@.push(turn);
            if w2.len() > 2 * self.history && w2.len() >= 2 {
                assert(self.dynamic_prompts@ =~= w2.subrange(2, w2.len() as int));
            } else if w2.len() > 2 * self.history {
                assert(self.dynamic_prompts@ =~= Seq::<Content>::empty());
            }
        }
    }

    /// The whole prompt: the system turns, then the window, in order.
    pub fn prompts(&self) -> (r: Vec<Content>)
        ensures
            contents_view(r@) == contents_view(self.sys_prompts@) + contents_view(
                self.dynamic_prompts@,
            ),
    {
        let mut r: Vec<Content> = Vec::new();
        let mut i: usize = 0;
        while i < self.sys_prompts.len()
            invariant
                i <= self.sys_prompts@.len(),
                r@.len() == i,
                forall|k: int| 0 <= k < i ==> content_view(#[trigger] r@[k]) == content_view(self.sys_prompts@[k]),
            decreases self.sys_prompts@.len() - i,
        {
            r.push(self.sys_prompts[i].duplicate());
            i = i + 1;
        }
        let mut j: usize = 0;
        while j < self.dynamic_prompts.len()
            invariant
                i == self.sys_prompts@.len(),
                j <= self.dynamic_prompts@.len(),
                r@.len() == i + j,
                forall|k: int| 0 <= k < i ==> content_view(#[trigger] r@[k]) == content_view(self.sys_prompts@[k]),
                forall|k: int| 0 <= k < j ==> content_view(#[trigger] r@[i + k]) == content_view(self.dynamic_prompts@[k]),
            decreases self.dynamic_prompts@.len() - j,
        {
            r.push(self.dynamic_prompts[j].duplicate());
            proof {
                assert(content_view(r@[i + j as int]) == content_view(self.dynamic_prompts@[j as int]));
            }
            j = j + 1;
        }
        proof {
            let sv = contents_view(self.sys_prompts@);
            let dv = contents_view(self.dynamic_prompts@);
            assert forall|k: int| 0 <= k < r@.len() implies #[trigger] contents_view(r@)[k] == (sv + dv)[k] by {
                if k >= i {
                    assert(content_view(r@[i + (k - i)]) == content_view(self.dynamic_prompts@[k - i]));
                }
            }
            assert(contents_view(r@) =~= sv + dv);
        }
        r
    }

    /// A batch of comments becomes one user turn; returns the prompt to send.
    pub fn add_comments(&mut self, comments: VecDeque<CommentPair>) -> (r: Vec<Content>)
        ensures
            final(self).sys_prompts@ == old(self).sys_prompts@,
            final(self).history == old(self).history,
            contents_view(final(self).dynamic_prompts@) == push_window(
                contents_view(old(self).dynamic_prompts@),
                (Role::User, banner() + comment_lines(comments@)),
                old(self).history as nat,
            ),
            contents_view(r@) == contents_view(final(self).sys_prompts@) + contents_view(
                final(self).dynamic_prompts@,
            ),
    {
        let message = parse_comments(comments);
        let turn = Content::new(Role::User, message);
        let ghost w = self.dynamic_prompts@;
        self.push_turn(turn);
        proof {
            lemma_view_push_window(w, turn, self.history as nat);
        }
        self.prompts()
    }

    /// The model's full reply, once it has finished, becomes an assistant turn.
    pub fn add_reply(&mut self, reply: String)
        ensures
            final(self).sys_prompts@ == old(self).sys_prompts@,
            final(self).history == old(self).history,
            final(self).dynamic_prompts@ == push_window(
                old(self).dynamic_prompts@,
                Content { role: Role::Assistant, message: reply },
                old(self).history as nat,
            ),
    {
        self.push_turn(Content::new(Role::Assistant, reply));
    }
}

/// The authorization header value for an optional API key.
pub fn bearer_token(api_key: &Option<String>) -> (r: String)
    ensures
        api_key matches Some(k) ==> r@ == seq!['B', 'e', 'a', 'r', 'e', 'r', ' '] + k@,
        api_key is None ==> r@ == Seq::<char>::empty(),
{
    match api_key {
        Some(k) => {
            proof {
                reveal_strlit("Bearer ");
            }
            let mut t = String::from_str("Bearer ");
            t.append(k.as_str());
            t
        },
        None => String::new(),
    }
}

/// Where closed episodes and single segments are delivered.
#[derive(Debug, Clone)]
pub struct Downstream {
    pub update_title_url: String,
    pub segment_url: String,
}

/// Voices the model's reply chunk by chunk.
pub struct LlmAgent {
    pub downstream: Arc<Downstream>,
    pub tts_config: TTSConfig,
}

impl LlmAgent {
    /// The segment sent for one chunk of the reply: the configured speaker,
    /// the chunk as text, no motion, and the audio if synthesis succeeded.
    pub fn chunk_segment(&self, chunk: String, audio: Option<Vec<u8>>) -> (r: SendMsgRequest)
        ensures
            r.vtb_name@ == self.tts_config.spec_vtb_name(),
            r.text matches Some(t) && t@ == chunk@,
            r.motion is None,
            r.voice == audio,
    {
        SendMsgRequest { vtb_name: self.tts_config.vtb_name(), text: Some(chunk), motion: None, voice: audio }
    }
}

} // verus!

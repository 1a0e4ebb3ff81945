use vstd::prelude::*;
use vstd::utf8::encode_utf8;

verus! {

/// Whether a chunk may end after `c`.
pub fn is_boundary_char(c: char) -> (r: bool)
    ensures
        r == is_boundary(c),
{
    c == '.' || c == '!' || c == '?' || c == ';' || c == '\u{3002}' || c == '\u{FF01}' || c
        == '\u{FF1F}' || c == '\u{FF1B}' || c == '\n'
}

/// Byte length beyond which a boundary-terminated buffer is flushed.
pub const CHUNK_SIZE: usize = 50;

/// The sentence terminators, ASCII and full-width, after which a chunk may end.
pub open spec fn is_boundary(c: char) -> bool {
    c == '.' || c == '!' || c == '?' || c == ';' || c == '\u{3002}' || c == '\u{FF01}'
        || c == '\u{FF1F}' || c == '\u{FF1B}' || c == '\n'
}

/// Length of the UTF-8 encoding of `s`.
pub open spec fn byte_len(s: Seq<char>) -> nat {
    encode_utf8(s).len()
}

/// A buffer that ends at a boundary is emitted once it is longer than
/// `CHUNK_SIZE` bytes or ends with a newline.
pub open spec fn flushes(p: Seq<char>) -> bool {
    byte_len(p) > CHUNK_SIZE || (p.len() > 0 && p.last() == '\n')
}

/// Feeding `s` to a chunker whose pending buffer is `pending`: the new
/// pending buffer and the chunk emitted, if any.
pub open spec fn feed(pending: Seq<char>, s: Seq<char>) -> (Seq<char>, Option<Seq<char>>)
    decreases s.len(),
{
    if s.len() == 0 {
        (pending, None)
    } else {
        let grown = pending.push(s[0]);
        let rest = s.drop_first();
        if is_boundary(s[0]) && flushes(grown) {
            (rest, Some(grown))
        } else {
            feed(grown, rest)
        }
    }
}

/// What `feed` emits, as a (possibly empty) text.
pub open spec fn emitted(r: (Seq<char>, Option<Seq<char>>)) -> Seq<char> {
    match r.1 {
        Some(c) => c,
        None => Seq::empty(),
    }
}

pub proof fn lemma_encode_concat(a: Seq<char>, b: Seq<char>)
    ensures
        encode_utf8(a + b) == encode_utf8(a) + encode_utf8(b),
    decreases a.len(),
{
    if a.len() == 0 {
        assert(a + b =~= b);
        assert(encode_utf8(a) =~= Seq::<u8>::empty());
        assert(encode_utf8(a) + encode_utf8(b) =~= encode_utf8(b));
    } else {
        lemma_encode_concat(a.drop_first(), b);
        assert((a + b).drop_first() =~= a.drop_first() + b);
        assert(encode_utf8(a + b) =~= encode_utf8(a) + encode_utf8(b));
    }
}

/// Whatever `feed` emits, followed by the new pending buffer, is the old
/// pending buffer followed by the fragment; an emitted chunk is never short
/// unless it ends with a newline.
pub proof fn lemma_feed(pending: Seq<char>, s: Seq<char>)
    ensures
        emitted(feed(pending, s)) + feed(pending, s).0 == pending + s,
        feed(pending, s).1 matches Some(c) ==> flushes(c),
        feed(pending, s).1 matches Some(c) ==> c.len() > 0 && is_boundary(c.last()),
    decreases s.len(),
{
    if s.len() == 0 {
        assert(pending + s =~= pending);
        assert(Seq::<char>::empty() + pending =~= pending);
    } else {
        let grown = pending.push(s[0]);
        let rest = s.drop_first();
        assert(grown + rest =~= pending + s);
        if is_boundary(s[0]) && flushes(grown) {
        } else {
            lemma_feed(grown, rest);
        }
    }
}

/// All texts of a sequence, one after another.
pub open spec fn concat_all(texts: Seq<Seq<char>>) -> Seq<char>
    decreases texts.len(),
{
    if texts.len() == 0 {
        Seq::empty()
    } else {
        texts[0] + concat_all(texts.drop_first())
    }
}

/// Feeding `frags` one by one to a chunker whose pending buffer is `pending`:
/// the chunks emitted, in order, and the pending buffer left at the end.
pub open spec fn run_chunks(pending: Seq<char>, frags: Seq<Seq<char>>) -> (Seq<Seq<char>>, Seq<char>)
    decreases frags.len(),
{
    if frags.len() == 0 {
        (Seq::empty(), pending)
    } else {
        let r = feed(pending, frags[0]);
        let rest = run_chunks(r.0, frags.drop_first());
        match r.1 {
            Some(c) => (seq![c] + rest.0, rest.1),
            None => (rest.0, rest.1),
        }
    }
}

/// However the reply is cut into fragments, the chunks emitted followed by
/// what is left for the final flush are exactly the fragments put together,
/// and every chunk emitted before the flush is longer than `CHUNK_SIZE`
/// bytes or ends with a newline.
pub proof fn lemma_chunks_reassemble(pending: Seq<char>, frags: Seq<Seq<char>>)
    ensures
        concat_all(run_chunks(pending, frags).0) + run_chunks(pending, frags).1 == pending
            + concat_all(frags),
        forall|k: int|
            0 <= k < run_chunks(pending, frags).0.len() ==> flushes(
                #[trigger] run_chunks(pending, frags).0[k],
            ),
    decreases frags.len(),
{
    if frags.len() == 0 {
        assert(pending + Seq::<char>::empty() =~= pending);
        assert(Seq::<char>::empty() + pending =~= pending);
    } else {
        let r = feed(pending, frags[0]);
        lemma_feed(pending, frags[0]);
        lemma_chunks_reassemble(r.0, frags.drop_first());
        let rest = run_chunks(r.0, frags.drop_first());
        match r.1 {
            Some(c) => {
                let out = seq![c] + rest.0;
                assert(out.drop_first() =~= rest.0);
                assert(concat_all(out) == c + concat_all(rest.0));
                assert(c + concat_all(rest.0) + rest.1 =~= c + (concat_all(rest.0) + rest.1));
                assert(pending + concat_all(frags) =~= (pending + frags[0]) + concat_all(
                    frags.drop_first(),
                ));
                assert forall|k: int| 0 <= k < out.len() implies flushes(#[trigger] out[k]) by {
                    if k > 0 {
                        assert(out[k] == rest.0[k - 1]);
                    }
                }
            },
            None => {
                assert(pending + concat_all(frags) =~= (pending + frags[0]) + concat_all(
                    frags.drop_first(),
                ));
            },
        }
    }
}

/// Splits a streamed reply into speakable chunks as its fragments arrive.
pub struct TextChunker {
    pub stopped: bool,
    pub string_buffer: String,
}

impl TextChunker {
    pub fn new() -> (r: Self)
        ensures
            !r.stopped,
            r.string_buffer@ == Seq::<char>::empty(),
    {
        TextChunker { stopped: false, string_buffer: String::new() }
    }

    pub fn is_stopped(&self) -> (r: bool)
        ensures
            r == self.stopped,
    {
        self.stopped
    }

    /// Takes one fragment of the reply. Scanning it, each piece that ends at
    /// a boundary joins the pending buffer; once the buffer is longer than
    /// `CHUNK_SIZE` bytes or ends with a newline it is returned, and what is
    /// left of the fragment becomes the new buffer. Without that, the whole
    /// fragment joins the buffer and nothing is returned.
    pub fn push_str(&mut self, s: &str) -> (r: Option<String>)
        requires
            byte_len(old(self).string_buffer@) + byte_len(s@) <= usize::MAX,
        ensures
            final(self).stopped == old(self).stopped,
            final(self).string_buffer@ == feed(old(self).string_buffer@, s@).0,
            r matches Some(c) ==> feed(old(self).string_buffer@, s@).1 == Some(c@),
            r is None ==> feed(old(self).string_buffer@, s@).1 is None,
            r matches Some(c) ==> flushes(c@),
            r matches Some(c) ==> c@ + final(self).string_buffer@ == old(self).string_buffer@ + s@,
            r is None ==> final(self).string_buffer@ == old(self).string_buffer@ + s@,
    {
        let ghost initial = self.string_buffer@;
        proof {
            lemma_feed(initial, s@);
        }
        let n = s.unicode_len();
        let mut start: usize = 0;
        let mut i: usize = 0;
        assert(s@.subrange(0, 0) =~= Seq::<char>::empty());
        assert(s@.subrange(0, n as int) =~= s@);
        assert(initial + Seq::<char>::empty() =~= initial);
        while i < n
            invariant
                n == s@.len(),
                initial == old(self).string_buffer@,
                byte_len(initial) + byte_len(s@) <= usize::MAX,
                start <= i <= n,
                self.stopped == old(self).stopped,
                feed(initial, s@) == feed(self.string_buffer@ + s@.subrange(start as int, i as int), s@.subrange(i as int, n as int)),
                self.string_buffer@ == initial + s@.subrange(0, start as int),
            decreases n - i,
        {
            let c = s.get_char(i);
            let ghost cur = self.string_buffer@ + s@.subrange(start as int, i as int);
            let ghost tail = s@.subrange(i as int, n as int);
            assert(tail[0] == c);
            assert(tail.drop_first() =~= s@.subrange(i + 1, n as int));
            assert(cur.push(c) =~= self.string_buffer@ + s@.subrange(start as int, i + 1));
            if is_boundary_char(c) {
                let piece = s.substring_char(start, i + 1);
                self.string_buffer.append(piece);
                proof {
                    assert(self.string_buffer@ =~= initial + s@.subrange(0, i + 1));
                    assert(s@ =~= s@.subrange(0, i + 1) + s@.subrange(i + 1, n as int));
                    lemma_encode_concat(initial, s@.subrange(0, i + 1));
                    lemma_encode_concat(s@.subrange(0, i + 1), s@.subrange(i + 1, n as int));
                }
                assert(self.string_buffer@ =~= cur.push(c));
                assert(byte_len(self.string_buffer@) <= usize::MAX) by {
                    let a = s@.subrange(0, i + 1);
                    let b = s@.subrange(i + 1, n as int);
                    assert(encode_utf8(self.string_buffer@) == encode_utf8(initial) + encode_utf8(a));
                    assert(encode_utf8(s@) == encode_utf8(a) + encode_utf8(b));
                    assert(byte_len(s@) == byte_len(a) + byte_len(b));
                }
                let len = self.string_buffer.as_str().len();
                assert(len == byte_len(cur.push(c)));
                assert(cur.push(c).last() == c);
                assert(feed(cur, tail) == if flushes(cur.push(c)) {
                    (tail.drop_first(), Some(cur.push(c)))
                } else {
                    feed(cur.push(c), tail.drop_first())
                });
                if len > CHUNK_SIZE || c == '\n' {
                    let rest = s.substring_char(i + 1, n);
                    let mut out = String::from_str(rest);
                    std::mem::swap(&mut out, &mut self.string_buffer);
                    return Some(out);
                }
                start = i + 1;
                assert(s@.subrange(start as int, i + 1) =~= Seq::<char>::empty());
                assert(self.string_buffer@ + Seq::<char>::empty() =~= self.string_buffer@);
            } else {
                assert(feed(cur, tail) == feed(cur.push(c), tail.drop_first()));
            }
            i = i + 1;
        }
        let piece = s.substring_char(start, n);
        self.string_buffer.append(piece);
        proof {
            assert(self.string_buffer@ =~= initial + s@);
            assert(s@.subrange(n as int, n as int) =~= Seq::<char>::empty());
        }
        None
    }

    /// The end of the reply: hands out what is pending, if anything, and stops.
    pub fn return_string_buffer(&mut self) -> (r: Option<String>)
        ensures
            final(self).stopped,
            final(self).string_buffer@ == Seq::<char>::empty(),
            old(self).string_buffer@.len() == 0 ==> r is None,
            old(self).string_buffer@.len() > 0 ==> (r matches Some(c) && c@ == old(self).string_buffer@),
    {
        self.stopped = true;
        if !self.string_buffer.as_str().is_empty() {
            let mut new_str = String::new();
            std::mem::swap(&mut new_str, &mut self.string_buffer);
            Some(new_str)
        } else {
            None
        }
    }

    /// One step of the stream: `Some(fragment)` when text arrived, `None` at
    /// the end of input. Once stopped, no further chunk comes out.
    pub fn next_from(&mut self, input: Option<&str>) -> (r: Option<String>)
        requires
            input matches Some(s) ==> byte_len(old(self).string_buffer@) + byte_len(s@)
                <= usize::MAX,
        ensures
            old(self).stopped ==> (r is None && *final(self) == *old(self)),
            !old(self).stopped && input is None ==> {
                &&& final(self).stopped
                &&& final(self).string_buffer@ == Seq::<char>::empty()
                &&& old(self).string_buffer@.len() == 0 ==> r is None
                &&& old(self).string_buffer@.len() > 0 ==> (r matches Some(c) && c@ == old(
                    self,
                ).string_buffer@)
            },
            !old(self).stopped ==> (input matches Some(s) ==> {
                let f = feed(old(self).string_buffer@, s@);
                &&& !final(self).stopped
                &&& final(self).string_buffer@ == f.0
                &&& r matches Some(c) ==> f.1 == Some(c@)
                &&& r is None ==> f.1 is None
            }),
    {
        if self.stopped {
            return None;
        }
        match input {
            Some(s) => self.push_str(s),
            None => self.return_string_buffer(),
        }
    }
}

} // verus!
